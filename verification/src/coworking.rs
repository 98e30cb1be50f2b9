use vstd::prelude::*;

use crate::errors::ProdError;
use crate::forms::{CreateCoworkingForm, UpdateCoworkingForm};
use crate::geometry::{absolute_cells, all_in_bounds, cell_fits, cell_in_bounds, cells_of};
use crate::jwt::models::Claims;
use crate::models::{clone_space, CoworkingSpacesModel, RoleModel};
use crate::placement::space_resolves;
use crate::store::{placed_cells, table_extends, Store};

verus! {

/// The grid bounds a space may be created or resized to.
pub open spec fn dimension_ok(d: i32) -> bool {
    1 <= d <= 100
}

/// The caller's company has a building with this id.
pub open spec fn building_resolves(s: Store, company_id: u64, building_id: u64) -> bool {
    exists|k: int|
        0 <= k < s.buildings@.len() && (#[trigger] s.buildings@[k]).id == building_id
            && s.buildings@[k].company_id == company_id
}

/// All tables but the spaces hold the same rows in both stores.
pub open spec fn same_except_spaces(a: Store, b: Store) -> bool {
    &&& a.companies@ == b.companies@
    &&& a.buildings@ == b.buildings@
    &&& a.item_types@ == b.item_types@
    &&& a.items@ == b.items@
    &&& a.bookings@ == b.bookings@
    &&& a.users@ == b.users@
    &&& a.pending@ == b.pending@
}

/// Creates a coworking space under one of the caller's buildings.
pub fn create_coworking(
    store: &mut Store,
    claims: &Claims,
    building_id: u64,
    form: &CreateCoworkingForm,
) -> (r: Result<CoworkingSpacesModel, ProdError>)
    requires
        old(store).wf(),
        old(store).next_id < u64::MAX,
    ensures
        final(store).wf(),
        r is Err ==> *final(store) == *old(store),
        r is Ok <==> claims.role == RoleModel::Admin && dimension_ok(form.height) && dimension_ok(
            form.width,
        ) && building_resolves(*old(store), claims.company_id, building_id),
        claims.role != RoleModel::Admin ==> (r matches Err(e) && e matches ProdError::Forbidden(m)
            && m@ == "You are not an admin"@),
        claims.role == RoleModel::Admin && !(dimension_ok(form.height) && dimension_ok(form.width))
            ==> (r matches Err(e) && e matches ProdError::InvalidRequest(m) && m@
            == "Wrong request"@),
        claims.role == RoleModel::Admin && dimension_ok(form.height) && dimension_ok(form.width)
            && !building_resolves(*old(store), claims.company_id, building_id) ==> (r matches Err(
        e) && e matches ProdError::NotFound(m) && m@ == "No such building"@),
        r matches Ok(sp) ==> sp.id == old(store).next_id && sp.address@ == form.address@
            && sp.height == form.height as i64 && sp.width == form.width as i64 && sp.building_id
            == building_id && sp.company_id == claims.company_id && final(store).spaces@ == old(
            store,
        ).spaces@.push(sp) && final(store).next_id == old(store).next_id + 1
            && same_except_spaces(*final(store), *old(store)),
{
    if !matches!(claims.role, RoleModel::Admin) {
        return Err(ProdError::Forbidden("You are not an admin".to_owned()));
    }
    if !(1 <= form.height && form.height <= 100 && 1 <= form.width && form.width <= 100) {
        return Err(ProdError::InvalidRequest("Wrong request".to_owned()));
    }
    let b_idx = match store.find_building(claims.company_id, building_id) {
        Some(i) => i,
        None => {
            return Err(ProdError::NotFound("No such building".to_owned()));
        },
    };
    let sp = CoworkingSpacesModel {
        id: store.next_id,
        address: form.address.clone(),
        height: form.height as i64,
        width: form.width as i64,
        building_id,
        company_id: claims.company_id,
    };
    let returned = clone_space(&sp);
    store.spaces.push(sp);
    store.next_id = store.next_id + 1;
    proof {
        let olds = *old(store);
        let news = *store;
        let n = olds.spaces@.len() as int;
        assert(news.spaces@ == olds.spaces@.push(returned));
        assert forall|i: int| 0 <= i < news.spaces@.len() implies (#[trigger] news.spaces@[i]).id
            < news.next_id && news.spaces@[i].width >= 1 && news.spaces@[i].height >= 1 by {
            if i < n {
                assert(news.spaces@[i] == olds.spaces@[i]);
            }
        }
        assert forall|i: int, j: int|
            0 <= i < j < news.spaces@.len() implies (#[trigger] news.spaces@[i]).id != (
        #[trigger] news.spaces@[j]).id by {
            if j < n {
                assert(news.spaces@[i] == olds.spaces@[i]);
                assert(news.spaces@[j] == olds.spaces@[j]);
            } else {
                assert(news.spaces@[i] == olds.spaces@[i]);
                assert(olds.spaces@[i].id < olds.next_id);
            }
        }
        assert(news.spaces_wf()) by {
            assert forall|i: int| 0 <= i < news.spaces@.len() implies #[trigger] news.space_building_resolves(
                i,
            ) by {
                if i < n {
                    assert(olds.space_building_resolves(i));
                    assert(news.spaces@[i] == olds.spaces@[i]);
                    let k0 = choose|k: int|
                        0 <= k < olds.buildings@.len() && (#[trigger] olds.buildings@[k]).id
                            == olds.spaces@[i].building_id && olds.buildings@[k].company_id
                            == olds.spaces@[i].company_id;
                    assert(news.buildings@[k0].id == news.spaces@[i].building_id);
                    assert(news.buildings@[k0].company_id == news.spaces@[i].company_id);
                } else {
                    assert(news.spaces@[i] == returned);
                    assert(news.buildings@[b_idx as int].id == returned.building_id);
                    assert(news.buildings@[b_idx as int].company_id == returned.company_id);
                }
            }
        }
        assert(table_extends(news.spaces@, olds.spaces@));
        crate::store::lemma_companies_wf_from(olds, news);
        crate::store::lemma_buildings_wf_from(olds, news);
        crate::store::lemma_item_types_wf_from(olds, news);
        crate::store::lemma_items_wf_from(olds, news);
        crate::store::lemma_geometry_wf_from(olds, news);
        crate::store::lemma_bookings_wf_from(olds, news);
        crate::store::lemma_users_wf_from(olds, news);
        crate::store::lemma_pending_wf_from(olds, news);
    }
    Ok(returned)
}

/// One coworking space of the caller's tenant, by building and id.
pub fn get_coworking_by_id(
    store: &Store,
    claims: &Claims,
    building_id: u64,
    coworking_id: u64,
) -> (r: Result<CoworkingSpacesModel, ProdError>)
    requires
        store.wf(),
    ensures
        r is Ok <==> space_resolves(*store, claims.company_id, building_id, coworking_id),
        r matches Ok(sp) ==> sp.company_id == claims.company_id && sp.id == coworking_id
            && sp.building_id == building_id && exists|k: int|
            0 <= k < store.spaces@.len() && #[trigger] store.spaces@[k] == sp,
        r matches Err(e) ==> e matches ProdError::NotFound(m) && m@ == "No such coworking"@,
{
    match store.find_space(claims.company_id, building_id, coworking_id) {
        Some(i) => {
            let sp = clone_space(&store.spaces[i]);
            proof {
                assert(store.spaces@[i as int] == sp);
            }
            Ok(sp)
        },
        None => Err(ProdError::NotFound("No such coworking".to_owned())),
    }
}

/// `sp` is one of the store's space rows.
pub open spec fn space_row_in(s: Store, sp: CoworkingSpacesModel) -> bool {
    exists|i: int| 0 <= i < s.spaces@.len() && sp == #[trigger] s.spaces@[i]
}

/// `sp` occurs in the listing `v`.
pub open spec fn space_listed(v: Seq<CoworkingSpacesModel>, sp: CoworkingSpacesModel) -> bool {
    exists|p: int| 0 <= p < v.len() && #[trigger] v[p] == sp
}

/// Every coworking space of the caller's tenant.
#[verifier::loop_isolation(false)]
pub fn list_coworkings(store: &Store, claims: &Claims) -> (r: Vec<CoworkingSpacesModel>)
    requires
        store.wf(),
    ensures
        forall|k: int|
            0 <= k < r@.len() ==> space_row_in(*store, #[trigger] r@[k]) && r@[k].company_id
                == claims.company_id,
        forall|i: int|
            0 <= i < store.spaces@.len() && (#[trigger] store.spaces@[i]).company_id
                == claims.company_id ==> space_listed(r@, store.spaces@[i]),
{
    let mut out: Vec<CoworkingSpacesModel> = Vec::new();
    let mut k: usize = 0;
    while k < store.spaces.len()
        invariant
            0 <= k <= store.spaces@.len(),
            forall|p: int|
                0 <= p < out@.len() ==> space_row_in(*store, #[trigger] out@[p])
                    && out@[p].company_id == claims.company_id,
            forall|i: int|
                0 <= i < k && (#[trigger] store.spaces@[i]).company_id == claims.company_id
                    ==> space_listed(out@, store.spaces@[i]),
        decreases store.spaces@.len() - k,
    {
        if store.spaces[k].company_id == claims.company_id {
            let ghost prev = out@;
            let row = clone_space(&store.spaces[k]);
            out.push(row);
            proof {
                assert(out@[prev.len() as int] == store.spaces@[k as int]);
                assert forall|p: int| 0 <= p < out@.len() implies space_row_in(
                    *store,
                    #[trigger] out@[p],
                ) && out@[p].company_id == claims.company_id by {
                    if p < prev.len() {
                        assert(out@[p] == prev[p]);
                        assert(space_row_in(*store, prev[p]));
                    } else {
                        assert(out@[p] == store.spaces@[k as int]);
                    }
                }
                assert forall|i: int|
                    0 <= i <= k as int && (#[trigger] store.spaces@[i]).company_id
                        == claims.company_id implies space_listed(out@, store.spaces@[i]) by {
                    if i < k as int {
                        assert(space_listed(prev, store.spaces@[i]));
                        let p0 = choose|p: int| 0 <= p < prev.len() && #[trigger] prev[p]
                            == store.spaces@[i];
                        assert(out@[p0] == store.spaces@[i]);
                    } else {
                        assert(out@[out@.len() - 1] == store.spaces@[i]);
                    }
                }
            }
        }
        k = k + 1;
    }
    out
}

/// Every coworking space of the caller's tenant in one building.
#[verifier::loop_isolation(false)]
pub fn list_coworkings_by_building(store: &Store, claims: &Claims, building_id: u64) -> (r: Vec<
    CoworkingSpacesModel,
>)
    requires
        store.wf(),
    ensures
        forall|k: int|
            0 <= k < r@.len() ==> space_row_in(*store, #[trigger] r@[k]) && r@[k].company_id
                == claims.company_id && r@[k].building_id == building_id,
        forall|i: int|
            0 <= i < store.spaces@.len() && (#[trigger] store.spaces@[i]).company_id
                == claims.company_id && store.spaces@[i].building_id == building_id
                ==> space_listed(r@, store.spaces@[i]),
{
    let mut out: Vec<CoworkingSpacesModel> = Vec::new();
    let mut k: usize = 0;
    while k < store.spaces.len()
        invariant
            0 <= k <= store.spaces@.len(),
            forall|p: int|
                0 <= p < out@.len() ==> space_row_in(*store, #[trigger] out@[p])
                    && out@[p].company_id == claims.company_id && out@[p].building_id
                    == building_id,
            forall|i: int|
                0 <= i < k && (#[trigger] store.spaces@[i]).company_id == claims.company_id
                    && store.spaces@[i].building_id == building_id ==> space_listed(
                    out@,
                    store.spaces@[i],
                ),
        decreases store.spaces@.len() - k,
    {
        if store.spaces[k].company_id == claims.company_id && store.spaces[k].building_id
            == building_id {
            let ghost prev = out@;
            let row = clone_space(&store.spaces[k]);
            out.push(row);
            proof {
                assert(out@[prev.len() as int] == store.spaces@[k as int]);
                assert forall|p: int| 0 <= p < out@.len() implies space_row_in(
                    *store,
                    #[trigger] out@[p],
                ) && out@[p].company_id == claims.company_id && out@[p].building_id
                    == building_id by {
                    if p < prev.len() {
                        assert(out@[p] == prev[p]);
                        assert(space_row_in(*store, prev[p]));
                    } else {
                        assert(out@[p] == store.spaces@[k as int]);
                    }
                }
                assert forall|i: int|
                    0 <= i <= k as int && (#[trigger] store.spaces@[i]).company_id
                        == claims.company_id && store.spaces@[i].building_id == building_id implies space_listed(
                    out@,
                    store.spaces@[i],
                ) by {
                    if i < k as int {
                        assert(space_listed(prev, store.spaces@[i]));
                        let p0 = choose|p: int| 0 <= p < prev.len() && #[trigger] prev[p]
                            == store.spaces@[i];
                        assert(out@[p0] == store.spaces@[i]);
                    } else {
                        assert(out@[out@.len() - 1] == store.spaces@[i]);
                    }
                }
            }
        }
        k = k + 1;
    }
    out
}

/// Some placed item of this space would fall off a `new_w` x `new_h`
/// grid.
pub open spec fn resize_blocked(s: Store, space_id: u64, new_w: int, new_h: int) -> bool {
    exists|ii: int, ti: int|
        #![trigger s.items@[ii], s.item_types@[ti]]
        0 <= ii < s.items@.len() && s.items@[ii].coworking_id == space_id && 0 <= ti
            < s.item_types@.len() && s.item_types@[ti].id == s.items@[ii].item_id
            && !all_in_bounds(placed_cells(s.items@[ii], s.item_types@[ti]), new_w, new_h)
}

/// The space with the patch's present fields substituted.
pub open spec fn apply_space_patch(
    sp: CoworkingSpacesModel,
    form: UpdateCoworkingForm,
) -> CoworkingSpacesModel {
    CoworkingSpacesModel {
        id: sp.id,
        address: match form.address {
            Some(a) => a,
            None => sp.address,
        },
        height: match form.height {
            Some(h) => h as i64,
            None => sp.height,
        },
        width: match form.width {
            Some(w) => w as i64,
            None => sp.width,
        },
        building_id: sp.building_id,
        company_id: sp.company_id,
    }
}

/// The patch's present dimensions lie in the accepted range.
pub open spec fn update_form_ok(form: UpdateCoworkingForm) -> bool {
    &&& (form.height matches Some(h) ==> dimension_ok(h))
    &&& (form.width matches Some(w) ==> dimension_ok(w))
}

/// Updating one space in place preserves every invariant, provided the
/// identity, building and tenant stay, the dimensions stay positive, and
/// every item of the space fits the new grid.
proof fn lemma_resize_space_wf(a: Store, b: Store, idx: int, ns: CoworkingSpacesModel)
    requires
        a.wf(),
        0 <= idx < a.spaces@.len(),
        ns.id == a.spaces@[idx].id,
        ns.building_id == a.spaces@[idx].building_id,
        ns.company_id == a.spaces@[idx].company_id,
        ns.width >= 1,
        ns.height >= 1,
        b.spaces@ == a.spaces@.update(idx, ns),
        same_except_spaces(b, a),
        b.next_id == a.next_id,
        forall|ii: int, ti: int|
            #![trigger a.items@[ii], a.item_types@[ti]]
            0 <= ii < a.items@.len() && a.items@[ii].coworking_id == ns.id && 0 <= ti
                < a.item_types@.len() && a.item_types@[ti].id == a.items@[ii].item_id
                ==> all_in_bounds(
                placed_cells(a.items@[ii], a.item_types@[ti]),
                ns.width as int,
                ns.height as int,
            ),
    ensures
        b.wf(),
{
    assert forall|i: int| 0 <= i < b.spaces@.len() && i != idx implies #[trigger] b.spaces@[i]
        == a.spaces@[i] by {}
    assert(b.spaces@[idx] == ns);
    assert(b.spaces_wf()) by {
        assert forall|i: int| 0 <= i < b.spaces@.len() implies (#[trigger] b.spaces@[i]).id
            < b.next_id && b.spaces@[i].width >= 1 && b.spaces@[i].height >= 1 by {
            if i != idx {
                assert(b.spaces@[i] == a.spaces@[i]);
            } else {
                assert(a.spaces@[idx].id < a.next_id);
            }
        }
        assert forall|i: int, j: int|
            0 <= i < j < b.spaces@.len() implies (#[trigger] b.spaces@[i]).id != (
        #[trigger] b.spaces@[j]).id by {
            assert(a.spaces@[i].id != a.spaces@[j].id);
            if i == idx {
                assert(b.spaces@[i].id == a.spaces@[i].id);
            }
            if j == idx {
                assert(b.spaces@[j].id == a.spaces@[j].id);
            }
        }
        assert forall|i: int| 0 <= i < b.spaces@.len() implies #[trigger] b.space_building_resolves(
            i,
        ) by {
            assert(a.space_building_resolves(i));
            let sp0 = a.spaces@[i];
            let k0 = choose|k: int|
                0 <= k < a.buildings@.len() && (#[trigger] a.buildings@[k]).id == sp0.building_id
                    && a.buildings@[k].company_id == sp0.company_id;
            assert(b.buildings@[k0].id == b.spaces@[i].building_id);
            assert(b.buildings@[k0].company_id == b.spaces@[i].company_id);
        }
    }
    assert(b.items_wf()) by {
        assert forall|i: int| 0 <= i < b.items@.len() implies #[trigger] b.item_space_resolves(
            i,
        ) by {
            assert(a.item_space_resolves(i));
            let k0 = choose|k: int|
                0 <= k < a.spaces@.len() && (#[trigger] a.spaces@[k]).id
                    == a.items@[i].coworking_id;
            assert(b.spaces@[k0].id == b.items@[i].coworking_id);
        }
        assert forall|i: int| 0 <= i < b.items@.len() implies #[trigger] b.item_type_resolves(
            i,
        ) by {
            assert(a.item_type_resolves(i));
            let k0 = choose|k: int|
                0 <= k < a.item_types@.len() && (#[trigger] a.item_types@[k]).id
                    == a.items@[i].item_id;
            assert(b.item_types@[k0].id == b.items@[i].item_id);
        }
        assert forall|ii: int, si: int, ti: int|
            0 <= ii < b.items@.len() && 0 <= si < b.spaces@.len() && 0 <= ti
                < b.item_types@.len() && (#[trigger] b.items@[ii]).coworking_id == (
            #[trigger] b.spaces@[si]).id && b.items@[ii].item_id == (
            #[trigger] b.item_types@[ti]).id implies b.item_types@[ti].company_id
            == b.spaces@[si].company_id by {
            if si != idx {
                assert(b.spaces@[si] == a.spaces@[si]);
            } else {
                assert(b.spaces@[si].id == a.spaces@[si].id);
                assert(b.spaces@[si].company_id == a.spaces@[si].company_id);
            }
        }
    }
    assert(b.geometry_wf()) by {
        assert forall|ii: int, si: int, ti: int|
            0 <= ii < b.items@.len() && 0 <= si < b.spaces@.len() && 0 <= ti
                < b.item_types@.len() && (#[trigger] b.items@[ii]).coworking_id == (
            #[trigger] b.spaces@[si]).id && b.items@[ii].item_id == (
            #[trigger] b.item_types@[ti]).id implies all_in_bounds(
            placed_cells(b.items@[ii], b.item_types@[ti]),
            b.spaces@[si].width as int,
            b.spaces@[si].height as int,
        ) by {
            if si != idx {
                assert(b.spaces@[si] == a.spaces@[si]);
            } else {
                assert(b.spaces@[si] == ns);
                assert(a.items@[ii].coworking_id == ns.id);
            }
        }
        assert forall|ii: int, jj: int, ti: int, tj: int|
            0 <= ii < b.items@.len() && 0 <= jj < b.items@.len() && ii != jj && 0 <= ti
                < b.item_types@.len() && 0 <= tj < b.item_types@.len() && (
            #[trigger] b.items@[ii]).coworking_id == (#[trigger] b.items@[jj]).coworking_id
                && b.items@[ii].item_id == (#[trigger] b.item_types@[ti]).id
                && b.items@[jj].item_id == (#[trigger] b.item_types@[tj]).id implies crate::geometry::cells_disjoint(
            placed_cells(b.items@[ii], b.item_types@[ti]),
            placed_cells(b.items@[jj], b.item_types@[tj]),
        ) by {}
    }
    assert(b.bookings_wf()) by {
        assert forall|i: int| 0 <= i < b.bookings@.len() implies #[trigger] b.booking_user_resolves(
            i,
        ) by {
            assert(a.booking_user_resolves(i));
            let k0 = choose|k: int|
                0 <= k < a.users@.len() && (#[trigger] a.users@[k]).id == a.bookings@[i].user_id
                    && a.users@[k].company_id == a.bookings@[i].company_id;
            assert(b.users@[k0].id == b.bookings@[i].user_id);
            assert(b.users@[k0].company_id == b.bookings@[i].company_id);
        }
        assert forall|i: int| 0 <= i < b.bookings@.len() implies #[trigger] b.booking_space_resolves(
            i,
        ) by {
            assert(a.booking_space_resolves(i));
            let k0 = choose|k: int|
                0 <= k < a.spaces@.len() && (#[trigger] a.spaces@[k]).id
                    == a.bookings@[i].coworking_space_id && a.spaces@[k].company_id
                    == a.bookings@[i].company_id;
            if k0 == idx {
                assert(b.spaces@[k0].id == a.spaces@[k0].id);
                assert(b.spaces@[k0].company_id == a.spaces@[k0].company_id);
            } else {
                assert(b.spaces@[k0] == a.spaces@[k0]);
            }
        }
        assert forall|i: int| 0 <= i < b.bookings@.len() implies #[trigger] b.booking_item_resolves(
            i,
        ) by {
            assert(a.booking_item_resolves(i));
            let k0 = choose|k: int|
                0 <= k < a.items@.len() && (#[trigger] a.items@[k]).id
                    == a.bookings@[i].coworking_item_id && a.items@[k].coworking_id
                    == a.bookings@[i].coworking_space_id;
            assert(b.items@[k0].id == b.bookings@[i].coworking_item_id);
        }
    }
    crate::store::lemma_companies_wf_from(a, b);
    crate::store::lemma_buildings_wf_from(a, b);
    crate::store::lemma_item_types_wf_from(a, b);
    crate::store::lemma_users_wf_from(a, b);
    crate::store::lemma_pending_wf_from(a, b);
}

/// Resizes or relabels a coworking space. Shrinking is rejected with a
/// `Conflict` whenever any placed item would fall off the new grid;
/// growing is always permitted.
#[verifier::loop_isolation(false)]
#[verifier::rlimit(60)]
pub fn patch_coworking(
    store: &mut Store,
    claims: &Claims,
    building_id: u64,
    coworking_id: u64,
    form: UpdateCoworkingForm,
) -> (r: Result<CoworkingSpacesModel, ProdError>)
    requires
        old(store).wf(),
    ensures
        final(store).wf(),
        r is Err ==> *final(store) == *old(store),
        claims.role != RoleModel::Admin ==> (r matches Err(e) && e matches ProdError::Forbidden(m)
            && m@ == "You are not an admin"@),
        claims.role == RoleModel::Admin && !update_form_ok(form) ==> (r matches Err(e) && e
            matches ProdError::InvalidRequest(m) && m@ == "Wrong request"@),
        claims.role == RoleModel::Admin && update_form_ok(form) && !space_resolves(
            *old(store),
            claims.company_id,
            building_id,
            coworking_id,
        ) ==> (r matches Err(e) && e matches ProdError::NotFound(m) && m@
            == "No such coworking or building exists"@),
        forall|i: int|
            0 <= i < old(store).spaces@.len() && (#[trigger] old(store).spaces@[i]).id
                == coworking_id && old(store).spaces@[i].building_id == building_id && old(
                store,
            ).spaces@[i].company_id == claims.company_id && claims.role == RoleModel::Admin
                && update_form_ok(form) ==> (patch_space_outcome(
                *old(store),
                *final(store),
                i,
                apply_space_patch(old(store).spaces@[i], form),
                r,
            )),
{
    if !matches!(claims.role, RoleModel::Admin) {
        return Err(ProdError::Forbidden("You are not an admin".to_owned()));
    }
    let height_ok = match form.height {
        Some(h) => 1 <= h && h <= 100,
        None => true,
    };
    let width_ok = match form.width {
        Some(w) => 1 <= w && w <= 100,
        None => true,
    };
    if !height_ok || !width_ok {
        return Err(ProdError::InvalidRequest("Wrong request".to_owned()));
    }
    let idx = match store.find_space(claims.company_id, building_id, coworking_id) {
        Some(i) => i,
        None => {
            return Err(ProdError::NotFound("No such coworking or building exists".to_owned()));
        },
    };
    proof {
        assert forall|k: int|
            0 <= k < store.spaces@.len() && (#[trigger] store.spaces@[k]).id == coworking_id implies k
            == idx as int by {
            if k != idx as int {
                assert(store.spaces@[k].id != store.spaces@[idx as int].id);
            }
        }
    }
    let new_h: i64 = match form.height {
        Some(h) => h as i64,
        None => store.spaces[idx].height,
    };
    let new_w: i64 = match form.width {
        Some(w) => w as i64,
        None => store.spaces[idx].width,
    };
    // recompute the absolute cells of every item of this space and check
    // them against the new grid
    let mut k: usize = 0;
    while k < store.items.len()
        invariant
            0 <= k <= store.items@.len(),
            forall|ii: int, ti: int|
                #![trigger store.items@[ii], store.item_types@[ti]]
                0 <= ii < k && store.items@[ii].coworking_id == coworking_id && 0 <= ti
                    < store.item_types@.len() && store.item_types@[ti].id
                    == store.items@[ii].item_id ==> all_in_bounds(
                    placed_cells(store.items@[ii], store.item_types@[ti]),
                    new_w as int,
                    new_h as int,
                ),
        decreases store.items@.len() - k,
    {
        if store.items[k].coworking_id == coworking_id {
            let ty = match store.find_item_type(store.items[k].item_id) {
                Some(t) => t,
                None => {
                    proof {
                        assert(store.item_type_resolves(k as int));
                        let w = choose|t: int|
                            0 <= t < store.item_types@.len() && (#[trigger] store.item_types@[t]).id
                                == store.items@[k as int].item_id;
                        assert(false);
                    }
                    return Err(ProdError::NotFound("No such item type exists".to_owned()));
                },
            };
            proof {
                assert(all_in_bounds(
                    placed_cells(store.items@[k as int], store.item_types@[ty as int]),
                    store.spaces@[idx as int].width as int,
                    store.spaces@[idx as int].height as int,
                ));
                assert forall|o: int|
                    0 <= o < store.item_types@[ty as int].offsets@.len() implies cell_fits(
                    store.items@[k as int].base_point,
                    #[trigger] store.item_types@[ty as int].offsets@[o],
                ) by {
                    assert(cell_in_bounds(
                        placed_cells(store.items@[k as int], store.item_types@[ty as int])[o],
                        store.spaces@[idx as int].width as int,
                        store.spaces@[idx as int].height as int,
                    ));
                }
            }
            let cells = match absolute_cells(
                store.items[k].base_point,
                &store.item_types[ty].offsets,
            ) {
                Some(v) => v,
                None => {
                    proof {
                        assert(false);
                    }
                    return Err(ProdError::NotFound("No such item type exists".to_owned()));
                },
            };
            let mut c: usize = 0;
            while c < cells.len()
                invariant
                    0 <= c <= cells@.len(),
                    forall|o: int|
                        0 <= o < c ==> cell_in_bounds(
                            #[trigger] cells_of(cells@)[o],
                            new_w as int,
                            new_h as int,
                        ),
                decreases cells@.len() - c,
            {
                let pt = cells[c];
                if pt.y >= new_h {
                    proof {
                        assert(cells_of(cells@)[c as int] == (pt.x as int, pt.y as int));
                        assert(!cell_in_bounds(
                            placed_cells(store.items@[k as int], store.item_types@[ty as int])[
                                c as int],
                            new_w as int,
                            new_h as int,
                        ));
                        assert(resize_blocked(*store, coworking_id, new_w as int, new_h as int));
                    }
                    return Err(
                        ProdError::Conflict(
                            "New height makes some items inaccessible. Delete those objects first.".to_owned(),
                        ),
                    );
                }
                if pt.x >= new_w {
                    proof {
                        assert(cells_of(cells@)[c as int] == (pt.x as int, pt.y as int));
                        assert(!cell_in_bounds(
                            placed_cells(store.items@[k as int], store.item_types@[ty as int])[
                                c as int],
                            new_w as int,
                            new_h as int,
                        ));
                        assert(resize_blocked(*store, coworking_id, new_w as int, new_h as int));
                    }
                    return Err(
                        ProdError::Conflict(
                            "New width makes some items inaccessible. Delete those objects first.".to_owned(),
                        ),
                    );
                }
                proof {
                    assert(cells_of(cells@)[c as int] == (pt.x as int, pt.y as int));
                    assert(cell_in_bounds(
                        placed_cells(store.items@[k as int], store.item_types@[ty as int])[
                            c as int],
                        store.spaces@[idx as int].width as int,
                        store.spaces@[idx as int].height as int,
                    ));
                }
                c = c + 1;
            }
            proof {
                assert forall|tj: int|
                    0 <= tj < store.item_types@.len() && (#[trigger] store.item_types@[tj]).id
                        == store.items@[k as int].item_id implies tj == ty as int by {
                    if tj != ty as int {
                        assert(store.item_types@[tj].id != store.item_types@[ty as int].id);
                    }
                }
            }
        }
        k = k + 1;
    }
    let old_space = &store.spaces[idx];
    let ns = CoworkingSpacesModel {
        id: old_space.id,
        address: match &form.address {
            Some(a) => a.clone(),
            None => old_space.address.clone(),
        },
        height: new_h,
        width: new_w,
        building_id: old_space.building_id,
        company_id: old_space.company_id,
    };
    let returned = clone_space(&ns);
    store.spaces[idx] = ns;
    proof {
        lemma_resize_space_wf(*old(store), *store, idx as int, returned);
    }
    Ok(returned)
}

/// What `patch_coworking` guarantees once the space at index `i` is the
/// one addressed: the resize is rejected exactly when some item would
/// fall off the new grid, and otherwise the space is updated in place.
pub open spec fn patch_space_outcome(
    pre: Store,
    post: Store,
    i: int,
    ns: CoworkingSpacesModel,
    r: Result<CoworkingSpacesModel, ProdError>,
) -> bool {
    &&& resize_blocked(pre, ns.id, ns.width as int, ns.height as int) ==> (r matches Err(e) && e
        matches ProdError::Conflict(m) && (m@
        == "New height makes some items inaccessible. Delete those objects first."@ || m@
        == "New width makes some items inaccessible. Delete those objects first."@))
    &&& !resize_blocked(pre, ns.id, ns.width as int, ns.height as int) ==> (r == Ok::<
        CoworkingSpacesModel,
        ProdError,
    >(ns) && post.spaces@ == pre.spaces@.update(i, ns) && same_except_spaces(post, pre)
        && post.next_id == pre.next_id)
}


/// Deleting one space, with every item placed in it and every booking of
/// those items, preserves the store invariants.
#[verifier::rlimit(80)]
proof fn lemma_delete_space_wf(
    olds: Store,
    news: Store,
    space_idx: int,
    space_id: u64,
    kept: Seq<crate::models::CoworkingItemsModel>,
    kept_b: Seq<crate::models::BookingModel>,
)
    requires
        olds.wf(),
        0 <= space_idx < olds.spaces@.len(),
        olds.spaces@[space_idx].id == space_id,
        news.spaces@ == olds.spaces@.remove(space_idx),
        news.items@ == kept,
        forall|q: int|
            0 <= q < kept.len() ==> crate::placement::item_row_in(olds, #[trigger] kept[q])
                && kept[q].coworking_id != space_id,
        forall|q1: int, q2: int|
            0 <= q1 < q2 < kept.len() ==> (#[trigger] kept[q1]).id != (#[trigger] kept[q2]).id,
        forall|j: int|
            0 <= j < olds.items@.len() && (#[trigger] olds.items@[j]).coworking_id != space_id
                ==> crate::placement::item_listed(kept, olds.items@[j]),
        news.bookings@ == kept_b,
        forall|q: int|
            0 <= q < kept_b.len() ==> crate::booking::booking_row_in(olds, #[trigger] kept_b[q])
                && kept_b[q].coworking_space_id != space_id,
        forall|q1: int, q2: int|
            0 <= q1 < q2 < kept_b.len() ==> (#[trigger] kept_b[q1]).id != (
            #[trigger] kept_b[q2]).id,
        news.next_id == olds.next_id,
        news.companies@ == olds.companies@,
        news.buildings@ == olds.buildings@,
        news.item_types@ == olds.item_types@,
        news.users@ == olds.users@,
        news.pending@ == olds.pending@,
    ensures
        news.wf(),
{
    olds.spaces@.remove_ensures(space_idx);
    assert forall|i: int| 0 <= i < news.spaces@.len() implies #[trigger] news.spaces@[i]
        == olds.spaces@[crate::booking::shift_past(i, space_idx)] by {}
    assert forall|k: int|
        0 <= k < olds.spaces@.len() && (#[trigger] olds.spaces@[k]).id == space_id implies k
        == space_idx by {
        if k != space_idx {
            assert(olds.spaces@[k].id != olds.spaces@[space_idx].id);
        }
    }
    assert(news.spaces_wf()) by {
        assert forall|i: int| 0 <= i < news.spaces@.len() implies (#[trigger] news.spaces@[i]).id
            < news.next_id && news.spaces@[i].width >= 1 && news.spaces@[i].height >= 1 by {
            assert(news.spaces@[i] == olds.spaces@[crate::booking::shift_past(i, space_idx)]);
        }
        assert forall|i: int, j: int|
            0 <= i < j < news.spaces@.len() implies (#[trigger] news.spaces@[i]).id != (
        #[trigger] news.spaces@[j]).id by {
            assert(news.spaces@[i] == olds.spaces@[crate::booking::shift_past(i, space_idx)]);
            assert(news.spaces@[j] == olds.spaces@[crate::booking::shift_past(j, space_idx)]);
            assert(crate::booking::shift_past(i, space_idx) < crate::booking::shift_past(
                j,
                space_idx,
            ));
        }
        assert forall|i: int| 0 <= i < news.spaces@.len() implies #[trigger] news.space_building_resolves(
            i,
        ) by {
            let si = crate::booking::shift_past(i, space_idx);
            assert(news.spaces@[i] == olds.spaces@[si]);
            assert(olds.space_building_resolves(si));
            let k0 = choose|k: int|
                0 <= k < olds.buildings@.len() && (#[trigger] olds.buildings@[k]).id
                    == olds.spaces@[si].building_id && olds.buildings@[k].company_id
                    == olds.spaces@[si].company_id;
            assert(news.buildings@[k0].id == news.spaces@[i].building_id);
            assert(news.buildings@[k0].company_id == news.spaces@[i].company_id);
        }
    }
    assert forall|q: int| 0 <= q < kept.len() implies (#[trigger] kept[q]).id < olds.next_id by {
        assert(crate::placement::item_row_in(olds, kept[q]));
        let j = choose|j: int| 0 <= j < olds.items@.len() && kept[q] == #[trigger] olds.items@[j];
        assert(olds.items@[j].id < olds.next_id);
    }
    assert(news.items_wf()) by {
        assert forall|i: int| 0 <= i < news.items@.len() implies #[trigger] news.item_space_resolves(
            i,
        ) by {
            let j = choose|j: int|
                0 <= j < olds.items@.len() && kept[i] == #[trigger] olds.items@[j];
            assert(olds.item_space_resolves(j));
            let w = choose|w: int|
                0 <= w < olds.spaces@.len() && (#[trigger] olds.spaces@[w]).id
                    == olds.items@[j].coworking_id;
            assert(w != space_idx);
            let w2 = if w < space_idx {
                w
            } else {
                w - 1
            };
            assert(news.spaces@[w2] == olds.spaces@[w]);
            assert(news.spaces@[w2].id == news.items@[i].coworking_id);
        }
        assert forall|i: int| 0 <= i < news.items@.len() implies #[trigger] news.item_type_resolves(
            i,
        ) by {
            let j = choose|j: int|
                0 <= j < olds.items@.len() && kept[i] == #[trigger] olds.items@[j];
            assert(olds.item_type_resolves(j));
            let w = choose|w: int|
                0 <= w < olds.item_types@.len() && (#[trigger] olds.item_types@[w]).id
                    == olds.items@[j].item_id;
            assert(news.item_types@[w].id == news.items@[i].item_id);
        }
        assert forall|ii: int, si: int, ti: int|
            0 <= ii < news.items@.len() && 0 <= si < news.spaces@.len() && 0 <= ti
                < news.item_types@.len() && (#[trigger] news.items@[ii]).coworking_id == (
            #[trigger] news.spaces@[si]).id && news.items@[ii].item_id == (
            #[trigger] news.item_types@[ti]).id implies news.item_types@[ti].company_id
            == news.spaces@[si].company_id by {
            let j = choose|j: int|
                0 <= j < olds.items@.len() && kept[ii] == #[trigger] olds.items@[j];
            let so = crate::booking::shift_past(si, space_idx);
            assert(news.spaces@[si] == olds.spaces@[so]);
            assert(news.item_types@[ti] == olds.item_types@[ti]);
            assert(olds.items@[j].coworking_id == olds.spaces@[so].id);
            assert(olds.items@[j].item_id == olds.item_types@[ti].id);
        }
    }
    assert(news.geometry_wf()) by {
        assert forall|ii: int, si: int, ti: int|
            0 <= ii < news.items@.len() && 0 <= si < news.spaces@.len() && 0 <= ti
                < news.item_types@.len() && (#[trigger] news.items@[ii]).coworking_id == (
            #[trigger] news.spaces@[si]).id && news.items@[ii].item_id == (
            #[trigger] news.item_types@[ti]).id implies crate::geometry::all_in_bounds(
            crate::store::placed_cells(news.items@[ii], news.item_types@[ti]),
            news.spaces@[si].width as int,
            news.spaces@[si].height as int,
        ) by {
            let j = choose|j: int|
                0 <= j < olds.items@.len() && kept[ii] == #[trigger] olds.items@[j];
            let so = crate::booking::shift_past(si, space_idx);
            assert(news.spaces@[si] == olds.spaces@[so]);
            assert(news.item_types@[ti] == olds.item_types@[ti]);
            assert(crate::geometry::all_in_bounds(
                crate::store::placed_cells(olds.items@[j], olds.item_types@[ti]),
                olds.spaces@[so].width as int,
                olds.spaces@[so].height as int,
            ));
            assert(crate::store::placed_cells(news.items@[ii], news.item_types@[ti])
                == crate::store::placed_cells(olds.items@[j], olds.item_types@[ti]));
        }
        assert forall|ii: int, jj: int, ti: int, tj: int|
            0 <= ii < news.items@.len() && 0 <= jj < news.items@.len() && ii != jj && 0 <= ti
                < news.item_types@.len() && 0 <= tj < news.item_types@.len() && (
            #[trigger] news.items@[ii]).coworking_id == (#[trigger] news.items@[jj]).coworking_id
                && news.items@[ii].item_id == (#[trigger] news.item_types@[ti]).id
                && news.items@[jj].item_id == (#[trigger] news.item_types@[tj]).id implies crate::geometry::cells_disjoint(
            crate::store::placed_cells(news.items@[ii], news.item_types@[ti]),
            crate::store::placed_cells(news.items@[jj], news.item_types@[tj]),
        ) by {
            let j1 = choose|j: int|
                0 <= j < olds.items@.len() && kept[ii] == #[trigger] olds.items@[j];
            let j2 = choose|j: int|
                0 <= j < olds.items@.len() && kept[jj] == #[trigger] olds.items@[j];
            if ii < jj {
                assert(kept[ii].id != kept[jj].id);
            } else {
                assert(kept[jj].id != kept[ii].id);
            }
            assert(j1 != j2);
            assert(news.item_types@[ti] == olds.item_types@[ti]);
            assert(news.item_types@[tj] == olds.item_types@[tj]);
            assert(crate::geometry::cells_disjoint(
                crate::store::placed_cells(olds.items@[j1], olds.item_types@[ti]),
                crate::store::placed_cells(olds.items@[j2], olds.item_types@[tj]),
            ));
        }
    }
    assert(news.bookings_wf()) by {
        assert forall|i: int| 0 <= i < news.bookings@.len() implies (#[trigger] news.bookings@[i]).id
            < news.next_id && crate::store::booking_ok(news.bookings@[i]) by {
            let j = choose|j: int|
                0 <= j < olds.bookings@.len() && kept_b[i] == #[trigger] olds.bookings@[j];
            assert(olds.bookings@[j].id < olds.next_id);
        }
        assert forall|i: int, j: int|
            0 <= i < news.bookings@.len() && 0 <= j < news.bookings@.len() && i != j && (
        #[trigger] news.bookings@[i]).coworking_item_id == (
        #[trigger] news.bookings@[j]).coworking_item_id implies !crate::store::overlaps(
            news.bookings@[i],
            news.bookings@[j],
        ) by {
            let s1 = choose|w: int|
                0 <= w < olds.bookings@.len() && kept_b[i] == #[trigger] olds.bookings@[w];
            let s2 = choose|w: int|
                0 <= w < olds.bookings@.len() && kept_b[j] == #[trigger] olds.bookings@[w];
            if i < j {
                assert(kept_b[i].id != kept_b[j].id);
            } else {
                assert(kept_b[j].id != kept_b[i].id);
            }
            assert(s1 != s2);
            assert(!crate::store::overlaps(olds.bookings@[s1], olds.bookings@[s2]));
        }
        assert forall|i: int| 0 <= i < news.bookings@.len() implies #[trigger] news.booking_user_resolves(
            i,
        ) by {
            let j = choose|w: int|
                0 <= w < olds.bookings@.len() && kept_b[i] == #[trigger] olds.bookings@[w];
            assert(olds.booking_user_resolves(j));
            let k0 = choose|k: int|
                0 <= k < olds.users@.len() && (#[trigger] olds.users@[k]).id
                    == olds.bookings@[j].user_id && olds.users@[k].company_id
                    == olds.bookings@[j].company_id;
            assert(news.users@[k0].id == news.bookings@[i].user_id);
            assert(news.users@[k0].company_id == news.bookings@[i].company_id);
        }
        assert forall|i: int| 0 <= i < news.bookings@.len() implies #[trigger] news.booking_space_resolves(
            i,
        ) by {
            let j = choose|w: int|
                0 <= w < olds.bookings@.len() && kept_b[i] == #[trigger] olds.bookings@[w];
            assert(olds.booking_space_resolves(j));
            let k0 = choose|k: int|
                0 <= k < olds.spaces@.len() && (#[trigger] olds.spaces@[k]).id
                    == olds.bookings@[j].coworking_space_id && olds.spaces@[k].company_id
                    == olds.bookings@[j].company_id;
            assert(k0 != space_idx);
            let k2 = if k0 < space_idx {
                k0
            } else {
                k0 - 1
            };
            assert(news.spaces@[k2] == olds.spaces@[k0]);
            assert(news.spaces@[k2].id == news.bookings@[i].coworking_space_id);
            assert(news.spaces@[k2].company_id == news.bookings@[i].company_id);
        }
        assert forall|i: int| 0 <= i < news.bookings@.len() implies #[trigger] news.booking_item_resolves(
            i,
        ) by {
            let j = choose|w: int|
                0 <= w < olds.bookings@.len() && kept_b[i] == #[trigger] olds.bookings@[w];
            assert(olds.booking_item_resolves(j));
            let k0 = choose|k: int|
                0 <= k < olds.items@.len() && (#[trigger] olds.items@[k]).id
                    == olds.bookings@[j].coworking_item_id && olds.items@[k].coworking_id
                    == olds.bookings@[j].coworking_space_id;
            assert(olds.items@[k0].coworking_id != space_id);
            assert(crate::placement::item_listed(kept, olds.items@[k0]));
            let q0 = choose|q: int| 0 <= q < kept.len() && #[trigger] kept[q] == olds.items@[k0];
            assert(news.items@[q0].id == news.bookings@[i].coworking_item_id);
            assert(news.items@[q0].coworking_id == news.bookings@[i].coworking_space_id);
        }
    }
    crate::store::lemma_companies_wf_from(olds, news);
    crate::store::lemma_buildings_wf_from(olds, news);
    crate::store::lemma_item_types_wf_from(olds, news);
    crate::store::lemma_users_wf_from(olds, news);
    crate::store::lemma_pending_wf_from(olds, news);
}

/// Deletes one coworking space, and with it every item placed there and
/// every booking of those items, as one unit.
#[verifier::loop_isolation(false)]
#[verifier::rlimit(30)]
pub fn delete_coworking(
    store: &mut Store,
    claims: &Claims,
    building_id: u64,
    coworking_id: u64,
) -> (r: Result<(), ProdError>)
    requires
        old(store).wf(),
    ensures
        final(store).wf(),
        r is Err ==> *final(store) == *old(store),
        claims.role != RoleModel::Admin ==> (r matches Err(e) && e matches ProdError::Forbidden(m)
            && m@ == "You are not an admin"@),
        claims.role == RoleModel::Admin ==> (r is Ok <==> space_resolves(
            *old(store),
            claims.company_id,
            building_id,
            coworking_id,
        )),
        claims.role == RoleModel::Admin && !space_resolves(
            *old(store),
            claims.company_id,
            building_id,
            coworking_id,
        ) ==> (r matches Err(e) && e matches ProdError::NotFound(m) && m@ == "No such coworking"@),
        r is Ok ==> (forall|k: int|
            0 <= k < final(store).spaces@.len() ==> (#[trigger] final(store).spaces@[k]).id
                != coworking_id),
        r is Ok ==> (forall|q: int|
            0 <= q < final(store).items@.len() ==> crate::placement::item_row_in(
                *old(store),
                #[trigger] final(store).items@[q],
            ) && final(store).items@[q].coworking_id != coworking_id),
        r is Ok ==> (forall|j: int|
            0 <= j < old(store).items@.len() && (#[trigger] old(store).items@[j]).coworking_id
                != coworking_id ==> crate::placement::item_listed(
                final(store).items@,
                old(store).items@[j],
            )),
        r is Ok ==> (forall|q: int|
            0 <= q < final(store).bookings@.len() ==> crate::booking::booking_row_in(
                *old(store),
                #[trigger] final(store).bookings@[q],
            ) && final(store).bookings@[q].coworking_space_id != coworking_id),
        r is Ok ==> (forall|j: int|
            0 <= j < old(store).bookings@.len()
                && (#[trigger] old(store).bookings@[j]).coworking_space_id != coworking_id
                ==> crate::booking::row_listed(final(store).bookings@, old(store).bookings@[j])),
{
    if !matches!(claims.role, RoleModel::Admin) {
        return Err(ProdError::Forbidden("You are not an admin".to_owned()));
    }
    let space_idx = match store.find_space(claims.company_id, building_id, coworking_id) {
        Some(i) => i,
        None => {
            return Err(ProdError::NotFound("No such coworking".to_owned()));
        },
    };
    proof {
        assert forall|k: int|
            0 <= k < store.spaces@.len() && (#[trigger] store.spaces@[k]).id == coworking_id implies k
            == space_idx as int by {
            if k != space_idx as int {
                assert(store.spaces@[k].id != store.spaces@[space_idx as int].id);
            }
        }
    }
    let ghost olds = *store;
    let mut kept_items: Vec<crate::models::CoworkingItemsModel> = Vec::new();
    let mut k: usize = 0;
    while k < store.items.len()
        invariant
            0 <= k <= store.items@.len(),
            forall|q: int|
                0 <= q < kept_items@.len() ==> crate::placement::item_row_in(
                    *store,
                    #[trigger] kept_items@[q],
                ) && kept_items@[q].coworking_id != coworking_id,
            forall|q1: int, q2: int|
                0 <= q1 < q2 < kept_items@.len() ==> (#[trigger] kept_items@[q1]).id != (
                #[trigger] kept_items@[q2]).id,
            forall|j: int|
                0 <= j < k && (#[trigger] store.items@[j]).coworking_id != coworking_id
                    ==> crate::placement::item_listed(kept_items@, store.items@[j]),
            forall|q: int|
                0 <= q < kept_items@.len() ==> exists|j: int|
                    0 <= j < k && #[trigger] kept_items@[q] == store.items@[j],
        decreases store.items@.len() - k,
    {
        if store.items[k].coworking_id != coworking_id {
            let ghost prev = kept_items@;
            let row = crate::models::clone_coworking_item(&store.items[k]);
            kept_items.push(row);
            proof {
                assert(kept_items@[prev.len() as int] == store.items@[k as int]);
                assert forall|q: int| 0 <= q < kept_items@.len() implies crate::placement::item_row_in(
                    *store,
                    #[trigger] kept_items@[q],
                ) && kept_items@[q].coworking_id != coworking_id by {
                    if q < prev.len() {
                        assert(kept_items@[q] == prev[q]);
                        assert(crate::placement::item_row_in(*store, prev[q]));
                    } else {
                        assert(kept_items@[q] == store.items@[k as int]);
                    }
                }
                assert forall|q1: int, q2: int|
                    0 <= q1 < q2 < kept_items@.len() implies (#[trigger] kept_items@[q1]).id != (
                #[trigger] kept_items@[q2]).id by {
                    if q2 == prev.len() as int {
                        assert(kept_items@[q1] == prev[q1]);
                        let j1 = choose|j: int|
                            0 <= j < k as int && prev[q1] == #[trigger] store.items@[j];
                        assert(store.items@[j1].id != store.items@[k as int].id);
                    } else {
                        assert(kept_items@[q1] == prev[q1]);
                        assert(kept_items@[q2] == prev[q2]);
                    }
                }
                assert forall|j: int|
                    0 <= j < k as int + 1 && (#[trigger] store.items@[j]).coworking_id
                        != coworking_id implies crate::placement::item_listed(
                    kept_items@,
                    store.items@[j],
                ) by {
                    if j < k as int {
                        assert(crate::placement::item_listed(prev, store.items@[j]));
                        let p0 = choose|q: int| 0 <= q < prev.len() && #[trigger] prev[q]
                            == store.items@[j];
                        assert(kept_items@[p0] == store.items@[j]);
                    } else {
                        assert(kept_items@[kept_items@.len() - 1] == store.items@[j]);
                    }
                }
                assert forall|q: int| 0 <= q < kept_items@.len() implies exists|j: int|
                    0 <= j < k as int + 1 && #[trigger] kept_items@[q] == store.items@[j] by {
                    if q < prev.len() {
                        assert(kept_items@[q] == prev[q]);
                        let j1 = choose|j: int|
                            0 <= j < k as int && prev[q] == #[trigger] store.items@[j];
                        assert(kept_items@[q] == store.items@[j1]);
                    } else {
                        assert(kept_items@[q] == store.items@[k as int]);
                    }
                }
            }
        }
        k = k + 1;
    }
    let mut kept_bookings: Vec<crate::models::BookingModel> = Vec::new();
    let mut k2: usize = 0;
    while k2 < store.bookings.len()
        invariant
            0 <= k2 <= store.bookings@.len(),
            forall|q: int|
                0 <= q < kept_bookings@.len() ==> crate::booking::booking_row_in(
                    *store,
                    #[trigger] kept_bookings@[q],
                ) && kept_bookings@[q].coworking_space_id != coworking_id,
            forall|j: int|
                0 <= j < k2 && (#[trigger] store.bookings@[j]).coworking_space_id != coworking_id
                    ==> crate::booking::row_listed(kept_bookings@, store.bookings@[j]),
            forall|q1: int, q2: int|
                0 <= q1 < q2 < kept_bookings@.len() ==> (#[trigger] kept_bookings@[q1]).id != (
                #[trigger] kept_bookings@[q2]).id,
            forall|q: int|
                0 <= q < kept_bookings@.len() ==> exists|j: int|
                    0 <= j < k2 && #[trigger] kept_bookings@[q] == store.bookings@[j],
        decreases store.bookings@.len() - k2,
    {
        let bo = store.bookings[k2];
        if bo.coworking_space_id != coworking_id {
            let ghost prev = kept_bookings@;
            kept_bookings.push(bo);
            proof {
                assert(kept_bookings@[prev.len() as int] == store.bookings@[k2 as int]);
                assert forall|q: int| 0 <= q < kept_bookings@.len() implies crate::booking::booking_row_in(
                    *store,
                    #[trigger] kept_bookings@[q],
                ) && kept_bookings@[q].coworking_space_id != coworking_id by {
                    if q < prev.len() {
                        assert(kept_bookings@[q] == prev[q]);
                        assert(crate::booking::booking_row_in(*store, prev[q]));
                    } else {
                        assert(kept_bookings@[q] == store.bookings@[k2 as int]);
                    }
                }
                assert forall|j: int|
                    0 <= j < k2 as int + 1 && (#[trigger] store.bookings@[j]).coworking_space_id
                        != coworking_id implies crate::booking::row_listed(
                    kept_bookings@,
                    store.bookings@[j],
                ) by {
                    if j < k2 as int {
                        assert(crate::booking::row_listed(prev, store.bookings@[j]));
                        let p0 = choose|q: int| 0 <= q < prev.len() && #[trigger] prev[q]
                            == store.bookings@[j];
                        assert(kept_bookings@[p0] == store.bookings@[j]);
                    } else {
                        assert(kept_bookings@[kept_bookings@.len() - 1] == store.bookings@[j]);
                    }
                }
                assert forall|q1: int, q2: int|
                    0 <= q1 < q2 < kept_bookings@.len() implies (#[trigger] kept_bookings@[q1]).id
                    != (#[trigger] kept_bookings@[q2]).id by {
                    if q2 == prev.len() as int {
                        assert(kept_bookings@[q1] == prev[q1]);
                        let j1 = choose|j: int|
                            0 <= j < k2 as int && prev[q1] == #[trigger] store.bookings@[j];
                        assert(store.bookings@[j1].id != store.bookings@[k2 as int].id);
                    } else {
                        assert(kept_bookings@[q1] == prev[q1]);
                        assert(kept_bookings@[q2] == prev[q2]);
                    }
                }
                assert forall|q: int| 0 <= q < kept_bookings@.len() implies exists|j: int|
                    0 <= j < k2 as int + 1 && #[trigger] kept_bookings@[q]
                        == store.bookings@[j] by {
                    if q < prev.len() {
                        assert(kept_bookings@[q] == prev[q]);
                        let j1 = choose|j: int|
                            0 <= j < k2 as int && prev[q] == #[trigger] store.bookings@[j];
                        assert(kept_bookings@[q] == store.bookings@[j1]);
                    } else {
                        assert(kept_bookings@[q] == store.bookings@[k2 as int]);
                    }
                }
            }
        }
        k2 = k2 + 1;
    }
    let ghost kept = kept_items@;
    let ghost kept_b = kept_bookings@;
    store.items = kept_items;
    store.bookings = kept_bookings;
    store.spaces.remove(space_idx);
    proof {
        lemma_delete_space_wf(olds, *store, space_idx as int, coworking_id, kept, kept_b);
    }
    Ok(())
}

} // verus!
