use vstd::prelude::*;

use crate::coworking::building_resolves;
use crate::errors::ProdError;
use crate::forms::CreateBuildingForm;
use crate::jwt::models::Claims;
use crate::models::{clone_building, BuildingModel, RoleModel};
use crate::store::{table_extends, Store};

verus! {

/// All tables but the buildings hold the same rows in both stores.
pub open spec fn same_except_buildings(a: Store, b: Store) -> bool {
    &&& a.companies@ == b.companies@
    &&& a.spaces@ == b.spaces@
    &&& a.item_types@ == b.item_types@
    &&& a.items@ == b.items@
    &&& a.bookings@ == b.bookings@
    &&& a.users@ == b.users@
    &&& a.pending@ == b.pending@
}

/// Creates a building under the caller's company.
pub fn create_building(store: &mut Store, claims: &Claims, form: &CreateBuildingForm) -> (r:
    Result<BuildingModel, ProdError>)
    requires
        old(store).wf(),
        old(store).next_id < u64::MAX,
    ensures
        final(store).wf(),
        r is Err ==> *final(store) == *old(store),
        r is Ok <==> claims.role == RoleModel::Admin,
        claims.role != RoleModel::Admin ==> (r matches Err(e) && e matches ProdError::Forbidden(m)
            && m@ == "You are not an admin"@),
        r matches Ok(b) ==> b.id == old(store).next_id && b.address@ == form.address@
            && b.company_id == claims.company_id && final(store).buildings@ == old(
            store,
        ).buildings@.push(b) && final(store).next_id == old(store).next_id + 1
            && same_except_buildings(*final(store), *old(store)),
{
    if !matches!(claims.role, RoleModel::Admin) {
        return Err(ProdError::Forbidden("You are not an admin".to_owned()));
    }
    let b = BuildingModel {
        id: store.next_id,
        address: form.address.clone(),
        company_id: claims.company_id,
    };
    let returned = clone_building(&b);
    store.buildings.push(b);
    store.next_id = store.next_id + 1;
    proof {
        let olds = *old(store);
        let news = *store;
        let n = olds.buildings@.len() as int;
        assert(news.buildings@ == olds.buildings@.push(returned));
        assert forall|i: int| 0 <= i < news.buildings@.len() implies (
        #[trigger] news.buildings@[i]).id < news.next_id by {
            if i < n {
                assert(news.buildings@[i] == olds.buildings@[i]);
            }
        }
        assert forall|i: int, j: int|
            0 <= i < j < news.buildings@.len() implies (#[trigger] news.buildings@[i]).id != (
        #[trigger] news.buildings@[j]).id by {
            if j < n {
                assert(news.buildings@[i] == olds.buildings@[i]);
                assert(news.buildings@[j] == olds.buildings@[j]);
            } else {
                assert(news.buildings@[i] == olds.buildings@[i]);
                assert(olds.buildings@[i].id < olds.next_id);
            }
        }
        assert(table_extends(news.buildings@, olds.buildings@));
        crate::store::lemma_companies_wf_from(olds, news);
        crate::store::lemma_spaces_wf_from(olds, news);
        crate::store::lemma_item_types_wf_from(olds, news);
        crate::store::lemma_items_wf_from(olds, news);
        crate::store::lemma_geometry_wf_from(olds, news);
        crate::store::lemma_bookings_wf_from(olds, news);
        crate::store::lemma_users_wf_from(olds, news);
        crate::store::lemma_pending_wf_from(olds, news);
    }
    Ok(returned)
}

/// One building of the caller's tenant, by id. A building of another
/// tenant is never revealed: the answer is the same `NotFound` as for an
/// absent id.
pub fn get_building(store: &Store, claims: &Claims, building_id: u64) -> (r: Result<
    BuildingModel,
    ProdError,
>)
    requires
        store.wf(),
    ensures
        r is Ok <==> building_resolves(*store, claims.company_id, building_id),
        r matches Ok(b) ==> b.company_id == claims.company_id && b.id == building_id && exists|
            k: int,
        | 0 <= k < store.buildings@.len() && #[trigger] store.buildings@[k] == b,
        r matches Err(e) ==> e matches ProdError::NotFound(m) && m@ == "No such building"@,
{
    match store.find_building(claims.company_id, building_id) {
        Some(i) => {
            let b = clone_building(&store.buildings[i]);
            proof {
                assert(store.buildings@[i as int] == b);
            }
            Ok(b)
        },
        None => Err(ProdError::NotFound("No such building".to_owned())),
    }
}

/// `b` is one of the store's building rows.
pub open spec fn building_row_in(s: Store, b: BuildingModel) -> bool {
    exists|i: int| 0 <= i < s.buildings@.len() && b == #[trigger] s.buildings@[i]
}

/// `b` occurs in the listing `v`.
pub open spec fn building_listed(v: Seq<BuildingModel>, b: BuildingModel) -> bool {
    exists|p: int| 0 <= p < v.len() && #[trigger] v[p] == b
}

/// Every building of the caller's tenant.
#[verifier::loop_isolation(false)]
pub fn list_buildings(store: &Store, claims: &Claims) -> (r: Vec<BuildingModel>)
    requires
        store.wf(),
    ensures
        forall|k: int|
            0 <= k < r@.len() ==> building_row_in(*store, #[trigger] r@[k]) && r@[k].company_id
                == claims.company_id,
        forall|i: int|
            0 <= i < store.buildings@.len() && (#[trigger] store.buildings@[i]).company_id
                == claims.company_id ==> building_listed(r@, store.buildings@[i]),
{
    let mut out: Vec<BuildingModel> = Vec::new();
    let mut k: usize = 0;
    while k < store.buildings.len()
        invariant
            0 <= k <= store.buildings@.len(),
            forall|p: int|
                0 <= p < out@.len() ==> building_row_in(*store, #[trigger] out@[p])
                    && out@[p].company_id == claims.company_id,
            forall|i: int|
                0 <= i < k && (#[trigger] store.buildings@[i]).company_id == claims.company_id
                    ==> building_listed(out@, store.buildings@[i]),
        decreases store.buildings@.len() - k,
    {
        if store.buildings[k].company_id == claims.company_id {
            let ghost prev = out@;
            let row = clone_building(&store.buildings[k]);
            out.push(row);
            proof {
                assert(out@[prev.len() as int] == store.buildings@[k as int]);
                assert forall|p: int| 0 <= p < out@.len() implies building_row_in(
                    *store,
                    #[trigger] out@[p],
                ) && out@[p].company_id == claims.company_id by {
                    if p < prev.len() {
                        assert(out@[p] == prev[p]);
                        assert(building_row_in(*store, prev[p]));
                    } else {
                        assert(out@[p] == store.buildings@[k as int]);
                    }
                }
                assert forall|i: int|
                    0 <= i <= k as int && (#[trigger] store.buildings@[i]).company_id
                        == claims.company_id implies building_listed(
                    out@,
                    store.buildings@[i],
                ) by {
                    if i < k as int {
                        assert(building_listed(prev, store.buildings@[i]));
                        let p0 = choose|p: int| 0 <= p < prev.len() && #[trigger] prev[p]
                            == store.buildings@[i];
                        assert(out@[p0] == store.buildings@[i]);
                    } else {
                        assert(out@[out@.len() - 1] == store.buildings@[i]);
                    }
                }
            }
        }
        k = k + 1;
    }
    out
}

/// Replaces a building's address. Identity and tenant never change, so
/// every reference to the building stays valid.
pub fn patch_building(
    store: &mut Store,
    claims: &Claims,
    building_id: u64,
    form: &CreateBuildingForm,
) -> (r: Result<BuildingModel, ProdError>)
    requires
        old(store).wf(),
    ensures
        final(store).wf(),
        r is Err ==> *final(store) == *old(store),
        r is Ok <==> building_resolves(*old(store), claims.company_id, building_id),
        r matches Err(e) ==> e matches ProdError::NotFound(m) && m@ == "No such building"@,
        r matches Ok(b) ==> b.id == building_id && b.company_id == claims.company_id && b.address@
            == form.address@ && (exists|i: int|
            0 <= i < old(store).buildings@.len() && (#[trigger] old(store).buildings@[i]).id
                == building_id && final(store).buildings@ == old(store).buildings@.update(i, b))
            && same_except_buildings(*final(store), *old(store)) && final(store).next_id == old(
            store,
        ).next_id,
{
    let idx = match store.find_building(claims.company_id, building_id) {
        Some(i) => i,
        None => {
            return Err(ProdError::NotFound("No such building".to_owned()));
        },
    };
    let nb = BuildingModel {
        id: building_id,
        address: form.address.clone(),
        company_id: claims.company_id,
    };
    let returned = clone_building(&nb);
    store.buildings[idx] = nb;
    proof {
        let olds = *old(store);
        let news = *store;
        assert forall|i: int| 0 <= i < news.buildings@.len() && i != idx as int implies #[trigger] news.buildings@[i]
            == olds.buildings@[i] by {}
        assert(news.buildings@[idx as int] == returned);
        assert(news.buildings_wf()) by {
            assert forall|i: int| 0 <= i < news.buildings@.len() implies (
            #[trigger] news.buildings@[i]).id < news.next_id by {
                if i != idx as int {
                    assert(news.buildings@[i] == olds.buildings@[i]);
                } else {
                    assert(olds.buildings@[idx as int].id < olds.next_id);
                }
            }
            assert forall|i: int, j: int|
                0 <= i < j < news.buildings@.len() implies (#[trigger] news.buildings@[i]).id != (
            #[trigger] news.buildings@[j]).id by {
                assert(olds.buildings@[i].id != olds.buildings@[j].id);
                if i == idx as int {
                    assert(news.buildings@[i].id == olds.buildings@[i].id);
                }
                if j == idx as int {
                    assert(news.buildings@[j].id == olds.buildings@[j].id);
                }
            }
        }
        assert(news.spaces_wf()) by {
            assert forall|i: int| 0 <= i < news.spaces@.len() implies #[trigger] news.space_building_resolves(
                i,
            ) by {
                assert(olds.space_building_resolves(i));
                let k0 = choose|k: int|
                    0 <= k < olds.buildings@.len() && (#[trigger] olds.buildings@[k]).id
                        == olds.spaces@[i].building_id && olds.buildings@[k].company_id
                        == olds.spaces@[i].company_id;
                if k0 == idx as int {
                    assert(news.buildings@[k0].id == olds.buildings@[k0].id);
                    assert(news.buildings@[k0].company_id == olds.buildings@[k0].company_id);
                } else {
                    assert(news.buildings@[k0] == olds.buildings@[k0]);
                }
            }
        }
        crate::store::lemma_companies_wf_from(olds, news);
        crate::store::lemma_item_types_wf_from(olds, news);
        crate::store::lemma_items_wf_from(olds, news);
        crate::store::lemma_geometry_wf_from(olds, news);
        crate::store::lemma_bookings_wf_from(olds, news);
        crate::store::lemma_users_wf_from(olds, news);
        crate::store::lemma_pending_wf_from(olds, news);
    }
    Ok(returned)
}


/// The space this item sits in does not belong to the given building.
/// Quantified over every matching space row; in a well-formed store
/// there is exactly one.
pub open spec fn item_outside_building(
    s: Store,
    it: crate::models::CoworkingItemsModel,
    building_id: u64,
) -> bool {
    forall|k: int|
        0 <= k < s.spaces@.len() && (#[trigger] s.spaces@[k]).id == it.coworking_id
            ==> s.spaces@[k].building_id != building_id
}

/// The space this booking reserves in does not belong to the given
/// building.
pub open spec fn booking_outside_building(
    s: Store,
    bo: crate::models::BookingModel,
    building_id: u64,
) -> bool {
    forall|k: int|
        0 <= k < s.spaces@.len() && (#[trigger] s.spaces@[k]).id == bo.coworking_space_id
            ==> s.spaces@[k].building_id != building_id
}

/// `sp` is one of the store's space rows.
pub open spec fn bld_space_row_in(s: Store, sp: crate::models::CoworkingSpacesModel) -> bool {
    exists|i: int| 0 <= i < s.spaces@.len() && sp == #[trigger] s.spaces@[i]
}

/// `sp` occurs in the listing `v`.
pub open spec fn bld_space_listed(
    v: Seq<crate::models::CoworkingSpacesModel>,
    sp: crate::models::CoworkingSpacesModel,
) -> bool {
    exists|p: int| 0 <= p < v.len() && #[trigger] v[p] == sp
}

/// Deleting one building, with every space in it, every item placed in
/// those spaces, and every booking of those items, preserves the store
/// invariants.
#[verifier::rlimit(100)]
#[verifier::spinoff_prover]
proof fn lemma_delete_building_wf(
    olds: Store,
    news: Store,
    b_idx: int,
    building_id: u64,
    kept_s: Seq<crate::models::CoworkingSpacesModel>,
    kept: Seq<crate::models::CoworkingItemsModel>,
    kept_b: Seq<crate::models::BookingModel>,
)
    requires
        olds.wf(),
        0 <= b_idx < olds.buildings@.len(),
        olds.buildings@[b_idx].id == building_id,
        news.buildings@ == olds.buildings@.remove(b_idx),
        news.spaces@ == kept_s,
        forall|q: int|
            0 <= q < kept_s.len() ==> bld_space_row_in(olds, #[trigger] kept_s[q])
                && kept_s[q].building_id != building_id,
        forall|q1: int, q2: int|
            0 <= q1 < q2 < kept_s.len() ==> (#[trigger] kept_s[q1]).id != (
            #[trigger] kept_s[q2]).id,
        forall|j: int|
            0 <= j < olds.spaces@.len() && (#[trigger] olds.spaces@[j]).building_id != building_id
                ==> bld_space_listed(kept_s, olds.spaces@[j]),
        news.items@ == kept,
        forall|q: int|
            0 <= q < kept.len() ==> crate::placement::item_row_in(olds, #[trigger] kept[q])
                && item_outside_building(olds, kept[q], building_id),
        forall|q1: int, q2: int|
            0 <= q1 < q2 < kept.len() ==> (#[trigger] kept[q1]).id != (#[trigger] kept[q2]).id,
        forall|j: int|
            0 <= j < olds.items@.len() && item_outside_building(
                olds,
                #[trigger] olds.items@[j],
                building_id,
            ) ==> crate::placement::item_listed(kept, olds.items@[j]),
        news.bookings@ == kept_b,
        forall|q: int|
            0 <= q < kept_b.len() ==> crate::booking::booking_row_in(olds, #[trigger] kept_b[q])
                && booking_outside_building(olds, kept_b[q], building_id),
        forall|q1: int, q2: int|
            0 <= q1 < q2 < kept_b.len() ==> (#[trigger] kept_b[q1]).id != (
            #[trigger] kept_b[q2]).id,
        news.next_id == olds.next_id,
        news.companies@ == olds.companies@,
        news.item_types@ == olds.item_types@,
        news.users@ == olds.users@,
        news.pending@ == olds.pending@,
    ensures
        news.wf(),
{
    olds.buildings@.remove_ensures(b_idx);
    assert forall|i: int| 0 <= i < news.buildings@.len() implies #[trigger] news.buildings@[i]
        == olds.buildings@[crate::booking::shift_past(i, b_idx)] by {}
    assert forall|k: int|
        0 <= k < olds.buildings@.len() && (#[trigger] olds.buildings@[k]).id
            == building_id implies k == b_idx by {
        if k != b_idx {
            assert(olds.buildings@[k].id != olds.buildings@[b_idx].id);
        }
    }
    assert(news.buildings_wf()) by {
        assert forall|i: int| 0 <= i < news.buildings@.len() implies (
        #[trigger] news.buildings@[i]).id < news.next_id by {
            assert(news.buildings@[i] == olds.buildings@[crate::booking::shift_past(i, b_idx)]);
        }
        assert forall|i: int, j: int|
            0 <= i < j < news.buildings@.len() implies (#[trigger] news.buildings@[i]).id != (
        #[trigger] news.buildings@[j]).id by {
            assert(news.buildings@[i] == olds.buildings@[crate::booking::shift_past(i, b_idx)]);
            assert(news.buildings@[j] == olds.buildings@[crate::booking::shift_past(j, b_idx)]);
            assert(crate::booking::shift_past(i, b_idx) < crate::booking::shift_past(j, b_idx));
        }
    }
    assert forall|q: int| 0 <= q < kept_s.len() implies (#[trigger] kept_s[q]).id
        < olds.next_id by {
        assert(bld_space_row_in(olds, kept_s[q]));
        let j = choose|j: int| 0 <= j < olds.spaces@.len() && kept_s[q] == #[trigger] olds.spaces@[j];
        assert(olds.spaces@[j].id < olds.next_id);
    }
    assert(news.spaces_wf()) by {
        assert forall|i: int| 0 <= i < news.spaces@.len() implies (#[trigger] news.spaces@[i]).id
            < news.next_id && news.spaces@[i].width >= 1 && news.spaces@[i].height >= 1 by {
            let j = choose|j: int|
                0 <= j < olds.spaces@.len() && kept_s[i] == #[trigger] olds.spaces@[j];
        }
        assert forall|i: int| 0 <= i < news.spaces@.len() implies #[trigger] news.space_building_resolves(
            i,
        ) by {
            let j = choose|j: int|
                0 <= j < olds.spaces@.len() && kept_s[i] == #[trigger] olds.spaces@[j];
            assert(olds.space_building_resolves(j));
            let w = choose|w: int|
                0 <= w < olds.buildings@.len() && (#[trigger] olds.buildings@[w]).id
                    == olds.spaces@[j].building_id && olds.buildings@[w].company_id
                    == olds.spaces@[j].company_id;
            assert(olds.spaces@[j].building_id != building_id);
            assert(w != b_idx);
            let w2 = if w < b_idx {
                w
            } else {
                w - 1
            };
            assert(news.buildings@[w2] == olds.buildings@[w]);
            assert(news.buildings@[w2].id == news.spaces@[i].building_id);
            assert(news.buildings@[w2].company_id == news.spaces@[i].company_id);
        }
    }
    assert forall|q: int| 0 <= q < kept.len() implies (#[trigger] kept[q]).id < olds.next_id by {
        assert(crate::placement::item_row_in(olds, kept[q]));
        let j = choose|j: int| 0 <= j < olds.items@.len() && kept[q] == #[trigger] olds.items@[j];
        assert(olds.items@[j].id < olds.next_id);
    }
    assert(news.items_wf()) by {
        assert forall|i: int| 0 <= i < news.items@.len() implies #[trigger] news.item_space_resolves(
            i,
        ) by {
            let j = choose|j: int|
                0 <= j < olds.items@.len() && kept[i] == #[trigger] olds.items@[j];
            assert(olds.item_space_resolves(j));
            let w = choose|w: int|
                0 <= w < olds.spaces@.len() && (#[trigger] olds.spaces@[w]).id
                    == olds.items@[j].coworking_id;
            assert(item_outside_building(olds, kept[i], building_id));
            assert(olds.spaces@[w].building_id != building_id);
            assert(bld_space_listed(kept_s, olds.spaces@[w]));
            let q0 = choose|q2: int| 0 <= q2 < kept_s.len() && #[trigger] kept_s[q2]
                == olds.spaces@[w];
            assert(news.spaces@[q0].id == news.items@[i].coworking_id);
        }
        assert forall|i: int| 0 <= i < news.items@.len() implies #[trigger] news.item_type_resolves(
            i,
        ) by {
            let j = choose|j: int|
                0 <= j < olds.items@.len() && kept[i] == #[trigger] olds.items@[j];
            assert(olds.item_type_resolves(j));
            let w = choose|w: int|
                0 <= w < olds.item_types@.len() && (#[trigger] olds.item_types@[w]).id
                    == olds.items@[j].item_id;
            assert(news.item_types@[w].id == news.items@[i].item_id);
        }
        assert forall|ii: int, si: int, ti: int|
            0 <= ii < news.items@.len() && 0 <= si < news.spaces@.len() && 0 <= ti
                < news.item_types@.len() && (#[trigger] news.items@[ii]).coworking_id == (
            #[trigger] news.spaces@[si]).id && news.items@[ii].item_id == (
            #[trigger] news.item_types@[ti]).id implies news.item_types@[ti].company_id
            == news.spaces@[si].company_id by {
            let j = choose|j: int|
                0 <= j < olds.items@.len() && kept[ii] == #[trigger] olds.items@[j];
            let js = choose|j2: int|
                0 <= j2 < olds.spaces@.len() && kept_s[si] == #[trigger] olds.spaces@[j2];
            assert(news.item_types@[ti] == olds.item_types@[ti]);
            assert(olds.items@[j].coworking_id == olds.spaces@[js].id);
            assert(olds.items@[j].item_id == olds.item_types@[ti].id);
        }
    }
    assert(news.geometry_wf()) by {
        assert forall|ii: int, si: int, ti: int|
            0 <= ii < news.items@.len() && 0 <= si < news.spaces@.len() && 0 <= ti
                < news.item_types@.len() && (#[trigger] news.items@[ii]).coworking_id == (
            #[trigger] news.spaces@[si]).id && news.items@[ii].item_id == (
            #[trigger] news.item_types@[ti]).id implies crate::geometry::all_in_bounds(
            crate::store::placed_cells(news.items@[ii], news.item_types@[ti]),
            news.spaces@[si].width as int,
            news.spaces@[si].height as int,
        ) by {
            let j = choose|j: int|
                0 <= j < olds.items@.len() && kept[ii] == #[trigger] olds.items@[j];
            let js = choose|j2: int|
                0 <= j2 < olds.spaces@.len() && kept_s[si] == #[trigger] olds.spaces@[j2];
            assert(news.item_types@[ti] == olds.item_types@[ti]);
            assert(crate::geometry::all_in_bounds(
                crate::store::placed_cells(olds.items@[j], olds.item_types@[ti]),
                olds.spaces@[js].width as int,
                olds.spaces@[js].height as int,
            ));
            assert(crate::store::placed_cells(news.items@[ii], news.item_types@[ti])
                == crate::store::placed_cells(olds.items@[j], olds.item_types@[ti]));
        }
        assert forall|ii: int, jj: int, ti: int, tj: int|
            0 <= ii < news.items@.len() && 0 <= jj < news.items@.len() && ii != jj && 0 <= ti
                < news.item_types@.len() && 0 <= tj < news.item_types@.len() && (
            #[trigger] news.items@[ii]).coworking_id == (#[trigger] news.items@[jj]).coworking_id
                && news.items@[ii].item_id == (#[trigger] news.item_types@[ti]).id
                && news.items@[jj].item_id == (#[trigger] news.item_types@[tj]).id implies crate::geometry::cells_disjoint(
            crate::store::placed_cells(news.items@[ii], news.item_types@[ti]),
            crate::store::placed_cells(news.items@[jj], news.item_types@[tj]),
        ) by {
            let j1 = choose|j: int|
                0 <= j < olds.items@.len() && kept[ii] == #[trigger] olds.items@[j];
            let j2 = choose|j: int|
                0 <= j < olds.items@.len() && kept[jj] == #[trigger] olds.items@[j];
            if ii < jj {
                assert(kept[ii].id != kept[jj].id);
            } else {
                assert(kept[jj].id != kept[ii].id);
            }
            assert(j1 != j2);
            assert(news.item_types@[ti] == olds.item_types@[ti]);
            assert(news.item_types@[tj] == olds.item_types@[tj]);
            assert(crate::geometry::cells_disjoint(
                crate::store::placed_cells(olds.items@[j1], olds.item_types@[ti]),
                crate::store::placed_cells(olds.items@[j2], olds.item_types@[tj]),
            ));
        }
    }
    assert(news.bookings_wf()) by {
        assert forall|i: int| 0 <= i < news.bookings@.len() implies (#[trigger] news.bookings@[i]).id
            < news.next_id && crate::store::booking_ok(news.bookings@[i]) by {
            let j = choose|j: int|
                0 <= j < olds.bookings@.len() && kept_b[i] == #[trigger] olds.bookings@[j];
            assert(olds.bookings@[j].id < olds.next_id);
        }
        assert forall|i: int, j: int|
            0 <= i < news.bookings@.len() && 0 <= j < news.bookings@.len() && i != j && (
        #[trigger] news.bookings@[i]).coworking_item_id == (
        #[trigger] news.bookings@[j]).coworking_item_id implies !crate::store::overlaps(
            news.bookings@[i],
            news.bookings@[j],
        ) by {
            let s1 = choose|w: int|
                0 <= w < olds.bookings@.len() && kept_b[i] == #[trigger] olds.bookings@[w];
            let s2 = choose|w: int|
                0 <= w < olds.bookings@.len() && kept_b[j] == #[trigger] olds.bookings@[w];
            if i < j {
                assert(kept_b[i].id != kept_b[j].id);
            } else {
                assert(kept_b[j].id != kept_b[i].id);
            }
            assert(s1 != s2);
            assert(!crate::store::overlaps(olds.bookings@[s1], olds.bookings@[s2]));
        }
        assert forall|i: int| 0 <= i < news.bookings@.len() implies #[trigger] news.booking_user_resolves(
            i,
        ) by {
            let j = choose|w: int|
                0 <= w < olds.bookings@.len() && kept_b[i] == #[trigger] olds.bookings@[w];
            assert(olds.booking_user_resolves(j));
            let k0 = choose|k: int|
                0 <= k < olds.users@.len() && (#[trigger] olds.users@[k]).id
                    == olds.bookings@[j].user_id && olds.users@[k].company_id
                    == olds.bookings@[j].company_id;
            assert(news.users@[k0].id == news.bookings@[i].user_id);
            assert(news.users@[k0].company_id == news.bookings@[i].company_id);
        }
        assert forall|i: int| 0 <= i < news.bookings@.len() implies #[trigger] news.booking_space_resolves(
            i,
        ) by {
            let j = choose|w: int|
                0 <= w < olds.bookings@.len() && kept_b[i] == #[trigger] olds.bookings@[w];
            assert(olds.booking_space_resolves(j));
            let k0 = choose|k: int|
                0 <= k < olds.spaces@.len() && (#[trigger] olds.spaces@[k]).id
                    == olds.bookings@[j].coworking_space_id && olds.spaces@[k].company_id
                    == olds.bookings@[j].company_id;
            assert(booking_outside_building(olds, kept_b[i], building_id));
            assert(olds.spaces@[k0].building_id != building_id);
            assert(bld_space_listed(kept_s, olds.spaces@[k0]));
            let q0 = choose|q2: int| 0 <= q2 < kept_s.len() && #[trigger] kept_s[q2]
                == olds.spaces@[k0];
            assert(news.spaces@[q0].id == news.bookings@[i].coworking_space_id);
            assert(news.spaces@[q0].company_id == news.bookings@[i].company_id);
        }
        assert forall|i: int| 0 <= i < news.bookings@.len() implies #[trigger] news.booking_item_resolves(
            i,
        ) by {
            let j = choose|w: int|
                0 <= w < olds.bookings@.len() && kept_b[i] == #[trigger] olds.bookings@[w];
            assert(olds.booking_item_resolves(j));
            let k0 = choose|k: int|
                0 <= k < olds.items@.len() && (#[trigger] olds.items@[k]).id
                    == olds.bookings@[j].coworking_item_id && olds.items@[k].coworking_id
                    == olds.bookings@[j].coworking_space_id;
            assert(booking_outside_building(olds, kept_b[i], building_id));
            assert(item_outside_building(olds, olds.items@[k0], building_id)) by {
                assert forall|k: int|
                    0 <= k < olds.spaces@.len() && (#[trigger] olds.spaces@[k]).id
                        == olds.items@[k0].coworking_id implies olds.spaces@[k].building_id
                    != building_id by {}
            }
            assert(crate::placement::item_listed(kept, olds.items@[k0]));
            let q0 = choose|q2: int| 0 <= q2 < kept.len() && #[trigger] kept[q2]
                == olds.items@[k0];
            assert(news.items@[q0].id == news.bookings@[i].coworking_item_id);
            assert(news.items@[q0].coworking_id == news.bookings@[i].coworking_space_id);
        }
    }
    crate::store::lemma_companies_wf_from(olds, news);
    crate::store::lemma_item_types_wf_from(olds, news);
    crate::store::lemma_users_wf_from(olds, news);
    crate::store::lemma_pending_wf_from(olds, news);
}


/// Deletes one building, and with it every coworking space inside it,
/// every item placed in those spaces, and every booking of those items,
/// as one unit.
#[verifier::loop_isolation(false)]
#[verifier::rlimit(40)]
pub fn delete_building(store: &mut Store, claims: &Claims, building_id: u64) -> (r: Result<
    (),
    ProdError,
>)
    requires
        old(store).wf(),
    ensures
        final(store).wf(),
        r is Err ==> *final(store) == *old(store),
        r is Ok <==> building_resolves(*old(store), claims.company_id, building_id),
        r matches Err(e) ==> e matches ProdError::NotFound(m) && m@ == "No such building"@,
        r is Ok ==> (forall|k: int|
            0 <= k < final(store).buildings@.len() ==> (#[trigger] final(store).buildings@[k]).id
                != building_id),
        r is Ok ==> (forall|q: int|
            0 <= q < final(store).spaces@.len() ==> bld_space_row_in(
                *old(store),
                #[trigger] final(store).spaces@[q],
            ) && final(store).spaces@[q].building_id != building_id),
        r is Ok ==> (forall|j: int|
            0 <= j < old(store).spaces@.len() && (#[trigger] old(store).spaces@[j]).building_id
                != building_id ==> bld_space_listed(final(store).spaces@, old(store).spaces@[j])),
{
    let b_idx = match store.find_building(claims.company_id, building_id) {
        Some(i) => i,
        None => {
            return Err(ProdError::NotFound("No such building".to_owned()));
        },
    };
    proof {
        assert forall|k: int|
            0 <= k < store.buildings@.len() && (#[trigger] store.buildings@[k]).id
                == building_id implies k == b_idx as int by {
            if k != b_idx as int {
                assert(store.buildings@[k].id != store.buildings@[b_idx as int].id);
            }
        }
    }
    let ghost olds = *store;
    let mut kept_spaces: Vec<crate::models::CoworkingSpacesModel> = Vec::new();
    let mut ks: usize = 0;
    while ks < store.spaces.len()
        invariant
            0 <= ks <= store.spaces@.len(),
            forall|q: int|
                0 <= q < kept_spaces@.len() ==> bld_space_row_in(
                    *store,
                    #[trigger] kept_spaces@[q],
                ) && kept_spaces@[q].building_id != building_id,
            forall|q1: int, q2: int|
                0 <= q1 < q2 < kept_spaces@.len() ==> (#[trigger] kept_spaces@[q1]).id != (
                #[trigger] kept_spaces@[q2]).id,
            forall|j: int|
                0 <= j < ks && (#[trigger] store.spaces@[j]).building_id != building_id
                    ==> bld_space_listed(kept_spaces@, store.spaces@[j]),
            forall|q: int|
                0 <= q < kept_spaces@.len() ==> exists|j: int|
                    0 <= j < ks && #[trigger] kept_spaces@[q] == store.spaces@[j],
        decreases store.spaces@.len() - ks,
    {
        if store.spaces[ks].building_id != building_id {
            let ghost prev = kept_spaces@;
            let row = crate::models::clone_space(&store.spaces[ks]);
            kept_spaces.push(row);
            proof {
                assert(kept_spaces@[prev.len() as int] == store.spaces@[ks as int]);
                assert forall|q: int| 0 <= q < kept_spaces@.len() implies bld_space_row_in(
                    *store,
                    #[trigger] kept_spaces@[q],
                ) && kept_spaces@[q].building_id != building_id by {
                    if q < prev.len() {
                        assert(kept_spaces@[q] == prev[q]);
                        assert(bld_space_row_in(*store, prev[q]));
                    } else {
                        assert(kept_spaces@[q] == store.spaces@[ks as int]);
                    }
                }
                assert forall|q1: int, q2: int|
                    0 <= q1 < q2 < kept_spaces@.len() implies (#[trigger] kept_spaces@[q1]).id
                    != (#[trigger] kept_spaces@[q2]).id by {
                    if q2 == prev.len() as int {
                        assert(kept_spaces@[q1] == prev[q1]);
                        let j1 = choose|j: int|
                            0 <= j < ks as int && prev[q1] == #[trigger] store.spaces@[j];
                        assert(store.spaces@[j1].id != store.spaces@[ks as int].id);
                    } else {
                        assert(kept_spaces@[q1] == prev[q1]);
                        assert(kept_spaces@[q2] == prev[q2]);
                    }
                }
                assert forall|j: int|
                    0 <= j < ks as int + 1 && (#[trigger] store.spaces@[j]).building_id
                        != building_id implies bld_space_listed(
                    kept_spaces@,
                    store.spaces@[j],
                ) by {
                    if j < ks as int {
                        assert(bld_space_listed(prev, store.spaces@[j]));
                        let p0 = choose|q: int| 0 <= q < prev.len() && #[trigger] prev[q]
                            == store.spaces@[j];
                        assert(kept_spaces@[p0] == store.spaces@[j]);
                    } else {
                        assert(kept_spaces@[kept_spaces@.len() - 1] == store.spaces@[j]);
                    }
                }
                assert forall|q: int| 0 <= q < kept_spaces@.len() implies exists|j: int|
                    0 <= j < ks as int + 1 && #[trigger] kept_spaces@[q] == store.spaces@[j] by {
                    if q < prev.len() {
                        assert(kept_spaces@[q] == prev[q]);
                        let j1 = choose|j: int|
                            0 <= j < ks as int && prev[q] == #[trigger] store.spaces@[j];
                        assert(kept_spaces@[q] == store.spaces@[j1]);
                    } else {
                        assert(kept_spaces@[q] == store.spaces@[ks as int]);
                    }
                }
            }
        }
        ks = ks + 1;
    }
    let mut kept_items: Vec<crate::models::CoworkingItemsModel> = Vec::new();
    let mut ki: usize = 0;
    while ki < store.items.len()
        invariant
            0 <= ki <= store.items@.len(),
            forall|q: int|
                0 <= q < kept_items@.len() ==> crate::placement::item_row_in(
                    *store,
                    #[trigger] kept_items@[q],
                ) && item_outside_building(*store, kept_items@[q], building_id),
            forall|q1: int, q2: int|
                0 <= q1 < q2 < kept_items@.len() ==> (#[trigger] kept_items@[q1]).id != (
                #[trigger] kept_items@[q2]).id,
            forall|j: int|
                0 <= j < ki && item_outside_building(
                    *store,
                    #[trigger] store.items@[j],
                    building_id,
                ) ==> crate::placement::item_listed(kept_items@, store.items@[j]),
            forall|q: int|
                0 <= q < kept_items@.len() ==> exists|j: int|
                    0 <= j < ki && #[trigger] kept_items@[q] == store.items@[j],
        decreases store.items@.len() - ki,
    {
        proof {
            assert(store.item_space_resolves(ki as int));
        }
        let sp_idx = match store.find_space_by_id(store.items[ki].coworking_id) {
            Some(i) => i,
            None => {
                proof {
                    let w = choose|w: int|
                        0 <= w < store.spaces@.len() && (#[trigger] store.spaces@[w]).id
                            == store.items@[ki as int].coworking_id;
                    assert(false);
                }
                return Err(ProdError::NotFound("No such building".to_owned()));
            },
        };
        if store.spaces[sp_idx].building_id != building_id {
            proof {
                assert forall|w: int|
                    0 <= w < store.spaces@.len() && (#[trigger] store.spaces@[w]).id
                        == store.items@[ki as int].coworking_id implies w == sp_idx as int by {
                    if w != sp_idx as int {
                        assert(store.spaces@[w].id != store.spaces@[sp_idx as int].id);
                    }
                }
                assert(item_outside_building(*store, store.items@[ki as int], building_id));
            }
            let ghost prev = kept_items@;
            let row = crate::models::clone_coworking_item(&store.items[ki]);
            kept_items.push(row);
            proof {
                assert(kept_items@[prev.len() as int] == store.items@[ki as int]);
                assert forall|q: int| 0 <= q < kept_items@.len() implies crate::placement::item_row_in(
                    *store,
                    #[trigger] kept_items@[q],
                ) && item_outside_building(*store, kept_items@[q], building_id) by {
                    if q < prev.len() {
                        assert(kept_items@[q] == prev[q]);
                        assert(crate::placement::item_row_in(*store, prev[q]));
                        assert(item_outside_building(*store, prev[q], building_id));
                    } else {
                        assert(kept_items@[q] == store.items@[ki as int]);
                    }
                }
                assert forall|q1: int, q2: int|
                    0 <= q1 < q2 < kept_items@.len() implies (#[trigger] kept_items@[q1]).id
                    != (#[trigger] kept_items@[q2]).id by {
                    if q2 == prev.len() as int {
                        assert(kept_items@[q1] == prev[q1]);
                        let j1 = choose|j: int|
                            0 <= j < ki as int && prev[q1] == #[trigger] store.items@[j];
                        assert(store.items@[j1].id != store.items@[ki as int].id);
                    } else {
                        assert(kept_items@[q1] == prev[q1]);
                        assert(kept_items@[q2] == prev[q2]);
                    }
                }
                assert forall|j: int|
                    0 <= j < ki as int + 1 && item_outside_building(
                        *store,
                        #[trigger] store.items@[j],
                        building_id,
                    ) implies crate::placement::item_listed(kept_items@, store.items@[j]) by {
                    if j < ki as int {
                        assert(crate::placement::item_listed(prev, store.items@[j]));
                        let p0 = choose|q: int| 0 <= q < prev.len() && #[trigger] prev[q]
                            == store.items@[j];
                        assert(kept_items@[p0] == store.items@[j]);
                    } else {
                        assert(kept_items@[kept_items@.len() - 1] == store.items@[j]);
                    }
                }
                assert forall|q: int| 0 <= q < kept_items@.len() implies exists|j: int|
                    0 <= j < ki as int + 1 && #[trigger] kept_items@[q] == store.items@[j] by {
                    if q < prev.len() {
                        assert(kept_items@[q] == prev[q]);
                        let j1 = choose|j: int|
                            0 <= j < ki as int && prev[q] == #[trigger] store.items@[j];
                        assert(kept_items@[q] == store.items@[j1]);
                    } else {
                        assert(kept_items@[q] == store.items@[ki as int]);
                    }
                }
            }
        } else {
            proof {
                assert(!item_outside_building(*store, store.items@[ki as int], building_id)) by {
                    assert(store.spaces@[sp_idx as int].id == store.items@[ki as int].coworking_id);
                }
            }
        }
        ki = ki + 1;
    }
    let mut kept_bookings: Vec<crate::models::BookingModel> = Vec::new();
    let mut kb: usize = 0;
    while kb < store.bookings.len()
        invariant
            0 <= kb <= store.bookings@.len(),
            forall|q: int|
                0 <= q < kept_bookings@.len() ==> crate::booking::booking_row_in(
                    *store,
                    #[trigger] kept_bookings@[q],
                ) && booking_outside_building(*store, kept_bookings@[q], building_id),
            forall|q1: int, q2: int|
                0 <= q1 < q2 < kept_bookings@.len() ==> (#[trigger] kept_bookings@[q1]).id != (
                #[trigger] kept_bookings@[q2]).id,
            forall|q: int|
                0 <= q < kept_bookings@.len() ==> exists|j: int|
                    0 <= j < kb && #[trigger] kept_bookings@[q] == store.bookings@[j],
        decreases store.bookings@.len() - kb,
    {
        let bo = store.bookings[kb];
        proof {
            assert(store.booking_space_resolves(kb as int));
        }
        let sp_idx = match store.find_space_by_id(bo.coworking_space_id) {
            Some(i) => i,
            None => {
                proof {
                    let w = choose|w: int|
                        0 <= w < store.spaces@.len() && (#[trigger] store.spaces@[w]).id
                            == bo.coworking_space_id && store.spaces@[w].company_id
                            == bo.company_id;
                    assert(false);
                }
                return Err(ProdError::NotFound("No such building".to_owned()));
            },
        };
        if store.spaces[sp_idx].building_id != building_id {
            proof {
                assert forall|w: int|
                    0 <= w < store.spaces@.len() && (#[trigger] store.spaces@[w]).id
                        == bo.coworking_space_id implies w == sp_idx as int by {
                    if w != sp_idx as int {
                        assert(store.spaces@[w].id != store.spaces@[sp_idx as int].id);
                    }
                }
                assert(booking_outside_building(*store, bo, building_id));
            }
            let ghost prev = kept_bookings@;
            kept_bookings.push(bo);
            proof {
                assert(kept_bookings@[prev.len() as int] == store.bookings@[kb as int]);
                assert forall|q: int| 0 <= q < kept_bookings@.len() implies crate::booking::booking_row_in(
                    *store,
                    #[trigger] kept_bookings@[q],
                ) && booking_outside_building(*store, kept_bookings@[q], building_id) by {
                    if q < prev.len() {
                        assert(kept_bookings@[q] == prev[q]);
                        assert(crate::booking::booking_row_in(*store, prev[q]));
                        assert(booking_outside_building(*store, prev[q], building_id));
                    } else {
                        assert(kept_bookings@[q] == store.bookings@[kb as int]);
                    }
                }
                assert forall|q1: int, q2: int|
                    0 <= q1 < q2 < kept_bookings@.len() implies (#[trigger] kept_bookings@[q1]).id
                    != (#[trigger] kept_bookings@[q2]).id by {
                    if q2 == prev.len() as int {
                        assert(kept_bookings@[q1] == prev[q1]);
                        let j1 = choose|j: int|
                            0 <= j < kb as int && prev[q1] == #[trigger] store.bookings@[j];
                        assert(store.bookings@[j1].id != store.bookings@[kb as int].id);
                    } else {
                        assert(kept_bookings@[q1] == prev[q1]);
                        assert(kept_bookings@[q2] == prev[q2]);
                    }
                }
                assert forall|q: int| 0 <= q < kept_bookings@.len() implies exists|j: int|
                    0 <= j < kb as int + 1 && #[trigger] kept_bookings@[q]
                        == store.bookings@[j] by {
                    if q < prev.len() {
                        assert(kept_bookings@[q] == prev[q]);
                        let j1 = choose|j: int|
                            0 <= j < kb as int && prev[q] == #[trigger] store.bookings@[j];
                        assert(kept_bookings@[q] == store.bookings@[j1]);
                    } else {
                        assert(kept_bookings@[q] == store.bookings@[kb as int]);
                    }
                }
            }
        }
        kb = kb + 1;
    }
    let ghost ksp = kept_spaces@;
    let ghost kit = kept_items@;
    let ghost kbo = kept_bookings@;
    store.spaces = kept_spaces;
    store.items = kept_items;
    store.bookings = kept_bookings;
    store.buildings.remove(b_idx);
    proof {
        lemma_delete_building_wf(olds, *store, b_idx as int, building_id, ksp, kit, kbo);
        assert forall|k: int| 0 <= k < store.buildings@.len() implies (
        #[trigger] store.buildings@[k]).id != building_id by {
            olds.buildings@.remove_ensures(b_idx as int);
            assert(store.buildings@[k] == olds.buildings@[crate::booking::shift_past(
                k,
                b_idx as int,
            )]);
        }
    }
    Ok(())
}

} // verus!
