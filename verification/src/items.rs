use vstd::prelude::*;

use crate::errors::ProdError;
use crate::forms::CreateItemTypeForm;
use crate::jwt::models::Claims;
use crate::models::{clone_item_type, clone_opt_string, clone_points, ItemsModel, RoleModel};
use crate::store::{table_extends, Store};

verus! {

/// All tables but the item types hold the same rows in both stores.
pub open spec fn same_except_item_types(a: Store, b: Store) -> bool {
    &&& a.companies@ == b.companies@
    &&& a.buildings@ == b.buildings@
    &&& a.spaces@ == b.spaces@
    &&& a.items@ == b.items@
    &&& a.bookings@ == b.bookings@
    &&& a.users@ == b.users@
    &&& a.pending@ == b.pending@
}

/// Creates an item type for the caller's company. The footprint must
/// hold at least one offset; the icon reference, if any, was stored by
/// the caller beforehand.
pub fn create_items_type(
    store: &mut Store,
    claims: &Claims,
    form: &CreateItemTypeForm,
    icon: Option<String>,
) -> (r: Result<ItemsModel, ProdError>)
    requires
        old(store).wf(),
        old(store).next_id < u64::MAX,
    ensures
        final(store).wf(),
        r is Err ==> *final(store) == *old(store),
        r is Ok <==> claims.role == RoleModel::Admin && form.offsets@.len() >= 1,
        claims.role != RoleModel::Admin ==> (r matches Err(e) && e matches ProdError::Forbidden(m)
            && m@ == "You are not an admin"@),
        claims.role == RoleModel::Admin && form.offsets@.len() == 0 ==> (r matches Err(e) && e
            matches ProdError::ShitHappened(m) && m@ == "Offsets should have at leat one value"@),
        r matches Ok(t) ==> t.id == old(store).next_id && t.name@ == form.name@ && t.description
            == form.description && t.color@ == form.color@ && t.icon == icon && t.offsets@
            == form.offsets@ && t.bookable == form.bookable && t.company_id == claims.company_id
            && final(store).item_types@.len() == old(store).item_types@.len() + 1 && (forall|
            i: int,
        |
            0 <= i < old(store).item_types@.len() ==> final(store).item_types@[i] == old(
                store,
            ).item_types@[i]) && final(store).item_types@[old(store).item_types@.len() as int].id
            == t.id && final(store).next_id == old(store).next_id + 1 && same_except_item_types(
            *final(store),
            *old(store),
        ),
{
    if !matches!(claims.role, RoleModel::Admin) {
        return Err(ProdError::Forbidden("You are not an admin".to_owned()));
    }
    if form.offsets.len() == 0 {
        return Err(ProdError::ShitHappened("Offsets should have at leat one value".to_owned()));
    }
    let t = ItemsModel {
        id: store.next_id,
        name: form.name.clone(),
        description: clone_opt_string(&form.description),
        color: form.color.clone(),
        icon,
        offsets: clone_points(&form.offsets),
        bookable: form.bookable,
        company_id: claims.company_id,
    };
    let returned = clone_item_type(&t);
    let ghost trow = t;
    store.item_types.push(t);
    store.next_id = store.next_id + 1;
    proof {
        let olds = *old(store);
        let news = *store;
        let n = olds.item_types@.len() as int;
        assert(news.item_types@ == olds.item_types@.push(trow));
        assert forall|i: int| 0 <= i < news.item_types@.len() implies (
        #[trigger] news.item_types@[i]).id < news.next_id && news.item_types@[i].offsets@.len()
            >= 1 by {
            if i < n {
                assert(news.item_types@[i] == olds.item_types@[i]);
            }
        }
        assert forall|i: int, j: int|
            0 <= i < j < news.item_types@.len() implies (#[trigger] news.item_types@[i]).id != (
        #[trigger] news.item_types@[j]).id by {
            if j < n {
                assert(news.item_types@[i] == olds.item_types@[i]);
                assert(news.item_types@[j] == olds.item_types@[j]);
            } else {
                assert(news.item_types@[i] == olds.item_types@[i]);
                assert(olds.item_types@[i].id < olds.next_id);
            }
        }
        assert(table_extends(news.item_types@, olds.item_types@));
        crate::store::lemma_companies_wf_from(olds, news);
        crate::store::lemma_buildings_wf_from(olds, news);
        crate::store::lemma_spaces_wf_from(olds, news);
        crate::store::lemma_items_wf_from(olds, news);
        crate::store::lemma_geometry_wf_from(olds, news);
        crate::store::lemma_bookings_wf_from(olds, news);
        crate::store::lemma_users_wf_from(olds, news);
        crate::store::lemma_pending_wf_from(olds, news);
    }
    Ok(returned)
}

/// `t` carries the same data as the store's item-type row `i`.
pub open spec fn type_row_matches(s: Store, i: int, t: ItemsModel) -> bool {
    &&& 0 <= i < s.item_types@.len()
    &&& t.id == s.item_types@[i].id
    &&& t.name@ == s.item_types@[i].name@
    &&& t.description == s.item_types@[i].description
    &&& t.color@ == s.item_types@[i].color@
    &&& t.icon == s.item_types@[i].icon
    &&& t.offsets@ == s.item_types@[i].offsets@
    &&& t.bookable == s.item_types@[i].bookable
    &&& t.company_id == s.item_types@[i].company_id
}

/// `t` carries the data of some item-type row of the store.
pub open spec fn type_row_in(s: Store, t: ItemsModel) -> bool {
    exists|i: int| #[trigger] type_row_matches(s, i, t)
}

/// Some entry of the listing carries the data of row `i`.
pub open spec fn type_listed(s: Store, v: Seq<ItemsModel>, i: int) -> bool {
    exists|p: int| 0 <= p < v.len() && type_row_matches(s, i, #[trigger] v[p])
}

/// Every item type of the caller's company.
#[verifier::loop_isolation(false)]
pub fn list_items_by_company(store: &Store, claims: &Claims) -> (r: Vec<ItemsModel>)
    requires
        store.wf(),
    ensures
        forall|k: int|
            0 <= k < r@.len() ==> type_row_in(*store, #[trigger] r@[k]) && r@[k].company_id
                == claims.company_id,
        forall|i: int|
            0 <= i < store.item_types@.len() && (#[trigger] store.item_types@[i]).company_id
                == claims.company_id ==> type_listed(*store, r@, i),
{
    let mut out: Vec<ItemsModel> = Vec::new();
    let mut k: usize = 0;
    while k < store.item_types.len()
        invariant
            0 <= k <= store.item_types@.len(),
            forall|p: int|
                0 <= p < out@.len() ==> type_row_in(*store, #[trigger] out@[p])
                    && out@[p].company_id == claims.company_id,
            forall|i: int|
                0 <= i < k && (#[trigger] store.item_types@[i]).company_id == claims.company_id
                    ==> type_listed(*store, out@, i),
        decreases store.item_types@.len() - k,
    {
        if store.item_types[k].company_id == claims.company_id {
            let ghost prev = out@;
            let row = clone_item_type(&store.item_types[k]);
            out.push(row);
            proof {
                assert(type_row_matches(*store, k as int, out@[prev.len() as int]));
                assert forall|p: int| 0 <= p < out@.len() implies type_row_in(
                    *store,
                    #[trigger] out@[p],
                ) && out@[p].company_id == claims.company_id by {
                    if p < prev.len() {
                        assert(out@[p] == prev[p]);
                        assert(type_row_in(*store, prev[p]));
                    } else {
                        assert(type_row_matches(*store, k as int, out@[p]));
                    }
                }
                assert forall|i: int|
                    0 <= i <= k as int && (#[trigger] store.item_types@[i]).company_id
                        == claims.company_id implies type_listed(*store, out@, i) by {
                    if i < k as int {
                        assert(type_listed(*store, prev, i));
                        let p0 = choose|p: int|
                            0 <= p < prev.len() && type_row_matches(*store, i, #[trigger] prev[p]);
                        assert(out@[p0] == prev[p0]);
                        assert(type_row_matches(*store, i, out@[p0]));
                    } else {
                        assert(type_row_matches(*store, i, out@[out@.len() - 1]));
                    }
                }
            }
        }
        k = k + 1;
    }
    out
}


/// The item instance this booking reserves is not of the given type.
/// Quantified over every matching instance row, which in a well-formed
/// store is exactly one.
pub open spec fn booking_item_survives(
    s: Store,
    b: crate::models::BookingModel,
    type_id: u64,
) -> bool {
    forall|k: int|
        0 <= k < s.items@.len() && (#[trigger] s.items@[k]).id == b.coworking_item_id
            ==> s.items@[k].item_id != type_id
}

/// Deleting one item type, with every instance of it and every booking
/// of those instances, preserves the store invariants.
#[verifier::rlimit(80)]
proof fn lemma_delete_type_wf(
    olds: Store,
    news: Store,
    t_idx: int,
    type_id: u64,
    kept: Seq<crate::models::CoworkingItemsModel>,
    kept_b: Seq<crate::models::BookingModel>,
)
    requires
        olds.wf(),
        0 <= t_idx < olds.item_types@.len(),
        olds.item_types@[t_idx].id == type_id,
        news.item_types@ == olds.item_types@.remove(t_idx),
        news.items@ == kept,
        forall|q: int|
            0 <= q < kept.len() ==> crate::placement::item_row_in(olds, #[trigger] kept[q])
                && kept[q].item_id != type_id,
        forall|q1: int, q2: int|
            0 <= q1 < q2 < kept.len() ==> (#[trigger] kept[q1]).id != (#[trigger] kept[q2]).id,
        forall|j: int|
            0 <= j < olds.items@.len() && (#[trigger] olds.items@[j]).item_id != type_id
                ==> crate::placement::item_listed(kept, olds.items@[j]),
        news.bookings@ == kept_b,
        forall|q: int|
            0 <= q < kept_b.len() ==> crate::booking::booking_row_in(olds, #[trigger] kept_b[q])
                && booking_item_survives(olds, kept_b[q], type_id),
        forall|q1: int, q2: int|
            0 <= q1 < q2 < kept_b.len() ==> (#[trigger] kept_b[q1]).id != (
            #[trigger] kept_b[q2]).id,
        news.next_id == olds.next_id,
        news.companies@ == olds.companies@,
        news.buildings@ == olds.buildings@,
        news.spaces@ == olds.spaces@,
        news.users@ == olds.users@,
        news.pending@ == olds.pending@,
    ensures
        news.wf(),
{
    olds.item_types@.remove_ensures(t_idx);
    assert forall|i: int| 0 <= i < news.item_types@.len() implies #[trigger] news.item_types@[i]
        == olds.item_types@[crate::booking::shift_past(i, t_idx)] by {}
    assert forall|k: int|
        0 <= k < olds.item_types@.len() && (#[trigger] olds.item_types@[k]).id == type_id implies k
        == t_idx by {
        if k != t_idx {
            assert(olds.item_types@[k].id != olds.item_types@[t_idx].id);
        }
    }
    assert(news.item_types_wf()) by {
        assert forall|i: int| 0 <= i < news.item_types@.len() implies (
        #[trigger] news.item_types@[i]).id < news.next_id && news.item_types@[i].offsets@.len()
            >= 1 by {
            assert(news.item_types@[i] == olds.item_types@[crate::booking::shift_past(i, t_idx)]);
        }
        assert forall|i: int, j: int|
            0 <= i < j < news.item_types@.len() implies (#[trigger] news.item_types@[i]).id != (
        #[trigger] news.item_types@[j]).id by {
            assert(news.item_types@[i] == olds.item_types@[crate::booking::shift_past(i, t_idx)]);
            assert(news.item_types@[j] == olds.item_types@[crate::booking::shift_past(j, t_idx)]);
            assert(crate::booking::shift_past(i, t_idx) < crate::booking::shift_past(j, t_idx));
        }
    }
    assert forall|q: int| 0 <= q < kept.len() implies (#[trigger] kept[q]).id < olds.next_id by {
        assert(crate::placement::item_row_in(olds, kept[q]));
        let j = choose|j: int| 0 <= j < olds.items@.len() && kept[q] == #[trigger] olds.items@[j];
        assert(olds.items@[j].id < olds.next_id);
    }
    assert(news.items_wf()) by {
        assert forall|i: int| 0 <= i < news.items@.len() implies #[trigger] news.item_space_resolves(
            i,
        ) by {
            let j = choose|j: int|
                0 <= j < olds.items@.len() && kept[i] == #[trigger] olds.items@[j];
            assert(olds.item_space_resolves(j));
            let w = choose|w: int|
                0 <= w < olds.spaces@.len() && (#[trigger] olds.spaces@[w]).id
                    == olds.items@[j].coworking_id;
            assert(news.spaces@[w].id == news.items@[i].coworking_id);
        }
        assert forall|i: int| 0 <= i < news.items@.len() implies #[trigger] news.item_type_resolves(
            i,
        ) by {
            let j = choose|j: int|
                0 <= j < olds.items@.len() && kept[i] == #[trigger] olds.items@[j];
            assert(olds.item_type_resolves(j));
            let w = choose|w: int|
                0 <= w < olds.item_types@.len() && (#[trigger] olds.item_types@[w]).id
                    == olds.items@[j].item_id;
            assert(olds.items@[j].item_id != type_id);
            assert(w != t_idx);
            let w2 = if w < t_idx {
                w
            } else {
                w - 1
            };
            assert(news.item_types@[w2] == olds.item_types@[w]);
            assert(news.item_types@[w2].id == news.items@[i].item_id);
        }
        assert forall|ii: int, si: int, ti: int|
            0 <= ii < news.items@.len() && 0 <= si < news.spaces@.len() && 0 <= ti
                < news.item_types@.len() && (#[trigger] news.items@[ii]).coworking_id == (
            #[trigger] news.spaces@[si]).id && news.items@[ii].item_id == (
            #[trigger] news.item_types@[ti]).id implies news.item_types@[ti].company_id
            == news.spaces@[si].company_id by {
            let j = choose|j: int|
                0 <= j < olds.items@.len() && kept[ii] == #[trigger] olds.items@[j];
            let to = crate::booking::shift_past(ti, t_idx);
            assert(news.item_types@[ti] == olds.item_types@[to]);
            assert(news.spaces@[si] == olds.spaces@[si]);
            assert(olds.items@[j].coworking_id == olds.spaces@[si].id);
            assert(olds.items@[j].item_id == olds.item_types@[to].id);
        }
    }
    assert(news.geometry_wf()) by {
        assert forall|ii: int, si: int, ti: int|
            0 <= ii < news.items@.len() && 0 <= si < news.spaces@.len() && 0 <= ti
                < news.item_types@.len() && (#[trigger] news.items@[ii]).coworking_id == (
            #[trigger] news.spaces@[si]).id && news.items@[ii].item_id == (
            #[trigger] news.item_types@[ti]).id implies crate::geometry::all_in_bounds(
            crate::store::placed_cells(news.items@[ii], news.item_types@[ti]),
            news.spaces@[si].width as int,
            news.spaces@[si].height as int,
        ) by {
            let j = choose|j: int|
                0 <= j < olds.items@.len() && kept[ii] == #[trigger] olds.items@[j];
            let to = crate::booking::shift_past(ti, t_idx);
            assert(news.item_types@[ti] == olds.item_types@[to]);
            assert(news.spaces@[si] == olds.spaces@[si]);
            assert(crate::geometry::all_in_bounds(
                crate::store::placed_cells(olds.items@[j], olds.item_types@[to]),
                olds.spaces@[si].width as int,
                olds.spaces@[si].height as int,
            ));
            assert(crate::store::placed_cells(news.items@[ii], news.item_types@[ti])
                == crate::store::placed_cells(olds.items@[j], olds.item_types@[to]));
        }
        assert forall|ii: int, jj: int, ti: int, tj: int|
            0 <= ii < news.items@.len() && 0 <= jj < news.items@.len() && ii != jj && 0 <= ti
                < news.item_types@.len() && 0 <= tj < news.item_types@.len() && (
            #[trigger] news.items@[ii]).coworking_id == (#[trigger] news.items@[jj]).coworking_id
                && news.items@[ii].item_id == (#[trigger] news.item_types@[ti]).id
                && news.items@[jj].item_id == (#[trigger] news.item_types@[tj]).id implies crate::geometry::cells_disjoint(
            crate::store::placed_cells(news.items@[ii], news.item_types@[ti]),
            crate::store::placed_cells(news.items@[jj], news.item_types@[tj]),
        ) by {
            let j1 = choose|j: int|
                0 <= j < olds.items@.len() && kept[ii] == #[trigger] olds.items@[j];
            let j2 = choose|j: int|
                0 <= j < olds.items@.len() && kept[jj] == #[trigger] olds.items@[j];
            if ii < jj {
                assert(kept[ii].id != kept[jj].id);
            } else {
                assert(kept[jj].id != kept[ii].id);
            }
            assert(j1 != j2);
            let to = crate::booking::shift_past(ti, t_idx);
            let to2 = crate::booking::shift_past(tj, t_idx);
            assert(news.item_types@[ti] == olds.item_types@[to]);
            assert(news.item_types@[tj] == olds.item_types@[to2]);
            assert(crate::geometry::cells_disjoint(
                crate::store::placed_cells(olds.items@[j1], olds.item_types@[to]),
                crate::store::placed_cells(olds.items@[j2], olds.item_types@[to2]),
            ));
        }
    }
    assert(news.bookings_wf()) by {
        assert forall|i: int| 0 <= i < news.bookings@.len() implies (#[trigger] news.bookings@[i]).id
            < news.next_id && crate::store::booking_ok(news.bookings@[i]) by {
            let j = choose|j: int|
                0 <= j < olds.bookings@.len() && kept_b[i] == #[trigger] olds.bookings@[j];
            assert(olds.bookings@[j].id < olds.next_id);
        }
        assert forall|i: int, j: int|
            0 <= i < news.bookings@.len() && 0 <= j < news.bookings@.len() && i != j && (
        #[trigger] news.bookings@[i]).coworking_item_id == (
        #[trigger] news.bookings@[j]).coworking_item_id implies !crate::store::overlaps(
            news.bookings@[i],
            news.bookings@[j],
        ) by {
            let s1 = choose|w: int|
                0 <= w < olds.bookings@.len() && kept_b[i] == #[trigger] olds.bookings@[w];
            let s2 = choose|w: int|
                0 <= w < olds.bookings@.len() && kept_b[j] == #[trigger] olds.bookings@[w];
            if i < j {
                assert(kept_b[i].id != kept_b[j].id);
            } else {
                assert(kept_b[j].id != kept_b[i].id);
            }
            assert(s1 != s2);
            assert(!crate::store::overlaps(olds.bookings@[s1], olds.bookings@[s2]));
        }
        assert forall|i: int| 0 <= i < news.bookings@.len() implies #[trigger] news.booking_user_resolves(
            i,
        ) by {
            let j = choose|w: int|
                0 <= w < olds.bookings@.len() && kept_b[i] == #[trigger] olds.bookings@[w];
            assert(olds.booking_user_resolves(j));
            let k0 = choose|k: int|
                0 <= k < olds.users@.len() && (#[trigger] olds.users@[k]).id
                    == olds.bookings@[j].user_id && olds.users@[k].company_id
                    == olds.bookings@[j].company_id;
            assert(news.users@[k0].id == news.bookings@[i].user_id);
            assert(news.users@[k0].company_id == news.bookings@[i].company_id);
        }
        assert forall|i: int| 0 <= i < news.bookings@.len() implies #[trigger] news.booking_space_resolves(
            i,
        ) by {
            let j = choose|w: int|
                0 <= w < olds.bookings@.len() && kept_b[i] == #[trigger] olds.bookings@[w];
            assert(olds.booking_space_resolves(j));
            let k0 = choose|k: int|
                0 <= k < olds.spaces@.len() && (#[trigger] olds.spaces@[k]).id
                    == olds.bookings@[j].coworking_space_id && olds.spaces@[k].company_id
                    == olds.bookings@[j].company_id;
            assert(news.spaces@[k0].id == news.bookings@[i].coworking_space_id);
            assert(news.spaces@[k0].company_id == news.bookings@[i].company_id);
        }
        assert forall|i: int| 0 <= i < news.bookings@.len() implies #[trigger] news.booking_item_resolves(
            i,
        ) by {
            let j = choose|w: int|
                0 <= w < olds.bookings@.len() && kept_b[i] == #[trigger] olds.bookings@[w];
            assert(olds.booking_item_resolves(j));
            let k0 = choose|k: int|
                0 <= k < olds.items@.len() && (#[trigger] olds.items@[k]).id
                    == olds.bookings@[j].coworking_item_id && olds.items@[k].coworking_id
                    == olds.bookings@[j].coworking_space_id;
            assert(booking_item_survives(olds, kept_b[i], type_id));
            assert(olds.items@[k0].item_id != type_id);
            assert(crate::placement::item_listed(kept, olds.items@[k0]));
            let q0 = choose|q: int| 0 <= q < kept.len() && #[trigger] kept[q] == olds.items@[k0];
            assert(news.items@[q0].id == news.bookings@[i].coworking_item_id);
            assert(news.items@[q0].coworking_id == news.bookings@[i].coworking_space_id);
        }
    }
    crate::store::lemma_companies_wf_from(olds, news);
    crate::store::lemma_buildings_wf_from(olds, news);
    crate::store::lemma_spaces_wf_from(olds, news);
    crate::store::lemma_users_wf_from(olds, news);
    crate::store::lemma_pending_wf_from(olds, news);
}

/// Deletes one item type, with every instance placed from it and every
/// booking of those instances, as one unit. A type of another tenant is
/// not deletable and answers the same `NotFound` as an absent id, so a
/// caller can never learn that a foreign id exists.
#[verifier::loop_isolation(false)]
#[verifier::rlimit(30)]
pub fn delete_item_type(store: &mut Store, claims: &Claims, type_id: u64) -> (r: Result<
    (),
    ProdError,
>)
    requires
        old(store).wf(),
    ensures
        final(store).wf(),
        r is Err ==> *final(store) == *old(store),
        claims.role != RoleModel::Admin ==> (r matches Err(e) && e matches ProdError::Forbidden(m)
            && m@ == "You are not an admin"@),
        claims.role == RoleModel::Admin && (forall|k: int|
            0 <= k < old(store).item_types@.len() ==> (#[trigger] old(store).item_types@[k]).id
                != type_id) ==> (r matches Err(e) && e matches ProdError::NotFound(m) && m@
            == "Item does not exist"@),
        claims.role == RoleModel::Admin ==> (forall|k: int|
            0 <= k < old(store).item_types@.len() && (#[trigger] old(store).item_types@[k]).id
                == type_id && old(store).item_types@[k].company_id != claims.company_id ==> (r
                matches Err(e) && e matches ProdError::NotFound(m) && m@
                == "Item does not exist"@)),
        r is Ok ==> (forall|k: int|
            0 <= k < final(store).item_types@.len() ==> (#[trigger] final(store).item_types@[k]).id
                != type_id),
        r is Ok ==> (forall|q: int|
            0 <= q < final(store).items@.len() ==> crate::placement::item_row_in(
                *old(store),
                #[trigger] final(store).items@[q],
            ) && final(store).items@[q].item_id != type_id),
        r is Ok ==> (forall|j: int|
            0 <= j < old(store).items@.len() && (#[trigger] old(store).items@[j]).item_id
                != type_id ==> crate::placement::item_listed(
                final(store).items@,
                old(store).items@[j],
            )),
        r is Ok ==> (forall|q: int|
            0 <= q < final(store).bookings@.len() ==> crate::booking::booking_row_in(
                *old(store),
                #[trigger] final(store).bookings@[q],
            )),
{
    if !matches!(claims.role, RoleModel::Admin) {
        return Err(ProdError::Forbidden("You are not an admin".to_owned()));
    }
    let t_idx = match store.find_item_type(type_id) {
        Some(i) => i,
        None => {
            return Err(ProdError::NotFound("Item does not exist".to_owned()));
        },
    };
    proof {
        assert forall|k: int|
            0 <= k < store.item_types@.len() && (#[trigger] store.item_types@[k]).id
                == type_id implies k == t_idx as int by {
            if k != t_idx as int {
                assert(store.item_types@[k].id != store.item_types@[t_idx as int].id);
            }
        }
    }
    if store.item_types[t_idx].company_id != claims.company_id {
        return Err(ProdError::NotFound("Item does not exist".to_owned()));
    }
    let ghost olds = *store;
    let mut kept_items: Vec<crate::models::CoworkingItemsModel> = Vec::new();
    let mut k: usize = 0;
    while k < store.items.len()
        invariant
            0 <= k <= store.items@.len(),
            forall|q: int|
                0 <= q < kept_items@.len() ==> crate::placement::item_row_in(
                    *store,
                    #[trigger] kept_items@[q],
                ) && kept_items@[q].item_id != type_id,
            forall|q1: int, q2: int|
                0 <= q1 < q2 < kept_items@.len() ==> (#[trigger] kept_items@[q1]).id != (
                #[trigger] kept_items@[q2]).id,
            forall|j: int|
                0 <= j < k && (#[trigger] store.items@[j]).item_id != type_id
                    ==> crate::placement::item_listed(kept_items@, store.items@[j]),
            forall|q: int|
                0 <= q < kept_items@.len() ==> exists|j: int|
                    0 <= j < k && #[trigger] kept_items@[q] == store.items@[j],
        decreases store.items@.len() - k,
    {
        if store.items[k].item_id != type_id {
            let ghost prev = kept_items@;
            let row = crate::models::clone_coworking_item(&store.items[k]);
            kept_items.push(row);
            proof {
                assert(kept_items@[prev.len() as int] == store.items@[k as int]);
                assert forall|q: int| 0 <= q < kept_items@.len() implies crate::placement::item_row_in(
                    *store,
                    #[trigger] kept_items@[q],
                ) && kept_items@[q].item_id != type_id by {
                    if q < prev.len() {
                        assert(kept_items@[q] == prev[q]);
                        assert(crate::placement::item_row_in(*store, prev[q]));
                    } else {
                        assert(kept_items@[q] == store.items@[k as int]);
                    }
                }
                assert forall|q1: int, q2: int|
                    0 <= q1 < q2 < kept_items@.len() implies (#[trigger] kept_items@[q1]).id != (
                #[trigger] kept_items@[q2]).id by {
                    if q2 == prev.len() as int {
                        assert(kept_items@[q1] == prev[q1]);
                        let j1 = choose|j: int|
                            0 <= j < k as int && prev[q1] == #[trigger] store.items@[j];
                        assert(store.items@[j1].id != store.items@[k as int].id);
                    } else {
                        assert(kept_items@[q1] == prev[q1]);
                        assert(kept_items@[q2] == prev[q2]);
                    }
                }
                assert forall|j: int|
                    0 <= j < k as int + 1 && (#[trigger] store.items@[j]).item_id
                        != type_id implies crate::placement::item_listed(
                    kept_items@,
                    store.items@[j],
                ) by {
                    if j < k as int {
                        assert(crate::placement::item_listed(prev, store.items@[j]));
                        let p0 = choose|q: int| 0 <= q < prev.len() && #[trigger] prev[q]
                            == store.items@[j];
                        assert(kept_items@[p0] == store.items@[j]);
                    } else {
                        assert(kept_items@[kept_items@.len() - 1] == store.items@[j]);
                    }
                }
                assert forall|q: int| 0 <= q < kept_items@.len() implies exists|j: int|
                    0 <= j < k as int + 1 && #[trigger] kept_items@[q] == store.items@[j] by {
                    if q < prev.len() {
                        assert(kept_items@[q] == prev[q]);
                        let j1 = choose|j: int|
                            0 <= j < k as int && prev[q] == #[trigger] store.items@[j];
                        assert(kept_items@[q] == store.items@[j1]);
                    } else {
                        assert(kept_items@[q] == store.items@[k as int]);
                    }
                }
            }
        }
        k = k + 1;
    }
    let mut kept_bookings: Vec<crate::models::BookingModel> = Vec::new();
    let mut k2: usize = 0;
    while k2 < store.bookings.len()
        invariant
            0 <= k2 <= store.bookings@.len(),
            forall|q: int|
                0 <= q < kept_bookings@.len() ==> crate::booking::booking_row_in(
                    *store,
                    #[trigger] kept_bookings@[q],
                ) && booking_item_survives(*store, kept_bookings@[q], type_id),
            forall|q1: int, q2: int|
                0 <= q1 < q2 < kept_bookings@.len() ==> (#[trigger] kept_bookings@[q1]).id != (
                #[trigger] kept_bookings@[q2]).id,
            forall|q: int|
                0 <= q < kept_bookings@.len() ==> exists|j: int|
                    0 <= j < k2 && #[trigger] kept_bookings@[q] == store.bookings@[j],
        decreases store.bookings@.len() - k2,
    {
        let bo = store.bookings[k2];
        proof {
            assert(store.booking_item_resolves(k2 as int));
        }
        let item_idx = match store.find_item_by_id(bo.coworking_item_id) {
            Some(i) => i,
            None => {
                proof {
                    let w = choose|w: int|
                        0 <= w < store.items@.len() && (#[trigger] store.items@[w]).id
                            == bo.coworking_item_id && store.items@[w].coworking_id
                            == bo.coworking_space_id;
                    assert(false);
                }
                return Err(ProdError::NotFound("Item does not exist".to_owned()));
            },
        };
        if store.items[item_idx].item_id != type_id {
            proof {
                assert forall|w: int|
                    0 <= w < store.items@.len() && (#[trigger] store.items@[w]).id
                        == bo.coworking_item_id implies w == item_idx as int by {
                    if w != item_idx as int {
                        assert(store.items@[w].id != store.items@[item_idx as int].id);
                    }
                }
                assert(booking_item_survives(*store, bo, type_id));
            }
            let ghost prev = kept_bookings@;
            kept_bookings.push(bo);
            proof {
                assert(kept_bookings@[prev.len() as int] == store.bookings@[k2 as int]);
                assert forall|q: int| 0 <= q < kept_bookings@.len() implies crate::booking::booking_row_in(
                    *store,
                    #[trigger] kept_bookings@[q],
                ) && booking_item_survives(*store, kept_bookings@[q], type_id) by {
                    if q < prev.len() {
                        assert(kept_bookings@[q] == prev[q]);
                        assert(crate::booking::booking_row_in(*store, prev[q]));
                        assert(booking_item_survives(*store, prev[q], type_id));
                    } else {
                        assert(kept_bookings@[q] == store.bookings@[k2 as int]);
                    }
                }
                assert forall|q1: int, q2: int|
                    0 <= q1 < q2 < kept_bookings@.len() implies (#[trigger] kept_bookings@[q1]).id
                    != (#[trigger] kept_bookings@[q2]).id by {
                    if q2 == prev.len() as int {
                        assert(kept_bookings@[q1] == prev[q1]);
                        let j1 = choose|j: int|
                            0 <= j < k2 as int && prev[q1] == #[trigger] store.bookings@[j];
                        assert(store.bookings@[j1].id != store.bookings@[k2 as int].id);
                    } else {
                        assert(kept_bookings@[q1] == prev[q1]);
                        assert(kept_bookings@[q2] == prev[q2]);
                    }
                }
                assert forall|q: int| 0 <= q < kept_bookings@.len() implies exists|j: int|
                    0 <= j < k2 as int + 1 && #[trigger] kept_bookings@[q]
                        == store.bookings@[j] by {
                    if q < prev.len() {
                        assert(kept_bookings@[q] == prev[q]);
                        let j1 = choose|j: int|
                            0 <= j < k2 as int && prev[q] == #[trigger] store.bookings@[j];
                        assert(kept_bookings@[q] == store.bookings@[j1]);
                    } else {
                        assert(kept_bookings@[q] == store.bookings@[k2 as int]);
                    }
                }
            }
        }
        k2 = k2 + 1;
    }
    let ghost kept = kept_items@;
    let ghost kept_b = kept_bookings@;
    store.items = kept_items;
    store.bookings = kept_bookings;
    store.item_types.remove(t_idx);
    proof {
        lemma_delete_type_wf(olds, *store, t_idx as int, type_id, kept, kept_b);
    }
    Ok(())
}

} // verus!
