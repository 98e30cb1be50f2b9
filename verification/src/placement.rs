use vstd::prelude::*;

use crate::errors::ProdError;
use crate::forms::CreateItemForm;
use crate::geometry::{
    abs_cells, absolute_cells, all_in_bounds, cell_fits, cell_in_bounds, cells_disjoint, cells_of,
    check_bounds, check_duplicates, check_overlap, lemma_cells_disjoint_symm, no_duplicate_cells,
};
use crate::jwt::models::Claims;
use crate::models::{clone_coworking_item, clone_opt_string, CoworkingItemsModel, RoleModel};
use crate::store::{placed_cells, Store};

verus! {

/// The caller's company owns an item type with this id.
pub open spec fn type_in_company(s: Store, company_id: u64, type_id: u64) -> bool {
    exists|t: int|
        0 <= t < s.item_types@.len() && (#[trigger] s.item_types@[t]).id == type_id
            && s.item_types@[t].company_id == company_id
}

/// Placing an instance of `type_id` at `base` keeps every cell on the
/// grid of the space `space_id`. Quantified over every matching pair of
/// rows, which in a well-formed store is at most one.
pub open spec fn placement_within_bounds(
    s: Store,
    space_id: u64,
    type_id: u64,
    base: crate::geometry::Point,
) -> bool {
    forall|si: int, ti: int|
        #![trigger s.spaces@[si], s.item_types@[ti]]
        0 <= si < s.spaces@.len() && s.spaces@[si].id == space_id && 0 <= ti
            < s.item_types@.len() && s.item_types@[ti].id == type_id ==> all_in_bounds(
            abs_cells(base, s.item_types@[ti].offsets@),
            s.spaces@[si].width as int,
            s.spaces@[si].height as int,
        )
}

/// Placing an instance of `type_id` at `base` claims a cell already
/// claimed by some item of the space `space_id`.
pub open spec fn placement_overlaps(
    s: Store,
    space_id: u64,
    type_id: u64,
    base: crate::geometry::Point,
) -> bool {
    exists|ti: int, ii: int, tj: int|
        #![trigger s.item_types@[ti], s.items@[ii], s.item_types@[tj]]
        0 <= ti < s.item_types@.len() && s.item_types@[ti].id == type_id && 0 <= ii
            < s.items@.len() && s.items@[ii].coworking_id == space_id && 0 <= tj
            < s.item_types@.len() && s.item_types@[tj].id == s.items@[ii].item_id
            && !cells_disjoint(
            abs_cells(base, s.item_types@[ti].offsets@),
            placed_cells(s.items@[ii], s.item_types@[tj]),
        )
}

/// The caller's company has the space `space_id` inside `building_id`.
pub open spec fn space_resolves(
    s: Store,
    company_id: u64,
    building_id: u64,
    space_id: u64,
) -> bool {
    exists|k: int|
        0 <= k < s.spaces@.len() && (#[trigger] s.spaces@[k]).id == space_id
            && s.spaces@[k].building_id == building_id && s.spaces@[k].company_id == company_id
}

/// Every precondition of a single placement at once.
pub open spec fn can_add_item(
    s: Store,
    claims: Claims,
    building_id: u64,
    coworking_id: u64,
    form: CreateItemForm,
) -> bool {
    &&& claims.role == RoleModel::Admin
    &&& space_resolves(s, claims.company_id, building_id, coworking_id)
    &&& type_in_company(s, claims.company_id, form.item_id)
    &&& placement_within_bounds(s, coworking_id, form.item_id, form.base_point)
    &&& !placement_overlaps(s, coworking_id, form.item_id, form.base_point)
}

/// All tables but the item instances hold the same rows in both stores.
pub open spec fn same_except_items(a: Store, b: Store) -> bool {
    &&& a.companies@ == b.companies@
    &&& a.buildings@ == b.buildings@
    &&& a.spaces@ == b.spaces@
    &&& a.item_types@ == b.item_types@
    &&& a.bookings@ == b.bookings@
    &&& a.users@ == b.users@
    &&& a.pending@ == b.pending@
}

/// Places one item instance: admin-only, tenancy-scoped, bounds-checked
/// against the space's grid, then overlap-checked against every item
/// already placed there. On success the new instance is appended; on any
/// failure the store is untouched.
#[verifier::loop_isolation(false)]
pub fn add_item_to_coworking(
    store: &mut Store,
    claims: &Claims,
    building_id: u64,
    coworking_id: u64,
    form: &CreateItemForm,
) -> (r: Result<CoworkingItemsModel, ProdError>)
    requires
        old(store).wf(),
        old(store).next_id < u64::MAX,
    ensures
        final(store).wf(),
        r is Err ==> *final(store) == *old(store),
        r is Ok <==> can_add_item(*old(store), *claims, building_id, coworking_id, *form),
        r matches Ok(item) ==> item.id == old(store).next_id && item.item_id == form.item_id
            && item.name@ == form.name@ && item.description == form.description
            && item.base_point == form.base_point && item.coworking_id == coworking_id
            && final(store).items@ == old(store).items@.push(item) && final(store).next_id == old(
            store,
        ).next_id + 1 && same_except_items(*final(store), *old(store)),
        claims.role != RoleModel::Admin ==> (r matches Err(e) && e matches ProdError::Forbidden(m)
            && m@ == "You are not an admin"@),
        claims.role == RoleModel::Admin && !space_resolves(
            *old(store),
            claims.company_id,
            building_id,
            coworking_id,
        ) ==> (r matches Err(e) && e matches ProdError::NotFound(m) && m@
            == "No such coworking or building exists"@),
        claims.role == RoleModel::Admin && space_resolves(
            *old(store),
            claims.company_id,
            building_id,
            coworking_id,
        ) && !type_in_company(*old(store), claims.company_id, form.item_id) ==> (r matches Err(e)
            && e matches ProdError::NotFound(m) && m@ == "No such item type exists"@),
        claims.role == RoleModel::Admin && space_resolves(
            *old(store),
            claims.company_id,
            building_id,
            coworking_id,
        ) && type_in_company(*old(store), claims.company_id, form.item_id)
            && !placement_within_bounds(
            *old(store),
            coworking_id,
            form.item_id,
            form.base_point,
        ) ==> (r matches Err(e) && e matches ProdError::Conflict(m) && m@
            == "Item overlaps with borders"@),
        claims.role == RoleModel::Admin && space_resolves(
            *old(store),
            claims.company_id,
            building_id,
            coworking_id,
        ) && type_in_company(*old(store), claims.company_id, form.item_id)
            && placement_within_bounds(*old(store), coworking_id, form.item_id, form.base_point)
            && placement_overlaps(*old(store), coworking_id, form.item_id, form.base_point) ==> (r
            matches Err(e) && e matches ProdError::Conflict(m) && m@
            == "Item overlaps with other item"@),
{
    if !matches!(claims.role, RoleModel::Admin) {
        return Err(ProdError::Forbidden("You are not an admin".to_owned()));
    }
    let space_idx = match store.find_space(claims.company_id, building_id, coworking_id) {
        Some(i) => i,
        None => {
            return Err(ProdError::NotFound("No such coworking or building exists".to_owned()));
        },
    };
    let ty_idx = match store.find_item_type(form.item_id) {
        Some(t) => {
            if store.item_types[t].company_id != claims.company_id {
                proof {
                    assert forall|k: int|
                        0 <= k < store.item_types@.len() && (#[trigger] store.item_types@[k]).id
                            == form.item_id implies k == t as int by {
                        if k != t as int {
                            assert(store.item_types@[k].id != store.item_types@[t as int].id);
                        }
                    }
                }
                return Err(ProdError::NotFound("No such item type exists".to_owned()));
            }
            t
        },
        None => {
            return Err(ProdError::NotFound("No such item type exists".to_owned()));
        },
    };
    proof {
        assert forall|k: int|
            0 <= k < store.spaces@.len() && (#[trigger] store.spaces@[k]).id == coworking_id implies k
            == space_idx as int by {
            if k != space_idx as int {
                assert(store.spaces@[k].id != store.spaces@[space_idx as int].id);
            }
        }
        assert forall|k: int|
            0 <= k < store.item_types@.len() && (#[trigger] store.item_types@[k]).id
                == form.item_id implies k == ty_idx as int by {
            if k != ty_idx as int {
                assert(store.item_types@[k].id != store.item_types@[ty_idx as int].id);
            }
        }
    }
    let width = store.spaces[space_idx].width;
    let height = store.spaces[space_idx].height;
    let ghost new_abs = abs_cells(form.base_point, store.item_types@[ty_idx as int].offsets@);
    let new_cells = match absolute_cells(form.base_point, &store.item_types[ty_idx].offsets) {
        Some(v) => v,
        None => {
            // some translated coordinate overflows i64, so it is out of
            // bounds for every representable grid
            proof {
                let off = choose|i: int|
                    0 <= i < store.item_types@[ty_idx as int].offsets@.len() && !cell_fits(
                        form.base_point,
                        #[trigger] store.item_types@[ty_idx as int].offsets@[i],
                    );
                assert(!all_in_bounds(new_abs, width as int, height as int)) by {
                    assert(new_abs[off] == crate::geometry::cell_of(
                        form.base_point,
                        store.item_types@[ty_idx as int].offsets@[off],
                    ));
                }
            }
            return Err(ProdError::Conflict("Item overlaps with borders".to_owned()));
        },
    };
    if !check_bounds(&new_cells, width, height) {
        return Err(ProdError::Conflict("Item overlaps with borders".to_owned()));
    }
    let mut k: usize = 0;
    while k < store.items.len()
        invariant
            0 <= k <= store.items@.len(),
            forall|ii: int, tj: int|
                #![trigger store.items@[ii], store.item_types@[tj]]
                0 <= ii < k && store.items@[ii].coworking_id == coworking_id && 0 <= tj
                    < store.item_types@.len() && store.item_types@[tj].id
                    == store.items@[ii].item_id ==> cells_disjoint(
                    new_abs,
                    placed_cells(store.items@[ii], store.item_types@[tj]),
                ),
        decreases store.items@.len() - k,
    {
        if store.items[k].coworking_id == coworking_id {
            let other_ty = match store.find_item_type(store.items[k].item_id) {
                Some(t) => t,
                None => {
                    proof {
                        assert(store.item_type_resolves(k as int));
                        let w = choose|t: int|
                            0 <= t < store.item_types@.len() && (#[trigger] store.item_types@[t]).id
                                == store.items@[k as int].item_id;
                        assert(false);
                    }
                    return Err(ProdError::NotFound("No such item type exists".to_owned()));
                },
            };
            proof {
                assert(all_in_bounds(
                    placed_cells(store.items@[k as int], store.item_types@[other_ty as int]),
                    width as int,
                    height as int,
                ));
                assert forall|o: int|
                    0 <= o < store.item_types@[other_ty as int].offsets@.len() implies cell_fits(
                    store.items@[k as int].base_point,
                    #[trigger] store.item_types@[other_ty as int].offsets@[o],
                ) by {
                    assert(cell_in_bounds(
                        placed_cells(store.items@[k as int], store.item_types@[other_ty as int])[o],
                        width as int,
                        height as int,
                    ));
                }
            }
            let other_cells = match absolute_cells(
                store.items[k].base_point,
                &store.item_types[other_ty].offsets,
            ) {
                Some(v) => v,
                None => {
                    proof {
                        assert(false);
                    }
                    return Err(ProdError::NotFound("No such item type exists".to_owned()));
                },
            };
            if check_overlap(&new_cells, &other_cells) {
                proof {
                    assert(!cells_disjoint(
                        new_abs,
                        placed_cells(store.items@[k as int], store.item_types@[other_ty as int]),
                    ));
                }
                return Err(ProdError::Conflict("Item overlaps with other item".to_owned()));
            }
            proof {
                assert forall|tj: int|
                    0 <= tj < store.item_types@.len() && (#[trigger] store.item_types@[tj]).id
                        == store.items@[k as int].item_id implies tj == other_ty as int by {
                    if tj != other_ty as int {
                        assert(store.item_types@[tj].id
                            != store.item_types@[other_ty as int].id);
                    }
                }
            }
        }
        k = k + 1;
    }
    let item = CoworkingItemsModel {
        id: store.next_id,
        item_id: form.item_id,
        name: form.name.clone(),
        description: clone_opt_string(&form.description),
        base_point: form.base_point,
        coworking_id,
    };
    let returned = clone_coworking_item(&item);
    store.items.push(item);
    store.next_id = store.next_id + 1;
    proof {
        let olds = *old(store);
        let news = *store;
        let n = olds.items@.len() as int;
        assert(news.items@ == olds.items@.push(returned));
        assert forall|i: int| 0 <= i < news.items@.len() implies (#[trigger] news.items@[i]).id
            < news.next_id by {
            if i < n {
                assert(news.items@[i] == olds.items@[i]);
            }
        }
        assert forall|i: int, j: int|
            0 <= i < j < news.items@.len() implies (#[trigger] news.items@[i]).id != (
        #[trigger] news.items@[j]).id by {
            if j < n {
                assert(news.items@[i] == olds.items@[i]);
                assert(news.items@[j] == olds.items@[j]);
            } else {
                assert(news.items@[i] == olds.items@[i]);
                assert(olds.items@[i].id < olds.next_id);
            }
        }
        assert(news.items_wf()) by {
            assert forall|i: int| 0 <= i < news.items@.len() implies #[trigger] news.item_space_resolves(
                i,
            ) by {
                if i < n {
                    assert(olds.item_space_resolves(i));
                    assert(news.items@[i] == olds.items@[i]);
                    let it = olds.items@[i];
                    let k0 = choose|k2: int|
                        0 <= k2 < olds.spaces@.len() && (#[trigger] olds.spaces@[k2]).id
                            == it.coworking_id;
                    assert(news.spaces@[k0].id == news.items@[i].coworking_id);
                } else {
                    assert(news.items@[i] == returned);
                    assert(news.spaces@[space_idx as int].id == returned.coworking_id);
                }
            }
            assert forall|i: int| 0 <= i < news.items@.len() implies #[trigger] news.item_type_resolves(
                i,
            ) by {
                if i < n {
                    assert(olds.item_type_resolves(i));
                    assert(news.items@[i] == olds.items@[i]);
                    let it = olds.items@[i];
                    let k0 = choose|k2: int|
                        0 <= k2 < olds.item_types@.len() && (#[trigger] olds.item_types@[k2]).id
                            == it.item_id;
                    assert(news.item_types@[k0].id == news.items@[i].item_id);
                } else {
                    assert(news.items@[i] == returned);
                    assert(news.item_types@[ty_idx as int].id == returned.item_id);
                }
            }
            assert forall|ii: int, si: int, ti: int|
                0 <= ii < news.items@.len() && 0 <= si < news.spaces@.len() && 0 <= ti
                    < news.item_types@.len() && (#[trigger] news.items@[ii]).coworking_id == (
                #[trigger] news.spaces@[si]).id && news.items@[ii].item_id == (
                #[trigger] news.item_types@[ti]).id implies news.item_types@[ti].company_id
                == news.spaces@[si].company_id by {
                if ii < n {
                    assert(news.items@[ii] == olds.items@[ii]);
                } else {
                    assert(news.items@[ii] == returned);
                    assert(si == space_idx as int);
                    assert(ti == ty_idx as int);
                }
            }
        }
        assert(news.geometry_wf()) by {
            assert forall|ii: int, si: int, ti: int|
                0 <= ii < news.items@.len() && 0 <= si < news.spaces@.len() && 0 <= ti
                    < news.item_types@.len() && (#[trigger] news.items@[ii]).coworking_id == (
                #[trigger] news.spaces@[si]).id && news.items@[ii].item_id == (
                #[trigger] news.item_types@[ti]).id implies all_in_bounds(
                placed_cells(news.items@[ii], news.item_types@[ti]),
                news.spaces@[si].width as int,
                news.spaces@[si].height as int,
            ) by {
                if ii < n {
                    assert(news.items@[ii] == olds.items@[ii]);
                } else {
                    assert(news.items@[ii] == returned);
                    assert(si == space_idx as int);
                    assert(ti == ty_idx as int);
                    assert(placed_cells(returned, news.item_types@[ti]) == new_abs);
                }
            }
            assert forall|ii: int, jj: int, ti: int, tj: int|
                0 <= ii < news.items@.len() && 0 <= jj < news.items@.len() && ii != jj && 0 <= ti
                    < news.item_types@.len() && 0 <= tj < news.item_types@.len() && (
                #[trigger] news.items@[ii]).coworking_id == (#[trigger] news.items@[jj]).coworking_id
                    && news.items@[ii].item_id == (#[trigger] news.item_types@[ti]).id
                    && news.items@[jj].item_id == (#[trigger] news.item_types@[tj]).id implies cells_disjoint(
                placed_cells(news.items@[ii], news.item_types@[ti]),
                placed_cells(news.items@[jj], news.item_types@[tj]),
            ) by {
                if ii < n && jj < n {
                    assert(news.items@[ii] == olds.items@[ii]);
                    assert(news.items@[jj] == olds.items@[jj]);
                } else if ii == n && jj < n {
                    assert(news.items@[ii] == returned);
                    assert(news.items@[jj] == olds.items@[jj]);
                    assert(ti == ty_idx as int);
                    assert(placed_cells(returned, news.item_types@[ti]) == new_abs);
                    assert(cells_disjoint(
                        new_abs,
                        placed_cells(olds.items@[jj], olds.item_types@[tj]),
                    ));
                } else if jj == n && ii < n {
                    assert(news.items@[jj] == returned);
                    assert(news.items@[ii] == olds.items@[ii]);
                    assert(tj == ty_idx as int);
                    assert(placed_cells(returned, news.item_types@[tj]) == new_abs);
                    assert(cells_disjoint(
                        new_abs,
                        placed_cells(olds.items@[ii], olds.item_types@[ti]),
                    ));
                    lemma_cells_disjoint_symm(
                        new_abs,
                        placed_cells(olds.items@[ii], olds.item_types@[ti]),
                    );
                }
            }
        }
        crate::store::lemma_companies_wf_from(olds, news);
        crate::store::lemma_buildings_wf_from(olds, news);
        crate::store::lemma_spaces_wf_from(olds, news);
        crate::store::lemma_item_types_wf_from(olds, news);
        crate::store::lemma_bookings_wf_from(olds, news);
        crate::store::lemma_users_wf_from(olds, news);
        crate::store::lemma_pending_wf_from(olds, news);
    }
    Ok(returned)
}

/// `it` is one of the store's item rows.
pub open spec fn item_row_in(s: Store, it: CoworkingItemsModel) -> bool {
    exists|i: int| 0 <= i < s.items@.len() && it == #[trigger] s.items@[i]
}

/// `it` occurs in the listing `v`.
pub open spec fn item_listed(v: Seq<CoworkingItemsModel>, it: CoworkingItemsModel) -> bool {
    exists|p: int| 0 <= p < v.len() && #[trigger] v[p] == it
}

/// Lists the items placed in one coworking space of the caller's tenant.
#[verifier::loop_isolation(false)]
pub fn get_items_by_coworking(
    store: &Store,
    claims: &Claims,
    building_id: u64,
    coworking_id: u64,
) -> (r: Result<Vec<CoworkingItemsModel>, ProdError>)
    requires
        store.wf(),
    ensures
        r matches Err(e) ==> e matches ProdError::NotFound(m) && m@
            == "No such coworking or building exists"@,
        r is Err <==> !space_resolves(*store, claims.company_id, building_id, coworking_id),
        r matches Ok(v) ==> (forall|k: int|
            0 <= k < v@.len() ==> item_row_in(*store, #[trigger] v@[k]) && v@[k].coworking_id
                == coworking_id),
        r matches Ok(v) ==> (forall|i: int|
            0 <= i < store.items@.len() && (#[trigger] store.items@[i]).coworking_id
                == coworking_id ==> item_listed(v@, store.items@[i])),
{
    if store.find_space(claims.company_id, building_id, coworking_id).is_none() {
        return Err(ProdError::NotFound("No such coworking or building exists".to_owned()));
    }
    let mut out: Vec<CoworkingItemsModel> = Vec::new();
    let mut k: usize = 0;
    while k < store.items.len()
        invariant
            0 <= k <= store.items@.len(),
            forall|p: int|
                0 <= p < out@.len() ==> item_row_in(*store, #[trigger] out@[p])
                    && out@[p].coworking_id == coworking_id,
            forall|i: int|
                0 <= i < k && (#[trigger] store.items@[i]).coworking_id == coworking_id
                    ==> item_listed(out@, store.items@[i]),
        decreases store.items@.len() - k,
    {
        if store.items[k].coworking_id == coworking_id {
            let ghost prev = out@;
            let row = clone_coworking_item(&store.items[k]);
            out.push(row);
            proof {
                assert forall|p: int| 0 <= p < out@.len() implies item_row_in(
                    *store,
                    #[trigger] out@[p],
                ) && out@[p].coworking_id == coworking_id by {
                    if p < prev.len() {
                        assert(out@[p] == prev[p]);
                        assert(item_row_in(*store, prev[p]));
                    } else {
                        assert(out@[p] == store.items@[k as int]);
                    }
                }
                assert forall|i: int|
                    0 <= i <= k as int && (#[trigger] store.items@[i]).coworking_id
                        == coworking_id implies item_listed(out@, store.items@[i]) by {
                    if i < k as int {
                        assert(item_listed(prev, store.items@[i]));
                        let p0 = choose|p: int| 0 <= p < prev.len() && prev[p]
                            == store.items@[i];
                        assert(out@[p0] == store.items@[i]);
                    } else {
                        assert(out@[out@.len() - 1] == store.items@[i]);
                    }
                }
            }
        }
        k = k + 1;
    }
    Ok(out)
}


/// The footprint of the item type with this id, if it exists; the empty
/// footprint otherwise. In a well-formed store ids are unique, so this
/// names the one matching row.
pub open spec fn spec_type_offsets(s: Store, type_id: u64) -> Seq<crate::geometry::Point> {
    if exists|t: int| 0 <= t < s.item_types@.len() && (#[trigger] s.item_types@[t]).id == type_id {
        let t = choose|t: int|
            0 <= t < s.item_types@.len() && (#[trigger] s.item_types@[t]).id == type_id;
        s.item_types@[t].offsets@
    } else {
        Seq::empty()
    }
}

/// The absolute cells one bulk-placement entry claims.
pub open spec fn put_seg(s: Store, f: CreateItemForm) -> Seq<(int, int)> {
    abs_cells(f.base_point, spec_type_offsets(s, f.item_id))
}

/// Some cell is claimed twice across the whole bulk placement: within
/// one entry, or by two different entries.
pub open spec fn put_overlap_exists(s: Store, forms: Seq<CreateItemForm>) -> bool {
    ||| exists|p: int|
        0 <= p < forms.len() && !no_duplicate_cells(put_seg(s, #[trigger] forms[p]))
    ||| exists|p: int, q: int|
        #![trigger forms[p], forms[q]]
        0 <= p < q < forms.len() && !cells_disjoint(put_seg(s, forms[p]), put_seg(s, forms[q]))
}

/// Every entry of the bulk placement names a type of the caller's tenant
/// and stays on the space's grid.
pub open spec fn put_forms_ok(
    s: Store,
    company_id: u64,
    space_id: u64,
    forms: Seq<CreateItemForm>,
) -> bool {
    forall|p: int|
        0 <= p < forms.len() ==> type_in_company(s, company_id, (#[trigger] forms[p]).item_id)
            && placement_within_bounds(s, space_id, forms[p].item_id, forms[p].base_point)
}


/// After a bulk replacement commits, the store is well-formed again: the
/// kept rows come from the old store and avoid the replaced space, the
/// new rows carry fresh sequential ids, resolvable types, in-bounds
/// cells, and pairwise disjoint footprints.
#[verifier::rlimit(100)]
#[verifier::spinoff_prover]
proof fn lemma_put_commit_wf(
    olds: Store,
    news: Store,
    claims: Claims,
    coworking_id: u64,
    space_idx: int,
    forms: Seq<CreateItemForm>,
    newi: Seq<CoworkingItemsModel>,
    kept: Seq<CoworkingItemsModel>,
    kept_b: Seq<crate::models::BookingModel>,
)
    requires
        olds.wf(),
        0 <= space_idx < olds.spaces@.len(),
        olds.spaces@[space_idx].id == coworking_id,
        olds.spaces@[space_idx].company_id == claims.company_id,
        newi.len() == forms.len(),
        olds.next_id + forms.len() <= u64::MAX,
        news.items@.len() == kept.len() + newi.len(),
        forall|i: int| 0 <= i < kept.len() ==> #[trigger] news.items@[i] == kept[i],
        forall|i: int| 0 <= i < newi.len() ==> #[trigger] news.items@[kept.len() + i] == newi[i],
        forall|q: int|
            0 <= q < kept.len() ==> item_row_in(olds, #[trigger] kept[q]) && kept[q].coworking_id
                != coworking_id,
        forall|q1: int, q2: int|
            0 <= q1 < q2 < kept.len() ==> (#[trigger] kept[q1]).id != (#[trigger] kept[q2]).id,
        forall|j: int|
            0 <= j < olds.items@.len() && (#[trigger] olds.items@[j]).coworking_id != coworking_id
                ==> item_listed(kept, olds.items@[j]),
        forall|i: int|
            0 <= i < newi.len() ==> (#[trigger] newi[i]).id == olds.next_id + i && newi[i].item_id
                == forms[i].item_id && newi[i].base_point == forms[i].base_point
                && newi[i].coworking_id == coworking_id,
        put_forms_ok(olds, claims.company_id, coworking_id, forms),
        forall|i: int, j: int|
            #![trigger forms[i], forms[j]]
            0 <= i < j < forms.len() ==> cells_disjoint(
                put_seg(olds, forms[i]),
                put_seg(olds, forms[j]),
            ),
        news.bookings@ == kept_b,
        forall|q: int|
            0 <= q < kept_b.len() ==> crate::booking::booking_row_in(olds, #[trigger] kept_b[q])
                && kept_b[q].coworking_space_id != coworking_id,
        forall|q1: int, q2: int|
            0 <= q1 < q2 < kept_b.len() ==> (#[trigger] kept_b[q1]).id != (
            #[trigger] kept_b[q2]).id,
        news.next_id == olds.next_id + forms.len(),
        news.companies@ == olds.companies@,
        news.buildings@ == olds.buildings@,
        news.spaces@ == olds.spaces@,
        news.item_types@ == olds.item_types@,
        news.users@ == olds.users@,
        news.pending@ == olds.pending@,
    ensures
        news.wf(),
{
    let nk = kept.len() as int;
    assert forall|k: int|
        0 <= k < olds.spaces@.len() && (#[trigger] olds.spaces@[k]).id == coworking_id implies k
        == space_idx by {
        if k != space_idx {
            assert(olds.spaces@[k].id != olds.spaces@[space_idx].id);
        }
    }
    // every kept row keeps the id bound of its source
    assert forall|q: int| 0 <= q < kept.len() implies (#[trigger] kept[q]).id < olds.next_id by {
        assert(item_row_in(olds, kept[q]));
        let j = choose|j: int| 0 <= j < olds.items@.len() && kept[q] == #[trigger] olds.items@[j];
        assert(olds.items@[j].id < olds.next_id);
    }
    assert forall|i: int| 0 <= i < news.items@.len() implies (#[trigger] news.items@[i]).id
        < news.next_id by {
        if i < nk {
            assert(news.items@[i] == kept[i]);
        } else {
            assert(news.items@[nk + (i - nk)] == newi[i - nk]);
            assert(news.items@[i] == newi[i - nk]);
        }
    }
    assert forall|i: int, j: int|
        0 <= i < j < news.items@.len() implies (#[trigger] news.items@[i]).id != (
    #[trigger] news.items@[j]).id by {
        if i < nk && j < nk {
            assert(news.items@[i] == kept[i]);
            assert(news.items@[j] == kept[j]);
        } else if i < nk && j >= nk {
            assert(news.items@[i] == kept[i]);
            assert(news.items@[nk + (j - nk)] == newi[j - nk]);
            assert(news.items@[j] == newi[j - nk]);
            assert(kept[i].id < olds.next_id);
        } else {
            assert(news.items@[nk + (i - nk)] == newi[i - nk]);
            assert(news.items@[i] == newi[i - nk]);
            assert(news.items@[nk + (j - nk)] == newi[j - nk]);
            assert(news.items@[j] == newi[j - nk]);
        }
    }
    assert(news.items_wf()) by {
        assert forall|i: int| 0 <= i < news.items@.len() implies #[trigger] news.item_space_resolves(
            i,
        ) by {
            if i < nk {
                assert(news.items@[i] == kept[i]);
                assert(item_row_in(olds, kept[i]));
                let j = choose|j: int|
                    0 <= j < olds.items@.len() && kept[i] == #[trigger] olds.items@[j];
                assert(olds.item_space_resolves(j));
                let w = choose|w: int|
                    0 <= w < olds.spaces@.len() && (#[trigger] olds.spaces@[w]).id
                        == olds.items@[j].coworking_id;
                assert(news.spaces@[w].id == news.items@[i].coworking_id);
            } else {
                assert(news.items@[nk + (i - nk)] == newi[i - nk]);
                assert(news.items@[i] == newi[i - nk]);
                assert(news.spaces@[space_idx].id == news.items@[i].coworking_id);
            }
        }
        assert forall|i: int| 0 <= i < news.items@.len() implies #[trigger] news.item_type_resolves(
            i,
        ) by {
            if i < nk {
                assert(news.items@[i] == kept[i]);
                assert(item_row_in(olds, kept[i]));
                let j = choose|j: int|
                    0 <= j < olds.items@.len() && kept[i] == #[trigger] olds.items@[j];
                assert(olds.item_type_resolves(j));
                let w = choose|w: int|
                    0 <= w < olds.item_types@.len() && (#[trigger] olds.item_types@[w]).id
                        == olds.items@[j].item_id;
                assert(news.item_types@[w].id == news.items@[i].item_id);
            } else {
                assert(news.items@[nk + (i - nk)] == newi[i - nk]);
                assert(news.items@[i] == newi[i - nk]);
                assert(type_in_company(olds, claims.company_id, forms[i - nk].item_id));
                let w = choose|t: int|
                    0 <= t < olds.item_types@.len() && (#[trigger] olds.item_types@[t]).id
                        == forms[i - nk].item_id && olds.item_types@[t].company_id
                        == claims.company_id;
                assert(news.item_types@[w].id == news.items@[i].item_id);
            }
        }
        assert forall|ii: int, si: int, ti: int|
            0 <= ii < news.items@.len() && 0 <= si < news.spaces@.len() && 0 <= ti
                < news.item_types@.len() && (#[trigger] news.items@[ii]).coworking_id == (
            #[trigger] news.spaces@[si]).id && news.items@[ii].item_id == (
            #[trigger] news.item_types@[ti]).id implies news.item_types@[ti].company_id
            == news.spaces@[si].company_id by {
            assert(news.spaces@[si] == olds.spaces@[si]);
            assert(news.item_types@[ti] == olds.item_types@[ti]);
            if ii < nk {
                assert(news.items@[ii] == kept[ii]);
                assert(item_row_in(olds, kept[ii]));
                let j = choose|j: int|
                    0 <= j < olds.items@.len() && kept[ii] == #[trigger] olds.items@[j];
                assert(olds.items@[j].coworking_id == olds.spaces@[si].id);
                assert(olds.items@[j].item_id == olds.item_types@[ti].id);
            } else {
                assert(news.items@[nk + (ii - nk)] == newi[ii - nk]);
                assert(news.items@[ii] == newi[ii - nk]);
                assert(si == space_idx);
                assert(type_in_company(olds, claims.company_id, forms[ii - nk].item_id));
                let w = choose|t: int|
                    0 <= t < olds.item_types@.len() && (#[trigger] olds.item_types@[t]).id
                        == forms[ii - nk].item_id && olds.item_types@[t].company_id
                        == claims.company_id;
                if ti != w {
                    assert(olds.item_types@[ti].id != olds.item_types@[w].id);
                }
            }
        }
    }
    assert(news.geometry_wf()) by {
        assert forall|ii: int, si: int, ti: int|
            0 <= ii < news.items@.len() && 0 <= si < news.spaces@.len() && 0 <= ti
                < news.item_types@.len() && (#[trigger] news.items@[ii]).coworking_id == (
            #[trigger] news.spaces@[si]).id && news.items@[ii].item_id == (
            #[trigger] news.item_types@[ti]).id implies all_in_bounds(
            placed_cells(news.items@[ii], news.item_types@[ti]),
            news.spaces@[si].width as int,
            news.spaces@[si].height as int,
        ) by {
            assert(news.spaces@[si] == olds.spaces@[si]);
            assert(news.item_types@[ti] == olds.item_types@[ti]);
            if ii < nk {
                assert(news.items@[ii] == kept[ii]);
                assert(item_row_in(olds, kept[ii]));
                let j = choose|j: int|
                    0 <= j < olds.items@.len() && kept[ii] == #[trigger] olds.items@[j];
                assert(all_in_bounds(
                    placed_cells(olds.items@[j], olds.item_types@[ti]),
                    olds.spaces@[si].width as int,
                    olds.spaces@[si].height as int,
                ));
                assert(placed_cells(news.items@[ii], news.item_types@[ti]) == placed_cells(
                    olds.items@[j],
                    olds.item_types@[ti],
                ));
            } else {
                let f = forms[ii - nk];
                assert(news.items@[nk + (ii - nk)] == newi[ii - nk]);
                assert(news.items@[ii] == newi[ii - nk]);
                assert(si == space_idx);
                assert(placement_within_bounds(olds, coworking_id, f.item_id, f.base_point));
                assert(all_in_bounds(
                    abs_cells(f.base_point, olds.item_types@[ti].offsets@),
                    olds.spaces@[si].width as int,
                    olds.spaces@[si].height as int,
                ));
                assert(placed_cells(news.items@[ii], news.item_types@[ti]) == abs_cells(
                    f.base_point,
                    olds.item_types@[ti].offsets@,
                ));
            }
        }
        assert forall|ii: int, jj: int, ti: int, tj: int|
            0 <= ii < news.items@.len() && 0 <= jj < news.items@.len() && ii != jj && 0 <= ti
                < news.item_types@.len() && 0 <= tj < news.item_types@.len() && (
            #[trigger] news.items@[ii]).coworking_id == (#[trigger] news.items@[jj]).coworking_id
                && news.items@[ii].item_id == (#[trigger] news.item_types@[ti]).id
                && news.items@[jj].item_id == (#[trigger] news.item_types@[tj]).id implies cells_disjoint(
            placed_cells(news.items@[ii], news.item_types@[ti]),
            placed_cells(news.items@[jj], news.item_types@[tj]),
        ) by {
            assert(news.item_types@[ti] == olds.item_types@[ti]);
            assert(news.item_types@[tj] == olds.item_types@[tj]);
            if ii < nk && jj < nk {
                assert(news.items@[ii] == kept[ii]);
                assert(news.items@[jj] == kept[jj]);
                assert(item_row_in(olds, kept[ii]));
                assert(item_row_in(olds, kept[jj]));
                let j1 = choose|j: int|
                    0 <= j < olds.items@.len() && kept[ii] == #[trigger] olds.items@[j];
                let j2 = choose|j: int|
                    0 <= j < olds.items@.len() && kept[jj] == #[trigger] olds.items@[j];
                assert(kept[ii].id != kept[jj].id);
                assert(j1 != j2);
                assert(cells_disjoint(
                    placed_cells(olds.items@[j1], olds.item_types@[ti]),
                    placed_cells(olds.items@[j2], olds.item_types@[tj]),
                ));
            } else if ii >= nk && jj >= nk {
                let i1 = ii - nk;
                let i2 = jj - nk;
                assert(news.items@[nk + i1] == newi[i1]);
                assert(news.items@[ii] == newi[i1]);
                assert(news.items@[nk + i2] == newi[i2]);
                assert(news.items@[jj] == newi[i2]);
                assert(type_in_company(olds, claims.company_id, forms[i1].item_id));
                let w1 = choose|t: int|
                    0 <= t < olds.item_types@.len() && (#[trigger] olds.item_types@[t]).id
                        == forms[i1].item_id && olds.item_types@[t].company_id
                        == claims.company_id;
                assert(spec_type_offsets(olds, forms[i1].item_id)
                    == olds.item_types@[choose|t: int|
                    0 <= t < olds.item_types@.len() && (#[trigger] olds.item_types@[t]).id
                        == forms[i1].item_id].offsets@);
                let c1 = choose|t: int|
                    0 <= t < olds.item_types@.len() && (#[trigger] olds.item_types@[t]).id
                        == forms[i1].item_id;
                if c1 != ti {
                    assert(olds.item_types@[c1].id != olds.item_types@[ti].id);
                }
                assert(placed_cells(news.items@[ii], news.item_types@[ti]) == put_seg(
                    olds,
                    forms[i1],
                ));
                let c2 = choose|t: int|
                    0 <= t < olds.item_types@.len() && (#[trigger] olds.item_types@[t]).id
                        == forms[i2].item_id;
                assert(type_in_company(olds, claims.company_id, forms[i2].item_id));
                if c2 != tj {
                    assert(olds.item_types@[c2].id != olds.item_types@[tj].id);
                }
                assert(placed_cells(news.items@[jj], news.item_types@[tj]) == put_seg(
                    olds,
                    forms[i2],
                ));
                if i1 < i2 {
                    assert(cells_disjoint(put_seg(olds, forms[i1]), put_seg(olds, forms[i2])));
                } else {
                    assert(cells_disjoint(put_seg(olds, forms[i2]), put_seg(olds, forms[i1])));
                    lemma_cells_disjoint_symm(put_seg(olds, forms[i2]), put_seg(olds, forms[i1]));
                }
            } else if ii < nk {
                assert(news.items@[ii] == kept[ii]);
                assert(news.items@[nk + (jj - nk)] == newi[jj - nk]);
                assert(news.items@[jj] == newi[jj - nk]);
                assert(kept[ii].coworking_id != coworking_id);
                assert(false);
            } else {
                assert(news.items@[jj] == kept[jj]);
                assert(news.items@[nk + (ii - nk)] == newi[ii - nk]);
                assert(news.items@[ii] == newi[ii - nk]);
                assert(kept[jj].coworking_id != coworking_id);
                assert(false);
            }
        }
    }
    assert(news.bookings_wf()) by {
        assert forall|i: int| 0 <= i < news.bookings@.len() implies (#[trigger] news.bookings@[i]).id
            < news.next_id && crate::store::booking_ok(news.bookings@[i]) by {
            assert(crate::booking::booking_row_in(olds, kept_b[i]));
            let j = choose|j: int|
                0 <= j < olds.bookings@.len() && kept_b[i] == #[trigger] olds.bookings@[j];
            assert(olds.bookings@[j].id < olds.next_id);
        }
        assert forall|i: int, j: int|
            0 <= i < news.bookings@.len() && 0 <= j < news.bookings@.len() && i != j && (
        #[trigger] news.bookings@[i]).coworking_item_id == (
        #[trigger] news.bookings@[j]).coworking_item_id implies !crate::store::overlaps(
            news.bookings@[i],
            news.bookings@[j],
        ) by {
            let s1 = choose|w: int|
                0 <= w < olds.bookings@.len() && kept_b[i] == #[trigger] olds.bookings@[w];
            let s2 = choose|w: int|
                0 <= w < olds.bookings@.len() && kept_b[j] == #[trigger] olds.bookings@[w];
            if i < j {
                assert(kept_b[i].id != kept_b[j].id);
            } else {
                assert(kept_b[j].id != kept_b[i].id);
            }
            assert(s1 != s2);
            assert(!crate::store::overlaps(olds.bookings@[s1], olds.bookings@[s2]));
        }
        assert forall|i: int| 0 <= i < news.bookings@.len() implies #[trigger] news.booking_user_resolves(
            i,
        ) by {
            let j = choose|w: int|
                0 <= w < olds.bookings@.len() && kept_b[i] == #[trigger] olds.bookings@[w];
            assert(olds.booking_user_resolves(j));
            let k0 = choose|k: int|
                0 <= k < olds.users@.len() && (#[trigger] olds.users@[k]).id
                    == olds.bookings@[j].user_id && olds.users@[k].company_id
                    == olds.bookings@[j].company_id;
            assert(news.users@[k0].id == news.bookings@[i].user_id);
            assert(news.users@[k0].company_id == news.bookings@[i].company_id);
        }
        assert forall|i: int| 0 <= i < news.bookings@.len() implies #[trigger] news.booking_space_resolves(
            i,
        ) by {
            let j = choose|w: int|
                0 <= w < olds.bookings@.len() && kept_b[i] == #[trigger] olds.bookings@[w];
            assert(olds.booking_space_resolves(j));
            let k0 = choose|k: int|
                0 <= k < olds.spaces@.len() && (#[trigger] olds.spaces@[k]).id
                    == olds.bookings@[j].coworking_space_id && olds.spaces@[k].company_id
                    == olds.bookings@[j].company_id;
            assert(news.spaces@[k0].id == news.bookings@[i].coworking_space_id);
            assert(news.spaces@[k0].company_id == news.bookings@[i].company_id);
        }
        assert forall|i: int| 0 <= i < news.bookings@.len() implies #[trigger] news.booking_item_resolves(
            i,
        ) by {
            let j = choose|w: int|
                0 <= w < olds.bookings@.len() && kept_b[i] == #[trigger] olds.bookings@[w];
            assert(olds.booking_item_resolves(j));
            let k0 = choose|k: int|
                0 <= k < olds.items@.len() && (#[trigger] olds.items@[k]).id
                    == olds.bookings@[j].coworking_item_id && olds.items@[k].coworking_id
                    == olds.bookings@[j].coworking_space_id;
            assert(olds.items@[k0].coworking_id != coworking_id);
            assert(item_listed(kept, olds.items@[k0]));
            let q0 = choose|q: int| 0 <= q < kept.len() && #[trigger] kept[q] == olds.items@[k0];
            assert(news.items@[q0] == olds.items@[k0]);
            assert(news.items@[q0].id == news.bookings@[i].coworking_item_id);
            assert(news.items@[q0].coworking_id == news.bookings@[i].coworking_space_id);
        }
    }
    crate::store::lemma_companies_wf_from(olds, news);
    crate::store::lemma_buildings_wf_from(olds, news);
    crate::store::lemma_spaces_wf_from(olds, news);
    crate::store::lemma_item_types_wf_from(olds, news);
    crate::store::lemma_users_wf_from(olds, news);
    crate::store::lemma_pending_wf_from(olds, news);
}

/// Replaces every item of one coworking space with the given placements,
/// as one atomic unit: each entry is bounds-checked fail-fast, then one
/// overlap check runs across the full accumulated cell collection. Any
/// failure leaves the store untouched; bookings of the space fall with
/// its old items.
#[verifier::loop_isolation(false)]
#[verifier::rlimit(100)]
pub fn put_items_in_coworking(
    store: &mut Store,
    claims: &Claims,
    building_id: u64,
    coworking_id: u64,
    forms: &Vec<CreateItemForm>,
) -> (r: Result<Vec<CoworkingItemsModel>, ProdError>)
    requires
        old(store).wf(),
        old(store).next_id + old(store).items@.len() + forms@.len() <= u64::MAX,
    ensures
        final(store).wf(),
        r is Err ==> *final(store) == *old(store),
        claims.role != RoleModel::Admin ==> (r matches Err(e) && e matches ProdError::Forbidden(m)
            && m@ == "You are not an admin"@),
        claims.role == RoleModel::Admin && !space_resolves(
            *old(store),
            claims.company_id,
            building_id,
            coworking_id,
        ) ==> (r matches Err(e) && e matches ProdError::NotFound(m) && m@
            == "No such coworking or building exists"@),
        r is Ok <==> claims.role == RoleModel::Admin && space_resolves(
            *old(store),
            claims.company_id,
            building_id,
            coworking_id,
        ) && put_forms_ok(*old(store), claims.company_id, coworking_id, forms@)
            && !put_overlap_exists(*old(store), forms@),
        claims.role == RoleModel::Admin && space_resolves(
            *old(store),
            claims.company_id,
            building_id,
            coworking_id,
        ) && put_forms_ok(*old(store), claims.company_id, coworking_id, forms@)
            && put_overlap_exists(*old(store), forms@) ==> (r matches Err(e) && e
            matches ProdError::Conflict(m) && m@ == "Item overlaps with other item"@),
        claims.role == RoleModel::Admin && space_resolves(
            *old(store),
            claims.company_id,
            building_id,
            coworking_id,
        ) ==> (forall|k: int|
            0 <= k < forms@.len() && (forall|j: int|
                0 <= j < k ==> type_in_company(
                    *old(store),
                    claims.company_id,
                    (#[trigger] forms@[j]).item_id,
                ) && placement_within_bounds(
                    *old(store),
                    coworking_id,
                    forms@[j].item_id,
                    forms@[j].base_point,
                )) && !type_in_company(
                *old(store),
                claims.company_id,
                (#[trigger] forms@[k]).item_id,
            ) ==> (r matches Err(e) && e matches ProdError::NotFound(m) && m@
                == "No such item type exists"@)),
        claims.role == RoleModel::Admin && space_resolves(
            *old(store),
            claims.company_id,
            building_id,
            coworking_id,
        ) ==> (forall|k: int|
            0 <= k < forms@.len() && (forall|j: int|
                0 <= j < k ==> type_in_company(
                    *old(store),
                    claims.company_id,
                    (#[trigger] forms@[j]).item_id,
                ) && placement_within_bounds(
                    *old(store),
                    coworking_id,
                    forms@[j].item_id,
                    forms@[j].base_point,
                )) && type_in_company(
                *old(store),
                claims.company_id,
                (#[trigger] forms@[k]).item_id,
            ) && !placement_within_bounds(
                *old(store),
                coworking_id,
                forms@[k].item_id,
                forms@[k].base_point,
            ) ==> (r matches Err(e) && e matches ProdError::Conflict(m) && m@
                == "Item overlaps with borders"@)),
        r matches Ok(v) ==> v@.len() == forms@.len() && (forall|p: int|
            0 <= p < v@.len() ==> (#[trigger] v@[p]).id == old(store).next_id + p
                && v@[p].item_id == forms@[p].item_id && v@[p].name@ == forms@[p].name@
                && v@[p].description == forms@[p].description && v@[p].base_point
                == forms@[p].base_point && v@[p].coworking_id == coworking_id),
        r matches Ok(v) ==> final(store).next_id == old(store).next_id + forms@.len()
            && final(store).items@.len() >= forms@.len() && (forall|p: int|
            0 <= p < forms@.len() ==> final(store).items@[final(store).items@.len() - forms@.len()
                + p] == v@[p]),
        r is Ok ==> (forall|j: int|
            0 <= j < old(store).items@.len() && (#[trigger] old(store).items@[j]).coworking_id
                != coworking_id ==> item_listed(final(store).items@, old(store).items@[j])),
        r is Ok ==> (forall|q: int|
            0 <= q < final(store).items@.len() - forms@.len() ==> item_row_in(
                *old(store),
                #[trigger] final(store).items@[q],
            ) && final(store).items@[q].coworking_id != coworking_id),
        r is Ok ==> (forall|j: int|
            0 <= j < old(store).bookings@.len()
                && (#[trigger] old(store).bookings@[j]).coworking_space_id != coworking_id
                ==> crate::booking::row_listed(
                final(store).bookings@,
                old(store).bookings@[j],
            )),
        r is Ok ==> (forall|q: int|
            0 <= q < final(store).bookings@.len() ==> crate::booking::booking_row_in(
                *old(store),
                #[trigger] final(store).bookings@[q],
            ) && final(store).bookings@[q].coworking_space_id != coworking_id),
        r is Ok ==> final(store).companies@ == old(store).companies@ && final(store).buildings@
            == old(store).buildings@ && final(store).spaces@ == old(store).spaces@
            && final(store).item_types@ == old(store).item_types@ && final(store).users@ == old(
            store,
        ).users@ && final(store).pending@ == old(store).pending@,
{
    if !matches!(claims.role, RoleModel::Admin) {
        return Err(ProdError::Forbidden("You are not an admin".to_owned()));
    }
    let space_idx = match store.find_space(claims.company_id, building_id, coworking_id) {
        Some(i) => i,
        None => {
            return Err(ProdError::NotFound("No such coworking or building exists".to_owned()));
        },
    };
    proof {
        assert forall|k: int|
            0 <= k < store.spaces@.len() && (#[trigger] store.spaces@[k]).id == coworking_id implies k
            == space_idx as int by {
            if k != space_idx as int {
                assert(store.spaces@[k].id != store.spaces@[space_idx as int].id);
            }
        }
    }
    let width = store.spaces[space_idx].width;
    let height = store.spaces[space_idx].height;

    // validation pass: resolve each entry's type, compute its cells, and
    // bounds-check fail-fast
    let mut new_items: Vec<CoworkingItemsModel> = Vec::new();
    let mut cell_lists: Vec<Vec<crate::geometry::Point>> = Vec::new();
    let mut p: usize = 0;
    while p < forms.len()
        invariant
            0 <= p <= forms@.len(),
            new_items@.len() == p,
            cell_lists@.len() == p,
            forall|i: int|
                0 <= i < p ==> (#[trigger] new_items@[i]).id == store.next_id + i
                    && new_items@[i].item_id == forms@[i].item_id && new_items@[i].name@
                    == forms@[i].name@ && new_items@[i].description == forms@[i].description
                    && new_items@[i].base_point == forms@[i].base_point
                    && new_items@[i].coworking_id == coworking_id,
            forall|i: int|
                0 <= i < p ==> cells_of((#[trigger] cell_lists@[i])@) == put_seg(
                    *store,
                    forms@[i],
                ),
            forall|i: int|
                0 <= i < p ==> type_in_company(
                    *store,
                    claims.company_id,
                    (#[trigger] forms@[i]).item_id,
                ) && placement_within_bounds(
                    *store,
                    coworking_id,
                    forms@[i].item_id,
                    forms@[i].base_point,
                ),
        decreases forms@.len() - p,
    {
        let form = &forms[p];
        let ty_idx = match store.find_item_type(form.item_id) {
            Some(t) => {
                if store.item_types[t].company_id != claims.company_id {
                    proof {
                        assert forall|k: int|
                            0 <= k < store.item_types@.len() && (
                            #[trigger] store.item_types@[k]).id == form.item_id implies k
                            == t as int by {
                            if k != t as int {
                                assert(store.item_types@[k].id != store.item_types@[t as int].id);
                            }
                        }
                        assert(!type_in_company(*store, claims.company_id, form.item_id));
                    }
                    return Err(ProdError::NotFound("No such item type exists".to_owned()));
                }
                t
            },
            None => {
                proof {
                    assert(!type_in_company(*store, claims.company_id, form.item_id));
                }
                return Err(ProdError::NotFound("No such item type exists".to_owned()));
            },
        };
        proof {
            assert forall|k: int|
                0 <= k < store.item_types@.len() && (#[trigger] store.item_types@[k]).id
                    == form.item_id implies k == ty_idx as int by {
                if k != ty_idx as int {
                    assert(store.item_types@[k].id != store.item_types@[ty_idx as int].id);
                }
            }
            assert(spec_type_offsets(*store, form.item_id) == store.item_types@[ty_idx
                as int].offsets@);
        }
        let ghost seg = abs_cells(form.base_point, store.item_types@[ty_idx as int].offsets@);
        let cells = match absolute_cells(form.base_point, &store.item_types[ty_idx].offsets) {
            Some(v) => v,
            None => {
                // an overflowing coordinate is off every representable grid
                proof {
                    let off = choose|i: int|
                        0 <= i < store.item_types@[ty_idx as int].offsets@.len() && !cell_fits(
                            form.base_point,
                            #[trigger] store.item_types@[ty_idx as int].offsets@[i],
                        );
                    assert(!all_in_bounds(seg, width as int, height as int)) by {
                        assert(seg[off] == crate::geometry::cell_of(
                            form.base_point,
                            store.item_types@[ty_idx as int].offsets@[off],
                        ));
                    }
                    assert(!placement_within_bounds(
                        *store,
                        coworking_id,
                        form.item_id,
                        form.base_point,
                    ));
                }
                return Err(ProdError::Conflict("Item overlaps with borders".to_owned()));
            },
        };
        if !check_bounds(&cells, width, height) {
            proof {
                assert(!all_in_bounds(seg, width as int, height as int));
                assert(!placement_within_bounds(
                    *store,
                    coworking_id,
                    form.item_id,
                    form.base_point,
                ));
            }
            return Err(ProdError::Conflict("Item overlaps with borders".to_owned()));
        }
        let item = CoworkingItemsModel {
            id: store.next_id + (p as u64),
            item_id: form.item_id,
            name: form.name.clone(),
            description: clone_opt_string(&form.description),
            base_point: form.base_point,
            coworking_id,
        };
        new_items.push(item);
        cell_lists.push(cells);
        p = p + 1;
    }

    // one overlap check across the full accumulated cell collection
    let mut a: usize = 0;
    while a < cell_lists.len()
        invariant
            0 <= a <= cell_lists@.len(),
            cell_lists@.len() == forms@.len(),
            forall|i: int|
                0 <= i < forms@.len() ==> cells_of((#[trigger] cell_lists@[i])@) == put_seg(
                    *store,
                    forms@[i],
                ),
            forall|i: int|
                0 <= i < a ==> no_duplicate_cells(put_seg(*store, #[trigger] forms@[i])),
            forall|i: int, j: int|
                #![trigger forms@[i], forms@[j]]
                0 <= i < a && i < j < forms@.len() ==> cells_disjoint(
                    put_seg(*store, forms@[i]),
                    put_seg(*store, forms@[j]),
                ),
        decreases cell_lists@.len() - a,
    {
        if check_duplicates(&cell_lists[a]) {
            return Err(ProdError::Conflict("Item overlaps with other item".to_owned()));
        }
        let mut b: usize = a + 1;
        while b < cell_lists.len()
            invariant
                0 <= a < b <= cell_lists@.len(),
                forall|j: int|
                    a < j < b ==> cells_disjoint(
                        put_seg(*store, forms@[a as int]),
                        put_seg(*store, #[trigger] forms@[j]),
                    ),
            decreases cell_lists@.len() - b,
        {
            if check_overlap(&cell_lists[a], &cell_lists[b]) {
                return Err(ProdError::Conflict("Item overlaps with other item".to_owned()));
            }
            b = b + 1;
        }
        a = a + 1;
    }

    // commit: drop the space's old items and their bookings, insert the
    // new items
    let ghost olds = *store;
    let mut kept_items: Vec<CoworkingItemsModel> = Vec::new();
    let mut k: usize = 0;
    while k < store.items.len()
        invariant
            0 <= k <= store.items@.len(),
            forall|q: int|
                0 <= q < kept_items@.len() ==> item_row_in(*store, #[trigger] kept_items@[q])
                    && kept_items@[q].coworking_id != coworking_id,
            forall|q1: int, q2: int|
                0 <= q1 < q2 < kept_items@.len() ==> (#[trigger] kept_items@[q1]).id != (
                #[trigger] kept_items@[q2]).id,
            forall|j: int|
                0 <= j < k && (#[trigger] store.items@[j]).coworking_id != coworking_id
                    ==> item_listed(kept_items@, store.items@[j]),
            forall|q: int|
                0 <= q < kept_items@.len() ==> exists|j: int|
                    0 <= j < k && #[trigger] kept_items@[q] == store.items@[j],
        decreases store.items@.len() - k,
    {
        if store.items[k].coworking_id != coworking_id {
            let ghost prev = kept_items@;
            let row = clone_coworking_item(&store.items[k]);
            kept_items.push(row);
            proof {
                assert(kept_items@[prev.len() as int] == store.items@[k as int]);
                assert forall|q: int| 0 <= q < kept_items@.len() implies item_row_in(
                    *store,
                    #[trigger] kept_items@[q],
                ) && kept_items@[q].coworking_id != coworking_id by {
                    if q < prev.len() {
                        assert(kept_items@[q] == prev[q]);
                        assert(item_row_in(*store, prev[q]));
                    } else {
                        assert(kept_items@[q] == store.items@[k as int]);
                    }
                }
                assert forall|q1: int, q2: int|
                    0 <= q1 < q2 < kept_items@.len() implies (#[trigger] kept_items@[q1]).id != (
                #[trigger] kept_items@[q2]).id by {
                    if q2 == prev.len() as int {
                        assert(kept_items@[q1] == prev[q1]);
                        let j1 = choose|j: int|
                            0 <= j < k as int && prev[q1] == #[trigger] store.items@[j];
                        assert(store.items@[j1].id != store.items@[k as int].id);
                    } else {
                        assert(kept_items@[q1] == prev[q1]);
                        assert(kept_items@[q2] == prev[q2]);
                    }
                }
                assert forall|j: int|
                    0 <= j < k as int + 1 && (#[trigger] store.items@[j]).coworking_id
                        != coworking_id implies item_listed(kept_items@, store.items@[j]) by {
                    if j < k as int {
                        assert(item_listed(prev, store.items@[j]));
                        let p0 = choose|q: int| 0 <= q < prev.len() && #[trigger] prev[q]
                            == store.items@[j];
                        assert(kept_items@[p0] == store.items@[j]);
                    } else {
                        assert(kept_items@[kept_items@.len() - 1] == store.items@[j]);
                    }
                }
                assert forall|q: int| 0 <= q < kept_items@.len() implies exists|j: int|
                    0 <= j < k as int + 1 && #[trigger] kept_items@[q] == store.items@[j] by {
                    if q < prev.len() {
                        assert(kept_items@[q] == prev[q]);
                        let j1 = choose|j: int|
                            0 <= j < k as int && prev[q] == #[trigger] store.items@[j];
                        assert(kept_items@[q] == store.items@[j1]);
                    } else {
                        assert(kept_items@[q] == store.items@[k as int]);
                    }
                }
            }
        }
        k = k + 1;
    }
    let mut kept_bookings: Vec<crate::models::BookingModel> = Vec::new();
    let mut k2: usize = 0;
    while k2 < store.bookings.len()
        invariant
            0 <= k2 <= store.bookings@.len(),
            forall|q: int|
                0 <= q < kept_bookings@.len() ==> crate::booking::booking_row_in(
                    *store,
                    #[trigger] kept_bookings@[q],
                ) && kept_bookings@[q].coworking_space_id != coworking_id,
            forall|j: int|
                0 <= j < k2 && (#[trigger] store.bookings@[j]).coworking_space_id != coworking_id
                    ==> crate::booking::row_listed(kept_bookings@, store.bookings@[j]),
            forall|q1: int, q2: int|
                0 <= q1 < q2 < kept_bookings@.len() ==> (#[trigger] kept_bookings@[q1]).id != (
                #[trigger] kept_bookings@[q2]).id,
            forall|q: int|
                0 <= q < kept_bookings@.len() ==> exists|j: int|
                    0 <= j < k2 && #[trigger] kept_bookings@[q] == store.bookings@[j],
        decreases store.bookings@.len() - k2,
    {
        let bo = store.bookings[k2];
        if bo.coworking_space_id != coworking_id {
            let ghost prev = kept_bookings@;
            kept_bookings.push(bo);
            proof {
                assert(kept_bookings@[prev.len() as int] == store.bookings@[k2 as int]);
                assert forall|q: int| 0 <= q < kept_bookings@.len() implies crate::booking::booking_row_in(
                    *store,
                    #[trigger] kept_bookings@[q],
                ) && kept_bookings@[q].coworking_space_id != coworking_id by {
                    if q < prev.len() {
                        assert(kept_bookings@[q] == prev[q]);
                        assert(crate::booking::booking_row_in(*store, prev[q]));
                    } else {
                        assert(kept_bookings@[q] == store.bookings@[k2 as int]);
                    }
                }
                assert forall|j: int|
                    0 <= j < k2 as int + 1 && (#[trigger] store.bookings@[j]).coworking_space_id
                        != coworking_id implies crate::booking::row_listed(
                    kept_bookings@,
                    store.bookings@[j],
                ) by {
                    if j < k2 as int {
                        assert(crate::booking::row_listed(prev, store.bookings@[j]));
                        let p0 = choose|q: int| 0 <= q < prev.len() && #[trigger] prev[q]
                            == store.bookings@[j];
                        assert(kept_bookings@[p0] == store.bookings@[j]);
                    } else {
                        assert(kept_bookings@[kept_bookings@.len() - 1] == store.bookings@[j]);
                    }
                }
                assert forall|q1: int, q2: int|
                    0 <= q1 < q2 < kept_bookings@.len() implies (#[trigger] kept_bookings@[q1]).id
                    != (#[trigger] kept_bookings@[q2]).id by {
                    if q2 == prev.len() as int {
                        assert(kept_bookings@[q1] == prev[q1]);
                        let j1 = choose|j: int|
                            0 <= j < k2 as int && prev[q1] == #[trigger] store.bookings@[j];
                        assert(store.bookings@[j1].id != store.bookings@[k2 as int].id);
                    } else {
                        assert(kept_bookings@[q1] == prev[q1]);
                        assert(kept_bookings@[q2] == prev[q2]);
                    }
                }
                assert forall|q: int| 0 <= q < kept_bookings@.len() implies exists|j: int|
                    0 <= j < k2 as int + 1 && #[trigger] kept_bookings@[q]
                        == store.bookings@[j] by {
                    if q < prev.len() {
                        assert(kept_bookings@[q] == prev[q]);
                        let j1 = choose|j: int|
                            0 <= j < k2 as int && prev[q] == #[trigger] store.bookings@[j];
                        assert(kept_bookings@[q] == store.bookings@[j1]);
                    } else {
                        assert(kept_bookings@[q] == store.bookings@[k2 as int]);
                    }
                }
            }
        }
        k2 = k2 + 1;
    }
    let ghost kept = kept_items@;
    let ghost kept_b = kept_bookings@;
    let mut final_items = kept_items;
    let mut q: usize = 0;
    while q < new_items.len()
        invariant
            0 <= q <= new_items@.len(),
            new_items@.len() == forms@.len(),
            final_items@.len() == kept.len() + q,
            forall|i: int| 0 <= i < kept.len() ==> #[trigger] final_items@[i] == kept[i],
            forall|i: int|
                0 <= i < q ==> #[trigger] final_items@[kept.len() + i] == new_items@[i],
        decreases new_items@.len() - q,
    {
        let row = clone_coworking_item(&new_items[q]);
        final_items.push(row);
        q = q + 1;
    }
    store.items = final_items;
    store.bookings = kept_bookings;
    let n_new: u64 = forms.len() as u64;
    store.next_id = store.next_id + n_new;
    proof {
        lemma_put_commit_wf(
            olds,
            *store,
            *claims,
            coworking_id,
            space_idx as int,
            forms@,
            new_items@,
            kept,
            kept_b,
        );
        let n = forms@.len() as int;
        let fin = store.items@;
        assert(fin.len() == kept.len() + n);
        assert forall|p2: int| 0 <= p2 < n implies fin[fin.len() - n + p2] == new_items@[p2] by {
            assert(fin[kept.len() as int + p2] == new_items@[p2]);
        }
        assert forall|j: int|
            0 <= j < olds.items@.len() && (#[trigger] olds.items@[j]).coworking_id
                != coworking_id implies item_listed(fin, olds.items@[j]) by {
            assert(item_listed(kept, olds.items@[j]));
            let q0 = choose|q2: int| 0 <= q2 < kept.len() && #[trigger] kept[q2]
                == olds.items@[j];
            assert(fin[q0] == kept[q0]);
        }
        assert forall|q2: int| 0 <= q2 < fin.len() - n implies item_row_in(
            olds,
            #[trigger] fin[q2],
        ) && fin[q2].coworking_id != coworking_id by {
            assert(fin[q2] == kept[q2]);
            assert(item_row_in(olds, kept[q2]));
        }
    }
    Ok(new_items)
}

/// Deleting one item, together with every booking that reserved it,
/// preserves the store invariants.
#[verifier::rlimit(60)]
proof fn lemma_delete_item_wf(
    olds: Store,
    news: Store,
    item_id: u64,
    kept: Seq<CoworkingItemsModel>,
    kept_b: Seq<crate::models::BookingModel>,
)
    requires
        olds.wf(),
        news.items@ == kept,
        forall|q: int|
            0 <= q < kept.len() ==> item_row_in(olds, #[trigger] kept[q]) && kept[q].id != item_id,
        forall|q1: int, q2: int|
            0 <= q1 < q2 < kept.len() ==> (#[trigger] kept[q1]).id != (#[trigger] kept[q2]).id,
        forall|j: int|
            0 <= j < olds.items@.len() && (#[trigger] olds.items@[j]).id != item_id
                ==> item_listed(kept, olds.items@[j]),
        news.bookings@ == kept_b,
        forall|q: int|
            0 <= q < kept_b.len() ==> crate::booking::booking_row_in(olds, #[trigger] kept_b[q])
                && kept_b[q].coworking_item_id != item_id,
        forall|q1: int, q2: int|
            0 <= q1 < q2 < kept_b.len() ==> (#[trigger] kept_b[q1]).id != (
            #[trigger] kept_b[q2]).id,
        news.next_id == olds.next_id,
        news.companies@ == olds.companies@,
        news.buildings@ == olds.buildings@,
        news.spaces@ == olds.spaces@,
        news.item_types@ == olds.item_types@,
        news.users@ == olds.users@,
        news.pending@ == olds.pending@,
    ensures
        news.wf(),
{
    assert forall|q: int| 0 <= q < kept.len() implies (#[trigger] kept[q]).id < olds.next_id by {
        assert(item_row_in(olds, kept[q]));
        let j = choose|j: int| 0 <= j < olds.items@.len() && kept[q] == #[trigger] olds.items@[j];
        assert(olds.items@[j].id < olds.next_id);
    }
    assert(news.items_wf()) by {
        assert forall|i: int| 0 <= i < news.items@.len() implies #[trigger] news.item_space_resolves(
            i,
        ) by {
            let j = choose|j: int|
                0 <= j < olds.items@.len() && kept[i] == #[trigger] olds.items@[j];
            assert(olds.item_space_resolves(j));
            let w = choose|w: int|
                0 <= w < olds.spaces@.len() && (#[trigger] olds.spaces@[w]).id
                    == olds.items@[j].coworking_id;
            assert(news.spaces@[w].id == news.items@[i].coworking_id);
        }
        assert forall|i: int| 0 <= i < news.items@.len() implies #[trigger] news.item_type_resolves(
            i,
        ) by {
            let j = choose|j: int|
                0 <= j < olds.items@.len() && kept[i] == #[trigger] olds.items@[j];
            assert(olds.item_type_resolves(j));
            let w = choose|w: int|
                0 <= w < olds.item_types@.len() && (#[trigger] olds.item_types@[w]).id
                    == olds.items@[j].item_id;
            assert(news.item_types@[w].id == news.items@[i].item_id);
        }
        assert forall|ii: int, si: int, ti: int|
            0 <= ii < news.items@.len() && 0 <= si < news.spaces@.len() && 0 <= ti
                < news.item_types@.len() && (#[trigger] news.items@[ii]).coworking_id == (
            #[trigger] news.spaces@[si]).id && news.items@[ii].item_id == (
            #[trigger] news.item_types@[ti]).id implies news.item_types@[ti].company_id
            == news.spaces@[si].company_id by {
            let j = choose|j: int|
                0 <= j < olds.items@.len() && kept[ii] == #[trigger] olds.items@[j];
            assert(news.spaces@[si] == olds.spaces@[si]);
            assert(news.item_types@[ti] == olds.item_types@[ti]);
            assert(olds.items@[j].coworking_id == olds.spaces@[si].id);
            assert(olds.items@[j].item_id == olds.item_types@[ti].id);
        }
    }
    assert(news.geometry_wf()) by {
        assert forall|ii: int, si: int, ti: int|
            0 <= ii < news.items@.len() && 0 <= si < news.spaces@.len() && 0 <= ti
                < news.item_types@.len() && (#[trigger] news.items@[ii]).coworking_id == (
            #[trigger] news.spaces@[si]).id && news.items@[ii].item_id == (
            #[trigger] news.item_types@[ti]).id implies all_in_bounds(
            placed_cells(news.items@[ii], news.item_types@[ti]),
            news.spaces@[si].width as int,
            news.spaces@[si].height as int,
        ) by {
            let j = choose|j: int|
                0 <= j < olds.items@.len() && kept[ii] == #[trigger] olds.items@[j];
            assert(news.spaces@[si] == olds.spaces@[si]);
            assert(news.item_types@[ti] == olds.item_types@[ti]);
            assert(all_in_bounds(
                placed_cells(olds.items@[j], olds.item_types@[ti]),
                olds.spaces@[si].width as int,
                olds.spaces@[si].height as int,
            ));
            assert(placed_cells(news.items@[ii], news.item_types@[ti]) == placed_cells(
                olds.items@[j],
                olds.item_types@[ti],
            ));
        }
        assert forall|ii: int, jj: int, ti: int, tj: int|
            0 <= ii < news.items@.len() && 0 <= jj < news.items@.len() && ii != jj && 0 <= ti
                < news.item_types@.len() && 0 <= tj < news.item_types@.len() && (
            #[trigger] news.items@[ii]).coworking_id == (#[trigger] news.items@[jj]).coworking_id
                && news.items@[ii].item_id == (#[trigger] news.item_types@[ti]).id
                && news.items@[jj].item_id == (#[trigger] news.item_types@[tj]).id implies cells_disjoint(
            placed_cells(news.items@[ii], news.item_types@[ti]),
            placed_cells(news.items@[jj], news.item_types@[tj]),
        ) by {
            let j1 = choose|j: int|
                0 <= j < olds.items@.len() && kept[ii] == #[trigger] olds.items@[j];
            let j2 = choose|j: int|
                0 <= j < olds.items@.len() && kept[jj] == #[trigger] olds.items@[j];
            if ii < jj {
                assert(kept[ii].id != kept[jj].id);
            } else {
                assert(kept[jj].id != kept[ii].id);
            }
            assert(j1 != j2);
            assert(news.item_types@[ti] == olds.item_types@[ti]);
            assert(news.item_types@[tj] == olds.item_types@[tj]);
            assert(cells_disjoint(
                placed_cells(olds.items@[j1], olds.item_types@[ti]),
                placed_cells(olds.items@[j2], olds.item_types@[tj]),
            ));
        }
    }
    assert(news.bookings_wf()) by {
        assert forall|i: int| 0 <= i < news.bookings@.len() implies (#[trigger] news.bookings@[i]).id
            < news.next_id && crate::store::booking_ok(news.bookings@[i]) by {
            let j = choose|j: int|
                0 <= j < olds.bookings@.len() && kept_b[i] == #[trigger] olds.bookings@[j];
            assert(olds.bookings@[j].id < olds.next_id);
        }
        assert forall|i: int, j: int|
            0 <= i < news.bookings@.len() && 0 <= j < news.bookings@.len() && i != j && (
        #[trigger] news.bookings@[i]).coworking_item_id == (
        #[trigger] news.bookings@[j]).coworking_item_id implies !crate::store::overlaps(
            news.bookings@[i],
            news.bookings@[j],
        ) by {
            let s1 = choose|w: int|
                0 <= w < olds.bookings@.len() && kept_b[i] == #[trigger] olds.bookings@[w];
            let s2 = choose|w: int|
                0 <= w < olds.bookings@.len() && kept_b[j] == #[trigger] olds.bookings@[w];
            if i < j {
                assert(kept_b[i].id != kept_b[j].id);
            } else {
                assert(kept_b[j].id != kept_b[i].id);
            }
            assert(s1 != s2);
            assert(!crate::store::overlaps(olds.bookings@[s1], olds.bookings@[s2]));
        }
        assert forall|i: int| 0 <= i < news.bookings@.len() implies #[trigger] news.booking_user_resolves(
            i,
        ) by {
            let j = choose|w: int|
                0 <= w < olds.bookings@.len() && kept_b[i] == #[trigger] olds.bookings@[w];
            assert(olds.booking_user_resolves(j));
            let k0 = choose|k: int|
                0 <= k < olds.users@.len() && (#[trigger] olds.users@[k]).id
                    == olds.bookings@[j].user_id && olds.users@[k].company_id
                    == olds.bookings@[j].company_id;
            assert(news.users@[k0].id == news.bookings@[i].user_id);
            assert(news.users@[k0].company_id == news.bookings@[i].company_id);
        }
        assert forall|i: int| 0 <= i < news.bookings@.len() implies #[trigger] news.booking_space_resolves(
            i,
        ) by {
            let j = choose|w: int|
                0 <= w < olds.bookings@.len() && kept_b[i] == #[trigger] olds.bookings@[w];
            assert(olds.booking_space_resolves(j));
            let k0 = choose|k: int|
                0 <= k < olds.spaces@.len() && (#[trigger] olds.spaces@[k]).id
                    == olds.bookings@[j].coworking_space_id && olds.spaces@[k].company_id
                    == olds.bookings@[j].company_id;
            assert(news.spaces@[k0].id == news.bookings@[i].coworking_space_id);
            assert(news.spaces@[k0].company_id == news.bookings@[i].company_id);
        }
        assert forall|i: int| 0 <= i < news.bookings@.len() implies #[trigger] news.booking_item_resolves(
            i,
        ) by {
            let j = choose|w: int|
                0 <= w < olds.bookings@.len() && kept_b[i] == #[trigger] olds.bookings@[w];
            assert(olds.booking_item_resolves(j));
            let k0 = choose|k: int|
                0 <= k < olds.items@.len() && (#[trigger] olds.items@[k]).id
                    == olds.bookings@[j].coworking_item_id && olds.items@[k].coworking_id
                    == olds.bookings@[j].coworking_space_id;
            assert(olds.items@[k0].id != item_id);
            assert(item_listed(kept, olds.items@[k0]));
            let q0 = choose|q: int| 0 <= q < kept.len() && #[trigger] kept[q] == olds.items@[k0];
            assert(news.items@[q0].id == news.bookings@[i].coworking_item_id);
            assert(news.items@[q0].coworking_id == news.bookings@[i].coworking_space_id);
        }
    }
    crate::store::lemma_companies_wf_from(olds, news);
    crate::store::lemma_buildings_wf_from(olds, news);
    crate::store::lemma_spaces_wf_from(olds, news);
    crate::store::lemma_item_types_wf_from(olds, news);
    crate::store::lemma_users_wf_from(olds, news);
    crate::store::lemma_pending_wf_from(olds, news);
}

/// Deletes one placed item, and with it every booking that reserved it,
/// as one unit.
#[verifier::loop_isolation(false)]
#[verifier::rlimit(30)]
pub fn delete_item_from_coworking(
    store: &mut Store,
    claims: &Claims,
    building_id: u64,
    coworking_id: u64,
    item_id: u64,
) -> (r: Result<(), ProdError>)
    requires
        old(store).wf(),
    ensures
        final(store).wf(),
        r is Err ==> *final(store) == *old(store),
        claims.role != RoleModel::Admin ==> (r matches Err(e) && e matches ProdError::Forbidden(m)
            && m@ == "You are not an admin"@),
        claims.role == RoleModel::Admin && !space_resolves(
            *old(store),
            claims.company_id,
            building_id,
            coworking_id,
        ) ==> (r matches Err(e) && e matches ProdError::NotFound(m) && m@
            == "No such coworking or building exists"@),
        claims.role == RoleModel::Admin && space_resolves(
            *old(store),
            claims.company_id,
            building_id,
            coworking_id,
        ) ==> (r is Ok <==> (exists|i: int|
            0 <= i < old(store).items@.len() && (#[trigger] old(store).items@[i]).id == item_id
                && old(store).items@[i].coworking_id == coworking_id)),
        r is Ok ==> (forall|q: int|
            0 <= q < final(store).items@.len() ==> item_row_in(
                *old(store),
                #[trigger] final(store).items@[q],
            ) && final(store).items@[q].id != item_id),
        r is Ok ==> (forall|j: int|
            0 <= j < old(store).items@.len() && (#[trigger] old(store).items@[j]).id != item_id
                ==> item_listed(final(store).items@, old(store).items@[j])),
        r is Ok ==> (forall|q: int|
            0 <= q < final(store).bookings@.len() ==> crate::booking::booking_row_in(
                *old(store),
                #[trigger] final(store).bookings@[q],
            ) && final(store).bookings@[q].coworking_item_id != item_id),
        r is Ok ==> (forall|j: int|
            0 <= j < old(store).bookings@.len() && (#[trigger] old(
                store,
            ).bookings@[j]).coworking_item_id != item_id ==> crate::booking::row_listed(
                final(store).bookings@,
                old(store).bookings@[j],
            )),
{
    if !matches!(claims.role, RoleModel::Admin) {
        return Err(ProdError::Forbidden("You are not an admin".to_owned()));
    }
    if store.find_space(claims.company_id, building_id, coworking_id).is_none() {
        return Err(ProdError::NotFound("No such coworking or building exists".to_owned()));
    }
    if store.find_item_in_space(coworking_id, item_id).is_none() {
        return Err(ProdError::NotFound("No such item exists".to_owned()));
    }
    let ghost olds = *store;
    let mut kept_items: Vec<CoworkingItemsModel> = Vec::new();
    let mut k: usize = 0;
    while k < store.items.len()
        invariant
            0 <= k <= store.items@.len(),
            forall|q: int|
                0 <= q < kept_items@.len() ==> item_row_in(*store, #[trigger] kept_items@[q])
                    && kept_items@[q].id != item_id,
            forall|q1: int, q2: int|
                0 <= q1 < q2 < kept_items@.len() ==> (#[trigger] kept_items@[q1]).id != (
                #[trigger] kept_items@[q2]).id,
            forall|j: int|
                0 <= j < k && (#[trigger] store.items@[j]).id != item_id ==> item_listed(
                    kept_items@,
                    store.items@[j],
                ),
            forall|q: int|
                0 <= q < kept_items@.len() ==> exists|j: int|
                    0 <= j < k && #[trigger] kept_items@[q] == store.items@[j],
        decreases store.items@.len() - k,
    {
        if store.items[k].id != item_id {
            let ghost prev = kept_items@;
            let row = clone_coworking_item(&store.items[k]);
            kept_items.push(row);
            proof {
                assert(kept_items@[prev.len() as int] == store.items@[k as int]);
                assert forall|q: int| 0 <= q < kept_items@.len() implies item_row_in(
                    *store,
                    #[trigger] kept_items@[q],
                ) && kept_items@[q].id != item_id by {
                    if q < prev.len() {
                        assert(kept_items@[q] == prev[q]);
                        assert(item_row_in(*store, prev[q]));
                    } else {
                        assert(kept_items@[q] == store.items@[k as int]);
                    }
                }
                assert forall|q1: int, q2: int|
                    0 <= q1 < q2 < kept_items@.len() implies (#[trigger] kept_items@[q1]).id != (
                #[trigger] kept_items@[q2]).id by {
                    if q2 == prev.len() as int {
                        assert(kept_items@[q1] == prev[q1]);
                        let j1 = choose|j: int|
                            0 <= j < k as int && prev[q1] == #[trigger] store.items@[j];
                        assert(store.items@[j1].id != store.items@[k as int].id);
                    } else {
                        assert(kept_items@[q1] == prev[q1]);
                        assert(kept_items@[q2] == prev[q2]);
                    }
                }
                assert forall|j: int|
                    0 <= j < k as int + 1 && (#[trigger] store.items@[j]).id != item_id implies item_listed(
                    kept_items@,
                    store.items@[j],
                ) by {
                    if j < k as int {
                        assert(item_listed(prev, store.items@[j]));
                        let p0 = choose|q: int| 0 <= q < prev.len() && #[trigger] prev[q]
                            == store.items@[j];
                        assert(kept_items@[p0] == store.items@[j]);
                    } else {
                        assert(kept_items@[kept_items@.len() - 1] == store.items@[j]);
                    }
                }
                assert forall|q: int| 0 <= q < kept_items@.len() implies exists|j: int|
                    0 <= j < k as int + 1 && #[trigger] kept_items@[q] == store.items@[j] by {
                    if q < prev.len() {
                        assert(kept_items@[q] == prev[q]);
                        let j1 = choose|j: int|
                            0 <= j < k as int && prev[q] == #[trigger] store.items@[j];
                        assert(kept_items@[q] == store.items@[j1]);
                    } else {
                        assert(kept_items@[q] == store.items@[k as int]);
                    }
                }
            }
        }
        k = k + 1;
    }
    let mut kept_bookings: Vec<crate::models::BookingModel> = Vec::new();
    let mut k2: usize = 0;
    while k2 < store.bookings.len()
        invariant
            0 <= k2 <= store.bookings@.len(),
            forall|q: int|
                0 <= q < kept_bookings@.len() ==> crate::booking::booking_row_in(
                    *store,
                    #[trigger] kept_bookings@[q],
                ) && kept_bookings@[q].coworking_item_id != item_id,
            forall|j: int|
                0 <= j < k2 && (#[trigger] store.bookings@[j]).coworking_item_id != item_id
                    ==> crate::booking::row_listed(kept_bookings@, store.bookings@[j]),
            forall|q1: int, q2: int|
                0 <= q1 < q2 < kept_bookings@.len() ==> (#[trigger] kept_bookings@[q1]).id != (
                #[trigger] kept_bookings@[q2]).id,
            forall|q: int|
                0 <= q < kept_bookings@.len() ==> exists|j: int|
                    0 <= j < k2 && #[trigger] kept_bookings@[q] == store.bookings@[j],
        decreases store.bookings@.len() - k2,
    {
        let bo = store.bookings[k2];
        if bo.coworking_item_id != item_id {
            let ghost prev = kept_bookings@;
            kept_bookings.push(bo);
            proof {
                assert(kept_bookings@[prev.len() as int] == store.bookings@[k2 as int]);
                assert forall|q: int| 0 <= q < kept_bookings@.len() implies crate::booking::booking_row_in(
                    *store,
                    #[trigger] kept_bookings@[q],
                ) && kept_bookings@[q].coworking_item_id != item_id by {
                    if q < prev.len() {
                        assert(kept_bookings@[q] == prev[q]);
                        assert(crate::booking::booking_row_in(*store, prev[q]));
                    } else {
                        assert(kept_bookings@[q] == store.bookings@[k2 as int]);
                    }
                }
                assert forall|j: int|
                    0 <= j < k2 as int + 1 && (#[trigger] store.bookings@[j]).coworking_item_id
                        != item_id implies crate::booking::row_listed(
                    kept_bookings@,
                    store.bookings@[j],
                ) by {
                    if j < k2 as int {
                        assert(crate::booking::row_listed(prev, store.bookings@[j]));
                        let p0 = choose|q: int| 0 <= q < prev.len() && #[trigger] prev[q]
                            == store.bookings@[j];
                        assert(kept_bookings@[p0] == store.bookings@[j]);
                    } else {
                        assert(kept_bookings@[kept_bookings@.len() - 1] == store.bookings@[j]);
                    }
                }
                assert forall|q1: int, q2: int|
                    0 <= q1 < q2 < kept_bookings@.len() implies (#[trigger] kept_bookings@[q1]).id
                    != (#[trigger] kept_bookings@[q2]).id by {
                    if q2 == prev.len() as int {
                        assert(kept_bookings@[q1] == prev[q1]);
                        let j1 = choose|j: int|
                            0 <= j < k2 as int && prev[q1] == #[trigger] store.bookings@[j];
                        assert(store.bookings@[j1].id != store.bookings@[k2 as int].id);
                    } else {
                        assert(kept_bookings@[q1] == prev[q1]);
                        assert(kept_bookings@[q2] == prev[q2]);
                    }
                }
                assert forall|q: int| 0 <= q < kept_bookings@.len() implies exists|j: int|
                    0 <= j < k2 as int + 1 && #[trigger] kept_bookings@[q]
                        == store.bookings@[j] by {
                    if q < prev.len() {
                        assert(kept_bookings@[q] == prev[q]);
                        let j1 = choose|j: int|
                            0 <= j < k2 as int && prev[q] == #[trigger] store.bookings@[j];
                        assert(kept_bookings@[q] == store.bookings@[j1]);
                    } else {
                        assert(kept_bookings@[q] == store.bookings@[k2 as int]);
                    }
                }
            }
        }
        k2 = k2 + 1;
    }
    let ghost kept = kept_items@;
    let ghost kept_b = kept_bookings@;
    store.items = kept_items;
    store.bookings = kept_bookings;
    proof {
        lemma_delete_item_wf(olds, *store, item_id, kept, kept_b);
    }
    Ok(())
}

} // verus!
