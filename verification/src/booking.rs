use vstd::prelude::*;

use crate::errors::ProdError;
use crate::forms::{CreateBookingForm, PatchBookingForm, QrToken, Verdict};
use crate::jwt::generate::{spec_qr_token, spec_validate_qr};
use crate::jwt::models::{Claims, QrClaims};
use crate::models::{BookingModel, RoleModel};
use crate::store::{booking_ok, overlaps, Store, SLOT_SECONDS};

verus! {

/// The booking interval is syntactically valid at time `now`: ordered,
/// aligned to the 15-minute grid, and not in the past.
pub open spec fn times_valid(start: i64, end: i64, now: i64) -> bool {
    &&& start < end
    &&& (end - start) % (SLOT_SECONDS as int) == 0
    &&& now <= start
}

/// The caller's user row exists under the caller's company.
pub open spec fn caller_exists(s: Store, claims: Claims) -> bool {
    exists|k: int|
        0 <= k < s.users@.len() && (#[trigger] s.users@[k]).id == claims.user_id
            && s.users@[k].company_id == claims.company_id
}

/// The caller's company has a space `space_id`, and that space holds an
/// item instance `item_id`.
pub open spec fn booking_target_exists(
    s: Store,
    company_id: u64,
    space_id: u64,
    item_id: u64,
) -> bool {
    &&& exists|si: int|
        0 <= si < s.spaces@.len() && (#[trigger] s.spaces@[si]).id == space_id
            && s.spaces@[si].company_id == company_id
    &&& exists|ii: int|
        0 <= ii < s.items@.len() && (#[trigger] s.items@[ii]).id == item_id
            && s.items@[ii].coworking_id == space_id
}

/// The item's type allows booking. Quantified over every matching pair,
/// which in a well-formed store is at most one.
pub open spec fn target_bookable(s: Store, space_id: u64, item_id: u64) -> bool {
    forall|ii: int, ti: int|
        #![trigger s.items@[ii], s.item_types@[ti]]
        0 <= ii < s.items@.len() && 0 <= ti < s.item_types@.len() && s.items@[ii].id == item_id
            && s.items@[ii].coworking_id == space_id && s.item_types@[ti].id
            == s.items@[ii].item_id ==> s.item_types@[ti].bookable
}

/// Some existing booking of the same item overlaps `[start, end)`.
pub open spec fn booking_conflict(s: Store, item_id: u64, start: i64, end: i64) -> bool {
    exists|i: int|
        0 <= i < s.bookings@.len() && (#[trigger] s.bookings@[i]).coworking_item_id == item_id
            && s.bookings@[i].time_start < end && start < s.bookings@[i].time_end
}

/// Every precondition of booking creation at once: an eligible role, a
/// valid interval, a resolvable caller and target, a bookable item type,
/// and no temporal conflict.
pub open spec fn can_create_booking(
    s: Store,
    claims: Claims,
    form: CreateBookingForm,
    now: i64,
) -> bool {
    &&& claims.role != RoleModel::Guest
    &&& times_valid(form.time_start, form.time_end, now)
    &&& caller_exists(s, claims)
    &&& booking_target_exists(s, claims.company_id, form.coworking_id, form.coworking_item_id)
    &&& target_bookable(s, form.coworking_id, form.coworking_item_id)
    &&& !booking_conflict(s, form.coworking_item_id, form.time_start, form.time_end)
}

/// All tables but the bookings hold the same rows in both stores.
pub open spec fn same_except_bookings(a: Store, b: Store) -> bool {
    &&& a.companies@ == b.companies@
    &&& a.buildings@ == b.buildings@
    &&& a.spaces@ == b.spaces@
    &&& a.item_types@ == b.item_types@
    &&& a.items@ == b.items@
    &&& a.users@ == b.users@
    &&& a.pending@ == b.pending@
}

/// Creates a booking for the caller, enforcing role eligibility, interval
/// validity, tenancy-scoped existence of the target, bookability, and
/// temporal exclusivity, in that order. On success the new booking is
/// appended; on any failure the store is untouched.
#[verifier::loop_isolation(false)]
pub fn create_booking(
    store: &mut Store,
    claims: &Claims,
    form: &CreateBookingForm,
    now: i64,
) -> (r: Result<BookingModel, ProdError>)
    requires
        old(store).wf(),
        old(store).next_id < u64::MAX,
        0 <= now,
    ensures
        final(store).wf(),
        r is Err ==> *final(store) == *old(store),
        r is Ok <==> can_create_booking(*old(store), *claims, *form, now),
        r matches Ok(b) ==> b == (BookingModel {
            id: old(store).next_id,
            user_id: claims.user_id,
            coworking_space_id: form.coworking_id,
            coworking_item_id: form.coworking_item_id,
            company_id: claims.company_id,
            time_start: form.time_start,
            time_end: form.time_end,
        }) && final(store).bookings@ == old(store).bookings@.push(b) && final(store).next_id
            == old(store).next_id + 1 && same_except_bookings(*final(store), *old(store)),
        claims.role == RoleModel::Guest ==> (r matches Err(e) && e matches ProdError::Forbidden(m)
            && m@ == "Unverified guest can not create booking"@),
        claims.role != RoleModel::Guest && !times_valid(form.time_start, form.time_end, now)
            ==> (r matches Err(e) && e matches ProdError::ShitHappened(m) && m@
            == "Booking time should be divided by 15 minutes. You can book only in future. Start time should be less than end time."@),
        claims.role != RoleModel::Guest && times_valid(form.time_start, form.time_end, now)
            && !caller_exists(*old(store), *claims) ==> (r matches Err(e) && e
            matches ProdError::ShitHappened(m) && m@ == "Coworking or coworking_item not found"@),
        claims.role != RoleModel::Guest && times_valid(form.time_start, form.time_end, now)
            && caller_exists(*old(store), *claims) && !booking_target_exists(
            *old(store),
            claims.company_id,
            form.coworking_id,
            form.coworking_item_id,
        ) ==> (r matches Err(e) && e matches ProdError::NotFound(m) && m@
            == "No item was found with that uuid"@),
        claims.role != RoleModel::Guest && times_valid(form.time_start, form.time_end, now)
            && caller_exists(*old(store), *claims) && booking_target_exists(
            *old(store),
            claims.company_id,
            form.coworking_id,
            form.coworking_item_id,
        ) && !target_bookable(*old(store), form.coworking_id, form.coworking_item_id) ==> (r
            matches Err(e) && e matches ProdError::Forbidden(m) && m@
            == "You can not book item with that id"@),
        claims.role != RoleModel::Guest && times_valid(form.time_start, form.time_end, now)
            && caller_exists(*old(store), *claims) && booking_target_exists(
            *old(store),
            claims.company_id,
            form.coworking_id,
            form.coworking_item_id,
        ) && target_bookable(*old(store), form.coworking_id, form.coworking_item_id)
            && booking_conflict(
            *old(store),
            form.coworking_item_id,
            form.time_start,
            form.time_end,
        ) ==> (r matches Err(e) && e matches ProdError::Conflict(m) && m@
            == "Your booking conflicts with existing bookings"@),
{
    if matches!(claims.role, RoleModel::Guest) {
        return Err(ProdError::Forbidden("Unverified guest can not create booking".to_owned()));
    }
    if !(form.time_start < form.time_end) || !(now <= form.time_start) || (form.time_end
        - form.time_start) % SLOT_SECONDS != 0 {
        return Err(
            ProdError::ShitHappened(
                "Booking time should be divided by 15 minutes. You can book only in future. Start time should be less than end time.".to_owned(),
            ),
        );
    }
    let caller_idx = match store.find_user(claims.user_id) {
        Some(i) => {
            if store.users[i].company_id != claims.company_id {
                proof {
                    assert forall|k: int|
                        0 <= k < store.users@.len() && (#[trigger] store.users@[k]).id
                            == claims.user_id implies k == i as int by {
                        if k != i as int {
                            assert(store.users@[k].id != store.users@[i as int].id);
                        }
                    }
                }
                return Err(
                    ProdError::ShitHappened("Coworking or coworking_item not found".to_owned()),
                );
            }
            i
        },
        None => {
            return Err(
                ProdError::ShitHappened("Coworking or coworking_item not found".to_owned()),
            );
        },
    };
    let space_idx = match store.find_space_in_company(claims.company_id, form.coworking_id) {
        Some(i) => i,
        None => {
            return Err(ProdError::NotFound("No item was found with that uuid".to_owned()));
        },
    };
    let item_idx = match store.find_item_in_space(form.coworking_id, form.coworking_item_id) {
        Some(i) => i,
        None => {
            return Err(ProdError::NotFound("No item was found with that uuid".to_owned()));
        },
    };
    let type_idx = match store.find_item_type(store.items[item_idx].item_id) {
        Some(t) => t,
        None => {
            // a well-formed store resolves every placed item's type
            proof {
                assert(store.item_type_resolves(item_idx as int));
                let k0 = choose|k: int|
                    0 <= k < store.item_types@.len() && (#[trigger] store.item_types@[k]).id
                        == store.items@[item_idx as int].item_id;
                assert(false);
            }
            return Err(ProdError::NotFound("No item was found with that uuid".to_owned()));
        },
    };
    if !store.item_types[type_idx].bookable {
        return Err(ProdError::Forbidden("You can not book item with that id".to_owned()));
    }
    proof {
        assert forall|ii: int, ti: int|
            0 <= ii < store.items@.len() && 0 <= ti < store.item_types@.len()
                && (#[trigger] store.items@[ii]).id == form.coworking_item_id
                && store.items@[ii].coworking_id == form.coworking_id && (
            #[trigger] store.item_types@[ti]).id == store.items@[ii].item_id implies store.item_types@[ti].bookable by {
            if ii != item_idx as int {
                assert(store.items@[ii].id != store.items@[item_idx as int].id);
            }
            if ti != type_idx as int {
                assert(store.item_types@[ti].id != store.item_types@[type_idx as int].id);
            }
        }
    }
    let mut k: usize = 0;
    while k < store.bookings.len()
        invariant
            0 <= k <= store.bookings@.len(),
            forall|m: int|
                0 <= m < k ==> !((#[trigger] store.bookings@[m]).coworking_item_id
                    == form.coworking_item_id && store.bookings@[m].time_start < form.time_end
                    && form.time_start < store.bookings@[m].time_end),
        decreases store.bookings@.len() - k,
    {
        let ex = &store.bookings[k];
        if ex.coworking_item_id == form.coworking_item_id && ex.time_start < form.time_end
            && form.time_start < ex.time_end {
            return Err(
                ProdError::Conflict("Your booking conflicts with existing bookings".to_owned()),
            );
        }
        k = k + 1;
    }
    let b = BookingModel {
        id: store.next_id,
        user_id: claims.user_id,
        coworking_space_id: form.coworking_id,
        coworking_item_id: form.coworking_item_id,
        company_id: claims.company_id,
        time_start: form.time_start,
        time_end: form.time_end,
    };
    store.bookings.push(b);
    store.next_id = store.next_id + 1;
    proof {
        let olds = *old(store);
        let news = *store;
        let n = olds.bookings@.len() as int;
        assert(news.bookings@ == olds.bookings@.push(b));
        assert forall|i: int, j: int|
            0 <= i < news.bookings@.len() && 0 <= j < news.bookings@.len() && i != j
                && (#[trigger] news.bookings@[i]).coworking_item_id == (
            #[trigger] news.bookings@[j]).coworking_item_id implies !overlaps(
            news.bookings@[i],
            news.bookings@[j],
        ) by {
            if i < n && j < n {
                assert(!overlaps(olds.bookings@[i], olds.bookings@[j]));
            } else if i == n && j < n {
                assert(news.bookings@[j] == olds.bookings@[j]);
            } else if j == n && i < n {
                assert(news.bookings@[i] == olds.bookings@[i]);
            }
        }
        assert forall|i: int| 0 <= i < news.bookings@.len() implies (
        #[trigger] news.bookings@[i]).id < news.next_id && booking_ok(news.bookings@[i]) by {
            if i < n {
                assert(news.bookings@[i] == olds.bookings@[i]);
            }
        }
        assert forall|i: int, j: int|
            0 <= i < j < news.bookings@.len() implies (#[trigger] news.bookings@[i]).id != (
        #[trigger] news.bookings@[j]).id by {
            if j < n {
                assert(news.bookings@[i] == olds.bookings@[i]);
                assert(news.bookings@[j] == olds.bookings@[j]);
            } else {
                assert(news.bookings@[i] == olds.bookings@[i]);
                assert(olds.bookings@[i].id < olds.next_id);
            }
        }
        assert(news.bookings_wf()) by {
            assert forall|i: int|
                0 <= i < news.bookings@.len() implies #[trigger] news.booking_user_resolves(
                i,
            ) by {
                if i < n {
                    assert(olds.booking_user_resolves(i));
                    assert(news.bookings@[i] == olds.bookings@[i]);
                    let bo = olds.bookings@[i];
                    let k0 = choose|k: int|
                        0 <= k < olds.users@.len() && (#[trigger] olds.users@[k]).id == bo.user_id
                            && olds.users@[k].company_id == bo.company_id;
                    assert(news.users@[k0].id == news.bookings@[i].user_id);
                    assert(news.users@[k0].company_id == news.bookings@[i].company_id);
                } else {
                    assert(news.bookings@[i] == b);
                    assert(news.users@[caller_idx as int].id == b.user_id);
                    assert(news.users@[caller_idx as int].company_id == b.company_id);
                }
            }
            assert forall|i: int|
                0 <= i < news.bookings@.len() implies #[trigger] news.booking_space_resolves(
                i,
            ) by {
                if i < n {
                    assert(olds.booking_space_resolves(i));
                    assert(news.bookings@[i] == olds.bookings@[i]);
                    let bo = olds.bookings@[i];
                    let k0 = choose|k: int|
                        0 <= k < olds.spaces@.len() && (#[trigger] olds.spaces@[k]).id
                            == bo.coworking_space_id && olds.spaces@[k].company_id
                            == bo.company_id;
                    assert(news.spaces@[k0].id == news.bookings@[i].coworking_space_id);
                    assert(news.spaces@[k0].company_id == news.bookings@[i].company_id);
                } else {
                    assert(news.bookings@[i] == b);
                    assert(news.spaces@[space_idx as int].id == b.coworking_space_id);
                    assert(news.spaces@[space_idx as int].company_id == b.company_id);
                }
            }
            assert forall|i: int|
                0 <= i < news.bookings@.len() implies #[trigger] news.booking_item_resolves(
                i,
            ) by {
                if i < n {
                    assert(olds.booking_item_resolves(i));
                    assert(news.bookings@[i] == olds.bookings@[i]);
                    let bo = olds.bookings@[i];
                    let k0 = choose|k: int|
                        0 <= k < olds.items@.len() && (#[trigger] olds.items@[k]).id
                            == bo.coworking_item_id && olds.items@[k].coworking_id
                            == bo.coworking_space_id;
                    assert(news.items@[k0].id == news.bookings@[i].coworking_item_id);
                    assert(news.items@[k0].coworking_id == news.bookings@[i].coworking_space_id);
                } else {
                    assert(news.bookings@[i] == b);
                    assert(news.items@[item_idx as int].id == b.coworking_item_id);
                    assert(news.items@[item_idx as int].coworking_id == b.coworking_space_id);
                }
            }
        }
        crate::store::lemma_companies_wf_from(olds, news);
        crate::store::lemma_buildings_wf_from(olds, news);
        crate::store::lemma_spaces_wf_from(olds, news);
        crate::store::lemma_item_types_wf_from(olds, news);
        crate::store::lemma_items_wf_from(olds, news);
        crate::store::lemma_geometry_wf_from(olds, news);
        crate::store::lemma_users_wf_from(olds, news);
        crate::store::lemma_pending_wf_from(olds, news);
    }
    Ok(b)
}

/// The booking with this id, wherever it is, belongs to the caller. True
/// vacuously when no such booking exists.
pub open spec fn booking_owned(s: Store, claims: Claims, booking_id: u64) -> bool {
    forall|i: int|
        0 <= i < s.bookings@.len() && (#[trigger] s.bookings@[i]).id == booking_id
            ==> s.bookings@[i].user_id == claims.user_id && s.bookings@[i].company_id
            == claims.company_id
}

/// The booking with this id, wherever it is, belongs to the caller's
/// company. True vacuously when no such booking exists.
pub open spec fn booking_in_company(s: Store, company_id: u64, booking_id: u64) -> bool {
    forall|i: int|
        0 <= i < s.bookings@.len() && (#[trigger] s.bookings@[i]).id == booking_id
            ==> s.bookings@[i].company_id == company_id
}

/// Some booking has this id.
pub open spec fn booking_exists(s: Store, booking_id: u64) -> bool {
    exists|i: int| 0 <= i < s.bookings@.len() && (#[trigger] s.bookings@[i]).id == booking_id
}

/// Removing one booking preserves every store invariant: the remaining
/// bookings are a subsequence of the old ones.
proof fn lemma_remove_booking_wf(a: Store, b: Store, idx: int)
    requires
        a.wf(),
        0 <= idx < a.bookings@.len(),
        b.bookings@ == a.bookings@.remove(idx),
        same_except_bookings(b, a),
        b.next_id == a.next_id,
    ensures
        b.wf(),
{
    a.bookings@.remove_ensures(idx);
    let oldb = a.bookings@;
    let newb = b.bookings@;
    assert forall|i: int| 0 <= i < newb.len() implies #[trigger] newb[i] == oldb[shift_past(
        i,
        idx,
    )] && 0 <= shift_past(i, idx) < oldb.len() by {}
    assert forall|i: int| 0 <= i < newb.len() implies (#[trigger] newb[i]).id < b.next_id
        && booking_ok(newb[i]) by {
        assert(newb[i] == oldb[shift_past(i, idx)]);
    }
    assert forall|i: int, j: int|
        0 <= i < j < newb.len() implies (#[trigger] newb[i]).id != (#[trigger] newb[j]).id by {
        assert(newb[i] == oldb[shift_past(i, idx)]);
        assert(newb[j] == oldb[shift_past(j, idx)]);
        assert(shift_past(i, idx) < shift_past(j, idx));
    }
    assert forall|i: int, j: int|
        0 <= i < newb.len() && 0 <= j < newb.len() && i != j && (
        #[trigger] newb[i]).coworking_item_id == (#[trigger] newb[j]).coworking_item_id implies !overlaps(
        newb[i],
        newb[j],
    ) by {
        assert(newb[i] == oldb[shift_past(i, idx)]);
        assert(newb[j] == oldb[shift_past(j, idx)]);
        assert(!overlaps(oldb[shift_past(i, idx)], oldb[shift_past(j, idx)]));
    }
    assert(b.bookings_wf()) by {
        assert forall|i: int| 0 <= i < newb.len() implies #[trigger] b.booking_user_resolves(
            i,
        ) by {
            assert(a.booking_user_resolves(shift_past(i, idx)));
            assert(newb[i] == oldb[shift_past(i, idx)]);
            let bo = oldb[shift_past(i, idx)];
            let k0 = choose|k: int|
                0 <= k < a.users@.len() && (#[trigger] a.users@[k]).id == bo.user_id
                    && a.users@[k].company_id == bo.company_id;
            assert(b.users@[k0].id == newb[i].user_id);
            assert(b.users@[k0].company_id == newb[i].company_id);
        }
        assert forall|i: int| 0 <= i < newb.len() implies #[trigger] b.booking_space_resolves(
            i,
        ) by {
            assert(a.booking_space_resolves(shift_past(i, idx)));
            assert(newb[i] == oldb[shift_past(i, idx)]);
            let bo = oldb[shift_past(i, idx)];
            let k0 = choose|k: int|
                0 <= k < a.spaces@.len() && (#[trigger] a.spaces@[k]).id == bo.coworking_space_id
                    && a.spaces@[k].company_id == bo.company_id;
            assert(b.spaces@[k0].id == newb[i].coworking_space_id);
            assert(b.spaces@[k0].company_id == newb[i].company_id);
        }
        assert forall|i: int| 0 <= i < newb.len() implies #[trigger] b.booking_item_resolves(
            i,
        ) by {
            assert(a.booking_item_resolves(shift_past(i, idx)));
            assert(newb[i] == oldb[shift_past(i, idx)]);
            let bo = oldb[shift_past(i, idx)];
            let k0 = choose|k: int|
                0 <= k < a.items@.len() && (#[trigger] a.items@[k]).id == bo.coworking_item_id
                    && a.items@[k].coworking_id == bo.coworking_space_id;
            assert(b.items@[k0].id == newb[i].coworking_item_id);
            assert(b.items@[k0].coworking_id == newb[i].coworking_space_id);
        }
    }
    crate::store::lemma_companies_wf_from(a, b);
    crate::store::lemma_buildings_wf_from(a, b);
    crate::store::lemma_spaces_wf_from(a, b);
    crate::store::lemma_item_types_wf_from(a, b);
    crate::store::lemma_items_wf_from(a, b);
    crate::store::lemma_geometry_wf_from(a, b);
    crate::store::lemma_users_wf_from(a, b);
    crate::store::lemma_pending_wf_from(a, b);
}

/// The index an element of a sequence had before position `idx` was
/// removed in front of or at it.
pub open spec fn shift_past(i: int, idx: int) -> int {
    if i < idx {
        i
    } else {
        i + 1
    }
}

/// Deletes the caller's booking. Ownership is the only gate beyond
/// existence; a booking of another user or tenant is never deleted, and
/// a booking of another tenant answers the same `NotFound` as an absent
/// id, so a caller can never learn that a foreign id exists.
pub fn delete_booking(store: &mut Store, claims: &Claims, booking_id: u64) -> (r: Result<
    (),
    ProdError,
>)
    requires
        old(store).wf(),
    ensures
        final(store).wf(),
        r is Err ==> *final(store) == *old(store),
        r is Ok <==> booking_exists(*old(store), booking_id) && booking_owned(
            *old(store),
            *claims,
            booking_id,
        ),
        !booking_exists(*old(store), booking_id) ==> (r matches Err(e) && e
            matches ProdError::NotFound(m) && m@ == "No booking was found"@),
        booking_exists(*old(store), booking_id) && !booking_in_company(
            *old(store),
            claims.company_id,
            booking_id,
        ) ==> (r matches Err(e) && e matches ProdError::NotFound(m) && m@
            == "No booking was found"@),
        booking_exists(*old(store), booking_id) && booking_in_company(
            *old(store),
            claims.company_id,
            booking_id,
        ) && !booking_owned(*old(store), *claims, booking_id) ==> (r matches Err(e) && e
            matches ProdError::Forbidden(m) && m@ == "You don't have permission to that booking"@),
        r is Ok ==> exists|i: int|
            0 <= i < old(store).bookings@.len() && (#[trigger] old(store).bookings@[i]).id
                == booking_id && final(store).bookings@ == old(store).bookings@.remove(i),
        r is Ok ==> same_except_bookings(*final(store), *old(store)) && final(store).next_id == old(
            store,
        ).next_id,
{
    let idx = match store.find_booking(booking_id) {
        Some(i) => i,
        None => {
            return Err(ProdError::NotFound("No booking was found".to_owned()));
        },
    };
    proof {
        assert forall|k: int|
            0 <= k < store.bookings@.len() && (#[trigger] store.bookings@[k]).id == booking_id implies k
            == idx as int by {
            if k != idx as int {
                assert(store.bookings@[k].id != store.bookings@[idx as int].id);
            }
        }
    }
    if store.bookings[idx].company_id != claims.company_id {
        return Err(ProdError::NotFound("No booking was found".to_owned()));
    }
    if store.bookings[idx].user_id != claims.user_id {
        return Err(ProdError::Forbidden("You don't have permission to that booking".to_owned()));
    }
    store.bookings.remove(idx);
    proof {
        lemma_remove_booking_wf(*old(store), *store, idx as int);
    }
    Ok(())
}


/// The booking with the patch's present fields substituted; identity,
/// owner and tenant never change.
pub open spec fn apply_patch(b: BookingModel, form: PatchBookingForm) -> BookingModel {
    BookingModel {
        id: b.id,
        user_id: b.user_id,
        company_id: b.company_id,
        coworking_space_id: match form.coworking_id {
            Some(v) => v,
            None => b.coworking_space_id,
        },
        coworking_item_id: match form.coworking_item_id {
            Some(v) => v,
            None => b.coworking_item_id,
        },
        time_start: match form.time_start {
            Some(v) => v,
            None => b.time_start,
        },
        time_end: match form.time_end {
            Some(v) => v,
            None => b.time_end,
        },
    }
}

/// Some booking other than `excl_id`, on the same item, overlaps
/// `[start, end)`.
pub open spec fn booking_conflict_excluding(
    s: Store,
    excl_id: u64,
    item_id: u64,
    start: i64,
    end: i64,
) -> bool {
    exists|i: int|
        0 <= i < s.bookings@.len() && (#[trigger] s.bookings@[i]).id != excl_id
            && s.bookings@[i].coworking_item_id == item_id && s.bookings@[i].time_start < end
            && start < s.bookings@[i].time_end
}

/// Replacing one booking with a valid, resolvable, conflict-free merge
/// that keeps its identity, owner and tenant preserves every invariant.
proof fn lemma_update_booking_wf(a: Store, b: Store, idx: int, m: BookingModel)
    requires
        a.wf(),
        0 <= idx < a.bookings@.len(),
        m.id == a.bookings@[idx].id,
        m.user_id == a.bookings@[idx].user_id,
        m.company_id == a.bookings@[idx].company_id,
        booking_ok(m),
        b.bookings@ == a.bookings@.update(idx, m),
        same_except_bookings(b, a),
        b.next_id == a.next_id,
        forall|j: int|
            0 <= j < a.bookings@.len() && j != idx && (#[trigger] a.bookings@[j]).coworking_item_id
                == m.coworking_item_id ==> !overlaps(m, a.bookings@[j]),
        exists|k: int|
            0 <= k < a.spaces@.len() && (#[trigger] a.spaces@[k]).id == m.coworking_space_id
                && a.spaces@[k].company_id == m.company_id,
        exists|k: int|
            0 <= k < a.items@.len() && (#[trigger] a.items@[k]).id == m.coworking_item_id
                && a.items@[k].coworking_id == m.coworking_space_id,
    ensures
        b.wf(),
{
    let oldb = a.bookings@;
    let newb = b.bookings@;
    assert forall|i: int| 0 <= i < newb.len() && i != idx implies #[trigger] newb[i] == oldb[i] by {}
    assert(newb[idx] == m);
    assert forall|i: int| 0 <= i < newb.len() implies (#[trigger] newb[i]).id < b.next_id
        && booking_ok(newb[i]) by {
        if i != idx {
            assert(newb[i] == oldb[i]);
        } else {
            assert(oldb[idx].id < a.next_id);
        }
    }
    assert forall|i: int, j: int|
        0 <= i < j < newb.len() implies (#[trigger] newb[i]).id != (#[trigger] newb[j]).id by {
        assert(oldb[i].id != oldb[j].id);
        if i == idx {
            assert(newb[i].id == oldb[i].id);
        }
        if j == idx {
            assert(newb[j].id == oldb[j].id);
        }
    }
    assert forall|i: int, j: int|
        0 <= i < newb.len() && 0 <= j < newb.len() && i != j && (
    #[trigger] newb[i]).coworking_item_id == (#[trigger] newb[j]).coworking_item_id implies !overlaps(
        newb[i],
        newb[j],
    ) by {
        if i != idx && j != idx {
            assert(!overlaps(oldb[i], oldb[j]));
        } else if i == idx {
            assert(!overlaps(m, oldb[j]));
        } else {
            assert(!overlaps(m, oldb[i]));
        }
    }
    assert(b.bookings_wf()) by {
        assert forall|i: int| 0 <= i < newb.len() implies #[trigger] b.booking_user_resolves(
            i,
        ) by {
            assert(a.booking_user_resolves(i));
            let bo = oldb[i];
            let k0 = choose|k: int|
                0 <= k < a.users@.len() && (#[trigger] a.users@[k]).id == bo.user_id
                    && a.users@[k].company_id == bo.company_id;
            assert(b.users@[k0].id == newb[i].user_id);
            assert(b.users@[k0].company_id == newb[i].company_id);
        }
        assert forall|i: int| 0 <= i < newb.len() implies #[trigger] b.booking_space_resolves(
            i,
        ) by {
            if i != idx {
                assert(a.booking_space_resolves(i));
                let bo = oldb[i];
                let k0 = choose|k: int|
                    0 <= k < a.spaces@.len() && (#[trigger] a.spaces@[k]).id
                        == bo.coworking_space_id && a.spaces@[k].company_id == bo.company_id;
                assert(b.spaces@[k0].id == newb[i].coworking_space_id);
                assert(b.spaces@[k0].company_id == newb[i].company_id);
            } else {
                let k0 = choose|k: int|
                    0 <= k < a.spaces@.len() && (#[trigger] a.spaces@[k]).id
                        == m.coworking_space_id && a.spaces@[k].company_id == m.company_id;
                assert(b.spaces@[k0].id == newb[i].coworking_space_id);
                assert(b.spaces@[k0].company_id == newb[i].company_id);
            }
        }
        assert forall|i: int| 0 <= i < newb.len() implies #[trigger] b.booking_item_resolves(
            i,
        ) by {
            if i != idx {
                assert(a.booking_item_resolves(i));
                let bo = oldb[i];
                let k0 = choose|k: int|
                    0 <= k < a.items@.len() && (#[trigger] a.items@[k]).id == bo.coworking_item_id
                        && a.items@[k].coworking_id == bo.coworking_space_id;
                assert(b.items@[k0].id == newb[i].coworking_item_id);
                assert(b.items@[k0].coworking_id == newb[i].coworking_space_id);
            } else {
                let k0 = choose|k: int|
                    0 <= k < a.items@.len() && (#[trigger] a.items@[k]).id == m.coworking_item_id
                        && a.items@[k].coworking_id == m.coworking_space_id;
                assert(b.items@[k0].id == newb[i].coworking_item_id);
                assert(b.items@[k0].coworking_id == newb[i].coworking_space_id);
            }
        }
    }
    crate::store::lemma_companies_wf_from(a, b);
    crate::store::lemma_buildings_wf_from(a, b);
    crate::store::lemma_spaces_wf_from(a, b);
    crate::store::lemma_item_types_wf_from(a, b);
    crate::store::lemma_items_wf_from(a, b);
    crate::store::lemma_geometry_wf_from(a, b);
    crate::store::lemma_users_wf_from(a, b);
    crate::store::lemma_pending_wf_from(a, b);
}

/// Updates a booking by substituting the present patch fields, then
/// reapplying every creation-time validation against the merged value.
/// A booking of another tenant answers the same `NotFound` as an absent
/// id before anything else is validated; the caller's own ownership
/// check comes last and rolls the whole update back, as a logical
/// authorization failure rather than a data error.
#[verifier::loop_isolation(false)]
pub fn patch_booking(
    store: &mut Store,
    claims: &Claims,
    booking_id: u64,
    form: &PatchBookingForm,
    now: i64,
) -> (r: Result<BookingModel, ProdError>)
    requires
        old(store).wf(),
        0 <= now,
    ensures
        final(store).wf(),
        r is Err ==> *final(store) == *old(store),
        !booking_exists(*old(store), booking_id) ==> (r matches Err(e) && e
            matches ProdError::NotFound(m) && m@ == "No booking was found"@),
        forall|i: int|
            0 <= i < old(store).bookings@.len() && (#[trigger] old(store).bookings@[i]).id
                == booking_id ==> (patch_postcondition(
                *old(store),
                *final(store),
                *claims,
                i,
                apply_patch(old(store).bookings@[i], *form),
                now,
                r,
            )),
{
    let idx = match store.find_booking(booking_id) {
        Some(i) => i,
        None => {
            return Err(ProdError::NotFound("No booking was found".to_owned()));
        },
    };
    proof {
        assert forall|k: int|
            0 <= k < store.bookings@.len() && (#[trigger] store.bookings@[k]).id == booking_id implies k
            == idx as int by {
            if k != idx as int {
                assert(store.bookings@[k].id != store.bookings@[idx as int].id);
            }
        }
    }
    let b = store.bookings[idx];
    if b.company_id != claims.company_id {
        return Err(ProdError::NotFound("No booking was found".to_owned()));
    }
    let merged = BookingModel {
        id: b.id,
        user_id: b.user_id,
        company_id: b.company_id,
        coworking_space_id: match form.coworking_id {
            Some(v) => v,
            None => b.coworking_space_id,
        },
        coworking_item_id: match form.coworking_item_id {
            Some(v) => v,
            None => b.coworking_item_id,
        },
        time_start: match form.time_start {
            Some(v) => v,
            None => b.time_start,
        },
        time_end: match form.time_end {
            Some(v) => v,
            None => b.time_end,
        },
    };
    if !(merged.time_start < merged.time_end) || !(now <= merged.time_start) || (merged.time_end
        - merged.time_start) % SLOT_SECONDS != 0 {
        return Err(
            ProdError::ShitHappened(
                "Booking time should be divided by 15 minutes. You can book only in future. Start time should be less than end time.".to_owned(),
            ),
        );
    }
    let space_idx = match store.find_space_in_company(merged.company_id, merged.coworking_space_id) {
        Some(i) => i,
        None => {
            return Err(ProdError::NotFound("Coworking or coworking_item not found".to_owned()));
        },
    };
    let item_idx = match store.find_item_in_space(
        merged.coworking_space_id,
        merged.coworking_item_id,
    ) {
        Some(i) => i,
        None => {
            return Err(ProdError::NotFound("Coworking or coworking_item not found".to_owned()));
        },
    };
    let mut k: usize = 0;
    while k < store.bookings.len()
        invariant
            0 <= k <= store.bookings@.len(),
            forall|j: int|
                0 <= j < k ==> !((#[trigger] store.bookings@[j]).id != booking_id
                    && store.bookings@[j].coworking_item_id == merged.coworking_item_id
                    && store.bookings@[j].time_start < merged.time_end && merged.time_start
                    < store.bookings@[j].time_end),
        decreases store.bookings@.len() - k,
    {
        let ex = &store.bookings[k];
        if ex.id != booking_id && ex.coworking_item_id == merged.coworking_item_id
            && ex.time_start < merged.time_end && merged.time_start < ex.time_end {
            return Err(
                ProdError::Conflict("Your booking conflicts with existing bookings".to_owned()),
            );
        }
        k = k + 1;
    }
    if b.user_id != claims.user_id {
        return Err(ProdError::Forbidden("You don't have permission to that booking".to_owned()));
    }
    store.bookings[idx] = merged;
    proof {
        assert forall|j: int|
            0 <= j < old(store).bookings@.len() && j != idx as int && (#[trigger] old(
                store,
            ).bookings@[j]).coworking_item_id == merged.coworking_item_id implies !overlaps(
            merged,
            old(store).bookings@[j],
        ) by {
            assert(old(store).bookings@[j].id != booking_id);
        }
        lemma_update_booking_wf(*old(store), *store, idx as int, merged);
    }
    Ok(merged)
}

/// What `patch_booking` guarantees once the booking at index `i` is the
/// one addressed: which error each failed validation yields, and the
/// exact store update on success.
pub open spec fn patch_postcondition(
    pre: Store,
    post: Store,
    claims: Claims,
    i: int,
    m: BookingModel,
    now: i64,
    r: Result<BookingModel, ProdError>,
) -> bool {
    &&& m.company_id != claims.company_id ==> (r matches Err(e) && e matches ProdError::NotFound(
        msg,
    ) && msg@ == "No booking was found"@)
    &&& m.company_id == claims.company_id && !times_valid(m.time_start, m.time_end, now) ==> (r
        matches Err(e) && e matches ProdError::ShitHappened(msg) && msg@
        == "Booking time should be divided by 15 minutes. You can book only in future. Start time should be less than end time."@)
    &&& m.company_id == claims.company_id && times_valid(m.time_start, m.time_end, now)
        && !booking_target_exists(
        pre,
        m.company_id,
        m.coworking_space_id,
        m.coworking_item_id,
    ) ==> (r matches Err(e) && e matches ProdError::NotFound(msg) && msg@
        == "Coworking or coworking_item not found"@)
    &&& m.company_id == claims.company_id && times_valid(m.time_start, m.time_end, now)
        && booking_target_exists(
        pre,
        m.company_id,
        m.coworking_space_id,
        m.coworking_item_id,
    ) && booking_conflict_excluding(pre, m.id, m.coworking_item_id, m.time_start, m.time_end)
        ==> (r matches Err(e) && e matches ProdError::Conflict(msg) && msg@
        == "Your booking conflicts with existing bookings"@)
    &&& m.company_id == claims.company_id && times_valid(m.time_start, m.time_end, now)
        && booking_target_exists(
        pre,
        m.company_id,
        m.coworking_space_id,
        m.coworking_item_id,
    ) && !booking_conflict_excluding(pre, m.id, m.coworking_item_id, m.time_start, m.time_end)
        && m.user_id != claims.user_id ==> (r matches Err(e) && e matches ProdError::Forbidden(
        msg,
    ) && msg@ == "You don't have permission to that booking"@)
    &&& m.company_id == claims.company_id && times_valid(m.time_start, m.time_end, now)
        && booking_target_exists(
        pre,
        m.company_id,
        m.coworking_space_id,
        m.coworking_item_id,
    ) && !booking_conflict_excluding(pre, m.id, m.coworking_item_id, m.time_start, m.time_end)
        && m.user_id == claims.user_id ==> (r == Ok::<BookingModel, ProdError>(m)
        && post.bookings@ == pre.bookings@.update(i, m) && same_except_bookings(post, pre)
        && post.next_id == pre.next_id)
}

/// The bookings of one coworking space that have not ended yet, for any
/// authenticated caller of the space's tenant.
#[verifier::loop_isolation(false)]
pub fn get_coworking_bookings(
    store: &Store,
    claims: &Claims,
    building_id: u64,
    coworking_id: u64,
    now: i64,
) -> (r: Result<Vec<BookingModel>, ProdError>)
    requires
        store.wf(),
    ensures
        r matches Err(e) ==> e matches ProdError::NotFound(m) && m@
            == "No such coworking or building"@,
        r is Err <==> !space_in_building_exists(*store, claims.company_id, building_id,
        coworking_id),
        r matches Ok(v) ==> (forall|k: int|
            0 <= k < v@.len() ==> booking_row_in(*store, #[trigger] v@[k])),
        r matches Ok(v) ==> (forall|k: int|
            0 <= k < v@.len() ==> (#[trigger] v@[k]).company_id == claims.company_id && v@[k].coworking_space_id
                == coworking_id && v@[k].time_end > now),
        r matches Ok(v) ==> (forall|i: int|
            0 <= i < store.bookings@.len() && (#[trigger] store.bookings@[i]).company_id
                == claims.company_id && store.bookings@[i].coworking_space_id == coworking_id
                && store.bookings@[i].time_end > now ==> row_listed(v@, store.bookings@[i])),
{
    if store.find_space(claims.company_id, building_id, coworking_id).is_none() {
        return Err(ProdError::NotFound("No such coworking or building".to_owned()));
    }
    let mut out: Vec<BookingModel> = Vec::new();
    let mut k: usize = 0;
    while k < store.bookings.len()
        invariant
            0 <= k <= store.bookings@.len(),
            forall|p: int| 0 <= p < out@.len() ==> booking_row_in(*store, #[trigger] out@[p]),
            forall|p: int|
                0 <= p < out@.len() ==> (#[trigger] out@[p]).company_id == claims.company_id
                    && out@[p].coworking_space_id == coworking_id && out@[p].time_end > now,
            forall|i: int|
                0 <= i < k && (#[trigger] store.bookings@[i]).company_id == claims.company_id
                    && store.bookings@[i].coworking_space_id == coworking_id
                    && store.bookings@[i].time_end > now ==> row_listed(
                    out@,
                    store.bookings@[i],
                ),
        decreases store.bookings@.len() - k,
    {
        let bo = store.bookings[k];
        if bo.company_id == claims.company_id && bo.coworking_space_id == coworking_id
            && bo.time_end > now {
            let ghost prev = out@;
            out.push(bo);
            proof {
                assert forall|p: int| 0 <= p < out@.len() implies booking_row_in(
                    *store,
                    #[trigger] out@[p],
                ) by {
                    if p < prev.len() {
                        assert(out@[p] == prev[p]);
                        assert(booking_row_in(*store, prev[p]));
                    } else {
                        assert(out@[p] == store.bookings@[k as int]);
                    }
                }
                assert forall|i: int|
                    0 <= i <= k as int && (#[trigger] store.bookings@[i]).company_id
                        == claims.company_id && store.bookings@[i].coworking_space_id
                        == coworking_id && store.bookings@[i].time_end > now implies row_listed(
                    out@,
                    store.bookings@[i],
                ) by {
                    if i < k as int {
                        assert(row_listed(prev, store.bookings@[i]));
                        let p0 = choose|p: int| 0 <= p < prev.len() && prev[p]
                            == store.bookings@[i];
                        assert(out@[p0] == store.bookings@[i]);
                    } else {
                        assert(out@[out@.len() - 1] == store.bookings@[i]);
                    }
                }
            }
        }
        k = k + 1;
    }
    Ok(out)
}

/// `b` is one of the store's booking rows.
pub open spec fn booking_row_in(s: Store, b: BookingModel) -> bool {
    exists|i: int| 0 <= i < s.bookings@.len() && b == #[trigger] s.bookings@[i]
}

/// `b` occurs in the listing `v`.
pub open spec fn row_listed(v: Seq<BookingModel>, b: BookingModel) -> bool {
    exists|p: int| 0 <= p < v.len() && #[trigger] v[p] == b
}

/// The caller's company has the space `coworking_id` inside the building
/// `building_id`.
pub open spec fn space_in_building_exists(
    s: Store,
    company_id: u64,
    building_id: u64,
    space_id: u64,
) -> bool {
    exists|k: int|
        0 <= k < s.spaces@.len() && (#[trigger] s.spaces@[k]).id == space_id
            && s.spaces@[k].building_id == building_id && s.spaces@[k].company_id == company_id
}


/// The booking with this id, wherever it is, belongs to this user. True
/// vacuously when no such booking exists.
pub open spec fn booking_of_user(s: Store, user_id: u64, booking_id: u64) -> bool {
    exists|i: int|
        0 <= i < s.bookings@.len() && (#[trigger] s.bookings@[i]).id == booking_id
            && s.bookings@[i].user_id == user_id
}

/// Issues the QR token for one of the caller's own bookings. The token's
/// validity window ends with the booking itself, and validating the
/// issued token under the same secret yields exactly the claims it was
/// issued with.
pub fn get_booking_qr(
    store: &Store,
    claims: &Claims,
    booking_id: u64,
    now: i64,
    secret: &[u8],
) -> (r: Result<QrToken, ProdError>)
    requires
        store.wf(),
        0 <= now,
    ensures
        r is Ok <==> booking_of_user(*store, claims.user_id, booking_id),
        r matches Err(e) ==> e matches ProdError::NotFound(m) && m@ == "No booking found"@,
        r matches Ok(qt) ==> (forall|i: int|
            0 <= i < store.bookings@.len() && (#[trigger] store.bookings@[i]).id == booking_id
                ==> qt.token@ == spec_qr_token(
                QrClaims {
                    booking_id,
                    iat: now,
                    exp: store.bookings@[i].time_end,
                },
                secret@,
            ) && spec_validate_qr(qt.token@, secret@) == Some(
                QrClaims { booking_id, iat: now, exp: store.bookings@[i].time_end },
            )),
{
    let idx = match store.find_booking(booking_id) {
        Some(i) => i,
        None => {
            return Err(ProdError::NotFound("No booking found".to_owned()));
        },
    };
    proof {
        assert forall|k: int|
            0 <= k < store.bookings@.len() && (#[trigger] store.bookings@[k]).id == booking_id implies k
            == idx as int by {
            if k != idx as int {
                assert(store.bookings@[k].id != store.bookings@[idx as int].id);
            }
        }
    }
    let b = store.bookings[idx];
    if b.user_id != claims.user_id {
        return Err(ProdError::NotFound("No booking found".to_owned()));
    }
    proof {
        assert(booking_ok(store.bookings@[idx as int]));
    }
    let token = match crate::jwt::generate::create_qr_token(&b, now, secret) {
        Ok(t) => t,
        Err(e) => {
            proof {
                assert(false);
            }
            return Err(e);
        },
    };
    Ok(QrToken { token })
}

/// The data a positive verdict shows for booking row `i`: the booker's
/// email, the addresses of the building and space, the item's name, and
/// the time window.
pub open spec fn displays_booking_row(s: Store, i: int, d: crate::forms::BookingDisplayData) -> bool {
    &&& 0 <= i < s.bookings@.len()
    &&& d.time_start == s.bookings@[i].time_start
    &&& d.time_end == s.bookings@[i].time_end
    &&& exists|k: int|
        0 <= k < s.users@.len() && (#[trigger] s.users@[k]).id == s.bookings@[i].user_id
            && d.user_email@ == s.users@[k].email@
    &&& exists|k: int|
        0 <= k < s.spaces@.len() && (#[trigger] s.spaces@[k]).id
            == s.bookings@[i].coworking_space_id && d.space_name@ == s.spaces@[k].address@
    &&& exists|k: int, k2: int|
        #![trigger s.spaces@[k], s.buildings@[k2]]
        0 <= k < s.spaces@.len() && s.spaces@[k].id == s.bookings@[i].coworking_space_id && 0 <= k2
            < s.buildings@.len() && s.buildings@[k2].id == s.spaces@[k].building_id
            && d.building_name@ == s.buildings@[k2].address@
    &&& exists|k: int|
        0 <= k < s.items@.len() && (#[trigger] s.items@[k]).id
            == s.bookings@[i].coworking_item_id && d.item_name@ == s.items@[k].name@
}

/// The verdict is positive exactly when the token validates, its window
/// has not ended, and the booking it names still exists.
pub open spec fn qr_verdict_positive(s: Store, t: Seq<char>, secret: Seq<u8>, now: i64) -> bool {
    match crate::jwt::generate::spec_validate_qr(t, secret) {
        Some(c) => c.exp > now && booking_exists(s, c.booking_id),
        None => false,
    }
}

/// Verifies a QR token for the front desk: cryptographic validity and
/// referential validity collapse into one boolean, with display data
/// exactly on the positive outcome. No failure leaks an error.
pub fn verify_booking_qr(store: &Store, token: &str, now: i64, secret: &[u8]) -> (r: Verdict)
    requires
        store.wf(),
    ensures
        r.valid == qr_verdict_positive(*store, token@, secret@, now),
        !r.valid ==> r.booking_data is None,
        r.valid ==> (crate::jwt::generate::spec_validate_qr(token@, secret@) matches Some(c)
            && r.booking_data matches Some(d) && (forall|i: int|
            0 <= i < store.bookings@.len() && (#[trigger] store.bookings@[i]).id == c.booking_id
                ==> displays_booking_row(*store, i, d))),
{
    let claims = match crate::jwt::generate::validate_qr_token(token, secret) {
        Ok(c) => c,
        Err(_) => {
            return Verdict { valid: false, booking_data: None };
        },
    };
    if claims.exp <= now {
        return Verdict { valid: false, booking_data: None };
    }
    let idx = match store.find_booking(claims.booking_id) {
        Some(i) => i,
        None => {
            return Verdict { valid: false, booking_data: None };
        },
    };
    proof {
        assert forall|k: int|
            0 <= k < store.bookings@.len() && (#[trigger] store.bookings@[k]).id
                == claims.booking_id implies k == idx as int by {
            if k != idx as int {
                assert(store.bookings@[k].id != store.bookings@[idx as int].id);
            }
        }
    }
    let b = store.bookings[idx];
    proof {
        assert(store.booking_user_resolves(idx as int));
        assert(store.booking_space_resolves(idx as int));
        assert(store.booking_item_resolves(idx as int));
    }
    let user_idx = match store.find_user(b.user_id) {
        Some(i) => i,
        None => {
            proof {
                let k0 = choose|k: int|
                    0 <= k < store.users@.len() && (#[trigger] store.users@[k]).id == b.user_id
                        && store.users@[k].company_id == b.company_id;
                assert(false);
            }
            return Verdict { valid: false, booking_data: None };
        },
    };
    let space_idx = match store.find_space_by_id(b.coworking_space_id) {
        Some(i) => i,
        None => {
            proof {
                let k0 = choose|k: int|
                    0 <= k < store.spaces@.len() && (#[trigger] store.spaces@[k]).id
                        == b.coworking_space_id && store.spaces@[k].company_id == b.company_id;
                assert(false);
            }
            return Verdict { valid: false, booking_data: None };
        },
    };
    proof {
        assert(store.space_building_resolves(space_idx as int));
    }
    let building_idx = match store.find_building_by_id(store.spaces[space_idx].building_id) {
        Some(i) => i,
        None => {
            proof {
                let k0 = choose|k: int|
                    0 <= k < store.buildings@.len() && (#[trigger] store.buildings@[k]).id
                        == store.spaces@[space_idx as int].building_id
                        && store.buildings@[k].company_id
                        == store.spaces@[space_idx as int].company_id;
                assert(false);
            }
            return Verdict { valid: false, booking_data: None };
        },
    };
    let item_idx = match store.find_item_by_id(b.coworking_item_id) {
        Some(i) => i,
        None => {
            proof {
                let k0 = choose|k: int|
                    0 <= k < store.items@.len() && (#[trigger] store.items@[k]).id
                        == b.coworking_item_id && store.items@[k].coworking_id
                        == b.coworking_space_id;
                assert(false);
            }
            return Verdict { valid: false, booking_data: None };
        },
    };
    let data = crate::forms::BookingDisplayData {
        user_email: store.users[user_idx].email.clone(),
        building_name: store.buildings[building_idx].address.clone(),
        space_name: store.spaces[space_idx].address.clone(),
        item_name: store.items[item_idx].name.clone(),
        time_start: b.time_start,
        time_end: b.time_end,
    };
    Verdict { valid: true, booking_data: Some(data) }
}

/// Temporal exclusivity: in a well-formed store, two distinct bookings
/// of one item instance never overlap; they can only coexist with one
/// ending at or before the other's start. Touching endpoints are
/// allowed.
pub proof fn lemma_booking_exclusivity(s: Store, i: int, j: int)
    requires
        s.wf(),
        0 <= i < s.bookings@.len(),
        0 <= j < s.bookings@.len(),
        i != j,
        s.bookings@[i].coworking_item_id == s.bookings@[j].coworking_item_id,
    ensures
        s.bookings@[i].time_end <= s.bookings@[j].time_start || s.bookings@[j].time_end
            <= s.bookings@[i].time_start,
{
    assert(!overlaps(s.bookings@[i], s.bookings@[j]));
}

/// A booking's QR round trip: in a well-formed store, a token whose
/// validation yields the claims a booking was issued with produces a
/// positive verdict whenever it is checked before the booking's end.
pub proof fn lemma_qr_round_trip(s: Store, i: int, t: Seq<char>, secret: Seq<u8>, now: i64)
    requires
        s.wf(),
        0 <= i < s.bookings@.len(),
        exists|iat: i64|
            crate::jwt::generate::spec_validate_qr(t, secret) == Some(
                QrClaims { booking_id: s.bookings@[i].id, iat, exp: s.bookings@[i].time_end },
            ),
        now < s.bookings@[i].time_end,
    ensures
        qr_verdict_positive(s, t, secret, now),
{
    assert(booking_exists(s, s.bookings@[i].id));
}


/// The display row carries booking row `i` joined with the names its
/// references resolve to: building and space addresses and the item's
/// name and description.
pub open spec fn public_row_matches(
    s: Store,
    i: int,
    row: crate::models::PublicBookingModel,
) -> bool {
    &&& 0 <= i < s.bookings@.len()
    &&& row.id == s.bookings@[i].id
    &&& row.user_id == s.bookings@[i].user_id
    &&& row.coworking_space_id == s.bookings@[i].coworking_space_id
    &&& row.coworking_item_id == s.bookings@[i].coworking_item_id
    &&& row.time_start == s.bookings@[i].time_start
    &&& row.time_end == s.bookings@[i].time_end
    &&& exists|k: int|
        0 <= k < s.spaces@.len() && (#[trigger] s.spaces@[k]).id
            == s.bookings@[i].coworking_space_id && row.coworking_space_name@
            == s.spaces@[k].address@
    &&& exists|k: int, k2: int|
        #![trigger s.spaces@[k], s.buildings@[k2]]
        0 <= k < s.spaces@.len() && s.spaces@[k].id == s.bookings@[i].coworking_space_id && 0 <= k2
            < s.buildings@.len() && s.buildings@[k2].id == s.spaces@[k].building_id
            && row.building_address@ == s.buildings@[k2].address@
    &&& exists|k: int|
        0 <= k < s.items@.len() && (#[trigger] s.items@[k]).id
            == s.bookings@[i].coworking_item_id && row.coworking_item_name@ == s.items@[k].name@
            && row.coworking_item_description == s.items@[k].description
}

/// The row displays one of this user's bookings that has not ended.
pub open spec fn public_row_in(
    s: Store,
    user_id: u64,
    now: i64,
    row: crate::models::PublicBookingModel,
) -> bool {
    exists|i: int|
        #[trigger] public_row_matches(s, i, row) && s.bookings@[i].user_id == user_id
            && s.bookings@[i].time_end > now
}

/// Some entry of the listing displays booking row `i`.
pub open spec fn public_row_listed(
    s: Store,
    v: Seq<crate::models::PublicBookingModel>,
    i: int,
) -> bool {
    exists|p: int| 0 <= p < v.len() && public_row_matches(s, i, #[trigger] v[p])
}

/// The caller's own bookings that have not ended yet, joined with the
/// building address, space address, and item name for display.
#[verifier::loop_isolation(false)]
#[verifier::rlimit(30)]
pub fn list_bookings(store: &Store, claims: &Claims, now: i64) -> (r: Vec<
    crate::models::PublicBookingModel,
>)
    requires
        store.wf(),
    ensures
        forall|k: int|
            0 <= k < r@.len() ==> public_row_in(*store, claims.user_id, now, #[trigger] r@[k]),
        forall|i: int|
            0 <= i < store.bookings@.len() && (#[trigger] store.bookings@[i]).user_id
                == claims.user_id && store.bookings@[i].time_end > now ==> public_row_listed(
                *store,
                r@,
                i,
            ),
{
    let mut out: Vec<crate::models::PublicBookingModel> = Vec::new();
    let mut k: usize = 0;
    while k < store.bookings.len()
        invariant
            0 <= k <= store.bookings@.len(),
            forall|p: int|
                0 <= p < out@.len() ==> public_row_in(
                    *store,
                    claims.user_id,
                    now,
                    #[trigger] out@[p],
                ),
            forall|i: int|
                0 <= i < k && (#[trigger] store.bookings@[i]).user_id == claims.user_id
                    && store.bookings@[i].time_end > now ==> public_row_listed(*store, out@, i),
        decreases store.bookings@.len() - k,
    {
        let bo = store.bookings[k];
        if bo.user_id == claims.user_id && bo.time_end > now {
            proof {
                assert(store.booking_space_resolves(k as int));
                assert(store.booking_item_resolves(k as int));
            }
            let sp_idx = match store.find_space_by_id(bo.coworking_space_id) {
                Some(i) => i,
                None => {
                    proof {
                        let w = choose|w: int|
                            0 <= w < store.spaces@.len() && (#[trigger] store.spaces@[w]).id
                                == bo.coworking_space_id && store.spaces@[w].company_id
                                == bo.company_id;
                        assert(false);
                    }
                    return out;
                },
            };
            proof {
                assert(store.space_building_resolves(sp_idx as int));
            }
            let b_idx = match store.find_building_by_id(store.spaces[sp_idx].building_id) {
                Some(i) => i,
                None => {
                    proof {
                        let w = choose|w: int|
                            0 <= w < store.buildings@.len() && (#[trigger] store.buildings@[w]).id
                                == store.spaces@[sp_idx as int].building_id
                                && store.buildings@[w].company_id
                                == store.spaces@[sp_idx as int].company_id;
                        assert(false);
                    }
                    return out;
                },
            };
            let item_idx = match store.find_item_by_id(bo.coworking_item_id) {
                Some(i) => i,
                None => {
                    proof {
                        let w = choose|w: int|
                            0 <= w < store.items@.len() && (#[trigger] store.items@[w]).id
                                == bo.coworking_item_id && store.items@[w].coworking_id
                                == bo.coworking_space_id;
                        assert(false);
                    }
                    return out;
                },
            };
            let row = crate::models::PublicBookingModel {
                id: bo.id,
                user_id: bo.user_id,
                coworking_space_id: bo.coworking_space_id,
                coworking_item_id: bo.coworking_item_id,
                time_start: bo.time_start,
                time_end: bo.time_end,
                building_address: store.buildings[b_idx].address.clone(),
                coworking_item_name: store.items[item_idx].name.clone(),
                coworking_item_description: crate::models::clone_opt_string(
                    &store.items[item_idx].description,
                ),
                coworking_space_name: store.spaces[sp_idx].address.clone(),
            };
            let ghost prev = out@;
            out.push(row);
            proof {
                assert(public_row_matches(*store, k as int, out@[prev.len() as int]));
                assert forall|p: int| 0 <= p < out@.len() implies public_row_in(
                    *store,
                    claims.user_id,
                    now,
                    #[trigger] out@[p],
                ) by {
                    if p < prev.len() {
                        assert(out@[p] == prev[p]);
                        assert(public_row_in(*store, claims.user_id, now, prev[p]));
                    } else {
                        assert(public_row_matches(*store, k as int, out@[p]));
                    }
                }
                assert forall|i: int|
                    0 <= i <= k as int && (#[trigger] store.bookings@[i]).user_id
                        == claims.user_id && store.bookings@[i].time_end > now implies public_row_listed(
                    *store,
                    out@,
                    i,
                ) by {
                    if i < k as int {
                        assert(public_row_listed(*store, prev, i));
                        let p0 = choose|p: int|
                            0 <= p < prev.len() && public_row_matches(
                                *store,
                                i,
                                #[trigger] prev[p],
                            );
                        assert(out@[p0] == prev[p0]);
                        assert(public_row_matches(*store, i, out@[p0]));
                    } else {
                        assert(public_row_matches(*store, i, out@[out@.len() - 1]));
                    }
                }
            }
        }
        k = k + 1;
    }
    out
}

} // verus!
