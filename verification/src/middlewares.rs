use vstd::prelude::*;

use crate::coworking::building_resolves;
use crate::errors::ProdError;
use crate::jwt::models::Claims;
use crate::models::RoleModel;
use crate::placement::space_resolves;
use crate::store::Store;

verus! {

/// Gate for management operations: passes exactly the Admin role.
pub fn auth_admin(claims: &Claims) -> (r: Result<(), ProdError>)
    ensures
        r is Ok <==> claims.role == RoleModel::Admin,
        r matches Err(e) ==> e matches ProdError::Forbidden(m) && m@ == "You are not an admin"@,
{
    if matches!(claims.role, RoleModel::Admin) {
        Ok(())
    } else {
        Err(ProdError::Forbidden("You are not an admin".to_owned()))
    }
}

/// Tenancy isolation for buildings: an id owned by another company
/// resolves under this company exactly as an absent id does, so a
/// cross-tenant read can only answer the same way as a miss.
pub proof fn lemma_tenancy_isolation_building(s: Store, company_a: u64, k: int)
    requires
        s.wf(),
        0 <= k < s.buildings@.len(),
        s.buildings@[k].company_id != company_a,
    ensures
        !building_resolves(s, company_a, s.buildings@[k].id),
{
    assert forall|j: int|
        0 <= j < s.buildings@.len() && (#[trigger] s.buildings@[j]).id
            == s.buildings@[k].id implies j == k by {
        if j != k {
            assert(s.buildings@[j].id != s.buildings@[k].id);
        }
    }
}

/// Tenancy isolation for coworking spaces: an id owned by another
/// company resolves under this company, in any building, exactly as an
/// absent id does.
pub proof fn lemma_tenancy_isolation_space(s: Store, company_a: u64, k: int)
    requires
        s.wf(),
        0 <= k < s.spaces@.len(),
        s.spaces@[k].company_id != company_a,
    ensures
        forall|b_id: u64| !space_resolves(s, company_a, b_id, s.spaces@[k].id),
{
    assert forall|j: int|
        0 <= j < s.spaces@.len() && (#[trigger] s.spaces@[j]).id == s.spaces@[k].id implies j
        == k by {
        if j != k {
            assert(s.spaces@[j].id != s.spaces@[k].id);
        }
    }
}

/// Tenancy isolation for users: a user of another company is invisible
/// to this company's scoped lookups.
pub proof fn lemma_tenancy_isolation_user(s: Store, company_a: u64, k: int)
    requires
        s.wf(),
        0 <= k < s.users@.len(),
        s.users@[k].company_id != company_a,
    ensures
        !(exists|j: int|
            0 <= j < s.users@.len() && (#[trigger] s.users@[j]).id == s.users@[k].id
                && s.users@[j].company_id == company_a),
{
    assert forall|j: int|
        0 <= j < s.users@.len() && (#[trigger] s.users@[j]).id == s.users@[k].id implies j
        == k by {
        if j != k {
            assert(s.users@[j].id != s.users@[k].id);
        }
    }
}

/// Ownership isolation for bookings: a booking of another user or
/// another company can never pass the ownership gate that mutation
/// requires.
pub proof fn lemma_booking_ownership_isolation(s: Store, claims: Claims, k: int)
    requires
        s.wf(),
        0 <= k < s.bookings@.len(),
        s.bookings@[k].user_id != claims.user_id || s.bookings@[k].company_id != claims.company_id,
    ensures
        !crate::booking::booking_owned(s, claims, s.bookings@[k].id),
{
    assert(0 <= k < s.bookings@.len() && s.bookings@[k].id == s.bookings@[k].id);
}

} // verus!
