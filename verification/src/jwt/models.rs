use vstd::prelude::*;

use crate::models::{BookingModel, RoleModel};

verus! {

/// How long a session token stays valid, in seconds.
pub const JWT_EXPIRY_SECONDS: i64 = 86400;

/// The claims of a session token: who the caller is, which tenant it
/// belongs to, what it may do, and when the token expires.
#[derive(Clone, Copy, PartialEq, Eq, Structural, Debug)]
pub struct Claims {
    pub role: RoleModel,
    pub user_id: u64,
    pub company_id: u64,
    pub iat: i64,
    pub exp: i64,
}

/// The claims of a QR token: which booking it proves, and a validity
/// window that ends with the booking itself.
#[derive(Clone, Copy, PartialEq, Eq, Structural, Debug)]
pub struct QrClaims {
    pub booking_id: u64,
    pub iat: i64,
    pub exp: i64,
}

impl Claims {
    /// Session claims issued at `now`, expiring one day later.
    pub fn new(user_id: u64, company_id: u64, role: RoleModel, now: i64) -> (c: Claims)
        requires
            0 <= now,
            now + JWT_EXPIRY_SECONDS <= i64::MAX,
        ensures
            c == (Claims {
                role,
                user_id,
                company_id,
                iat: now,
                exp: (now + JWT_EXPIRY_SECONDS) as i64,
            }),
    {
        Claims { role, user_id, company_id, iat: now, exp: now + JWT_EXPIRY_SECONDS }
    }
}

impl QrClaims {
    /// QR claims for a booking, issued at `now`; the expiry is the
    /// booking's own end time, not a fixed lifetime.
    pub fn new(booking: &BookingModel, now: i64) -> (c: QrClaims)
        ensures
            c == (QrClaims { booking_id: booking.id, iat: now, exp: booking.time_end }),
    {
        QrClaims { booking_id: booking.id, iat: now, exp: booking.time_end }
    }
}

} // verus!
