use vstd::prelude::*;

use crate::geometry::Point;
use crate::models::RoleModel;

verus! {

/// Request to reserve one item instance for `[time_start, time_end)`.
#[derive(Clone, Copy, PartialEq, Eq, Structural, Debug)]
pub struct CreateBookingForm {
    pub coworking_id: u64,
    pub coworking_item_id: u64,
    pub time_start: i64,
    pub time_end: i64,
}

/// Partial update of a booking; absent fields keep their current value.
#[derive(Clone, Copy, PartialEq, Eq, Structural, Debug)]
pub struct PatchBookingForm {
    pub coworking_id: Option<u64>,
    pub coworking_item_id: Option<u64>,
    pub time_start: Option<i64>,
    pub time_end: Option<i64>,
}

/// A signed QR token on the wire.
#[derive(Debug)]
pub struct QrToken {
    pub token: String,
}

/// The display-safe projection a positive QR verdict carries.
#[derive(Debug)]
pub struct BookingDisplayData {
    pub user_email: String,
    pub building_name: String,
    pub space_name: String,
    pub item_name: String,
    pub time_start: i64,
    pub time_end: i64,
}

/// Outcome of QR verification: one boolean for the checking party, with
/// display data exactly when the boolean is positive.
#[derive(Debug)]
pub struct Verdict {
    pub valid: bool,
    pub booking_data: Option<BookingDisplayData>,
}

/// Request to place one item instance at a base point.
#[derive(Debug)]
pub struct CreateItemForm {
    pub item_id: u64,
    pub name: String,
    pub description: Option<String>,
    pub base_point: Point,
}

/// Request to create an item type with its footprint.
#[derive(Debug)]
pub struct CreateItemTypeForm {
    pub name: String,
    pub description: Option<String>,
    pub color: String,
    pub offsets: Vec<Point>,
    pub bookable: bool,
}

/// Multipart body of item-type creation: the JSON part and an optional
/// SVG icon.
#[derive(Debug)]
pub struct CreateItemTypeFormData {
    pub json: CreateItemTypeForm,
    pub icon: Option<Vec<u8>>,
}

/// Request to create a building.
#[derive(Debug)]
pub struct CreateBuildingForm {
    pub address: String,
}

/// Request to create a coworking space with its grid bounds.
#[derive(Debug)]
pub struct CreateCoworkingForm {
    pub address: String,
    pub height: i32,
    pub width: i32,
}

/// Partial update of a coworking space; a smaller grid is only accepted
/// if every placed item still fits.
#[derive(Debug)]
pub struct UpdateCoworkingForm {
    pub address: Option<String>,
    pub height: Option<i32>,
    pub width: Option<i32>,
}

/// Credentials presented at login.
#[derive(Debug)]
pub struct LoginForm {
    pub email: String,
    pub password: String,
    pub domain: String,
}

/// Request to register a user under a company domain.
#[derive(Debug)]
pub struct RegisterForm {
    pub name: String,
    pub surname: String,
    pub email: String,
    pub password: String,
    pub company_domain: String,
}

/// Partial update of a user profile.
#[derive(Debug)]
pub struct PatchProfileForm {
    pub name: Option<String>,
    pub surname: Option<String>,
    pub password: Option<String>,
}

/// Multipart body of a profile update: the JSON part and an optional
/// avatar image.
#[derive(Debug)]
pub struct PatchProfileFormData {
    pub json: Option<String>,
    pub avatar: Option<Vec<u8>>,
}

/// Multipart body of a verification-document upload.
#[derive(Debug)]
pub struct UploadedDocument {
    pub document: Vec<u8>,
}

/// Request to register a new company.
#[derive(Debug)]
pub struct CompanyRegisterData {
    pub name: String,
    pub domain: String,
}

/// A session token on the wire.
#[derive(Debug)]
pub struct Token {
    pub jwt: String,
}

/// The profile projection returned to the user itself.
#[derive(Debug)]
pub struct ProfileResponseForm {
    pub name: String,
    pub surname: String,
    pub email: String,
    pub avatar: Option<String>,
    pub role: RoleModel,
    pub pending_verification: Option<bool>,
    pub company_id: u64,
}

/// The user projection safe to show to administrators and lists.
#[derive(Debug)]
pub struct PublicUserData {
    pub id: u64,
    pub name: String,
    pub surname: String,
    pub email: String,
    pub avatar: Option<String>,
    pub role: RoleModel,
}

/// One outstanding verification request, with where its document lives.
#[derive(Debug)]
pub struct VerificationRequest {
    pub user: PublicUserData,
    pub document: String,
}

} // verus!
