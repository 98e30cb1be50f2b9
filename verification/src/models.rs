use vstd::prelude::*;

use crate::geometry::Point;

verus! {

/// Role of a user within its company.
#[derive(Clone, Copy, PartialEq, Eq, Structural, Debug)]
pub enum RoleModel {
    Admin,
    Student,
    Guest,
    VerifiedGuest,
}

/// A tenant: the isolation boundary all other entities are scoped to.
#[derive(Debug)]
pub struct CompaniesModel {
    pub id: u64,
    pub name: String,
    pub domain: String,
    pub avatar: Option<String>,
}

/// A registered user, belonging to one company.
#[derive(Debug)]
pub struct UserModel {
    pub id: u64,
    pub name: String,
    pub surname: String,
    pub email: String,
    pub password: String,
    pub avatar: Option<String>,
    pub company_id: u64,
    pub company_domain: String,
    pub role: RoleModel,
}

/// A building, belonging to one company.
#[derive(Debug)]
pub struct BuildingModel {
    pub id: u64,
    pub address: String,
    pub company_id: u64,
}

/// A coworking space: a `width` x `height` grid inside one building.
#[derive(Debug)]
pub struct CoworkingSpacesModel {
    pub id: u64,
    pub address: String,
    pub height: i64,
    pub width: i64,
    pub building_id: u64,
    pub company_id: u64,
}

/// An item type: the reusable footprint (offsets) and bookable flag shared
/// by all instances of this kind of item within a company.
#[derive(Debug)]
pub struct ItemsModel {
    pub id: u64,
    pub name: String,
    pub description: Option<String>,
    pub color: String,
    pub icon: Option<String>,
    pub offsets: Vec<Point>,
    pub bookable: bool,
    pub company_id: u64,
}

/// A concrete placement of an item type at a base point in one coworking
/// space.
#[derive(Debug)]
pub struct CoworkingItemsModel {
    pub id: u64,
    pub item_id: u64,
    pub name: String,
    pub description: Option<String>,
    pub base_point: Point,
    pub coworking_id: u64,
}

/// A reservation of one item instance for a half-open time interval
/// `[time_start, time_end)`, in seconds since the epoch.
#[derive(Clone, Copy, PartialEq, Eq, Structural, Debug)]
pub struct BookingModel {
    pub id: u64,
    pub user_id: u64,
    pub coworking_space_id: u64,
    pub coworking_item_id: u64,
    pub company_id: u64,
    pub time_start: i64,
    pub time_end: i64,
}

/// A booking joined with the names a user wants to see in a listing.
#[derive(Debug)]
pub struct PublicBookingModel {
    pub id: u64,
    pub user_id: u64,
    pub coworking_space_id: u64,
    pub coworking_item_id: u64,
    pub time_start: i64,
    pub time_end: i64,
    pub building_address: String,
    pub coworking_item_name: String,
    pub coworking_item_description: Option<String>,
    pub coworking_space_name: String,
}

/// An outstanding identity-verification request; at most one per user.
#[derive(Clone, Copy, PartialEq, Eq, Structural, Debug)]
pub struct PendingVerificationsModel {
    pub user_id: u64,
    pub company_id: u64,
}

/// The identity data a freshly registered user gets a session token for.
#[derive(Clone, Copy, PartialEq, Eq, Structural, Debug)]
pub struct TokenData {
    pub id: u64,
    pub company_id: u64,
    pub role: RoleModel,
}

/// A field-for-field copy of an optional string.
pub fn clone_opt_string(o: &Option<String>) -> (r: Option<String>)
    ensures
        r == *o,
{
    match o {
        Some(s) => Some(s.clone()),
        None => None,
    }
}

/// A copy of a list of points.
pub fn clone_points(v: &Vec<Point>) -> (r: Vec<Point>)
    ensures
        r@ == v@,
{
    let mut out: Vec<Point> = Vec::new();
    let mut k: usize = 0;
    while k < v.len()
        invariant
            0 <= k <= v@.len(),
            out@ == v@.take(k as int),
        decreases v@.len() - k,
    {
        out.push(v[k]);
        proof {
            assert(out@ =~= v@.take(k as int + 1));
        }
        k = k + 1;
    }
    proof {
        assert(v@.take(v@.len() as int) =~= v@);
    }
    out
}

/// A field-for-field copy of one placed item.
pub fn clone_coworking_item(i: &CoworkingItemsModel) -> (r: CoworkingItemsModel)
    ensures
        r == *i,
{
    CoworkingItemsModel {
        id: i.id,
        item_id: i.item_id,
        name: i.name.clone(),
        description: clone_opt_string(&i.description),
        base_point: i.base_point,
        coworking_id: i.coworking_id,
    }
}

/// A field-for-field copy of one coworking space.
pub fn clone_space(s: &CoworkingSpacesModel) -> (r: CoworkingSpacesModel)
    ensures
        r == *s,
{
    CoworkingSpacesModel {
        id: s.id,
        address: s.address.clone(),
        height: s.height,
        width: s.width,
        building_id: s.building_id,
        company_id: s.company_id,
    }
}

/// A field-for-field copy of one building.
pub fn clone_building(b: &BuildingModel) -> (r: BuildingModel)
    ensures
        r == *b,
{
    BuildingModel { id: b.id, address: b.address.clone(), company_id: b.company_id }
}

/// A copy of one item type; the footprint is copied point for point, so
/// the copy agrees with the original on every field's view.
pub fn clone_item_type(t: &ItemsModel) -> (r: ItemsModel)
    ensures
        r.id == t.id,
        r.name@ == t.name@,
        r.description == t.description,
        r.color@ == t.color@,
        r.icon == t.icon,
        r.offsets@ == t.offsets@,
        r.bookable == t.bookable,
        r.company_id == t.company_id,
{
    let offsets = clone_points(&t.offsets);
    ItemsModel {
        id: t.id,
        name: t.name.clone(),
        description: clone_opt_string(&t.description),
        color: t.color.clone(),
        icon: clone_opt_string(&t.icon),
        offsets,
        bookable: t.bookable,
        company_id: t.company_id,
    }
}

/// The base point of one placed item together with its type's footprint.
#[derive(Debug)]
pub struct Coordinates {
    pub base_point: Point,
    pub offsets: Vec<Point>,
}

/// The footprint of one item type.
#[derive(Debug)]
pub struct Offsets {
    pub offsets: Vec<Point>,
}

} // verus!
