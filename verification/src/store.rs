use vstd::prelude::*;

use crate::geometry::{abs_cells, all_in_bounds, cells_disjoint, Point};
use crate::models::{
    BookingModel, BuildingModel, CompaniesModel, CoworkingItemsModel, CoworkingSpacesModel,
    ItemsModel, PendingVerificationsModel, UserModel,
};

verus! {

/// Seconds in the 15-minute grid every booking must align to.
pub const SLOT_SECONDS: i64 = 900;

/// A booking's interval is syntactically valid: ordered, aligned to the
/// 15-minute grid, and non-negative (seconds since the epoch).
pub open spec fn booking_ok(b: BookingModel) -> bool {
    &&& 0 <= b.time_start
    &&& b.time_start < b.time_end
    &&& (b.time_end - b.time_start) % (SLOT_SECONDS as int) == 0
}

/// Two half-open intervals `[time_start, time_end)` intersect; touching
/// endpoints do not conflict.
pub open spec fn overlaps(a: BookingModel, b: BookingModel) -> bool {
    a.time_start < b.time_end && b.time_start < a.time_end
}

/// The absolute cells of one placed item, given its type.
pub open spec fn placed_cells(item: CoworkingItemsModel, ty: ItemsModel) -> Seq<(int, int)> {
    abs_cells(item.base_point, ty.offsets@)
}

/// The whole persistent state of the platform: every table the datastore
/// holds, plus the id counter the store assigns new rows from.
pub struct Store {
    pub companies: Vec<CompaniesModel>,
    pub buildings: Vec<BuildingModel>,
    pub spaces: Vec<CoworkingSpacesModel>,
    pub item_types: Vec<ItemsModel>,
    pub items: Vec<CoworkingItemsModel>,
    pub bookings: Vec<BookingModel>,
    pub users: Vec<UserModel>,
    pub pending: Vec<PendingVerificationsModel>,
    pub next_id: u64,
}

impl Store {
    /// Row `i` of the spaces table names an existing building of the
    /// space's own company.
    pub open spec fn space_building_resolves(self, i: int) -> bool {
        exists|k: int|
            0 <= k < self.buildings@.len() && (#[trigger] self.buildings@[k]).id
                == self.spaces@[i].building_id && self.buildings@[k].company_id
                == self.spaces@[i].company_id
    }

    /// Row `i` of the items table names an existing space.
    pub open spec fn item_space_resolves(self, i: int) -> bool {
        exists|k: int|
            0 <= k < self.spaces@.len() && (#[trigger] self.spaces@[k]).id
                == self.items@[i].coworking_id
    }

    /// Row `i` of the items table names an existing item type.
    pub open spec fn item_type_resolves(self, i: int) -> bool {
        exists|k: int|
            0 <= k < self.item_types@.len() && (#[trigger] self.item_types@[k]).id
                == self.items@[i].item_id
    }

    /// Row `i` of the bookings table names an existing user of the
    /// booking's company.
    pub open spec fn booking_user_resolves(self, i: int) -> bool {
        exists|k: int|
            0 <= k < self.users@.len() && (#[trigger] self.users@[k]).id
                == self.bookings@[i].user_id && self.users@[k].company_id
                == self.bookings@[i].company_id
    }

    /// Row `i` of the bookings table names an existing space of the
    /// booking's company.
    pub open spec fn booking_space_resolves(self, i: int) -> bool {
        exists|k: int|
            0 <= k < self.spaces@.len() && (#[trigger] self.spaces@[k]).id
                == self.bookings@[i].coworking_space_id && self.spaces@[k].company_id
                == self.bookings@[i].company_id
    }

    /// Row `i` of the bookings table names an existing item placed in the
    /// booking's space.
    pub open spec fn booking_item_resolves(self, i: int) -> bool {
        exists|k: int|
            0 <= k < self.items@.len() && (#[trigger] self.items@[k]).id
                == self.bookings@[i].coworking_item_id && self.items@[k].coworking_id
                == self.bookings@[i].coworking_space_id
    }

    /// Row `i` of the pending table names an existing user of the
    /// request's company.
    pub open spec fn pending_user_resolves(self, i: int) -> bool {
        exists|k: int|
            0 <= k < self.users@.len() && (#[trigger] self.users@[k]).id
                == self.pending@[i].user_id && self.users@[k].company_id
                == self.pending@[i].company_id
    }

    /// Companies: fresh ids, unique ids, unique domains.
    pub open spec fn companies_wf(self) -> bool {
        &&& forall|i: int|
            #![trigger self.companies@[i]]
            0 <= i < self.companies@.len() ==> self.companies@[i].id < self.next_id
        &&& forall|i: int, j: int|
            #![trigger self.companies@[i], self.companies@[j]]
            0 <= i < j < self.companies@.len() ==> self.companies@[i].id != self.companies@[j].id
                && self.companies@[i].domain@ != self.companies@[j].domain@
    }

    /// Buildings: fresh and unique ids.
    pub open spec fn buildings_wf(self) -> bool {
        &&& forall|i: int|
            #![trigger self.buildings@[i]]
            0 <= i < self.buildings@.len() ==> self.buildings@[i].id < self.next_id
        &&& forall|i: int, j: int|
            #![trigger self.buildings@[i], self.buildings@[j]]
            0 <= i < j < self.buildings@.len() ==> self.buildings@[i].id != self.buildings@[j].id
    }

    /// Spaces: fresh and unique ids, positive grid bounds, and a building
    /// of the same company that the space belongs to.
    pub open spec fn spaces_wf(self) -> bool {
        &&& forall|i: int|
            #![trigger self.spaces@[i]]
            0 <= i < self.spaces@.len() ==> self.spaces@[i].id < self.next_id
        &&& forall|i: int, j: int|
            #![trigger self.spaces@[i], self.spaces@[j]]
            0 <= i < j < self.spaces@.len() ==> self.spaces@[i].id != self.spaces@[j].id
        &&& forall|i: int|
            #![trigger self.spaces@[i]]
            0 <= i < self.spaces@.len() ==> self.spaces@[i].width >= 1 && self.spaces@[i].height
                >= 1
        &&& forall|i: int|
            0 <= i < self.spaces@.len() ==> #[trigger] self.space_building_resolves(i)
    }

    /// Item types: fresh and unique ids, non-empty footprints.
    pub open spec fn item_types_wf(self) -> bool {
        &&& forall|i: int|
            #![trigger self.item_types@[i]]
            0 <= i < self.item_types@.len() ==> self.item_types@[i].id < self.next_id
        &&& forall|i: int, j: int|
            #![trigger self.item_types@[i], self.item_types@[j]]
            0 <= i < j < self.item_types@.len() ==> self.item_types@[i].id
                != self.item_types@[j].id
        &&& forall|i: int|
            #![trigger self.item_types@[i]]
            0 <= i < self.item_types@.len() ==> self.item_types@[i].offsets@.len() >= 1
    }

    /// Item instances: fresh and unique ids, and resolvable references to
    /// their space and to an item type of the space's own company.
    pub open spec fn items_wf(self) -> bool {
        &&& forall|i: int|
            #![trigger self.items@[i]]
            0 <= i < self.items@.len() ==> self.items@[i].id < self.next_id
        &&& forall|i: int, j: int|
            #![trigger self.items@[i], self.items@[j]]
            0 <= i < j < self.items@.len() ==> self.items@[i].id != self.items@[j].id
        &&& forall|i: int| 0 <= i < self.items@.len() ==> #[trigger] self.item_space_resolves(i)
        &&& forall|i: int| 0 <= i < self.items@.len() ==> #[trigger] self.item_type_resolves(i)
        &&& forall|ii: int, si: int, ti: int|
            #![trigger self.items@[ii], self.spaces@[si], self.item_types@[ti]]
            0 <= ii < self.items@.len() && 0 <= si < self.spaces@.len() && 0 <= ti
                < self.item_types@.len() && self.items@[ii].coworking_id == self.spaces@[si].id
                && self.items@[ii].item_id == self.item_types@[ti].id
                ==> self.item_types@[ti].company_id == self.spaces@[si].company_id
    }

    /// Geometry: every placed item lies on its space's grid, and the cell
    /// sets of two distinct items of one space never intersect.
    pub open spec fn geometry_wf(self) -> bool {
        &&& forall|ii: int, si: int, ti: int|
            #![trigger self.items@[ii], self.spaces@[si], self.item_types@[ti]]
            0 <= ii < self.items@.len() && 0 <= si < self.spaces@.len() && 0 <= ti
                < self.item_types@.len() && self.items@[ii].coworking_id == self.spaces@[si].id
                && self.items@[ii].item_id == self.item_types@[ti].id ==> all_in_bounds(
                placed_cells(self.items@[ii], self.item_types@[ti]),
                self.spaces@[si].width as int,
                self.spaces@[si].height as int,
            )
        &&& forall|ii: int, jj: int, ti: int, tj: int|
            #![trigger self.items@[ii], self.items@[jj], self.item_types@[ti], self.item_types@[tj]]
            0 <= ii < self.items@.len() && 0 <= jj < self.items@.len() && ii != jj && 0 <= ti
                < self.item_types@.len() && 0 <= tj < self.item_types@.len()
                && self.items@[ii].coworking_id == self.items@[jj].coworking_id
                && self.items@[ii].item_id == self.item_types@[ti].id && self.items@[jj].item_id
                == self.item_types@[tj].id ==> cells_disjoint(
                placed_cells(self.items@[ii], self.item_types@[ti]),
                placed_cells(self.items@[jj], self.item_types@[tj]),
            )
    }

    /// Bookings: fresh and unique ids, valid aligned intervals, resolvable
    /// references, and temporal exclusivity per item instance.
    pub open spec fn bookings_wf(self) -> bool {
        &&& forall|i: int|
            #![trigger self.bookings@[i]]
            0 <= i < self.bookings@.len() ==> self.bookings@[i].id < self.next_id
        &&& forall|i: int, j: int|
            #![trigger self.bookings@[i], self.bookings@[j]]
            0 <= i < j < self.bookings@.len() ==> self.bookings@[i].id != self.bookings@[j].id
        &&& forall|i: int|
            #![trigger self.bookings@[i]]
            0 <= i < self.bookings@.len() ==> booking_ok(self.bookings@[i])
        &&& forall|i: int, j: int|
            #![trigger self.bookings@[i], self.bookings@[j]]
            0 <= i < self.bookings@.len() && 0 <= j < self.bookings@.len() && i != j
                && self.bookings@[i].coworking_item_id == self.bookings@[j].coworking_item_id
                ==> !overlaps(self.bookings@[i], self.bookings@[j])
        &&& forall|i: int|
            0 <= i < self.bookings@.len() ==> #[trigger] self.booking_user_resolves(i)
        &&& forall|i: int|
            0 <= i < self.bookings@.len() ==> #[trigger] self.booking_space_resolves(i)
        &&& forall|i: int|
            0 <= i < self.bookings@.len() ==> #[trigger] self.booking_item_resolves(i)
    }

    /// Users: fresh and unique ids, a company reference that is an
    /// already-issued id, and emails unique within one company.
    pub open spec fn users_wf(self) -> bool {
        &&& forall|i: int|
            #![trigger self.users@[i]]
            0 <= i < self.users@.len() ==> self.users@[i].id < self.next_id
                && self.users@[i].company_id < self.next_id
        &&& forall|i: int, j: int|
            #![trigger self.users@[i], self.users@[j]]
            0 <= i < j < self.users@.len() ==> self.users@[i].id != self.users@[j].id
        &&& forall|i: int, j: int|
            #![trigger self.users@[i], self.users@[j]]
            0 <= i < j < self.users@.len() && self.users@[i].company_id
                == self.users@[j].company_id ==> self.users@[i].email@ != self.users@[j].email@
    }

    /// Pending verification requests: at most one per user, each naming an
    /// existing user of the same company.
    pub open spec fn pending_wf(self) -> bool {
        &&& forall|i: int, j: int|
            #![trigger self.pending@[i], self.pending@[j]]
            0 <= i < j < self.pending@.len() ==> self.pending@[i].user_id
                != self.pending@[j].user_id
        &&& forall|i: int|
            0 <= i < self.pending@.len() ==> #[trigger] self.pending_user_resolves(i)
    }

    /// Every invariant the datastore's constraints enforce, together: the
    /// well-formedness every operation of the engine preserves.
    pub open spec fn wf(self) -> bool {
        &&& self.companies_wf()
        &&& self.buildings_wf()
        &&& self.spaces_wf()
        &&& self.item_types_wf()
        &&& self.items_wf()
        &&& self.geometry_wf()
        &&& self.bookings_wf()
        &&& self.users_wf()
        &&& self.pending_wf()
    }

    /// An empty, well-formed store.
    pub fn new() -> (s: Store)
        ensures
            s.wf(),
            s.companies@.len() == 0,
            s.buildings@.len() == 0,
            s.spaces@.len() == 0,
            s.item_types@.len() == 0,
            s.items@.len() == 0,
            s.bookings@.len() == 0,
            s.users@.len() == 0,
            s.pending@.len() == 0,
            s.next_id == 1,
    {
        Store {
            companies: Vec::new(),
            buildings: Vec::new(),
            spaces: Vec::new(),
            item_types: Vec::new(),
            items: Vec::new(),
            bookings: Vec::new(),
            users: Vec::new(),
            pending: Vec::new(),
            next_id: 1,
        }
    }
}

/// `b` holds every row of `a`, in order, possibly followed by new rows.
pub open spec fn table_extends<T>(b: Seq<T>, a: Seq<T>) -> bool {
    a.len() <= b.len() && forall|k: int| 0 <= k < a.len() ==> a[k] == #[trigger] b[k]
}

/// The company invariants transfer to any store that agrees on the
/// companies table and has not recycled ids.
pub proof fn lemma_companies_wf_from(a: Store, b: Store)
    requires
        a.companies_wf(),
        b.companies@ == a.companies@,
        b.next_id >= a.next_id,
    ensures
        b.companies_wf(),
{
    assert forall|i: int, j: int|
        0 <= i < j < b.companies@.len() implies (#[trigger] b.companies@[i]).id != (
    #[trigger] b.companies@[j]).id && b.companies@[i].domain@ != b.companies@[j].domain@ by {
        assert(b.companies@[i] == a.companies@[i]);
        assert(b.companies@[j] == a.companies@[j]);
    }
    assert forall|i: int| 0 <= i < b.companies@.len() implies (#[trigger] b.companies@[i]).id
        < b.next_id by {
        assert(b.companies@[i] == a.companies@[i]);
    }
}

/// The building invariants transfer likewise.
pub proof fn lemma_buildings_wf_from(a: Store, b: Store)
    requires
        a.buildings_wf(),
        b.buildings@ == a.buildings@,
        b.next_id >= a.next_id,
    ensures
        b.buildings_wf(),
{
    assert forall|i: int, j: int|
        0 <= i < j < b.buildings@.len() implies (#[trigger] b.buildings@[i]).id != (
    #[trigger] b.buildings@[j]).id by {
        assert(b.buildings@[i] == a.buildings@[i]);
        assert(b.buildings@[j] == a.buildings@[j]);
    }
    assert forall|i: int| 0 <= i < b.buildings@.len() implies (#[trigger] b.buildings@[i]).id
        < b.next_id by {
        assert(b.buildings@[i] == a.buildings@[i]);
    }
}

/// The space invariants transfer to any store that agrees on the spaces
/// and buildings tables.
pub proof fn lemma_spaces_wf_from(a: Store, b: Store)
    requires
        a.spaces_wf(),
        b.spaces@ == a.spaces@,
        table_extends(b.buildings@, a.buildings@),
        b.next_id >= a.next_id,
    ensures
        b.spaces_wf(),
{
    assert forall|i: int, j: int|
        0 <= i < j < b.spaces@.len() implies (#[trigger] b.spaces@[i]).id != (
    #[trigger] b.spaces@[j]).id by {
        assert(b.spaces@[i] == a.spaces@[i]);
        assert(b.spaces@[j] == a.spaces@[j]);
    }
    assert forall|i: int| 0 <= i < b.spaces@.len() implies (#[trigger] b.spaces@[i]).id
        < b.next_id && b.spaces@[i].width >= 1 && b.spaces@[i].height >= 1 by {
        assert(b.spaces@[i] == a.spaces@[i]);
    }
    assert forall|i: int| 0 <= i < b.spaces@.len() implies #[trigger] b.space_building_resolves(
        i,
    ) by {
        assert(a.space_building_resolves(i));
        assert(b.spaces@[i] == a.spaces@[i]);
        let sp = a.spaces@[i];
        let k0 = choose|k: int|
            0 <= k < a.buildings@.len() && (#[trigger] a.buildings@[k]).id == sp.building_id
                && a.buildings@[k].company_id == sp.company_id;
        assert(b.buildings@[k0].id == b.spaces@[i].building_id);
        assert(b.buildings@[k0].company_id == b.spaces@[i].company_id);
    }
}

/// The item-type invariants transfer likewise.
pub proof fn lemma_item_types_wf_from(a: Store, b: Store)
    requires
        a.item_types_wf(),
        b.item_types@ == a.item_types@,
        b.next_id >= a.next_id,
    ensures
        b.item_types_wf(),
{
    assert forall|i: int, j: int|
        0 <= i < j < b.item_types@.len() implies (#[trigger] b.item_types@[i]).id != (
    #[trigger] b.item_types@[j]).id by {
        assert(b.item_types@[i] == a.item_types@[i]);
        assert(b.item_types@[j] == a.item_types@[j]);
    }
    assert forall|i: int| 0 <= i < b.item_types@.len() implies (#[trigger] b.item_types@[i]).id
        < b.next_id && b.item_types@[i].offsets@.len() >= 1 by {
        assert(b.item_types@[i] == a.item_types@[i]);
    }
}

/// The item-instance invariants transfer to any store that agrees on the
/// items, spaces and item-types tables.
pub proof fn lemma_items_wf_from(a: Store, b: Store)
    requires
        a.items_wf(),
        a.spaces_wf(),
        a.item_types_wf(),
        b.items@ == a.items@,
        table_extends(b.spaces@, a.spaces@),
        forall|k: int|
            a.spaces@.len() <= k < b.spaces@.len() ==> (#[trigger] b.spaces@[k]).id >= a.next_id,
        table_extends(b.item_types@, a.item_types@),
        forall|k: int|
            a.item_types@.len() <= k < b.item_types@.len() ==> (#[trigger] b.item_types@[k]).id
                >= a.next_id,
        b.next_id >= a.next_id,
    ensures
        b.items_wf(),
{
    assert forall|i: int, j: int|
        0 <= i < j < b.items@.len() implies (#[trigger] b.items@[i]).id != (
    #[trigger] b.items@[j]).id by {
        assert(b.items@[i] == a.items@[i]);
        assert(b.items@[j] == a.items@[j]);
    }
    assert forall|ii: int, si: int, ti: int|
        0 <= ii < b.items@.len() && 0 <= si < b.spaces@.len() && 0 <= ti < b.item_types@.len()
            && (#[trigger] b.items@[ii]).coworking_id == (#[trigger] b.spaces@[si]).id && (
        #[trigger] b.item_types@[ti]).id == b.items@[ii].item_id implies b.item_types@[ti].company_id
        == b.spaces@[si].company_id by {
        assert(b.items@[ii] == a.items@[ii]);
        assert(a.item_space_resolves(ii));
        let ks = choose|k: int|
            0 <= k < a.spaces@.len() && (#[trigger] a.spaces@[k]).id
                == a.items@[ii].coworking_id;
        assert(a.spaces@[ks].id < a.next_id);
        assert(a.item_type_resolves(ii));
        let kt = choose|k: int|
            0 <= k < a.item_types@.len() && (#[trigger] a.item_types@[k]).id
                == a.items@[ii].item_id;
        assert(a.item_types@[kt].id < a.next_id);
        assert(si < a.spaces@.len());
        assert(ti < a.item_types@.len());
        assert(b.spaces@[si] == a.spaces@[si]);
        assert(b.item_types@[ti] == a.item_types@[ti]);
    }
    assert forall|i: int| 0 <= i < b.items@.len() implies (#[trigger] b.items@[i]).id
        < b.next_id by {
        assert(b.items@[i] == a.items@[i]);
    }
    assert forall|i: int| 0 <= i < b.items@.len() implies #[trigger] b.item_space_resolves(i) by {
        assert(a.item_space_resolves(i));
        assert(b.items@[i] == a.items@[i]);
        let it = a.items@[i];
        let k0 = choose|k: int|
            0 <= k < a.spaces@.len() && (#[trigger] a.spaces@[k]).id == it.coworking_id;
        assert(b.spaces@[k0].id == b.items@[i].coworking_id);
    }
    assert forall|i: int| 0 <= i < b.items@.len() implies #[trigger] b.item_type_resolves(i) by {
        assert(a.item_type_resolves(i));
        assert(b.items@[i] == a.items@[i]);
        let it = a.items@[i];
        let k1 = choose|k: int|
            0 <= k < a.item_types@.len() && (#[trigger] a.item_types@[k]).id == it.item_id;
        assert(b.item_types@[k1].id == b.items@[i].item_id);
    }
}

/// The geometry invariants transfer to any store that agrees on the
/// items, spaces and item-types tables.
pub proof fn lemma_geometry_wf_from(a: Store, b: Store)
    requires
        a.geometry_wf(),
        a.items_wf(),
        a.spaces_wf(),
        a.item_types_wf(),
        b.items@ == a.items@,
        table_extends(b.spaces@, a.spaces@),
        forall|k: int|
            a.spaces@.len() <= k < b.spaces@.len() ==> (#[trigger] b.spaces@[k]).id >= a.next_id,
        table_extends(b.item_types@, a.item_types@),
        forall|k: int|
            a.item_types@.len() <= k < b.item_types@.len() ==> (#[trigger] b.item_types@[k]).id
                >= a.next_id,
    ensures
        b.geometry_wf(),
{
    assert forall|ii: int, si: int, ti: int|
        0 <= ii < b.items@.len() && 0 <= si < b.spaces@.len() && 0 <= ti < b.item_types@.len()
            && (#[trigger] b.items@[ii]).coworking_id == (#[trigger] b.spaces@[si]).id && (
        #[trigger] b.item_types@[ti]).id == b.items@[ii].item_id implies all_in_bounds(
        placed_cells(b.items@[ii], b.item_types@[ti]),
        b.spaces@[si].width as int,
        b.spaces@[si].height as int,
    ) by {
        assert(b.items@[ii] == a.items@[ii]);
        assert(a.item_space_resolves(ii));
        let ks = choose|k: int|
            0 <= k < a.spaces@.len() && (#[trigger] a.spaces@[k]).id
                == a.items@[ii].coworking_id;
        assert(a.spaces@[ks].id < a.next_id);
        assert(a.item_type_resolves(ii));
        let kt = choose|k: int|
            0 <= k < a.item_types@.len() && (#[trigger] a.item_types@[k]).id
                == a.items@[ii].item_id;
        assert(a.item_types@[kt].id < a.next_id);
        assert(si < a.spaces@.len());
        assert(ti < a.item_types@.len());
        assert(b.spaces@[si] == a.spaces@[si]);
        assert(b.item_types@[ti] == a.item_types@[ti]);
    }
    assert forall|ii: int, jj: int, ti: int, tj: int|
        0 <= ii < b.items@.len() && 0 <= jj < b.items@.len() && ii != jj && 0 <= ti
            < b.item_types@.len() && 0 <= tj < b.item_types@.len() && (
        #[trigger] b.items@[ii]).coworking_id == (#[trigger] b.items@[jj]).coworking_id
            && b.items@[ii].item_id == (#[trigger] b.item_types@[ti]).id && b.items@[jj].item_id
            == (#[trigger] b.item_types@[tj]).id implies cells_disjoint(
        placed_cells(b.items@[ii], b.item_types@[ti]),
        placed_cells(b.items@[jj], b.item_types@[tj]),
    ) by {
        assert(b.items@[ii] == a.items@[ii]);
        assert(b.items@[jj] == a.items@[jj]);
        assert(a.item_type_resolves(ii));
        let kt = choose|k: int|
            0 <= k < a.item_types@.len() && (#[trigger] a.item_types@[k]).id
                == a.items@[ii].item_id;
        assert(a.item_types@[kt].id < a.next_id);
        assert(a.item_type_resolves(jj));
        let kt2 = choose|k: int|
            0 <= k < a.item_types@.len() && (#[trigger] a.item_types@[k]).id
                == a.items@[jj].item_id;
        assert(a.item_types@[kt2].id < a.next_id);
        assert(ti < a.item_types@.len());
        assert(tj < a.item_types@.len());
        assert(b.item_types@[ti] == a.item_types@[ti]);
        assert(b.item_types@[tj] == a.item_types@[tj]);
    }
}

/// The booking invariants transfer to any store that agrees on the
/// bookings, users, spaces and items tables.
pub proof fn lemma_bookings_wf_from(a: Store, b: Store)
    requires
        a.bookings_wf(),
        b.bookings@ == a.bookings@,
        table_extends(b.users@, a.users@),
        table_extends(b.spaces@, a.spaces@),
        table_extends(b.items@, a.items@),
        b.next_id >= a.next_id,
    ensures
        b.bookings_wf(),
{
    assert forall|i: int, j: int|
        0 <= i < j < b.bookings@.len() implies (#[trigger] b.bookings@[i]).id != (
    #[trigger] b.bookings@[j]).id by {
        assert(b.bookings@[i] == a.bookings@[i]);
        assert(b.bookings@[j] == a.bookings@[j]);
    }
    assert forall|i: int, j: int|
        0 <= i < b.bookings@.len() && 0 <= j < b.bookings@.len() && i != j && (
    #[trigger] b.bookings@[i]).coworking_item_id == (#[trigger] b.bookings@[j]).coworking_item_id implies !overlaps(
        b.bookings@[i],
        b.bookings@[j],
    ) by {
        assert(b.bookings@[i] == a.bookings@[i]);
        assert(b.bookings@[j] == a.bookings@[j]);
    }
    assert forall|i: int| 0 <= i < b.bookings@.len() implies (#[trigger] b.bookings@[i]).id
        < b.next_id && booking_ok(b.bookings@[i]) by {
        assert(b.bookings@[i] == a.bookings@[i]);
    }
    assert forall|i: int| 0 <= i < b.bookings@.len() implies #[trigger] b.booking_user_resolves(
        i,
    ) by {
        assert(a.booking_user_resolves(i));
        assert(b.bookings@[i] == a.bookings@[i]);
        let bo = a.bookings@[i];
        let k0 = choose|k: int|
            0 <= k < a.users@.len() && (#[trigger] a.users@[k]).id == bo.user_id
                && a.users@[k].company_id == bo.company_id;
        assert(b.users@[k0].id == b.bookings@[i].user_id);
        assert(b.users@[k0].company_id == b.bookings@[i].company_id);
    }
    assert forall|i: int| 0 <= i < b.bookings@.len() implies #[trigger] b.booking_space_resolves(
        i,
    ) by {
        assert(a.booking_space_resolves(i));
        assert(b.bookings@[i] == a.bookings@[i]);
        let bo = a.bookings@[i];
        let k1 = choose|k: int|
            0 <= k < a.spaces@.len() && (#[trigger] a.spaces@[k]).id == bo.coworking_space_id
                && a.spaces@[k].company_id == bo.company_id;
        assert(b.spaces@[k1].id == b.bookings@[i].coworking_space_id);
        assert(b.spaces@[k1].company_id == b.bookings@[i].company_id);
    }
    assert forall|i: int| 0 <= i < b.bookings@.len() implies #[trigger] b.booking_item_resolves(
        i,
    ) by {
        assert(a.booking_item_resolves(i));
        assert(b.bookings@[i] == a.bookings@[i]);
        let bo = a.bookings@[i];
        let k2 = choose|k: int|
            0 <= k < a.items@.len() && (#[trigger] a.items@[k]).id == bo.coworking_item_id
                && a.items@[k].coworking_id == bo.coworking_space_id;
        assert(b.items@[k2].id == b.bookings@[i].coworking_item_id);
        assert(b.items@[k2].coworking_id == b.bookings@[i].coworking_space_id);
    }
}

/// The user invariants transfer likewise.
pub proof fn lemma_users_wf_from(a: Store, b: Store)
    requires
        a.users_wf(),
        b.users@ == a.users@,
        b.next_id >= a.next_id,
    ensures
        b.users_wf(),
{
    assert forall|i: int, j: int|
        0 <= i < j < b.users@.len() implies (#[trigger] b.users@[i]).id != (
    #[trigger] b.users@[j]).id && (b.users@[i].company_id == b.users@[j].company_id
        ==> b.users@[i].email@ != b.users@[j].email@) by {
        assert(b.users@[i] == a.users@[i]);
        assert(b.users@[j] == a.users@[j]);
    }
    assert forall|i: int| 0 <= i < b.users@.len() implies (#[trigger] b.users@[i]).id
        < b.next_id && b.users@[i].company_id < b.next_id by {
        assert(b.users@[i] == a.users@[i]);
    }
}

/// The pending-verification invariants transfer to any store that agrees
/// on the pending and users tables.
pub proof fn lemma_pending_wf_from(a: Store, b: Store)
    requires
        a.pending_wf(),
        b.pending@ == a.pending@,
        table_extends(b.users@, a.users@),
    ensures
        b.pending_wf(),
{
    assert forall|i: int, j: int|
        0 <= i < j < b.pending@.len() implies (#[trigger] b.pending@[i]).user_id != (
    #[trigger] b.pending@[j]).user_id by {
        assert(b.pending@[i] == a.pending@[i]);
        assert(b.pending@[j] == a.pending@[j]);
    }
    assert forall|i: int| 0 <= i < b.pending@.len() implies #[trigger] b.pending_user_resolves(
        i,
    ) by {
        assert(a.pending_user_resolves(i));
        assert(b.pending@[i] == a.pending@[i]);
        let p = a.pending@[i];
        let k0 = choose|k: int|
            0 <= k < a.users@.len() && (#[trigger] a.users@[k]).id == p.user_id
                && a.users@[k].company_id == p.company_id;
        assert(b.users@[k0].id == b.pending@[i].user_id);
        assert(b.users@[k0].company_id == b.pending@[i].company_id);
    }
}

impl Store {
    /// Index of the building with this id under this tenant, if any.
    pub fn find_building(&self, company_id: u64, building_id: u64) -> (r: Option<usize>)
        ensures
            r matches Some(i) ==> 0 <= i < self.buildings@.len() && self.buildings@[i as int].id
                == building_id && self.buildings@[i as int].company_id == company_id,
            r is None ==> forall|k: int|
                0 <= k < self.buildings@.len() ==> !((#[trigger] self.buildings@[k]).id
                    == building_id && self.buildings@[k].company_id == company_id),
    {
        let mut k: usize = 0;
        while k < self.buildings.len()
            invariant
                0 <= k <= self.buildings@.len(),
                forall|m: int|
                    0 <= m < k ==> !((#[trigger] self.buildings@[m]).id == building_id
                        && self.buildings@[m].company_id == company_id),
            decreases self.buildings@.len() - k,
        {
            if self.buildings[k].id == building_id && self.buildings[k].company_id == company_id {
                return Some(k);
            }
            k = k + 1;
        }
        None
    }

    /// Index of the coworking space with this id under this tenant and
    /// building, if any.
    pub fn find_space(&self, company_id: u64, building_id: u64, space_id: u64) -> (r: Option<
        usize,
    >)
        ensures
            r matches Some(i) ==> 0 <= i < self.spaces@.len() && self.spaces@[i as int].id
                == space_id && self.spaces@[i as int].building_id == building_id
                && self.spaces@[i as int].company_id == company_id,
            r is None ==> forall|k: int|
                0 <= k < self.spaces@.len() ==> !((#[trigger] self.spaces@[k]).id == space_id
                    && self.spaces@[k].building_id == building_id && self.spaces@[k].company_id
                    == company_id),
    {
        let mut k: usize = 0;
        while k < self.spaces.len()
            invariant
                0 <= k <= self.spaces@.len(),
                forall|m: int|
                    0 <= m < k ==> !((#[trigger] self.spaces@[m]).id == space_id
                        && self.spaces@[m].building_id == building_id && self.spaces@[m].company_id
                        == company_id),
            decreases self.spaces@.len() - k,
        {
            if self.spaces[k].id == space_id && self.spaces[k].building_id == building_id
                && self.spaces[k].company_id == company_id {
                return Some(k);
            }
            k = k + 1;
        }
        None
    }

    /// Index of the space with this id under this tenant, in any building.
    pub fn find_space_in_company(&self, company_id: u64, space_id: u64) -> (r: Option<usize>)
        ensures
            r matches Some(i) ==> 0 <= i < self.spaces@.len() && self.spaces@[i as int].id
                == space_id && self.spaces@[i as int].company_id == company_id,
            r is None ==> forall|k: int|
                0 <= k < self.spaces@.len() ==> !((#[trigger] self.spaces@[k]).id == space_id
                    && self.spaces@[k].company_id == company_id),
    {
        let mut k: usize = 0;
        while k < self.spaces.len()
            invariant
                0 <= k <= self.spaces@.len(),
                forall|m: int|
                    0 <= m < k ==> !((#[trigger] self.spaces@[m]).id == space_id
                        && self.spaces@[m].company_id == company_id),
            decreases self.spaces@.len() - k,
        {
            if self.spaces[k].id == space_id && self.spaces[k].company_id == company_id {
                return Some(k);
            }
            k = k + 1;
        }
        None
    }

    /// Index of the item type with this id, if any.
    pub fn find_item_type(&self, type_id: u64) -> (r: Option<usize>)
        ensures
            r matches Some(i) ==> 0 <= i < self.item_types@.len() && self.item_types@[i as int].id
                == type_id,
            r is None ==> forall|k: int|
                0 <= k < self.item_types@.len() ==> (#[trigger] self.item_types@[k]).id != type_id,
    {
        let mut k: usize = 0;
        while k < self.item_types.len()
            invariant
                0 <= k <= self.item_types@.len(),
                forall|m: int| 0 <= m < k ==> (#[trigger] self.item_types@[m]).id != type_id,
            decreases self.item_types@.len() - k,
        {
            if self.item_types[k].id == type_id {
                return Some(k);
            }
            k = k + 1;
        }
        None
    }

    /// Index of the placed item with this id inside this space, if any.
    pub fn find_item_in_space(&self, space_id: u64, item_id: u64) -> (r: Option<usize>)
        ensures
            r matches Some(i) ==> 0 <= i < self.items@.len() && self.items@[i as int].id == item_id
                && self.items@[i as int].coworking_id == space_id,
            r is None ==> forall|k: int|
                0 <= k < self.items@.len() ==> !((#[trigger] self.items@[k]).id == item_id
                    && self.items@[k].coworking_id == space_id),
    {
        let mut k: usize = 0;
        while k < self.items.len()
            invariant
                0 <= k <= self.items@.len(),
                forall|m: int|
                    0 <= m < k ==> !((#[trigger] self.items@[m]).id == item_id
                        && self.items@[m].coworking_id == space_id),
            decreases self.items@.len() - k,
        {
            if self.items[k].id == item_id && self.items[k].coworking_id == space_id {
                return Some(k);
            }
            k = k + 1;
        }
        None
    }

    /// Index of the space with this id, in any tenant.
    pub fn find_space_by_id(&self, space_id: u64) -> (r: Option<usize>)
        ensures
            r matches Some(i) ==> 0 <= i < self.spaces@.len() && self.spaces@[i as int].id
                == space_id,
            r is None ==> forall|k: int|
                0 <= k < self.spaces@.len() ==> (#[trigger] self.spaces@[k]).id != space_id,
    {
        let mut k: usize = 0;
        while k < self.spaces.len()
            invariant
                0 <= k <= self.spaces@.len(),
                forall|m: int| 0 <= m < k ==> (#[trigger] self.spaces@[m]).id != space_id,
            decreases self.spaces@.len() - k,
        {
            if self.spaces[k].id == space_id {
                return Some(k);
            }
            k = k + 1;
        }
        None
    }

    /// Index of the building with this id, in any tenant.
    pub fn find_building_by_id(&self, building_id: u64) -> (r: Option<usize>)
        ensures
            r matches Some(i) ==> 0 <= i < self.buildings@.len() && self.buildings@[i as int].id
                == building_id,
            r is None ==> forall|k: int|
                0 <= k < self.buildings@.len() ==> (#[trigger] self.buildings@[k]).id
                    != building_id,
    {
        let mut k: usize = 0;
        while k < self.buildings.len()
            invariant
                0 <= k <= self.buildings@.len(),
                forall|m: int| 0 <= m < k ==> (#[trigger] self.buildings@[m]).id != building_id,
            decreases self.buildings@.len() - k,
        {
            if self.buildings[k].id == building_id {
                return Some(k);
            }
            k = k + 1;
        }
        None
    }

    /// Index of the item instance with this id, in any space.
    pub fn find_item_by_id(&self, item_id: u64) -> (r: Option<usize>)
        ensures
            r matches Some(i) ==> 0 <= i < self.items@.len() && self.items@[i as int].id
                == item_id,
            r is None ==> forall|k: int|
                0 <= k < self.items@.len() ==> (#[trigger] self.items@[k]).id != item_id,
    {
        let mut k: usize = 0;
        while k < self.items.len()
            invariant
                0 <= k <= self.items@.len(),
                forall|m: int| 0 <= m < k ==> (#[trigger] self.items@[m]).id != item_id,
            decreases self.items@.len() - k,
        {
            if self.items[k].id == item_id {
                return Some(k);
            }
            k = k + 1;
        }
        None
    }

    /// Index of the booking with this id, if any.
    pub fn find_booking(&self, booking_id: u64) -> (r: Option<usize>)
        ensures
            r matches Some(i) ==> 0 <= i < self.bookings@.len() && self.bookings@[i as int].id
                == booking_id,
            r is None ==> forall|k: int|
                0 <= k < self.bookings@.len() ==> (#[trigger] self.bookings@[k]).id != booking_id,
    {
        let mut k: usize = 0;
        while k < self.bookings.len()
            invariant
                0 <= k <= self.bookings@.len(),
                forall|m: int| 0 <= m < k ==> (#[trigger] self.bookings@[m]).id != booking_id,
            decreases self.bookings@.len() - k,
        {
            if self.bookings[k].id == booking_id {
                return Some(k);
            }
            k = k + 1;
        }
        None
    }

    /// Index of the user with this id, if any.
    pub fn find_user(&self, user_id: u64) -> (r: Option<usize>)
        ensures
            r matches Some(i) ==> 0 <= i < self.users@.len() && self.users@[i as int].id
                == user_id,
            r is None ==> forall|k: int|
                0 <= k < self.users@.len() ==> (#[trigger] self.users@[k]).id != user_id,
    {
        let mut k: usize = 0;
        while k < self.users.len()
            invariant
                0 <= k <= self.users@.len(),
                forall|m: int| 0 <= m < k ==> (#[trigger] self.users@[m]).id != user_id,
            decreases self.users@.len() - k,
        {
            if self.users[k].id == user_id {
                return Some(k);
            }
            k = k + 1;
        }
        None
    }

    /// Index of the company with this domain, if any.
    pub fn find_company_by_domain(&self, domain: &String) -> (r: Option<usize>)
        ensures
            r matches Some(i) ==> 0 <= i < self.companies@.len()
                && self.companies@[i as int].domain@ == domain@,
            r is None ==> forall|k: int|
                0 <= k < self.companies@.len() ==> (#[trigger] self.companies@[k]).domain@
                    != domain@,
    {
        let mut k: usize = 0;
        while k < self.companies.len()
            invariant
                0 <= k <= self.companies@.len(),
                forall|m: int| 0 <= m < k ==> (#[trigger] self.companies@[m]).domain@ != domain@,
            decreases self.companies@.len() - k,
        {
            if self.companies[k].domain.eq(domain) {
                return Some(k);
            }
            k = k + 1;
        }
        None
    }

    /// Index of the pending verification request of this user, if any.
    pub fn find_pending(&self, user_id: u64) -> (r: Option<usize>)
        ensures
            r matches Some(i) ==> 0 <= i < self.pending@.len() && self.pending@[i as int].user_id
                == user_id,
            r is None ==> forall|k: int|
                0 <= k < self.pending@.len() ==> (#[trigger] self.pending@[k]).user_id != user_id,
    {
        let mut k: usize = 0;
        while k < self.pending.len()
            invariant
                0 <= k <= self.pending@.len(),
                forall|m: int| 0 <= m < k ==> (#[trigger] self.pending@[m]).user_id != user_id,
            decreases self.pending@.len() - k,
        {
            if self.pending[k].user_id == user_id {
                return Some(k);
            }
            k = k + 1;
        }
        None
    }
}

} // verus!
