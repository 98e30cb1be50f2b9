use coworking_core::booking::{create_booking, delete_booking, get_coworking_bookings, patch_booking};
use coworking_core::building::{create_building, get_building, list_buildings, patch_building};
use coworking_core::coworking::{create_coworking, get_coworking_by_id, list_coworkings, patch_coworking};
use coworking_core::errors::ProdError;
use coworking_core::forms::{
    CompanyRegisterData, CreateBookingForm, CreateBuildingForm, CreateCoworkingForm,
    CreateItemForm, CreateItemTypeForm, PatchBookingForm, UpdateCoworkingForm,
};
use coworking_core::geometry::{absolute_cells, check_bounds, check_overlap, Point};
use coworking_core::items::create_items_type;
use coworking_core::jwt::models::Claims;
use coworking_core::models::RoleModel;
use coworking_core::placement::{add_item_to_coworking, get_items_by_coworking, put_items_in_coworking};
use coworking_core::store::Store;
use coworking_core::users::{company_register, register_user};

const SECRET: &[u8] = b"test-secret-key-0123456789abcdef";

struct Env {
    store: Store,
    admin: Claims,
    student: Claims,
    building_id: u64,
    space_id: u64,
    type_id: u64,
    item_id: u64,
}

/// One company with a 5x5 space holding a 2-cell item at (3,0), a
/// bookable type, an admin and a student.
fn setup() -> Env {
    let mut store = Store::new();
    company_register(
        &mut store,
        &CompanyRegisterData { name: "Acme".to_string(), domain: "acme".to_string() },
        0,
        SECRET,
    )
    .unwrap();
    let company_id = store.companies[0].id;
    let admin = Claims { role: RoleModel::Admin, user_id: store.users[0].id, company_id, iat: 0, exp: 100000 };
    let td = register_user(
        &mut store,
        &coworking_core::forms::RegisterForm {
            name: "Stu".to_string(),
            surname: "Dent".to_string(),
            email: "stu@acme.test".to_string(),
            password: "password123".to_string(),
            company_domain: "acme".to_string(),
        },
        RoleModel::Student,
    )
    .unwrap();
    let student = Claims { role: RoleModel::Student, user_id: td.id, company_id, iat: 0, exp: 100000 };
    let b = create_building(&mut store, &admin, &CreateBuildingForm { address: "Main st 1".to_string() }).unwrap();
    let sp = create_coworking(
        &mut store,
        &admin,
        b.id,
        &CreateCoworkingForm { address: "Floor 2".to_string(), height: 5, width: 5 },
    )
    .unwrap();
    let ty = create_items_type(
        &mut store,
        &admin,
        &CreateItemTypeForm {
            name: "desk".to_string(),
            description: None,
            color: "#fff".to_string(),
            offsets: vec![Point { x: 0, y: 0 }, Point { x: 1, y: 0 }],
            bookable: true,
        },
        None,
    )
    .unwrap();
    let item = add_item_to_coworking(
        &mut store,
        &admin,
        b.id,
        sp.id,
        &CreateItemForm {
            item_id: ty.id,
            name: "d1".to_string(),
            description: None,
            base_point: Point { x: 3, y: 0 },
        },
    )
    .unwrap();
    Env {
        store,
        admin,
        student,
        building_id: b.id,
        space_id: sp.id,
        type_id: ty.id,
        item_id: item.id,
    }
}

#[test]
fn absolute_cells_translates_offsets() {
    let offsets = vec![Point { x: 0, y: 0 }, Point { x: 1, y: 0 }, Point { x: 0, y: 2 }];
    let base = Point { x: 10, y: 20 };
    let cells = absolute_cells(base, &offsets).unwrap();
    assert_eq!(cells, vec![Point { x: 10, y: 20 }, Point { x: 11, y: 20 }, Point { x: 10, y: 22 }]);
    // translating the base point translates every cell by the same delta
    let shifted = absolute_cells(Point { x: 13, y: 19 }, &offsets).unwrap();
    for (a, b) in cells.iter().zip(shifted.iter()) {
        assert_eq!(b.x - a.x, 3);
        assert_eq!(b.y - a.y, -1);
    }
}

#[test]
fn absolute_cells_rejects_overflowing_coordinates() {
    let offsets = vec![Point { x: 1, y: 0 }];
    assert!(absolute_cells(Point { x: i64::MAX, y: 0 }, &offsets).is_none());
}

#[test]
fn bounds_and_overlap_checks() {
    let cells = vec![Point { x: 3, y: 0 }, Point { x: 4, y: 0 }];
    assert!(check_bounds(&cells, 5, 5));
    assert!(!check_bounds(&cells, 4, 5));
    assert!(!check_bounds(&vec![Point { x: -1, y: 0 }], 5, 5));
    let other = vec![Point { x: 4, y: 0 }];
    assert!(check_overlap(&cells, &other));
    assert!(!check_overlap(&cells, &vec![Point { x: 0, y: 1 }]));
}

#[test]
fn placing_item_off_grid_is_a_bounds_conflict() {
    let mut env = setup();
    // base (4,0) puts the second cell at x=5 on a width-5 grid
    let r = add_item_to_coworking(
        &mut env.store,
        &env.admin,
        env.building_id,
        env.space_id,
        &CreateItemForm {
            item_id: env.type_id,
            name: "d2".to_string(),
            description: None,
            base_point: Point { x: 4, y: 0 },
        },
    );
    match r {
        Err(ProdError::Conflict(m)) => assert_eq!(m, "Item overlaps with borders"),
        other => panic!("expected a bounds conflict, got {:?}", other.map(|i| i.id)),
    }
}

#[test]
fn placing_item_on_free_cells_succeeds() {
    let mut env = setup();
    let r = add_item_to_coworking(
        &mut env.store,
        &env.admin,
        env.building_id,
        env.space_id,
        &CreateItemForm {
            item_id: env.type_id,
            name: "d2".to_string(),
            description: None,
            base_point: Point { x: 0, y: 2 },
        },
    )
    .unwrap();
    assert_eq!(r.base_point, Point { x: 0, y: 2 });
    let items = get_items_by_coworking(&env.store, &env.admin, env.building_id, env.space_id).unwrap();
    assert_eq!(items.len(), 2);
}

#[test]
fn placing_overlapping_items_is_an_overlap_conflict() {
    let mut env = setup();
    // (2,0)+(3,0): the second cell collides with the existing item at (3,0)
    let r = add_item_to_coworking(
        &mut env.store,
        &env.admin,
        env.building_id,
        env.space_id,
        &CreateItemForm {
            item_id: env.type_id,
            name: "d2".to_string(),
            description: None,
            base_point: Point { x: 2, y: 0 },
        },
    );
    match r {
        Err(ProdError::Conflict(m)) => assert_eq!(m, "Item overlaps with other item"),
        other => panic!("expected an overlap conflict, got {:?}", other.map(|i| i.id)),
    }
}

#[test]
fn non_admin_cannot_place_items() {
    let mut env = setup();
    let r = add_item_to_coworking(
        &mut env.store,
        &env.student,
        env.building_id,
        env.space_id,
        &CreateItemForm {
            item_id: env.type_id,
            name: "d2".to_string(),
            description: None,
            base_point: Point { x: 0, y: 2 },
        },
    );
    assert!(matches!(r, Err(ProdError::Forbidden(_))));
}

#[test]
fn bulk_put_replaces_items_atomically() {
    let mut env = setup();
    let forms = vec![
        CreateItemForm {
            item_id: env.type_id,
            name: "a".to_string(),
            description: None,
            base_point: Point { x: 0, y: 0 },
        },
        CreateItemForm {
            item_id: env.type_id,
            name: "b".to_string(),
            description: None,
            base_point: Point { x: 0, y: 1 },
        },
    ];
    let created =
        put_items_in_coworking(&mut env.store, &env.admin, env.building_id, env.space_id, &forms)
            .unwrap();
    assert_eq!(created.len(), 2);
    let items = get_items_by_coworking(&env.store, &env.admin, env.building_id, env.space_id).unwrap();
    assert_eq!(items.len(), 2);

    // a bulk set whose cells collide is rejected whole: the old items stay
    let bad = vec![
        CreateItemForm {
            item_id: env.type_id,
            name: "c".to_string(),
            description: None,
            base_point: Point { x: 2, y: 2 },
        },
        CreateItemForm {
            item_id: env.type_id,
            name: "d".to_string(),
            description: None,
            base_point: Point { x: 3, y: 2 },
        },
    ];
    let r = put_items_in_coworking(&mut env.store, &env.admin, env.building_id, env.space_id, &bad);
    match r {
        Err(ProdError::Conflict(m)) => assert_eq!(m, "Item overlaps with other item"),
        _ => panic!("expected an overlap conflict"),
    }
    let after = get_items_by_coworking(&env.store, &env.admin, env.building_id, env.space_id).unwrap();
    assert_eq!(after.len(), 2);
    assert!(after.iter().any(|i| i.name == "a"));
}

#[test]
fn bulk_put_bounds_fail_fast() {
    let mut env = setup();
    let bad = vec![CreateItemForm {
        item_id: env.type_id,
        name: "e".to_string(),
        description: None,
        base_point: Point { x: 4, y: 4 },
    }];
    let r = put_items_in_coworking(&mut env.store, &env.admin, env.building_id, env.space_id, &bad);
    match r {
        Err(ProdError::Conflict(m)) => assert_eq!(m, "Item overlaps with borders"),
        _ => panic!("expected a bounds conflict"),
    }
}

#[test]
fn booking_half_open_intervals() {
    let mut env = setup();
    // 10:00-10:30
    let b1 = create_booking(
        &mut env.store,
        &env.student,
        &CreateBookingForm {
            coworking_id: env.space_id,
            coworking_item_id: env.item_id,
            time_start: 36000,
            time_end: 37800,
        },
        0,
    )
    .unwrap();
    assert_eq!(b1.time_start, 36000);
    // 10:15-10:45 overlaps
    let r = create_booking(
        &mut env.store,
        &env.student,
        &CreateBookingForm {
            coworking_id: env.space_id,
            coworking_item_id: env.item_id,
            time_start: 36900,
            time_end: 38700,
        },
        0,
    );
    match r {
        Err(ProdError::Conflict(m)) => assert_eq!(m, "Your booking conflicts with existing bookings"),
        _ => panic!("expected a temporal conflict"),
    }
    // 10:30-11:00 touches the endpoint and is fine
    let b2 = create_booking(
        &mut env.store,
        &env.student,
        &CreateBookingForm {
            coworking_id: env.space_id,
            coworking_item_id: env.item_id,
            time_start: 37800,
            time_end: 39600,
        },
        0,
    )
    .unwrap();
    assert_eq!(b2.time_start, 37800);
}

#[test]
fn booking_duration_must_align_to_fifteen_minutes() {
    let mut env = setup();
    let r = create_booking(
        &mut env.store,
        &env.student,
        &CreateBookingForm {
            coworking_id: env.space_id,
            coworking_item_id: env.item_id,
            time_start: 36000,
            time_end: 36000 + 1000,
        },
        0,
    );
    assert!(matches!(r, Err(ProdError::ShitHappened(_))));
    // an aligned duration is accepted
    let ok = create_booking(
        &mut env.store,
        &env.student,
        &CreateBookingForm {
            coworking_id: env.space_id,
            coworking_item_id: env.item_id,
            time_start: 36000,
            time_end: 36000 + 900,
        },
        0,
    );
    assert!(ok.is_ok());
}

#[test]
fn booking_must_start_in_the_future() {
    let mut env = setup();
    let r = create_booking(
        &mut env.store,
        &env.student,
        &CreateBookingForm {
            coworking_id: env.space_id,
            coworking_item_id: env.item_id,
            time_start: 36000,
            time_end: 37800,
        },
        40000,
    );
    assert!(matches!(r, Err(ProdError::ShitHappened(_))));
}

#[test]
fn guest_cannot_create_booking() {
    let mut env = setup();
    let guest = Claims { role: RoleModel::Guest, ..env.student };
    let r = create_booking(
        &mut env.store,
        &guest,
        &CreateBookingForm {
            coworking_id: env.space_id,
            coworking_item_id: env.item_id,
            time_start: 36000,
            time_end: 37800,
        },
        0,
    );
    match r {
        Err(ProdError::Forbidden(m)) => assert_eq!(m, "Unverified guest can not create booking"),
        _ => panic!("expected a role rejection"),
    }
}

#[test]
fn unbookable_item_is_forbidden() {
    let mut env = setup();
    let ty = create_items_type(
        &mut env.store,
        &env.admin,
        &CreateItemTypeForm {
            name: "plant".to_string(),
            description: None,
            color: "#0f0".to_string(),
            offsets: vec![Point { x: 0, y: 0 }],
            bookable: false,
        },
        None,
    )
    .unwrap();
    let item = add_item_to_coworking(
        &mut env.store,
        &env.admin,
        env.building_id,
        env.space_id,
        &CreateItemForm {
            item_id: ty.id,
            name: "p1".to_string(),
            description: None,
            base_point: Point { x: 0, y: 4 },
        },
    )
    .unwrap();
    let r = create_booking(
        &mut env.store,
        &env.student,
        &CreateBookingForm {
            coworking_id: env.space_id,
            coworking_item_id: item.id,
            time_start: 36000,
            time_end: 37800,
        },
        0,
    );
    assert!(matches!(r, Err(ProdError::Forbidden(_))));
}

#[test]
fn booking_delete_requires_ownership() {
    let mut env = setup();
    let b = create_booking(
        &mut env.store,
        &env.student,
        &CreateBookingForm {
            coworking_id: env.space_id,
            coworking_item_id: env.item_id,
            time_start: 36000,
            time_end: 37800,
        },
        0,
    )
    .unwrap();
    let stranger = Claims { user_id: 9999, ..env.student };
    let r = delete_booking(&mut env.store, &stranger, b.id);
    assert!(matches!(r, Err(ProdError::Forbidden(_))));
    delete_booking(&mut env.store, &env.student, b.id).unwrap();
    let again = delete_booking(&mut env.store, &env.student, b.id);
    assert!(matches!(again, Err(ProdError::NotFound(_))));
}

#[test]
fn booking_patch_revalidates_merged_fields() {
    let mut env = setup();
    let b1 = create_booking(
        &mut env.store,
        &env.student,
        &CreateBookingForm {
            coworking_id: env.space_id,
            coworking_item_id: env.item_id,
            time_start: 36000,
            time_end: 37800,
        },
        0,
    )
    .unwrap();
    let _b2 = create_booking(
        &mut env.store,
        &env.student,
        &CreateBookingForm {
            coworking_id: env.space_id,
            coworking_item_id: env.item_id,
            time_start: 39600,
            time_end: 40500,
        },
        0,
    )
    .unwrap();
    // moving the first booking onto the second conflicts
    let r = patch_booking(
        &mut env.store,
        &env.student,
        b1.id,
        &PatchBookingForm {
            coworking_id: None,
            coworking_item_id: None,
            time_start: Some(39600),
            time_end: Some(40500),
        },
        0,
    );
    assert!(matches!(r, Err(ProdError::Conflict(_))));
    // moving it to a free slot succeeds
    let moved = patch_booking(
        &mut env.store,
        &env.student,
        b1.id,
        &PatchBookingForm {
            coworking_id: None,
            coworking_item_id: None,
            time_start: Some(41400),
            time_end: Some(42300),
        },
        0,
    )
    .unwrap();
    assert_eq!(moved.time_start, 41400);
}

#[test]
fn coworking_bookings_lists_only_future_ones() {
    let mut env = setup();
    let _b = create_booking(
        &mut env.store,
        &env.student,
        &CreateBookingForm {
            coworking_id: env.space_id,
            coworking_item_id: env.item_id,
            time_start: 36000,
            time_end: 37800,
        },
        0,
    )
    .unwrap();
    let now_before = get_coworking_bookings(&env.store, &env.student, env.building_id, env.space_id, 0)
        .unwrap();
    assert_eq!(now_before.len(), 1);
    let now_after = get_coworking_bookings(&env.store, &env.student, env.building_id, env.space_id, 50000)
        .unwrap();
    assert_eq!(now_after.len(), 0);
}

#[test]
fn resize_rejects_when_items_would_fall_off() {
    let mut env = setup();
    // the item occupies (3,0) and (4,0): width 4 would cut it off
    let r = patch_coworking(
        &mut env.store,
        &env.admin,
        env.building_id,
        env.space_id,
        UpdateCoworkingForm { address: None, height: None, width: Some(4) },
    );
    match r {
        Err(ProdError::Conflict(m)) => {
            assert_eq!(m, "New width makes some items inaccessible. Delete those objects first.")
        },
        _ => panic!("expected a resize conflict"),
    }
    // growing is always permitted
    let grown = patch_coworking(
        &mut env.store,
        &env.admin,
        env.building_id,
        env.space_id,
        UpdateCoworkingForm { address: None, height: Some(10), width: Some(10) },
    )
    .unwrap();
    assert_eq!(grown.width, 10);
    assert_eq!(grown.height, 10);
}

#[test]
fn resize_validates_dimension_range() {
    let mut env = setup();
    let r = patch_coworking(
        &mut env.store,
        &env.admin,
        env.building_id,
        env.space_id,
        UpdateCoworkingForm { address: None, height: Some(0), width: None },
    );
    assert!(matches!(r, Err(ProdError::InvalidRequest(_))));
}

#[test]
fn tenancy_isolation_hides_other_companies() {
    let mut env = setup();
    company_register(
        &mut env.store,
        &CompanyRegisterData { name: "Rival".to_string(), domain: "rival".to_string() },
        0,
        SECRET,
    )
    .unwrap();
    let rival_company = env.store.companies[1].id;
    let rival_admin = Claims {
        role: RoleModel::Admin,
        user_id: env.store.users.last().unwrap().id,
        company_id: rival_company,
        iat: 0,
        exp: 100000,
    };
    // the rival admin cannot read company A's building, space or items
    assert!(matches!(
        get_building(&env.store, &rival_admin, env.building_id),
        Err(ProdError::NotFound(_))
    ));
    assert!(matches!(
        get_coworking_by_id(&env.store, &rival_admin, env.building_id, env.space_id),
        Err(ProdError::NotFound(_))
    ));
    assert!(matches!(
        get_items_by_coworking(&env.store, &rival_admin, env.building_id, env.space_id),
        Err(ProdError::NotFound(_))
    ));
    // nor resize or place into them
    assert!(matches!(
        patch_coworking(
            &mut env.store,
            &rival_admin,
            env.building_id,
            env.space_id,
            UpdateCoworkingForm { address: None, height: Some(9), width: None },
        ),
        Err(ProdError::NotFound(_))
    ));
    // listings are scoped: the rival sees nothing of company A
    assert_eq!(list_buildings(&env.store, &rival_admin).len(), 0);
    assert_eq!(list_coworkings(&env.store, &rival_admin).len(), 0);
}

#[test]
fn building_crud_roundtrip() {
    let mut env = setup();
    let b = get_building(&env.store, &env.admin, env.building_id).unwrap();
    assert_eq!(b.address, "Main st 1");
    let renamed = patch_building(
        &mut env.store,
        &env.admin,
        env.building_id,
        &CreateBuildingForm { address: "Main st 2".to_string() },
    )
    .unwrap();
    assert_eq!(renamed.address, "Main st 2");
    assert_eq!(list_buildings(&env.store, &env.admin).len(), 1);
}

#[test]
fn status_codes_follow_the_error_table() {
    assert_eq!(ProdError::InvalidRequest("x".to_string()).status_code(), 400);
    assert_eq!(ProdError::ShitHappened("x".to_string()).status_code(), 400);
    assert_eq!(ProdError::AlreadyExists("x".to_string()).status_code(), 400);
    assert_eq!(ProdError::Forbidden("x".to_string()).status_code(), 403);
    assert_eq!(ProdError::InvalidToken("x".to_string()).status_code(), 403);
    assert_eq!(ProdError::NotFound("x".to_string()).status_code(), 404);
    assert_eq!(ProdError::NoCompany.status_code(), 404);
    assert_eq!(ProdError::Conflict("x".to_string()).status_code(), 409);
    assert_eq!(ProdError::VerificationError.status_code(), 409);
    assert_eq!(ProdError::DatabaseError("x".to_string()).status_code(), 500);
    assert_eq!(ProdError::HashingError("x".to_string()).status_code(), 500);
    assert_eq!(ProdError::S3Error("x".to_string()).status_code(), 500);
    assert_eq!(ProdError::Unknown("x".to_string()).status_code(), 500);
}

#[test]
fn deleting_an_item_drops_its_bookings() {
    let mut env = setup();
    let b = create_booking(
        &mut env.store,
        &env.student,
        &CreateBookingForm {
            coworking_id: env.space_id,
            coworking_item_id: env.item_id,
            time_start: 36000,
            time_end: 37800,
        },
        0,
    )
    .unwrap();
    coworking_core::placement::delete_item_from_coworking(
        &mut env.store,
        &env.admin,
        env.building_id,
        env.space_id,
        env.item_id,
    )
    .unwrap();
    let items = get_items_by_coworking(&env.store, &env.admin, env.building_id, env.space_id).unwrap();
    assert_eq!(items.len(), 0);
    // the cascade removed the booking too
    let r = delete_booking(&mut env.store, &env.student, b.id);
    assert!(matches!(r, Err(ProdError::NotFound(_))));
    // deleting it twice is a NotFound
    let again = coworking_core::placement::delete_item_from_coworking(
        &mut env.store,
        &env.admin,
        env.building_id,
        env.space_id,
        env.item_id,
    );
    assert!(matches!(again, Err(ProdError::NotFound(_))));
}

#[test]
fn deleting_a_space_drops_items_and_bookings() {
    let mut env = setup();
    create_booking(
        &mut env.store,
        &env.student,
        &CreateBookingForm {
            coworking_id: env.space_id,
            coworking_item_id: env.item_id,
            time_start: 36000,
            time_end: 37800,
        },
        0,
    )
    .unwrap();
    coworking_core::coworking::delete_coworking(&mut env.store, &env.admin, env.building_id, env.space_id)
        .unwrap();
    assert!(matches!(
        get_coworking_by_id(&env.store, &env.admin, env.building_id, env.space_id),
        Err(ProdError::NotFound(_))
    ));
    assert_eq!(env.store.items.len(), 0);
    assert_eq!(env.store.bookings.len(), 0);
    // a second delete answers the same as an absent id
    assert!(matches!(
        coworking_core::coworking::delete_coworking(&mut env.store, &env.admin, env.building_id, env.space_id),
        Err(ProdError::NotFound(_))
    ));
}

#[test]
fn deleting_a_user_drops_their_bookings() {
    let mut env = setup();
    create_booking(
        &mut env.store,
        &env.student,
        &CreateBookingForm {
            coworking_id: env.space_id,
            coworking_item_id: env.item_id,
            time_start: 36000,
            time_end: 37800,
        },
        0,
    )
    .unwrap();
    coworking_core::users::delete_user(&mut env.store, &env.student).unwrap();
    assert_eq!(env.store.bookings.len(), 0);
    assert!(!env.store.users.iter().any(|u| u.id == env.student.user_id));
}

#[test]
fn admin_delete_is_tenant_scoped() {
    let mut env = setup();
    company_register(
        &mut env.store,
        &CompanyRegisterData { name: "Rival".to_string(), domain: "rival".to_string() },
        0,
        b"k",
    )
    .unwrap();
    let rival_company = env.store.companies[1].id;
    let rival_admin = Claims {
        role: RoleModel::Admin,
        user_id: env.store.users.last().unwrap().id,
        company_id: rival_company,
        iat: 0,
        exp: 100000,
    };
    // the rival admin cannot delete company A's student, and learns only a miss
    let r = coworking_core::users::admin_delete_user(&mut env.store, &rival_admin, env.student.user_id);
    assert!(matches!(r, Err(ProdError::NotFound(_))));
    // the right admin can
    coworking_core::users::admin_delete_user(&mut env.store, &env.admin, env.student.user_id).unwrap();
    assert!(!env.store.users.iter().any(|u| u.id == env.student.user_id));
}

#[test]
fn user_listing_is_tenant_scoped() {
    let env = setup();
    let users = coworking_core::users::list_users(&env.store, &env.admin);
    assert_eq!(users.len(), 2);
    assert!(users.iter().any(|u| u.email == "stu@acme.test"));
}

#[test]
fn deleting_a_type_drops_its_instances_and_bookings() {
    let mut env = setup();
    create_booking(
        &mut env.store,
        &env.student,
        &CreateBookingForm {
            coworking_id: env.space_id,
            coworking_item_id: env.item_id,
            time_start: 36000,
            time_end: 37800,
        },
        0,
    )
    .unwrap();
    coworking_core::items::delete_item_type(&mut env.store, &env.admin, env.type_id).unwrap();
    assert_eq!(env.store.item_types.len(), 0);
    assert_eq!(env.store.items.len(), 0);
    assert_eq!(env.store.bookings.len(), 0);
    // deleting it twice is a NotFound, and other tenants see the same
    assert!(matches!(
        coworking_core::items::delete_item_type(&mut env.store, &env.admin, env.type_id),
        Err(ProdError::NotFound(_))
    ));
}

#[test]
fn deleting_a_building_drops_everything_inside() {
    let mut env = setup();
    create_booking(
        &mut env.store,
        &env.student,
        &CreateBookingForm {
            coworking_id: env.space_id,
            coworking_item_id: env.item_id,
            time_start: 36000,
            time_end: 37800,
        },
        0,
    )
    .unwrap();
    coworking_core::building::delete_building(&mut env.store, &env.admin, env.building_id).unwrap();
    assert_eq!(env.store.buildings.len(), 0);
    assert_eq!(env.store.spaces.len(), 0);
    assert_eq!(env.store.items.len(), 0);
    assert_eq!(env.store.bookings.len(), 0);
    // the type survives: it belongs to the company, not the building
    assert_eq!(env.store.item_types.len(), 1);
}

#[test]
fn type_deletion_is_tenant_scoped() {
    let mut env = setup();
    company_register(
        &mut env.store,
        &CompanyRegisterData { name: "Rival".to_string(), domain: "rival".to_string() },
        0,
        b"k2",
    )
    .unwrap();
    let rival_admin = Claims {
        role: RoleModel::Admin,
        user_id: env.store.users.last().unwrap().id,
        company_id: env.store.companies[1].id,
        iat: 0,
        exp: 100000,
    };
    // the answer is the same NotFound as for an id that does not exist
    let r = coworking_core::items::delete_item_type(&mut env.store, &rival_admin, env.type_id);
    assert!(matches!(r, Err(ProdError::NotFound(_))));
    assert_eq!(env.store.item_types.len(), 1);
}

#[test]
fn cross_tenant_booking_mutation_answers_not_found() {
    let mut env = setup();
    let b = create_booking(
        &mut env.store,
        &env.student,
        &CreateBookingForm {
            coworking_id: env.space_id,
            coworking_item_id: env.item_id,
            time_start: 36000,
            time_end: 37800,
        },
        0,
    )
    .unwrap();
    // a caller of another company learns only the same NotFound as a miss
    let foreign = Claims { company_id: env.student.company_id + 1000, ..env.student };
    match delete_booking(&mut env.store, &foreign, b.id) {
        Err(ProdError::NotFound(m)) => assert_eq!(m, "No booking was found"),
        _ => panic!("expected the cross-tenant delete to answer NotFound"),
    }
    match patch_booking(
        &mut env.store,
        &foreign,
        b.id,
        &PatchBookingForm {
            coworking_id: None,
            coworking_item_id: None,
            time_start: Some(39600),
            time_end: Some(40500),
        },
        0,
    ) {
        Err(ProdError::NotFound(m)) => assert_eq!(m, "No booking was found"),
        _ => panic!("expected the cross-tenant patch to answer NotFound"),
    }
    // the booking is untouched and still deletable by its owner
    delete_booking(&mut env.store, &env.student, b.id).unwrap();
}

#[test]
fn bulk_put_missing_type_is_not_found() {
    let mut env = setup();
    let bad = vec![CreateItemForm {
        item_id: 999_999,
        name: "x".to_string(),
        description: None,
        base_point: Point { x: 0, y: 0 },
    }];
    match put_items_in_coworking(&mut env.store, &env.admin, env.building_id, env.space_id, &bad) {
        Err(ProdError::NotFound(m)) => assert_eq!(m, "No such item type exists"),
        _ => panic!("expected a type-resolution failure"),
    }
    // the old items survive the abandoned operation
    let items = get_items_by_coworking(&env.store, &env.admin, env.building_id, env.space_id).unwrap();
    assert_eq!(items.len(), 1);
}

#[test]
fn booking_listing_shows_only_the_callers_future_bookings() {
    let mut env = setup();
    let b = create_booking(
        &mut env.store,
        &env.student,
        &CreateBookingForm {
            coworking_id: env.space_id,
            coworking_item_id: env.item_id,
            time_start: 36000,
            time_end: 37800,
        },
        0,
    )
    .unwrap();
    let rows = coworking_core::booking::list_bookings(&env.store, &env.student, 0);
    assert_eq!(rows.len(), 1);
    assert_eq!(rows[0].id, b.id);
    assert_eq!(rows[0].building_address, "Main st 1");
    assert_eq!(rows[0].coworking_space_name, "Floor 2");
    assert_eq!(rows[0].coworking_item_name, "d1");
    assert_eq!(rows[0].time_start, 36000);
    // ended bookings are not listed
    assert_eq!(coworking_core::booking::list_bookings(&env.store, &env.student, 40000).len(), 0);
    // another user sees nothing
    let other = Claims { user_id: 777, ..env.student };
    assert_eq!(coworking_core::booking::list_bookings(&env.store, &other, 0).len(), 0);
}
