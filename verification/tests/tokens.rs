use coworking_core::booking::{create_booking, get_booking_qr, verify_booking_qr};
use coworking_core::codec::{decode_f64_from_bytes, parse_u64_dec, u64_to_dec};
use coworking_core::errors::ProdError;
use coworking_core::forms::{
    CompanyRegisterData, CreateBookingForm, CreateBuildingForm, CreateCoworkingForm,
    CreateItemForm, CreateItemTypeForm, LoginForm, PatchProfileForm, RegisterForm,
};
use coworking_core::geometry::Point;
use coworking_core::items::create_items_type;
use coworking_core::jwt::generate::{claims_from_headers, create_token, validate_qr_token, validate_token};
use coworking_core::jwt::hashing::Argon;
use coworking_core::jwt::models::Claims;
use coworking_core::models::RoleModel;
use coworking_core::placement::add_item_to_coworking;
use coworking_core::store::Store;
use coworking_core::users::{company_register, login, profile, register_user, update_user, upload_document, verify_guest};

const SECRET: &[u8] = b"another-test-secret-abcdefghijkl";

fn booked_store() -> (Store, Claims, u64) {
    let mut store = Store::new();
    company_register(
        &mut store,
        &CompanyRegisterData { name: "Acme".to_string(), domain: "acme".to_string() },
        0,
        SECRET,
    )
    .unwrap();
    let company_id = store.companies[0].id;
    let admin = Claims { role: RoleModel::Admin, user_id: store.users[0].id, company_id, iat: 0, exp: 100000 };
    let td = register_user(
        &mut store,
        &RegisterForm {
            name: "Stu".to_string(),
            surname: "Dent".to_string(),
            email: "stu@acme.test".to_string(),
            password: "password123".to_string(),
            company_domain: "acme".to_string(),
        },
        RoleModel::Student,
    )
    .unwrap();
    let student = Claims { role: RoleModel::Student, user_id: td.id, company_id, iat: 0, exp: 100000 };
    let b = make_building(&mut store, &admin);
    let sp = make_coworking(&mut store, &admin, b);
    let ty = create_items_type(
        &mut store,
        &admin,
        &CreateItemTypeForm {
            name: "desk".to_string(),
            description: Some("a desk".to_string()),
            color: "#fff".to_string(),
            offsets: vec![Point { x: 0, y: 0 }],
            bookable: true,
        },
        None,
    )
    .unwrap();
    let item = add_item_to_coworking(
        &mut store,
        &admin,
        b,
        sp,
        &CreateItemForm {
            item_id: ty.id,
            name: "d1".to_string(),
            description: None,
            base_point: Point { x: 0, y: 0 },
        },
    )
    .unwrap();
    let booking = create_booking(
        &mut store,
        &student,
        &CreateBookingForm {
            coworking_id: sp,
            coworking_item_id: item.id,
            time_start: 36000,
            time_end: 37800,
        },
        0,
    )
    .unwrap();
    (store, student, booking.id)
}

fn make_building(store: &mut Store, admin: &Claims) -> u64 {
    coworking_core::building::create_building(
        store,
        admin,
        &CreateBuildingForm { address: "HQ".to_string() },
    )
    .unwrap()
    .id
}

fn make_coworking(store: &mut Store, admin: &Claims, building_id: u64) -> u64 {
    coworking_core::coworking::create_coworking(
        store,
        admin,
        building_id,
        &CreateCoworkingForm { address: "floor".to_string(), height: 5, width: 5 },
    )
    .unwrap()
    .id
}

#[test]
fn qr_round_trip_is_positive_before_the_end() {
    let (store, student, booking_id) = booked_store();
    let qt = get_booking_qr(&store, &student, booking_id, 100, SECRET).unwrap();
    let verdict = verify_booking_qr(&store, &qt.token, 200, SECRET);
    assert!(verdict.valid);
    let data = verdict.booking_data.unwrap();
    assert_eq!(data.user_email, "stu@acme.test");
    assert_eq!(data.building_name, "HQ");
    assert_eq!(data.space_name, "floor");
    assert_eq!(data.item_name, "d1");
    assert_eq!(data.time_start, 36000);
    assert_eq!(data.time_end, 37800);
}

#[test]
fn qr_is_negative_after_the_booking_ends() {
    let (store, student, booking_id) = booked_store();
    let qt = get_booking_qr(&store, &student, booking_id, 100, SECRET).unwrap();
    let verdict = verify_booking_qr(&store, &qt.token, 37800, SECRET);
    assert!(!verdict.valid);
    assert!(verdict.booking_data.is_none());
}

#[test]
fn qr_is_negative_for_a_tampered_token() {
    let (store, student, booking_id) = booked_store();
    let qt = get_booking_qr(&store, &student, booking_id, 100, SECRET).unwrap();
    let mut tampered: String = qt.token.clone();
    // flip the first payload character
    tampered.replace_range(0..1, "x");
    let verdict = verify_booking_qr(&store, &tampered, 200, SECRET);
    assert!(!verdict.valid);
    assert!(verdict.booking_data.is_none());
    // a token signed under a different secret is rejected too
    let other = get_booking_qr(&store, &student, booking_id, 100, b"some-other-secret").unwrap();
    let verdict2 = verify_booking_qr(&store, &other.token, 200, SECRET);
    assert!(!verdict2.valid);
}

#[test]
fn qr_is_negative_when_the_booking_is_gone() {
    let (mut store, student, booking_id) = booked_store();
    let qt = get_booking_qr(&store, &student, booking_id, 100, SECRET).unwrap();
    coworking_core::booking::delete_booking(&mut store, &student, booking_id).unwrap();
    let verdict = verify_booking_qr(&store, &qt.token, 200, SECRET);
    assert!(!verdict.valid);
    assert!(verdict.booking_data.is_none());
}

#[test]
fn qr_for_another_users_booking_is_not_issued() {
    let (store, student, booking_id) = booked_store();
    let stranger = Claims { user_id: 424242, ..student };
    let r = get_booking_qr(&store, &stranger, booking_id, 100, SECRET);
    assert!(matches!(r, Err(ProdError::NotFound(_))));
}

#[test]
fn qr_validation_rejects_garbage() {
    assert!(matches!(validate_qr_token("not a token", SECRET), Err(ProdError::InvalidToken(_))));
    assert!(matches!(validate_qr_token("", SECRET), Err(ProdError::InvalidToken(_))));
    assert!(matches!(
        validate_qr_token("q.1.2.3.bogussignature", SECRET),
        Err(ProdError::InvalidToken(_))
    ));
}

#[test]
fn foreign_jwt_layout_is_rejected() {
    // a structurally different signed token, built with the jsonwebtoken
    // crate directly, must fail softly
    let mut claims = serde_json::Map::new();
    claims.insert("booking_id".to_string(), serde_json::Value::from(1u64));
    claims.insert("exp".to_string(), serde_json::Value::from(99999u64));
    let token = jsonwebtoken::encode(
        &jsonwebtoken::Header::new(jsonwebtoken::Algorithm::HS256),
        &serde_json::Value::Object(claims),
        &jsonwebtoken::EncodingKey::from_secret(SECRET),
    )
    .unwrap();
    assert!(matches!(validate_qr_token(&token, SECRET), Err(ProdError::InvalidToken(_))));
}

#[test]
fn session_token_round_trip() {
    let token = create_token(7, 3, RoleModel::Student, 1000, SECRET).unwrap();
    let claims = validate_token(&token, 2000, SECRET).unwrap();
    assert_eq!(claims.user_id, 7);
    assert_eq!(claims.company_id, 3);
    assert_eq!(claims.role, RoleModel::Student);
    assert_eq!(claims.iat, 1000);
    assert_eq!(claims.exp, 1000 + 86400);
    // expired relative to the clock
    assert!(matches!(
        validate_token(&token, 1000 + 86400, SECRET),
        Err(ProdError::InvalidToken(_))
    ));
}

#[test]
fn claims_come_from_the_bearer_header() {
    let token = create_token(7, 3, RoleModel::Admin, 1000, SECRET).unwrap();
    let header = format!("Bearer {}", token);
    let claims = claims_from_headers(Some(&header), 2000, SECRET).unwrap();
    assert_eq!(claims.user_id, 7);
    assert_eq!(claims.role, RoleModel::Admin);
    assert!(matches!(
        claims_from_headers(None, 2000, SECRET),
        Err(ProdError::Forbidden(_))
    ));
    assert!(matches!(
        claims_from_headers(Some("Bearer"), 2000, SECRET),
        Err(ProdError::ShitHappened(_))
    ));
    assert!(matches!(
        claims_from_headers(Some("Bearer garbage"), 2000, SECRET),
        Err(ProdError::InvalidToken(_))
    ));
}

#[test]
fn login_round_trip_through_argon() {
    let (store, _student, _bid) = booked_store();
    let token = login(
        &store,
        &LoginForm {
            email: "stu@acme.test".to_string(),
            password: "password123".to_string(),
            domain: "acme".to_string(),
        },
        0,
        SECRET,
    )
    .unwrap();
    let claims = validate_token(&token.jwt, 100, SECRET).unwrap();
    assert_eq!(claims.role, RoleModel::Student);
    // a wrong password is a Forbidden, not a lookup failure
    let wrong = login(
        &store,
        &LoginForm {
            email: "stu@acme.test".to_string(),
            password: "not-the-password".to_string(),
            domain: "acme".to_string(),
        },
        0,
        SECRET,
    );
    assert!(matches!(wrong, Err(ProdError::Forbidden(_))));
    // an unknown user is a NotFound
    let missing = login(
        &store,
        &LoginForm {
            email: "none@acme.test".to_string(),
            password: "password123".to_string(),
            domain: "acme".to_string(),
        },
        0,
        SECRET,
    );
    assert!(matches!(missing, Err(ProdError::NotFound(_))));
}

#[test]
fn argon_hashes_are_not_the_password() {
    let hash = Argon::hash_password(b"password123").unwrap();
    assert_ne!(hash, "password123");
    assert!(Argon::verify(b"password123", &hash).unwrap());
    assert!(!Argon::verify(b"password124", &hash).unwrap());
}

#[test]
fn register_requires_company_and_unique_email() {
    let (mut store, _student, _bid) = booked_store();
    let missing = register_user(
        &mut store,
        &RegisterForm {
            name: "X".to_string(),
            surname: "Y".to_string(),
            email: "x@y.test".to_string(),
            password: "p".to_string(),
            company_domain: "nosuch".to_string(),
        },
        RoleModel::Guest,
    );
    assert!(matches!(missing, Err(ProdError::NoCompany)));
    let duplicate = register_user(
        &mut store,
        &RegisterForm {
            name: "X".to_string(),
            surname: "Y".to_string(),
            email: "stu@acme.test".to_string(),
            password: "p".to_string(),
            company_domain: "acme".to_string(),
        },
        RoleModel::Guest,
    );
    assert!(matches!(duplicate, Err(ProdError::Conflict(_))));
}

#[test]
fn company_domain_is_unique() {
    let (mut store, _student, _bid) = booked_store();
    let r = company_register(
        &mut store,
        &CompanyRegisterData { name: "Other".to_string(), domain: "acme".to_string() },
        0,
        SECRET,
    );
    assert!(matches!(r, Err(ProdError::Conflict(_))));
}

#[test]
fn guest_verification_lifecycle() {
    let (mut store, _student, _bid) = booked_store();
    let company_id = store.companies[0].id;
    let td = register_user(
        &mut store,
        &RegisterForm {
            name: "G".to_string(),
            surname: "uest".to_string(),
            email: "g@acme.test".to_string(),
            password: "password123".to_string(),
            company_domain: "acme".to_string(),
        },
        RoleModel::Guest,
    )
    .unwrap();
    let guest = Claims { role: RoleModel::Guest, user_id: td.id, company_id, iat: 0, exp: 100000 };
    let admin = Claims { role: RoleModel::Admin, user_id: store.users[0].id, company_id, iat: 0, exp: 100000 };
    // no pending request yet
    assert!(matches!(
        verify_guest(&mut store, &admin, td.id),
        Err(ProdError::NotFound(_))
    ));
    upload_document(&mut store, &guest).unwrap();
    // a second concurrent request is a uniqueness conflict
    assert!(matches!(
        upload_document(&mut store, &guest),
        Err(ProdError::VerificationError)
    ));
    verify_guest(&mut store, &admin, td.id).unwrap();
    let p = profile(&store, &guest).unwrap();
    assert_eq!(p.role, RoleModel::VerifiedGuest);
    assert_eq!(p.pending_verification, Some(false));
    // a verified user may not file a request
    let verified = Claims { role: RoleModel::VerifiedGuest, ..guest };
    assert!(matches!(
        upload_document(&mut store, &verified),
        Err(ProdError::Forbidden(_))
    ));
}

#[test]
fn profile_update_patches_only_present_fields() {
    let (mut store, student, _bid) = booked_store();
    update_user(
        &mut store,
        student.user_id,
        &PatchProfileForm {
            name: Some("Stuart".to_string()),
            surname: None,
            password: Some("newpassword1".to_string()),
        },
        Some("http://avatars/1".to_string()),
    )
    .unwrap();
    let p = profile(&store, &student).unwrap();
    assert_eq!(p.name, "Stuart");
    assert_eq!(p.surname, "Dent");
    assert_eq!(p.avatar, Some("http://avatars/1".to_string()));
    // the new password logs in, the old one no longer does
    let ok = login(
        &store,
        &LoginForm {
            email: "stu@acme.test".to_string(),
            password: "newpassword1".to_string(),
            domain: "acme".to_string(),
        },
        0,
        SECRET,
    );
    assert!(ok.is_ok());
    let old = login(
        &store,
        &LoginForm {
            email: "stu@acme.test".to_string(),
            password: "password123".to_string(),
            domain: "acme".to_string(),
        },
        0,
        SECRET,
    );
    assert!(matches!(old, Err(ProdError::Forbidden(_))));
}

#[test]
fn decimal_codec_round_trip() {
    assert_eq!(u64_to_dec(0), "0");
    assert_eq!(u64_to_dec(907), "907");
    assert_eq!(u64_to_dec(u64::MAX), "18446744073709551615");
    assert_eq!(parse_u64_dec("907"), Some(907));
    assert_eq!(parse_u64_dec("0"), Some(0));
    assert_eq!(parse_u64_dec("18446744073709551615"), Some(u64::MAX));
    assert_eq!(parse_u64_dec("18446744073709551616"), None);
    assert_eq!(parse_u64_dec("007"), None);
    assert_eq!(parse_u64_dec(""), None);
    assert_eq!(parse_u64_dec("12a"), None);
}

#[test]
fn double_decoding_matches_float_semantics() {
    let cases: [f64; 10] = [0.0, 1.0, -1.0, 4.0, 2.5, -2.5, 0.25, 1234567.0, -7.49, 7.5];
    for x in cases {
        let bytes = x.to_bits().to_be_bytes();
        let expected = x.round() as i64;
        assert_eq!(decode_f64_from_bytes(&bytes), expected, "for {}", x);
    }
    // saturation and the not-a-number convention
    assert_eq!(decode_f64_from_bytes(&f64::INFINITY.to_bits().to_be_bytes()), i64::MAX);
    assert_eq!(decode_f64_from_bytes(&f64::NEG_INFINITY.to_bits().to_be_bytes()), i64::MIN);
    assert_eq!(decode_f64_from_bytes(&f64::NAN.to_bits().to_be_bytes()), 0);
    assert_eq!(decode_f64_from_bytes(&1.0e300f64.to_bits().to_be_bytes()), i64::MAX);
    assert_eq!(decode_f64_from_bytes(&(-1.0e300f64).to_bits().to_be_bytes()), i64::MIN);
}

#[test]
fn public_registration_creates_a_guest() {
    let (mut store, _student, _bid) = booked_store();
    let t = coworking_core::users::register(
        &mut store,
        &RegisterForm {
            name: "New".to_string(),
            surname: "Guest".to_string(),
            email: "new@acme.test".to_string(),
            password: "password123".to_string(),
            company_domain: "acme".to_string(),
        },
        0,
        SECRET,
    )
    .unwrap();
    let claims = validate_token(&t.jwt, 100, SECRET).unwrap();
    assert_eq!(claims.role, RoleModel::Guest);
    assert_eq!(claims.company_id, store.companies[0].id);
}

#[test]
fn verify_requests_lists_pending_guests_only() {
    let (mut store, _student, _bid) = booked_store();
    let company_id = store.companies[0].id;
    let admin = Claims { role: RoleModel::Admin, user_id: store.users[0].id, company_id, iat: 0, exp: 100000 };
    let td = register_user(
        &mut store,
        &RegisterForm {
            name: "G".to_string(),
            surname: "uest".to_string(),
            email: "pending@acme.test".to_string(),
            password: "password123".to_string(),
            company_domain: "acme".to_string(),
        },
        RoleModel::Guest,
    )
    .unwrap();
    let guest = Claims { role: RoleModel::Guest, user_id: td.id, company_id, iat: 0, exp: 100000 };
    assert_eq!(coworking_core::users::get_verify_requests(&store, &admin).len(), 0);
    upload_document(&mut store, &guest).unwrap();
    let rows = coworking_core::users::get_verify_requests(&store, &admin);
    assert_eq!(rows.len(), 1);
    assert_eq!(rows[0].email, "pending@acme.test");
    // approving the request empties the listing again
    verify_guest(&mut store, &admin, td.id).unwrap();
    assert_eq!(coworking_core::users::get_verify_requests(&store, &admin).len(), 0);
}
