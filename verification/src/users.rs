use vstd::prelude::*;

use crate::errors::ProdError;
use crate::forms::{CompanyRegisterData, LoginForm, PatchProfileForm, ProfileResponseForm,
    PublicUserData, RegisterForm, Token};
use crate::jwt::generate::{create_token, spec_session_token};
use crate::jwt::hashing::{argon_verify_of, Argon};
use crate::jwt::models::{Claims, JWT_EXPIRY_SECONDS};
use crate::models::{clone_opt_string, CompaniesModel, PendingVerificationsModel, RoleModel,
    TokenData, UserModel};
use crate::store::{table_extends, Store};

verus! {

/// Some user of this company already registered this email.
pub open spec fn email_taken(s: Store, company_id: u64, email: Seq<char>) -> bool {
    exists|k: int|
        0 <= k < s.users@.len() && (#[trigger] s.users@[k]).company_id == company_id
            && s.users@[k].email@ == email
}

/// Some company registered this domain.
pub open spec fn domain_taken(s: Store, domain: Seq<char>) -> bool {
    exists|k: int| 0 <= k < s.companies@.len() && (#[trigger] s.companies@[k]).domain@ == domain
}

/// All tables but the users hold the same rows in both stores.
pub open spec fn same_except_users(a: Store, b: Store) -> bool {
    &&& a.companies@ == b.companies@
    &&& a.buildings@ == b.buildings@
    &&& a.spaces@ == b.spaces@
    &&& a.item_types@ == b.item_types@
    &&& a.items@ == b.items@
    &&& a.bookings@ == b.bookings@
    &&& a.pending@ == b.pending@
}

/// Appending a user with a fresh id and an email free in its company
/// preserves every invariant.
proof fn lemma_push_user_wf(a: Store, b: Store, u: UserModel)
    requires
        a.wf(),
        a.next_id < u64::MAX,
        u.id == a.next_id,
        u.company_id < a.next_id,
        !email_taken(a, u.company_id, u.email@),
        b.users@ == a.users@.push(u),
        same_except_users(b, a),
        b.next_id == a.next_id + 1,
    ensures
        b.wf(),
{
    let n = a.users@.len() as int;
    assert forall|i: int| 0 <= i < b.users@.len() implies (#[trigger] b.users@[i]).id
        < b.next_id && b.users@[i].company_id < b.next_id by {
        if i < n {
            assert(b.users@[i] == a.users@[i]);
        }
    }
    assert forall|i: int, j: int|
        0 <= i < j < b.users@.len() implies (#[trigger] b.users@[i]).id != (
    #[trigger] b.users@[j]).id && (b.users@[i].company_id == b.users@[j].company_id
        ==> b.users@[i].email@ != b.users@[j].email@) by {
        if j < n {
            assert(b.users@[i] == a.users@[i]);
            assert(b.users@[j] == a.users@[j]);
        } else {
            assert(b.users@[i] == a.users@[i]);
            assert(a.users@[i].id < a.next_id);
            if a.users@[i].company_id == u.company_id {
                assert(!(a.users@[i].email@ == u.email@));
            }
        }
    }
    assert(table_extends(b.users@, a.users@));
    crate::store::lemma_companies_wf_from(a, b);
    crate::store::lemma_buildings_wf_from(a, b);
    crate::store::lemma_spaces_wf_from(a, b);
    crate::store::lemma_item_types_wf_from(a, b);
    crate::store::lemma_items_wf_from(a, b);
    crate::store::lemma_geometry_wf_from(a, b);
    crate::store::lemma_bookings_wf_from(a, b);
    crate::store::lemma_pending_wf_from(a, b);
}

/// Registers a user under the company owning the given domain. The email
/// must be free within that company; the stored password hash verifies
/// against the submitted password.
#[verifier::loop_isolation(false)]
pub fn register_user(store: &mut Store, form: &RegisterForm, role: RoleModel) -> (r: Result<
    TokenData,
    ProdError,
>)
    requires
        old(store).wf(),
        old(store).next_id < u64::MAX,
    ensures
        final(store).wf(),
        r is Err ==> *final(store) == *old(store),
        !domain_taken(*old(store), form.company_domain@) ==> (r matches Err(e) && e is NoCompany),
        forall|ci: int|
            0 <= ci < old(store).companies@.len() && (#[trigger] old(store).companies@[ci]).domain@
                == form.company_domain@ && email_taken(
                *old(store),
                old(store).companies@[ci].id,
                form.email@,
            ) ==> (r matches Err(e) && e is Conflict),
        forall|ci: int|
            0 <= ci < old(store).companies@.len() && (#[trigger] old(store).companies@[ci]).domain@
                == form.company_domain@ && !email_taken(
                *old(store),
                old(store).companies@[ci].id,
                form.email@,
            ) && vstd::utf8::encode_utf8(form.password@).len() <= 0xFFFF_FFFF ==> r is Ok,
        forall|ci: int|
            0 <= ci < old(store).companies@.len() && (#[trigger] old(store).companies@[ci]).domain@
                == form.company_domain@ && !email_taken(
                *old(store),
                old(store).companies@[ci].id,
                form.email@,
            ) ==> (r matches Ok(td) ==> td == (TokenData {
                id: old(store).next_id,
                company_id: old(store).companies@[ci].id,
                role,
            }) && final(store).users@.len() == old(store).users@.len() + 1 && (forall|j: int|
                0 <= j < old(store).users@.len() ==> final(store).users@[j] == old(
                    store,
                ).users@[j]) && (final(store).users@[old(store).users@.len() as int].id == old(
                store,
            ).next_id && final(store).users@[old(store).users@.len() as int].email@ == form.email@
                && final(store).users@[old(store).users@.len() as int].role == role && final(store).users@[old(store).users@.len() as int].company_id == old(store).companies@[ci].id
                && argon_verify_of(
                final(store).users@[old(store).users@.len() as int].password@,
                vstd::utf8::encode_utf8(form.password@),
            ) == Some(true)) && same_except_users(*final(store), *old(store)) && final(store).next_id == old(store).next_id + 1),
{
    let cidx = match store.find_company_by_domain(&form.company_domain) {
        Some(i) => i,
        None => {
            return Err(ProdError::NoCompany);
        },
    };
    proof {
        assert forall|j: int|
            0 <= j < store.companies@.len() && (#[trigger] store.companies@[j]).domain@
                == form.company_domain@ implies j == cidx as int by {
            if j != cidx as int {
                assert(store.companies@[j].domain@ != store.companies@[cidx as int].domain@);
            }
        }
    }
    let company_id = store.companies[cidx].id;
    let mut k: usize = 0;
    while k < store.users.len()
        invariant
            0 <= k <= store.users@.len(),
            forall|m: int|
                0 <= m < k ==> !((#[trigger] store.users@[m]).company_id == company_id
                    && store.users@[m].email@ == form.email@),
        decreases store.users@.len() - k,
    {
        if store.users[k].company_id == company_id && store.users[k].email.eq(&form.email) {
            return Err(
                ProdError::Conflict("A user with this e-mail is already registered.".to_owned()),
            );
        }
        k = k + 1;
    }
    let pw_bytes = form.password.as_str().as_bytes();
    if pw_bytes.len() > 0xFFFF_FFFFusize {
        return Err(ProdError::HashingError("hashing error".to_owned()));
    }
    let hashed = match Argon::hash_password(pw_bytes) {
        Ok(h) => h,
        Err(e) => {
            proof {
                assert(false);
            }
            return Err(e);
        },
    };
    let u = UserModel {
        id: store.next_id,
        name: form.name.clone(),
        surname: form.surname.clone(),
        email: form.email.clone(),
        password: hashed,
        avatar: None,
        company_id,
        company_domain: form.company_domain.clone(),
        role,
    };
    let td = TokenData { id: u.id, company_id, role };
    let ghost urow = u;
    store.users.push(u);
    store.next_id = store.next_id + 1;
    proof {
        lemma_push_user_wf(*old(store), *store, urow);
        assert forall|j: int|
            0 <= j < old(store).companies@.len() && (#[trigger] old(store).companies@[j]).domain@
                == form.company_domain@ implies j == cidx as int by {
            if j != cidx as int {
                assert(old(store).companies@[j].domain@ != old(
                    store,
                ).companies@[cidx as int].domain@);
            }
        }
    }
    Ok(td)
}

/// Authenticates by company domain, email and password, answering a
/// fresh session token.
#[verifier::loop_isolation(false)]
pub fn login(store: &Store, form: &LoginForm, now: i64, secret: &[u8]) -> (r: Result<
    Token,
    ProdError,
>)
    requires
        store.wf(),
        0 <= now,
        now + JWT_EXPIRY_SECONDS <= i64::MAX,
    ensures
        (forall|k: int|
            0 <= k < store.users@.len() ==> !((#[trigger] store.users@[k]).email@ == form.email@
                && store.users@[k].company_domain@ == form.domain@)) ==> (r matches Err(e) && e
            matches ProdError::NotFound(m) && m@ == "No such user"@),
        forall|k: int|
            0 <= k < store.users@.len() && (#[trigger] store.users@[k]).email@ == form.email@
                && store.users@[k].company_domain@ == form.domain@ && (forall|m: int|
                0 <= m < k ==> !((#[trigger] store.users@[m]).email@ == form.email@
                    && store.users@[m].company_domain@ == form.domain@)) ==> (login_outcome(
                store.users@[k],
                vstd::utf8::encode_utf8(form.password@),
                now,
                secret@,
                r,
            )),
{
    let mut k: usize = 0;
    let n = store.users.len();
    while k < n
        invariant
            0 <= k <= n,
            n == store.users@.len(),
            forall|m: int|
                0 <= m < k ==> !((#[trigger] store.users@[m]).email@ == form.email@
                    && store.users@[m].company_domain@ == form.domain@),
        decreases n - k,
    {
        if store.users[k].email.eq(&form.email) && store.users[k].company_domain.eq(
            &form.domain,
        ) {
            let user = &store.users[k];
            let pw_bytes = form.password.as_str().as_bytes();
            let matched = match Argon::verify(pw_bytes, user.password.as_str()) {
                Ok(b) => b,
                Err(e) => {
                    return Err(e);
                },
            };
            if !matched {
                return Err(ProdError::Forbidden("wrong password".to_owned()));
            }
            let jwt = match create_token(user.id, user.company_id, user.role, now, secret) {
                Ok(t) => t,
                Err(e) => {
                    proof {
                        assert(false);
                    }
                    return Err(e);
                },
            };
            return Ok(Token { jwt });
        }
        k = k + 1;
    }
    Err(ProdError::NotFound("No such user".to_owned()))
}

/// What login answers once the user row is found: the password decides,
/// through the hashing library's verifier, between a fresh session token,
/// a `Forbidden`, and a hashing failure.
pub open spec fn login_outcome(
    u: UserModel,
    pw: Seq<u8>,
    now: i64,
    secret: Seq<u8>,
    r: Result<Token, ProdError>,
) -> bool {
    match argon_verify_of(u.password@, pw) {
        Some(true) => r matches Ok(t) && t.jwt@ == spec_session_token(
            Claims {
                role: u.role,
                user_id: u.id,
                company_id: u.company_id,
                iat: now,
                exp: (now + JWT_EXPIRY_SECONDS) as i64,
            },
            secret,
        ),
        Some(false) => r matches Err(e) && e matches ProdError::Forbidden(m) && m@
            == "wrong password"@,
        None => r matches Err(e) && e is HashingError,
    }
}

/// Registers a company together with its first administrator, answering
/// the administrator's session token.
pub fn company_register(store: &mut Store, form: &CompanyRegisterData, now: i64, secret: &[u8]) -> (r:
    Result<Token, ProdError>)
    requires
        old(store).wf(),
        old(store).next_id + 2 <= u64::MAX,
        0 <= now,
        now + JWT_EXPIRY_SECONDS <= i64::MAX,
    ensures
        final(store).wf(),
        domain_taken(*old(store), form.domain@) ==> (r matches Err(e) && e is Conflict && *final(store) == *old(store)),
        r matches Ok(t) ==> !domain_taken(*old(store), form.domain@) && final(store).companies@.len() == old(store).companies@.len() + 1 && (forall|j: int|
            0 <= j < old(store).companies@.len() ==> final(store).companies@[j] == old(
                store,
            ).companies@[j]) && final(store).companies@[old(store).companies@.len() as int].domain@
            == form.domain@ && final(store).companies@[old(store).companies@.len() as int].name@
            == form.name@ && final(store).users@.len() == old(store).users@.len() + 1 && final(store).users@[old(store).users@.len() as int].role == RoleModel::Admin,
{
    if store.find_company_by_domain(&form.domain).is_some() {
        return Err(ProdError::Conflict("Company domain already exists".to_owned()));
    }
    let c = CompaniesModel {
        id: store.next_id,
        name: form.name.clone(),
        domain: form.domain.clone(),
        avatar: None,
    };
    let ghost crow = c;
    let ghost pre = *store;
    store.companies.push(c);
    store.next_id = store.next_id + 1;
    proof {
        let olds = pre;
        let news = *store;
        let n = olds.companies@.len() as int;
        assert(news.companies@ == olds.companies@.push(crow));
        assert forall|i: int| 0 <= i < news.companies@.len() implies (
        #[trigger] news.companies@[i]).id < news.next_id by {
            if i < n {
                assert(news.companies@[i] == olds.companies@[i]);
            }
        }
        assert forall|i: int, j: int|
            0 <= i < j < news.companies@.len() implies (#[trigger] news.companies@[i]).id != (
        #[trigger] news.companies@[j]).id && news.companies@[i].domain@
            != news.companies@[j].domain@ by {
            if j < n {
                assert(news.companies@[i] == olds.companies@[i]);
                assert(news.companies@[j] == olds.companies@[j]);
            } else {
                assert(news.companies@[i] == olds.companies@[i]);
                assert(olds.companies@[i].id < olds.next_id);
                assert(!(olds.companies@[i].domain@ == form.domain@));
            }
        }
        crate::store::lemma_buildings_wf_from(olds, news);
        crate::store::lemma_spaces_wf_from(olds, news);
        crate::store::lemma_item_types_wf_from(olds, news);
        crate::store::lemma_items_wf_from(olds, news);
        crate::store::lemma_geometry_wf_from(olds, news);
        crate::store::lemma_bookings_wf_from(olds, news);
        crate::store::lemma_users_wf_from(olds, news);
        crate::store::lemma_pending_wf_from(olds, news);
    }
    let admin_form = RegisterForm {
        name: form.name.clone().concat(" Admin"),
        surname: "Admin".to_owned(),
        email: form.domain.clone().concat("@nonexistentemail.com"),
        password: "password".to_owned(),
        company_domain: form.domain.clone(),
    };
    let ghost mid = *store;
    let td = match register_user(store, &admin_form, RoleModel::Admin) {
        Ok(td) => td,
        Err(e) => {
            // the fresh company's domain resolves, its id is fresh so no
            // user can hold its email, and the fixed password is within
            // the hashing bound: registration cannot fail here
            proof {
                let n = mid.companies@.len() - 1;
                assert(mid.companies@[n].domain@ == admin_form.company_domain@);
                let cid = mid.companies@[n].id;
                assert(cid == pre.next_id);
                assert(!email_taken(mid, cid, admin_form.email@)) by {
                    assert forall|k: int|
                        0 <= k < mid.users@.len() implies (#[trigger] mid.users@[k]).company_id
                        != cid by {
                        assert(mid.users@[k] == pre.users@[k]);
                        assert(pre.users@[k].company_id < pre.next_id);
                    }
                }
                assert(vstd::utf8::encode_utf8(admin_form.password@).len() <= 0xFFFF_FFFF) by {
                    reveal_strlit("password");
                    assert(vstd::utf8::is_ascii_chars(admin_form.password@));
                    vstd::utf8::is_ascii_chars_encode_utf8(admin_form.password@);
                    assert(admin_form.password@.len() == 8);
                }
                assert(false);
            }
            return Err(e);
        },
    };
    let jwt = match create_token(td.id, td.company_id, td.role, now, secret) {
        Ok(t) => t,
        Err(e) => {
            proof {
                assert(false);
            }
            return Err(e);
        },
    };
    Ok(Token { jwt })
}

/// The caller's own profile, with whether a verification request is
/// outstanding.
pub fn profile(store: &Store, claims: &Claims) -> (r: Result<ProfileResponseForm, ProdError>)
    requires
        store.wf(),
    ensures
        r is Ok <==> (exists|k: int|
            0 <= k < store.users@.len() && (#[trigger] store.users@[k]).id == claims.user_id),
        r matches Err(e) ==> e is NotFound,
        r matches Ok(p) ==> (forall|k: int|
            0 <= k < store.users@.len() && (#[trigger] store.users@[k]).id == claims.user_id
                ==> p.name@ == store.users@[k].name@ && p.surname@ == store.users@[k].surname@
                && p.email@ == store.users@[k].email@ && p.avatar == store.users@[k].avatar
                && p.role == store.users@[k].role && p.company_id == store.users@[k].company_id)
            && p.pending_verification == Some(
            exists|k: int|
                0 <= k < store.pending@.len() && (#[trigger] store.pending@[k]).user_id
                    == claims.user_id,
        ),
{
    let idx = match store.find_user(claims.user_id) {
        Some(i) => i,
        None => {
            return Err(ProdError::NotFound("No such user".to_owned()));
        },
    };
    proof {
        assert forall|k: int|
            0 <= k < store.users@.len() && (#[trigger] store.users@[k]).id == claims.user_id implies k
            == idx as int by {
            if k != idx as int {
                assert(store.users@[k].id != store.users@[idx as int].id);
            }
        }
    }
    let pending = store.find_pending(claims.user_id).is_some();
    let u = &store.users[idx];
    Ok(
        ProfileResponseForm {
            name: u.name.clone(),
            surname: u.surname.clone(),
            email: u.email.clone(),
            avatar: clone_opt_string(&u.avatar),
            role: u.role,
            pending_verification: Some(pending),
            company_id: u.company_id,
        },
    )
}

/// One user of the caller's tenant. A user of another tenant is never
/// revealed: the answer is the same `NotFound` as for an absent id.
pub fn get_user(store: &Store, claims: &Claims, user_id: u64) -> (r: Result<
    PublicUserData,
    ProdError,
>)
    requires
        store.wf(),
    ensures
        r is Ok <==> (exists|k: int|
            0 <= k < store.users@.len() && (#[trigger] store.users@[k]).id == user_id
                && store.users@[k].company_id == claims.company_id),
        r matches Err(e) ==> e matches ProdError::NotFound(m) && m@ == "Such user does not exist"@,
        r matches Ok(p) ==> p.id == user_id && (forall|k: int|
            0 <= k < store.users@.len() && (#[trigger] store.users@[k]).id == user_id
                ==> p.name@ == store.users@[k].name@ && p.surname@ == store.users@[k].surname@
                && p.email@ == store.users@[k].email@ && p.avatar == store.users@[k].avatar
                && p.role == store.users@[k].role),
{
    let idx = match store.find_user(user_id) {
        Some(i) => i,
        None => {
            return Err(ProdError::NotFound("Such user does not exist".to_owned()));
        },
    };
    proof {
        assert forall|k: int|
            0 <= k < store.users@.len() && (#[trigger] store.users@[k]).id == user_id implies k
            == idx as int by {
            if k != idx as int {
                assert(store.users@[k].id != store.users@[idx as int].id);
            }
        }
    }
    if store.users[idx].company_id != claims.company_id {
        return Err(ProdError::NotFound("Such user does not exist".to_owned()));
    }
    let u = &store.users[idx];
    Ok(
        PublicUserData {
            id: u.id,
            name: u.name.clone(),
            surname: u.surname.clone(),
            email: u.email.clone(),
            avatar: clone_opt_string(&u.avatar),
            role: u.role,
        },
    )
}

/// Files the caller's identity-verification request: guests only, and at
/// most one outstanding request per user.
pub fn upload_document(store: &mut Store, claims: &Claims) -> (r: Result<(), ProdError>)
    requires
        old(store).wf(),
    ensures
        final(store).wf(),
        r is Err ==> *final(store) == *old(store),
        claims.role != RoleModel::Guest ==> (r matches Err(e) && e matches ProdError::Forbidden(m)
            && m@ == "You are already verified user"@),
        claims.role == RoleModel::Guest && !crate::booking::caller_exists(*old(store), *claims)
            ==> (r matches Err(e) && e is DatabaseError),
        claims.role == RoleModel::Guest && crate::booking::caller_exists(*old(store), *claims) && (
        exists|k: int|
            0 <= k < old(store).pending@.len() && (#[trigger] old(store).pending@[k]).user_id
                == claims.user_id) ==> (r matches Err(e) && e is VerificationError),
        claims.role == RoleModel::Guest && crate::booking::caller_exists(*old(store), *claims) && (
        forall|k: int|
            0 <= k < old(store).pending@.len() ==> (#[trigger] old(store).pending@[k]).user_id
                != claims.user_id) ==> r is Ok && final(store).pending@ == old(
            store,
        ).pending@.push(
            PendingVerificationsModel { user_id: claims.user_id, company_id: claims.company_id },
        ) && final(store).users@ == old(store).users@ && final(store).bookings@ == old(
            store,
        ).bookings@ && final(store).next_id == old(store).next_id,
{
    if !matches!(claims.role, RoleModel::Guest) {
        return Err(ProdError::Forbidden("You are already verified user".to_owned()));
    }
    let uidx = match store.find_user(claims.user_id) {
        Some(i) => i,
        None => {
            return Err(ProdError::DatabaseError("no such user".to_owned()));
        },
    };
    if store.users[uidx].company_id != claims.company_id {
        proof {
            assert forall|k: int|
                0 <= k < store.users@.len() && (#[trigger] store.users@[k]).id
                    == claims.user_id implies k == uidx as int by {
                if k != uidx as int {
                    assert(store.users@[k].id != store.users@[uidx as int].id);
                }
            }
        }
        return Err(ProdError::DatabaseError("no such user".to_owned()));
    }
    if store.find_pending(claims.user_id).is_some() {
        return Err(ProdError::VerificationError);
    }
    let row = PendingVerificationsModel { user_id: claims.user_id, company_id: claims.company_id };
    store.pending.push(row);
    proof {
        let olds = *old(store);
        let news = *store;
        let n = olds.pending@.len() as int;
        assert(news.pending@ == olds.pending@.push(row));
        assert(news.pending_wf()) by {
            assert forall|i: int, j: int|
                0 <= i < j < news.pending@.len() implies (#[trigger] news.pending@[i]).user_id
                != (#[trigger] news.pending@[j]).user_id by {
                if j < n {
                    assert(news.pending@[i] == olds.pending@[i]);
                    assert(news.pending@[j] == olds.pending@[j]);
                } else {
                    assert(news.pending@[i] == olds.pending@[i]);
                }
            }
            assert forall|i: int| 0 <= i < news.pending@.len() implies #[trigger] news.pending_user_resolves(
                i,
            ) by {
                if i < n {
                    assert(olds.pending_user_resolves(i));
                    assert(news.pending@[i] == olds.pending@[i]);
                    let p = olds.pending@[i];
                    let k0 = choose|k: int|
                        0 <= k < olds.users@.len() && (#[trigger] olds.users@[k]).id == p.user_id
                            && olds.users@[k].company_id == p.company_id;
                    assert(news.users@[k0].id == news.pending@[i].user_id);
                } else {
                    assert(news.pending@[i] == row);
                    assert(news.users@[uidx as int].id == row.user_id);
                    assert(news.users@[uidx as int].company_id == row.company_id);
                }
            }
        }
        crate::store::lemma_companies_wf_from(olds, news);
        crate::store::lemma_buildings_wf_from(olds, news);
        crate::store::lemma_spaces_wf_from(olds, news);
        crate::store::lemma_item_types_wf_from(olds, news);
        crate::store::lemma_items_wf_from(olds, news);
        crate::store::lemma_geometry_wf_from(olds, news);
        crate::store::lemma_bookings_wf_from(olds, news);
        crate::store::lemma_users_wf_from(olds, news);
    }
    Ok(())
}

/// A pending request of this user stands in the caller's company.
pub open spec fn pending_in_company(s: Store, company_id: u64, user_id: u64) -> bool {
    exists|k: int|
        0 <= k < s.pending@.len() && (#[trigger] s.pending@[k]).user_id == user_id
            && s.pending@[k].company_id == company_id
}

/// Approves a guest's verification request, in one unit: the pending row
/// is read, the user's role flips to verified guest if it still is a
/// guest of this company, and the pending row is deleted.
#[verifier::rlimit(30)]
pub fn verify_guest(store: &mut Store, claims: &Claims, user_id: u64) -> (r: Result<(), ProdError>)
    requires
        old(store).wf(),
    ensures
        final(store).wf(),
        r is Err ==> *final(store) == *old(store),
        claims.role != RoleModel::Admin ==> (r matches Err(e) && e matches ProdError::Forbidden(m)
            && m@ == "You are not an admin"@),
        claims.role == RoleModel::Admin && !pending_in_company(
            *old(store),
            claims.company_id,
            user_id,
        ) ==> (r matches Err(e) && e matches ProdError::NotFound(m) && m@
            == "No active request from that user"@),
        claims.role == RoleModel::Admin && pending_in_company(
            *old(store),
            claims.company_id,
            user_id,
        ) ==> r is Ok && (forall|k: int|
            0 <= k < final(store).pending@.len() ==> (#[trigger] final(store).pending@[k]).user_id
                != user_id) && (forall|k: int|
            0 <= k < old(store).users@.len() && (#[trigger] old(store).users@[k]).id == user_id
                && old(store).users@[k].role == RoleModel::Guest && old(store).users@[k].company_id
                == claims.company_id ==> final(store).users@[k].role == RoleModel::VerifiedGuest
                && final(store).users@[k].id == user_id),
{
    if !matches!(claims.role, RoleModel::Admin) {
        return Err(ProdError::Forbidden("You are not an admin".to_owned()));
    }
    let pidx = match store.find_pending(user_id) {
        Some(i) => i,
        None => {
            return Err(ProdError::NotFound("No active request from that user".to_owned()));
        },
    };
    proof {
        assert forall|k: int|
            0 <= k < store.pending@.len() && (#[trigger] store.pending@[k]).user_id
                == user_id implies k == pidx as int by {
            if k != pidx as int {
                assert(store.pending@[k].user_id != store.pending@[pidx as int].user_id);
            }
        }
    }
    if store.pending[pidx].company_id != claims.company_id {
        return Err(ProdError::NotFound("No active request from that user".to_owned()));
    }
    let ghost mid0 = *store;
    let uidx_opt = store.find_user(user_id);
    if let Some(uidx) = uidx_opt {
        proof {
            assert forall|k: int|
                0 <= k < store.users@.len() && (#[trigger] store.users@[k]).id == user_id implies k
                == uidx as int by {
                if k != uidx as int {
                    assert(store.users@[k].id != store.users@[uidx as int].id);
                }
            }
        }
        let is_guest_here = matches!(store.users[uidx].role, RoleModel::Guest)
            && store.users[uidx].company_id == claims.company_id;
        if is_guest_here {
            let u = &store.users[uidx];
            let nu = UserModel {
                id: u.id,
                name: u.name.clone(),
                surname: u.surname.clone(),
                email: u.email.clone(),
                password: u.password.clone(),
                avatar: clone_opt_string(&u.avatar),
                company_id: u.company_id,
                company_domain: u.company_domain.clone(),
                role: RoleModel::VerifiedGuest,
            };
            store.users[uidx] = nu;
            proof {
                lemma_update_user_wf(mid0, *store, uidx as int, store.users@[uidx as int]);
            }
        }
    }
    let ghost mid1 = *store;
    store.pending.remove(pidx);
    proof {
        let news = *store;
        mid1.pending@.remove_ensures(pidx as int);
        assert(news.pending_wf()) by {
            assert forall|i: int| 0 <= i < news.pending@.len() implies #[trigger] news.pending@[i]
                == mid1.pending@[crate::booking::shift_past(i, pidx as int)] by {}
            assert forall|i: int, j: int|
                0 <= i < j < news.pending@.len() implies (#[trigger] news.pending@[i]).user_id
                != (#[trigger] news.pending@[j]).user_id by {
                assert(news.pending@[i] == mid1.pending@[crate::booking::shift_past(
                    i,
                    pidx as int,
                )]);
                assert(news.pending@[j] == mid1.pending@[crate::booking::shift_past(
                    j,
                    pidx as int,
                )]);
            }
            assert forall|i: int| 0 <= i < news.pending@.len() implies #[trigger] news.pending_user_resolves(
                i,
            ) by {
                let si = crate::booking::shift_past(i, pidx as int);
                assert(news.pending@[i] == mid1.pending@[si]);
                assert(mid1.pending_user_resolves(si));
                let p = mid1.pending@[si];
                let k0 = choose|k: int|
                    0 <= k < mid1.users@.len() && (#[trigger] mid1.users@[k]).id == p.user_id
                        && mid1.users@[k].company_id == p.company_id;
                assert(news.users@[k0].id == news.pending@[i].user_id);
                assert(news.users@[k0].company_id == news.pending@[i].company_id);
            }
        }
        crate::store::lemma_companies_wf_from(mid1, news);
        crate::store::lemma_buildings_wf_from(mid1, news);
        crate::store::lemma_spaces_wf_from(mid1, news);
        crate::store::lemma_item_types_wf_from(mid1, news);
        crate::store::lemma_items_wf_from(mid1, news);
        crate::store::lemma_geometry_wf_from(mid1, news);
        crate::store::lemma_bookings_wf_from(mid1, news);
        crate::store::lemma_users_wf_from(mid1, news);
    }
    Ok(())
}

/// Replacing one user in place preserves every invariant, provided the
/// identity, company and email stay.
proof fn lemma_update_user_wf(a: Store, b: Store, idx: int, nu: UserModel)
    requires
        a.wf(),
        0 <= idx < a.users@.len(),
        b.users@ == a.users@.update(idx, nu),
        nu.id == a.users@[idx].id,
        nu.company_id == a.users@[idx].company_id,
        nu.email@ == a.users@[idx].email@,
        same_except_users(b, a),
        b.next_id == a.next_id,
    ensures
        b.wf(),
{
    assert forall|i: int| 0 <= i < b.users@.len() && i != idx implies #[trigger] b.users@[i]
        == a.users@[i] by {}
    assert(b.users_wf()) by {
        assert forall|i: int| 0 <= i < b.users@.len() implies (#[trigger] b.users@[i]).id
            < b.next_id by {
            if i != idx {
                assert(b.users@[i] == a.users@[i]);
            } else {
                assert(a.users@[idx].id < a.next_id);
            }
        }
        assert forall|i: int, j: int|
            0 <= i < j < b.users@.len() implies (#[trigger] b.users@[i]).id != (
        #[trigger] b.users@[j]).id && (b.users@[i].company_id == b.users@[j].company_id
            ==> b.users@[i].email@ != b.users@[j].email@) by {
            assert(a.users@[i].id != a.users@[j].id);
            if i == idx {
                assert(b.users@[i].id == a.users@[i].id);
                assert(b.users@[i].company_id == a.users@[i].company_id);
                assert(b.users@[i].email@ == a.users@[i].email@);
            }
            if j == idx {
                assert(b.users@[j].id == a.users@[j].id);
                assert(b.users@[j].company_id == a.users@[j].company_id);
                assert(b.users@[j].email@ == a.users@[j].email@);
            }
        }
    }
    assert(b.bookings_wf()) by {
        assert forall|i: int| 0 <= i < b.bookings@.len() implies #[trigger] b.booking_user_resolves(
            i,
        ) by {
            assert(a.booking_user_resolves(i));
            let k0 = choose|k: int|
                0 <= k < a.users@.len() && (#[trigger] a.users@[k]).id == a.bookings@[i].user_id
                    && a.users@[k].company_id == a.bookings@[i].company_id;
            if k0 == idx {
                assert(b.users@[k0].id == a.users@[k0].id);
                assert(b.users@[k0].company_id == a.users@[k0].company_id);
            } else {
                assert(b.users@[k0] == a.users@[k0]);
            }
        }
        assert forall|i: int| 0 <= i < b.bookings@.len() implies #[trigger] b.booking_space_resolves(
            i,
        ) by {
            assert(a.booking_space_resolves(i));
            let k0 = choose|k: int|
                0 <= k < a.spaces@.len() && (#[trigger] a.spaces@[k]).id
                    == a.bookings@[i].coworking_space_id && a.spaces@[k].company_id
                    == a.bookings@[i].company_id;
            assert(b.spaces@[k0].id == b.bookings@[i].coworking_space_id);
        }
        assert forall|i: int| 0 <= i < b.bookings@.len() implies #[trigger] b.booking_item_resolves(
            i,
        ) by {
            assert(a.booking_item_resolves(i));
            let k0 = choose|k: int|
                0 <= k < a.items@.len() && (#[trigger] a.items@[k]).id
                    == a.bookings@[i].coworking_item_id && a.items@[k].coworking_id
                    == a.bookings@[i].coworking_space_id;
            assert(b.items@[k0].id == b.bookings@[i].coworking_item_id);
        }
    }
    assert(b.pending_wf()) by {
        assert forall|i: int| 0 <= i < b.pending@.len() implies #[trigger] b.pending_user_resolves(
            i,
        ) by {
            assert(a.pending_user_resolves(i));
            let k0 = choose|k: int|
                0 <= k < a.users@.len() && (#[trigger] a.users@[k]).id == a.pending@[i].user_id
                    && a.users@[k].company_id == a.pending@[i].company_id;
            if k0 == idx {
                assert(b.users@[k0].id == a.users@[k0].id);
                assert(b.users@[k0].company_id == a.users@[k0].company_id);
            } else {
                assert(b.users@[k0] == a.users@[k0]);
            }
        }
    }
    crate::store::lemma_companies_wf_from(a, b);
    crate::store::lemma_buildings_wf_from(a, b);
    crate::store::lemma_spaces_wf_from(a, b);
    crate::store::lemma_item_types_wf_from(a, b);
    crate::store::lemma_items_wf_from(a, b);
    crate::store::lemma_geometry_wf_from(a, b);
}

/// Updates a user's profile fields in place: present fields replace the
/// old ones, a present password is hashed before storage, and a new
/// avatar reference replaces the old one.
pub fn update_user(
    store: &mut Store,
    user_id: u64,
    form: &PatchProfileForm,
    avatar_url: Option<String>,
) -> (r: Result<(), ProdError>)
    requires
        old(store).wf(),
    ensures
        final(store).wf(),
        r is Err ==> *final(store) == *old(store),
        !(exists|k: int|
            0 <= k < old(store).users@.len() && (#[trigger] old(store).users@[k]).id == user_id)
            ==> (r matches Err(e) && e is NotFound),
        (exists|k: int|
            0 <= k < old(store).users@.len() && (#[trigger] old(store).users@[k]).id == user_id)
            && (form.password matches Some(pw) ==> vstd::utf8::encode_utf8(pw@).len()
            <= 0xFFFF_FFFF) ==> r is Ok,
        r is Ok ==> (forall|k: int|
            0 <= k < old(store).users@.len() && (#[trigger] old(store).users@[k]).id == user_id
                ==> (final(store).users@[k].id == user_id && final(store).users@[k].company_id
                == old(store).users@[k].company_id && final(store).users@[k].email@ == old(
                store,
            ).users@[k].email@ && final(store).users@[k].role == old(store).users@[k].role && (
            match form.name {
                Some(n) => final(store).users@[k].name@ == n@,
                None => final(store).users@[k].name@ == old(store).users@[k].name@,
            }) && (match form.surname {
                Some(sn) => final(store).users@[k].surname@ == sn@,
                None => final(store).users@[k].surname@ == old(store).users@[k].surname@,
            }) && (match form.password {
                Some(pw) => argon_verify_of(final(store).users@[k].password@, vstd::utf8::encode_utf8(pw@))
                    == Some(true),
                None => final(store).users@[k].password@ == old(store).users@[k].password@,
            }) && (match avatar_url {
                Some(av) => final(store).users@[k].avatar matches Some(a2) && a2@ == av@,
                None => final(store).users@[k].avatar == old(store).users@[k].avatar,
            }))),
{
    let idx = match store.find_user(user_id) {
        Some(i) => i,
        None => {
            return Err(ProdError::NotFound("No such user".to_owned()));
        },
    };
    proof {
        assert forall|k: int|
            0 <= k < store.users@.len() && (#[trigger] store.users@[k]).id == user_id implies k
            == idx as int by {
            if k != idx as int {
                assert(store.users@[k].id != store.users@[idx as int].id);
            }
        }
    }
    let hashed: Option<String> = match &form.password {
        Some(pw) => {
            let pw_bytes = pw.as_str().as_bytes();
            if pw_bytes.len() > 0xFFFF_FFFFusize {
                return Err(ProdError::HashingError("hashing error".to_owned()));
            }
            match Argon::hash_password(pw_bytes) {
                Ok(h) => Some(h),
                Err(e) => {
                    proof {
                        assert(false);
                    }
                    return Err(e);
                },
            }
        },
        None => None,
    };
    let u = &store.users[idx];
    let nu = UserModel {
        id: u.id,
        name: match &form.name {
            Some(n) => n.clone(),
            None => u.name.clone(),
        },
        surname: match &form.surname {
            Some(sn) => sn.clone(),
            None => u.surname.clone(),
        },
        email: u.email.clone(),
        password: match hashed {
            Some(h) => h,
            None => u.password.clone(),
        },
        avatar: match avatar_url {
            Some(av) => Some(av),
            None => clone_opt_string(&u.avatar),
        },
        company_id: u.company_id,
        company_domain: u.company_domain.clone(),
        role: u.role,
    };
    store.users[idx] = nu;
    proof {
        lemma_update_user_wf(*old(store), *store, idx as int, store.users@[idx as int]);
    }
    Ok(())
}


/// Removing one user, with every booking and pending request of that
/// user, preserves the store invariants.
#[verifier::rlimit(60)]
proof fn lemma_delete_user_wf(
    olds: Store,
    news: Store,
    uidx: int,
    user_id: u64,
    kept_b: Seq<crate::models::BookingModel>,
    kept_p: Seq<PendingVerificationsModel>,
)
    requires
        olds.wf(),
        0 <= uidx < olds.users@.len(),
        olds.users@[uidx].id == user_id,
        news.users@ == olds.users@.remove(uidx),
        news.bookings@ == kept_b,
        forall|q: int|
            0 <= q < kept_b.len() ==> crate::booking::booking_row_in(olds, #[trigger] kept_b[q])
                && kept_b[q].user_id != user_id,
        forall|q1: int, q2: int|
            0 <= q1 < q2 < kept_b.len() ==> (#[trigger] kept_b[q1]).id != (
            #[trigger] kept_b[q2]).id,
        news.pending@ == kept_p,
        forall|q: int|
            0 <= q < kept_p.len() ==> crate::users::pending_row_in(olds, #[trigger] kept_p[q])
                && kept_p[q].user_id != user_id,
        forall|q1: int, q2: int|
            0 <= q1 < q2 < kept_p.len() ==> (#[trigger] kept_p[q1]).user_id != (
            #[trigger] kept_p[q2]).user_id,
        news.next_id == olds.next_id,
        news.companies@ == olds.companies@,
        news.buildings@ == olds.buildings@,
        news.spaces@ == olds.spaces@,
        news.item_types@ == olds.item_types@,
        news.items@ == olds.items@,
    ensures
        news.wf(),
{
    olds.users@.remove_ensures(uidx);
    assert forall|i: int| 0 <= i < news.users@.len() implies #[trigger] news.users@[i]
        == olds.users@[crate::booking::shift_past(i, uidx)] by {}
    assert forall|k: int|
        0 <= k < olds.users@.len() && (#[trigger] olds.users@[k]).id == user_id implies k
        == uidx by {
        if k != uidx {
            assert(olds.users@[k].id != olds.users@[uidx].id);
        }
    }
    assert(news.users_wf()) by {
        assert forall|i: int| 0 <= i < news.users@.len() implies (#[trigger] news.users@[i]).id
            < news.next_id by {
            assert(news.users@[i] == olds.users@[crate::booking::shift_past(i, uidx)]);
        }
        assert forall|i: int, j: int|
            0 <= i < j < news.users@.len() implies (#[trigger] news.users@[i]).id != (
        #[trigger] news.users@[j]).id && (news.users@[i].company_id == news.users@[j].company_id
            ==> news.users@[i].email@ != news.users@[j].email@) by {
            assert(news.users@[i] == olds.users@[crate::booking::shift_past(i, uidx)]);
            assert(news.users@[j] == olds.users@[crate::booking::shift_past(j, uidx)]);
            assert(crate::booking::shift_past(i, uidx) < crate::booking::shift_past(j, uidx));
        }
    }
    assert(news.bookings_wf()) by {
        assert forall|i: int| 0 <= i < news.bookings@.len() implies (#[trigger] news.bookings@[i]).id
            < news.next_id && crate::store::booking_ok(news.bookings@[i]) by {
            let j = choose|j: int|
                0 <= j < olds.bookings@.len() && kept_b[i] == #[trigger] olds.bookings@[j];
            assert(olds.bookings@[j].id < olds.next_id);
        }
        assert forall|i: int, j: int|
            0 <= i < news.bookings@.len() && 0 <= j < news.bookings@.len() && i != j && (
        #[trigger] news.bookings@[i]).coworking_item_id == (
        #[trigger] news.bookings@[j]).coworking_item_id implies !crate::store::overlaps(
            news.bookings@[i],
            news.bookings@[j],
        ) by {
            let s1 = choose|w: int|
                0 <= w < olds.bookings@.len() && kept_b[i] == #[trigger] olds.bookings@[w];
            let s2 = choose|w: int|
                0 <= w < olds.bookings@.len() && kept_b[j] == #[trigger] olds.bookings@[w];
            if i < j {
                assert(kept_b[i].id != kept_b[j].id);
            } else {
                assert(kept_b[j].id != kept_b[i].id);
            }
            assert(s1 != s2);
            assert(!crate::store::overlaps(olds.bookings@[s1], olds.bookings@[s2]));
        }
        assert forall|i: int| 0 <= i < news.bookings@.len() implies #[trigger] news.booking_user_resolves(
            i,
        ) by {
            let j = choose|w: int|
                0 <= w < olds.bookings@.len() && kept_b[i] == #[trigger] olds.bookings@[w];
            assert(olds.booking_user_resolves(j));
            let k0 = choose|k: int|
                0 <= k < olds.users@.len() && (#[trigger] olds.users@[k]).id
                    == olds.bookings@[j].user_id && olds.users@[k].company_id
                    == olds.bookings@[j].company_id;
            assert(olds.users@[k0].id != user_id);
            assert(k0 != uidx);
            let k2 = if k0 < uidx {
                k0
            } else {
                k0 - 1
            };
            assert(news.users@[k2] == olds.users@[k0]);
            assert(news.users@[k2].id == news.bookings@[i].user_id);
            assert(news.users@[k2].company_id == news.bookings@[i].company_id);
        }
        assert forall|i: int| 0 <= i < news.bookings@.len() implies #[trigger] news.booking_space_resolves(
            i,
        ) by {
            let j = choose|w: int|
                0 <= w < olds.bookings@.len() && kept_b[i] == #[trigger] olds.bookings@[w];
            assert(olds.booking_space_resolves(j));
            let k0 = choose|k: int|
                0 <= k < olds.spaces@.len() && (#[trigger] olds.spaces@[k]).id
                    == olds.bookings@[j].coworking_space_id && olds.spaces@[k].company_id
                    == olds.bookings@[j].company_id;
            assert(news.spaces@[k0].id == news.bookings@[i].coworking_space_id);
            assert(news.spaces@[k0].company_id == news.bookings@[i].company_id);
        }
        assert forall|i: int| 0 <= i < news.bookings@.len() implies #[trigger] news.booking_item_resolves(
            i,
        ) by {
            let j = choose|w: int|
                0 <= w < olds.bookings@.len() && kept_b[i] == #[trigger] olds.bookings@[w];
            assert(olds.booking_item_resolves(j));
            let k0 = choose|k: int|
                0 <= k < olds.items@.len() && (#[trigger] olds.items@[k]).id
                    == olds.bookings@[j].coworking_item_id && olds.items@[k].coworking_id
                    == olds.bookings@[j].coworking_space_id;
            assert(news.items@[k0].id == news.bookings@[i].coworking_item_id);
            assert(news.items@[k0].coworking_id == news.bookings@[i].coworking_space_id);
        }
    }
    assert(news.pending_wf()) by {
        assert forall|i: int| 0 <= i < news.pending@.len() implies #[trigger] news.pending_user_resolves(
            i,
        ) by {
            let j = choose|w: int|
                0 <= w < olds.pending@.len() && kept_p[i] == #[trigger] olds.pending@[w];
            assert(olds.pending_user_resolves(j));
            let k0 = choose|k: int|
                0 <= k < olds.users@.len() && (#[trigger] olds.users@[k]).id
                    == olds.pending@[j].user_id && olds.users@[k].company_id
                    == olds.pending@[j].company_id;
            assert(olds.users@[k0].id != user_id);
            assert(k0 != uidx);
            let k2 = if k0 < uidx {
                k0
            } else {
                k0 - 1
            };
            assert(news.users@[k2] == olds.users@[k0]);
            assert(news.users@[k2].id == news.pending@[i].user_id);
            assert(news.users@[k2].company_id == news.pending@[i].company_id);
        }
    }
    crate::store::lemma_companies_wf_from(olds, news);
    crate::store::lemma_buildings_wf_from(olds, news);
    crate::store::lemma_spaces_wf_from(olds, news);
    crate::store::lemma_item_types_wf_from(olds, news);
    crate::store::lemma_items_wf_from(olds, news);
    crate::store::lemma_geometry_wf_from(olds, news);
}

/// `p` is one of the store's pending rows.
pub open spec fn pending_row_in(s: Store, p: PendingVerificationsModel) -> bool {
    exists|i: int| 0 <= i < s.pending@.len() && p == #[trigger] s.pending@[i]
}

/// Removes the user at this index, with every booking and pending
/// request belonging to that user.
#[verifier::loop_isolation(false)]
#[verifier::rlimit(30)]
fn remove_user_and_dependents(store: &mut Store, uidx: usize)
    requires
        old(store).wf(),
        uidx < old(store).users@.len(),
    ensures
        final(store).wf(),
        final(store).users@ == old(store).users@.remove(uidx as int),
        forall|q: int|
            0 <= q < final(store).bookings@.len() ==> crate::booking::booking_row_in(
                *old(store),
                #[trigger] final(store).bookings@[q],
            ) && final(store).bookings@[q].user_id != old(store).users@[uidx as int].id,
        forall|j: int|
            0 <= j < old(store).bookings@.len() && (#[trigger] old(store).bookings@[j]).user_id
                != old(store).users@[uidx as int].id ==> crate::booking::row_listed(
                final(store).bookings@,
                old(store).bookings@[j],
            ),
        forall|q: int|
            0 <= q < final(store).pending@.len() ==> (#[trigger] final(store).pending@[q]).user_id
                != old(store).users@[uidx as int].id,
        final(store).next_id == old(store).next_id,
        final(store).companies@ == old(store).companies@,
        final(store).buildings@ == old(store).buildings@,
        final(store).spaces@ == old(store).spaces@,
        final(store).item_types@ == old(store).item_types@,
        final(store).items@ == old(store).items@,
{
    let user_id = store.users[uidx].id;
    let ghost olds = *store;
    let mut kept_bookings: Vec<crate::models::BookingModel> = Vec::new();
    let mut k: usize = 0;
    while k < store.bookings.len()
        invariant
            0 <= k <= store.bookings@.len(),
            forall|q: int|
                0 <= q < kept_bookings@.len() ==> crate::booking::booking_row_in(
                    *store,
                    #[trigger] kept_bookings@[q],
                ) && kept_bookings@[q].user_id != user_id,
            forall|j: int|
                0 <= j < k && (#[trigger] store.bookings@[j]).user_id != user_id
                    ==> crate::booking::row_listed(kept_bookings@, store.bookings@[j]),
            forall|q1: int, q2: int|
                0 <= q1 < q2 < kept_bookings@.len() ==> (#[trigger] kept_bookings@[q1]).id != (
                #[trigger] kept_bookings@[q2]).id,
            forall|q: int|
                0 <= q < kept_bookings@.len() ==> exists|j: int|
                    0 <= j < k && #[trigger] kept_bookings@[q] == store.bookings@[j],
        decreases store.bookings@.len() - k,
    {
        let bo = store.bookings[k];
        if bo.user_id != user_id {
            let ghost prev = kept_bookings@;
            kept_bookings.push(bo);
            proof {
                assert(kept_bookings@[prev.len() as int] == store.bookings@[k as int]);
                assert forall|q: int| 0 <= q < kept_bookings@.len() implies crate::booking::booking_row_in(
                    *store,
                    #[trigger] kept_bookings@[q],
                ) && kept_bookings@[q].user_id != user_id by {
                    if q < prev.len() {
                        assert(kept_bookings@[q] == prev[q]);
                        assert(crate::booking::booking_row_in(*store, prev[q]));
                    } else {
                        assert(kept_bookings@[q] == store.bookings@[k as int]);
                    }
                }
                assert forall|j: int|
                    0 <= j < k as int + 1 && (#[trigger] store.bookings@[j]).user_id
                        != user_id implies crate::booking::row_listed(
                    kept_bookings@,
                    store.bookings@[j],
                ) by {
                    if j < k as int {
                        assert(crate::booking::row_listed(prev, store.bookings@[j]));
                        let p0 = choose|q: int| 0 <= q < prev.len() && #[trigger] prev[q]
                            == store.bookings@[j];
                        assert(kept_bookings@[p0] == store.bookings@[j]);
                    } else {
                        assert(kept_bookings@[kept_bookings@.len() - 1] == store.bookings@[j]);
                    }
                }
                assert forall|q1: int, q2: int|
                    0 <= q1 < q2 < kept_bookings@.len() implies (#[trigger] kept_bookings@[q1]).id
                    != (#[trigger] kept_bookings@[q2]).id by {
                    if q2 == prev.len() as int {
                        assert(kept_bookings@[q1] == prev[q1]);
                        let j1 = choose|j: int|
                            0 <= j < k as int && prev[q1] == #[trigger] store.bookings@[j];
                        assert(store.bookings@[j1].id != store.bookings@[k as int].id);
                    } else {
                        assert(kept_bookings@[q1] == prev[q1]);
                        assert(kept_bookings@[q2] == prev[q2]);
                    }
                }
                assert forall|q: int| 0 <= q < kept_bookings@.len() implies exists|j: int|
                    0 <= j < k as int + 1 && #[trigger] kept_bookings@[q]
                        == store.bookings@[j] by {
                    if q < prev.len() {
                        assert(kept_bookings@[q] == prev[q]);
                        let j1 = choose|j: int|
                            0 <= j < k as int && prev[q] == #[trigger] store.bookings@[j];
                        assert(kept_bookings@[q] == store.bookings@[j1]);
                    } else {
                        assert(kept_bookings@[q] == store.bookings@[k as int]);
                    }
                }
            }
        }
        k = k + 1;
    }
    let mut kept_pending: Vec<PendingVerificationsModel> = Vec::new();
    let mut k2: usize = 0;
    while k2 < store.pending.len()
        invariant
            0 <= k2 <= store.pending@.len(),
            forall|q: int|
                0 <= q < kept_pending@.len() ==> pending_row_in(
                    *store,
                    #[trigger] kept_pending@[q],
                ) && kept_pending@[q].user_id != user_id,
            forall|q1: int, q2: int|
                0 <= q1 < q2 < kept_pending@.len() ==> (#[trigger] kept_pending@[q1]).user_id != (
                #[trigger] kept_pending@[q2]).user_id,
            forall|q: int|
                0 <= q < kept_pending@.len() ==> exists|j: int|
                    0 <= j < k2 && #[trigger] kept_pending@[q] == store.pending@[j],
        decreases store.pending@.len() - k2,
    {
        let p = store.pending[k2];
        if p.user_id != user_id {
            let ghost prev = kept_pending@;
            kept_pending.push(p);
            proof {
                assert(kept_pending@[prev.len() as int] == store.pending@[k2 as int]);
                assert forall|q: int| 0 <= q < kept_pending@.len() implies pending_row_in(
                    *store,
                    #[trigger] kept_pending@[q],
                ) && kept_pending@[q].user_id != user_id by {
                    if q < prev.len() {
                        assert(kept_pending@[q] == prev[q]);
                        assert(pending_row_in(*store, prev[q]));
                    } else {
                        assert(kept_pending@[q] == store.pending@[k2 as int]);
                    }
                }
                assert forall|q1: int, q2: int|
                    0 <= q1 < q2 < kept_pending@.len() implies (
                #[trigger] kept_pending@[q1]).user_id != (#[trigger] kept_pending@[q2]).user_id by {
                    if q2 == prev.len() as int {
                        assert(kept_pending@[q1] == prev[q1]);
                        let j1 = choose|j: int|
                            0 <= j < k2 as int && prev[q1] == #[trigger] store.pending@[j];
                        assert(store.pending@[j1].user_id != store.pending@[k2 as int].user_id);
                    } else {
                        assert(kept_pending@[q1] == prev[q1]);
                        assert(kept_pending@[q2] == prev[q2]);
                    }
                }
                assert forall|q: int| 0 <= q < kept_pending@.len() implies exists|j: int|
                    0 <= j < k2 as int + 1 && #[trigger] kept_pending@[q]
                        == store.pending@[j] by {
                    if q < prev.len() {
                        assert(kept_pending@[q] == prev[q]);
                        let j1 = choose|j: int|
                            0 <= j < k2 as int && prev[q] == #[trigger] store.pending@[j];
                        assert(kept_pending@[q] == store.pending@[j1]);
                    } else {
                        assert(kept_pending@[q] == store.pending@[k2 as int]);
                    }
                }
            }
        }
        k2 = k2 + 1;
    }
    let ghost kept_b = kept_bookings@;
    let ghost kept_p = kept_pending@;
    store.bookings = kept_bookings;
    store.pending = kept_pending;
    store.users.remove(uidx);
    proof {
        lemma_delete_user_wf(olds, *store, uidx as int, user_id, kept_b, kept_p);
    }
}

/// Deletes the caller's own account, with every booking and pending
/// request of it; an already-absent account deletes quietly.
pub fn delete_user(store: &mut Store, claims: &Claims) -> (r: Result<(), ProdError>)
    requires
        old(store).wf(),
    ensures
        final(store).wf(),
        r is Ok,
        forall|k: int|
            0 <= k < final(store).users@.len() ==> (#[trigger] final(store).users@[k]).id
                != claims.user_id,
        forall|q: int|
            0 <= q < final(store).bookings@.len() ==> (#[trigger] final(store).bookings@[q]).user_id
                != claims.user_id,
{
    let uidx = match store.find_user(claims.user_id) {
        Some(i) => i,
        None => {
            proof {
                assert forall|q: int| 0 <= q < store.bookings@.len() implies (
                #[trigger] store.bookings@[q]).user_id != claims.user_id by {
                    assert(store.booking_user_resolves(q));
                    let k0 = choose|k: int|
                        0 <= k < store.users@.len() && (#[trigger] store.users@[k]).id
                            == store.bookings@[q].user_id && store.users@[k].company_id
                            == store.bookings@[q].company_id;
                }
            }
            return Ok(());
        },
    };
    proof {
        assert forall|k: int|
            0 <= k < store.users@.len() && (#[trigger] store.users@[k]).id
                == claims.user_id implies k == uidx as int by {
            if k != uidx as int {
                assert(store.users@[k].id != store.users@[uidx as int].id);
            }
        }
        old(store).users@.remove_ensures(uidx as int);
    }
    remove_user_and_dependents(store, uidx);
    proof {
        assert forall|k: int| 0 <= k < store.users@.len() implies (#[trigger] store.users@[k]).id
            != claims.user_id by {
            assert(store.users@[k] == old(store).users@[crate::booking::shift_past(
                k,
                uidx as int,
            )]);
        }
    }
    Ok(())
}

/// Deletes one user of the caller's tenant, with that user's bookings
/// and pending request. A user of another tenant is not deletable and
/// not revealed.
pub fn admin_delete_user(store: &mut Store, claims: &Claims, user_id: u64) -> (r: Result<
    (),
    ProdError,
>)
    requires
        old(store).wf(),
    ensures
        final(store).wf(),
        r is Err ==> *final(store) == *old(store),
        claims.role != RoleModel::Admin ==> (r matches Err(e) && e matches ProdError::Forbidden(m)
            && m@ == "You are not an admin"@),
        claims.role == RoleModel::Admin ==> (r is Ok <==> (exists|k: int|
            0 <= k < old(store).users@.len() && (#[trigger] old(store).users@[k]).id == user_id
                && old(store).users@[k].company_id == claims.company_id)),
        r is Ok ==> (forall|k: int|
            0 <= k < final(store).users@.len() ==> (#[trigger] final(store).users@[k]).id
                != user_id) && (forall|q: int|
            0 <= q < final(store).bookings@.len() ==> (#[trigger] final(store).bookings@[q]).user_id
                != user_id),
{
    if !matches!(claims.role, RoleModel::Admin) {
        return Err(ProdError::Forbidden("You are not an admin".to_owned()));
    }
    let uidx = match store.find_user(user_id) {
        Some(i) => i,
        None => {
            return Err(ProdError::NotFound("user not found".to_owned()));
        },
    };
    proof {
        assert forall|k: int|
            0 <= k < store.users@.len() && (#[trigger] store.users@[k]).id == user_id implies k
            == uidx as int by {
            if k != uidx as int {
                assert(store.users@[k].id != store.users@[uidx as int].id);
            }
        }
    }
    if store.users[uidx].company_id != claims.company_id {
        return Err(ProdError::NotFound("user not found".to_owned()));
    }
    proof {
        old(store).users@.remove_ensures(uidx as int);
    }
    remove_user_and_dependents(store, uidx);
    proof {
        assert forall|k: int| 0 <= k < store.users@.len() implies (#[trigger] store.users@[k]).id
            != user_id by {
            assert(store.users@[k] == old(store).users@[crate::booking::shift_past(
                k,
                uidx as int,
            )]);
        }
    }
    Ok(())
}


/// `d` carries the public data of the store's user row `i`.
pub open spec fn user_row_matches(s: Store, i: int, d: PublicUserData) -> bool {
    &&& 0 <= i < s.users@.len()
    &&& d.id == s.users@[i].id
    &&& d.name@ == s.users@[i].name@
    &&& d.surname@ == s.users@[i].surname@
    &&& d.email@ == s.users@[i].email@
    &&& d.avatar == s.users@[i].avatar
    &&& d.role == s.users@[i].role
}

/// `d` carries the public data of some user row of the store.
pub open spec fn user_row_in(s: Store, d: PublicUserData) -> bool {
    exists|i: int| #[trigger] user_row_matches(s, i, d)
}

/// Some entry of the listing carries the data of user row `i`.
pub open spec fn user_listed(s: Store, v: Seq<PublicUserData>, i: int) -> bool {
    exists|p: int| 0 <= p < v.len() && user_row_matches(s, i, #[trigger] v[p])
}

/// Every user of the caller's tenant, as public projections.
#[verifier::loop_isolation(false)]
pub fn list_users(store: &Store, claims: &Claims) -> (r: Vec<PublicUserData>)
    requires
        store.wf(),
    ensures
        forall|k: int|
            0 <= k < r@.len() ==> user_row_in(*store, #[trigger] r@[k]),
        forall|i: int|
            0 <= i < store.users@.len() && (#[trigger] store.users@[i]).company_id
                == claims.company_id ==> user_listed(*store, r@, i),
{
    let mut out: Vec<PublicUserData> = Vec::new();
    let mut k: usize = 0;
    while k < store.users.len()
        invariant
            0 <= k <= store.users@.len(),
            forall|p: int| 0 <= p < out@.len() ==> user_row_in(*store, #[trigger] out@[p]),
            forall|i: int|
                0 <= i < k && (#[trigger] store.users@[i]).company_id == claims.company_id
                    ==> user_listed(*store, out@, i),
        decreases store.users@.len() - k,
    {
        if store.users[k].company_id == claims.company_id {
            let ghost prev = out@;
            let u = &store.users[k];
            let row = PublicUserData {
                id: u.id,
                name: u.name.clone(),
                surname: u.surname.clone(),
                email: u.email.clone(),
                avatar: clone_opt_string(&u.avatar),
                role: u.role,
            };
            out.push(row);
            proof {
                assert(user_row_matches(*store, k as int, out@[prev.len() as int]));
                assert forall|p: int| 0 <= p < out@.len() implies user_row_in(
                    *store,
                    #[trigger] out@[p],
                ) by {
                    if p < prev.len() {
                        assert(out@[p] == prev[p]);
                        assert(user_row_in(*store, prev[p]));
                    } else {
                        assert(user_row_matches(*store, k as int, out@[p]));
                    }
                }
                assert forall|i: int|
                    0 <= i <= k as int && (#[trigger] store.users@[i]).company_id
                        == claims.company_id implies user_listed(*store, out@, i) by {
                    if i < k as int {
                        assert(user_listed(*store, prev, i));
                        let p0 = choose|p: int|
                            0 <= p < prev.len() && user_row_matches(*store, i, #[trigger] prev[p]);
                        assert(out@[p0] == prev[p0]);
                        assert(user_row_matches(*store, i, out@[p0]));
                    } else {
                        assert(user_row_matches(*store, i, out@[out@.len() - 1]));
                    }
                }
            }
        }
        k = k + 1;
    }
    out
}


/// Registers a guest and answers a session token for it, as the public
/// registration endpoint does.
pub fn register(store: &mut Store, form: &RegisterForm, now: i64, secret: &[u8]) -> (r: Result<
    Token,
    ProdError,
>)
    requires
        old(store).wf(),
        old(store).next_id < u64::MAX,
        0 <= now,
        now + JWT_EXPIRY_SECONDS <= i64::MAX,
    ensures
        final(store).wf(),
        r is Err ==> *final(store) == *old(store),
        !domain_taken(*old(store), form.company_domain@) ==> (r matches Err(e) && e is NoCompany),
        forall|ci: int|
            0 <= ci < old(store).companies@.len() && (#[trigger] old(store).companies@[ci]).domain@
                == form.company_domain@ && !email_taken(
                *old(store),
                old(store).companies@[ci].id,
                form.email@,
            ) && vstd::utf8::encode_utf8(form.password@).len() <= 0xFFFF_FFFF ==> r is Ok,
        r matches Ok(t) ==> final(store).users@.len() == old(store).users@.len() + 1
            && final(store).users@[old(store).users@.len() as int].role == RoleModel::Guest,
{
    let td = match register_user(store, form, RoleModel::Guest) {
        Ok(td) => td,
        Err(e) => {
            return Err(e);
        },
    };
    let jwt = match create_token(td.id, td.company_id, td.role, now, secret) {
        Ok(t) => t,
        Err(e) => {
            proof {
                assert(false);
            }
            return Err(e);
        },
    };
    Ok(Token { jwt })
}

/// Updates the caller's own profile, as the profile endpoint does.
pub fn patch_profile(
    store: &mut Store,
    claims: &Claims,
    form: &PatchProfileForm,
    avatar_url: Option<String>,
) -> (r: Result<(), ProdError>)
    requires
        old(store).wf(),
    ensures
        final(store).wf(),
        r is Err ==> *final(store) == *old(store),
        !(exists|k: int|
            0 <= k < old(store).users@.len() && (#[trigger] old(store).users@[k]).id
                == claims.user_id) ==> (r matches Err(e) && e is NotFound),
        (exists|k: int|
            0 <= k < old(store).users@.len() && (#[trigger] old(store).users@[k]).id
                == claims.user_id) && (form.password matches Some(pw)
            ==> vstd::utf8::encode_utf8(pw@).len() <= 0xFFFF_FFFF) ==> r is Ok,
{
    update_user(store, claims.user_id, form, avatar_url)
}


/// Some pending verification request names this user.
pub open spec fn user_has_pending(s: Store, user_id: u64) -> bool {
    exists|k: int| 0 <= k < s.pending@.len() && (#[trigger] s.pending@[k]).user_id == user_id
}

/// `d` is the public projection of a user of this company with an
/// outstanding verification request.
pub open spec fn verify_request_row_in(s: Store, company_id: u64, d: PublicUserData) -> bool {
    exists|i: int|
        #[trigger] user_row_matches(s, i, d) && s.users@[i].company_id == company_id
            && user_has_pending(s, s.users@[i].id)
}

/// The users of the caller's company with an outstanding verification
/// request, as public projections; the document reference each request
/// carries is composed by the caller from the user's id.
#[verifier::loop_isolation(false)]
pub fn get_verify_requests(store: &Store, claims: &Claims) -> (r: Vec<PublicUserData>)
    requires
        store.wf(),
    ensures
        forall|k: int|
            0 <= k < r@.len() ==> verify_request_row_in(*store, claims.company_id, #[trigger] r@[k]),
        forall|i: int|
            0 <= i < store.users@.len() && (#[trigger] store.users@[i]).company_id
                == claims.company_id && user_has_pending(*store, store.users@[i].id)
                ==> user_listed(*store, r@, i),
{
    let mut out: Vec<PublicUserData> = Vec::new();
    let mut k: usize = 0;
    while k < store.users.len()
        invariant
            0 <= k <= store.users@.len(),
            forall|p: int|
                0 <= p < out@.len() ==> verify_request_row_in(
                    *store,
                    claims.company_id,
                    #[trigger] out@[p],
                ),
            forall|i: int|
                0 <= i < k && (#[trigger] store.users@[i]).company_id == claims.company_id
                    && user_has_pending(*store, store.users@[i].id) ==> user_listed(
                    *store,
                    out@,
                    i,
                ),
        decreases store.users@.len() - k,
    {
        if store.users[k].company_id == claims.company_id && store.find_pending(
            store.users[k].id,
        ).is_some() {
            let ghost prev = out@;
            let u = &store.users[k];
            let row = PublicUserData {
                id: u.id,
                name: u.name.clone(),
                surname: u.surname.clone(),
                email: u.email.clone(),
                avatar: clone_opt_string(&u.avatar),
                role: u.role,
            };
            out.push(row);
            proof {
                assert(user_row_matches(*store, k as int, out@[prev.len() as int]));
                assert forall|p: int| 0 <= p < out@.len() implies verify_request_row_in(
                    *store,
                    claims.company_id,
                    #[trigger] out@[p],
                ) by {
                    if p < prev.len() {
                        assert(out@[p] == prev[p]);
                        assert(verify_request_row_in(*store, claims.company_id, prev[p]));
                    } else {
                        assert(user_row_matches(*store, k as int, out@[p]));
                    }
                }
                assert forall|i: int|
                    0 <= i <= k as int && (#[trigger] store.users@[i]).company_id
                        == claims.company_id && user_has_pending(*store, store.users@[i].id) implies user_listed(
                    *store,
                    out@,
                    i,
                ) by {
                    if i < k as int {
                        assert(user_listed(*store, prev, i));
                        let p0 = choose|p: int|
                            0 <= p < prev.len() && user_row_matches(*store, i, #[trigger] prev[p]);
                        assert(out@[p0] == prev[p0]);
                        assert(user_row_matches(*store, i, out@[p0]));
                    } else {
                        assert(user_row_matches(*store, i, out@[out@.len() - 1]));
                    }
                }
            }
        }
        k = k + 1;
    }
    out
}

} // verus!
