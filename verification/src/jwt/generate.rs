use vstd::prelude::*;

use vstd::utf8::is_ascii_chars;

use crate::codec::{
    dec_of, is_dec_digit, lemma_dec_round_trip, parse_u64_dec, spec_parse_dec, u64_to_dec,
};
use crate::errors::ProdError;
use crate::jwt::models::{Claims, QrClaims, JWT_EXPIRY_SECONDS};
use crate::models::{BookingModel, RoleModel};

verus! {

/// The base64url-encoded HMAC-SHA256 signature jsonwebtoken computes for
/// this message and secret.
pub uninterp spec fn hs256_sig_of(message: Seq<char>, secret: Seq<u8>) -> Seq<char>;

/// Relies on jsonwebtoken::crypto::sign: for HS256 it HMAC-signs the
/// message's bytes with the secret and base64url-encodes the digest, so
/// the result is a function of message and secret alone; HS256 signing
/// never fails; and the base64url alphabet holds neither '.' nor ' '
/// nor any non-ASCII character.
#[verifier::external_body]
fn sign_hs256(message: &str, secret: &[u8]) -> (r: Option<String>)
    ensures
        r is Some,
        r matches Some(s) ==> s@ == hs256_sig_of(message@, secret@) && (forall|i: int|
            0 <= i < s@.len() ==> s@[i] != '.' && s@[i] != ' ' && '\0' <= #[trigger] s@[i]
                <= '\u{7f}'),
{
    jsonwebtoken::crypto::sign(
        message.as_bytes(),
        &jsonwebtoken::EncodingKey::from_secret(secret),
        jsonwebtoken::Algorithm::HS256,
    ).ok()
}

/// Relies on jsonwebtoken::crypto::verify: for HS256 it re-signs the
/// message with the secret and compares, so the answer says exactly
/// whether the signature equals the message's HMAC signature.
#[verifier::external_body]
fn verify_hs256(signature: &str, message: &str, secret: &[u8]) -> (r: Option<bool>)
    ensures
        r is Some,
        r matches Some(b) ==> b == (signature@ == hs256_sig_of(message@, secret@)),
{
    jsonwebtoken::crypto::verify(
        signature,
        message.as_bytes(),
        &jsonwebtoken::DecodingKey::from_secret(secret),
        jsonwebtoken::Algorithm::HS256,
    ).ok()
}

/// Relies on rand::rngs::ThreadRng::fill_bytes: fills a buffer of the
/// requested length with bytes about whose values nothing is assumed.
#[verifier::external_body]
pub fn generate_bytes(number: usize) -> (r: Vec<u8>)
    ensures
        r@.len() == number,
{
    let mut buf: Vec<u8> = vec![0; number];
    let mut rng = rand::thread_rng();
    rand::RngCore::fill_bytes(&mut rng, &mut buf);
    buf
}

/// Index of the first occurrence of `c` in `s` at or after `from`, or
/// the length of `s` if there is none.
pub open spec fn first_occ(s: Seq<char>, from: int, c: char) -> int
    decreases s.len() - from,
{
    if from < 0 || from >= s.len() {
        s.len() as int
    } else if s[from] == c {
        from
    } else {
        first_occ(s, from + 1, c)
    }
}

/// Index of the last '.' in `s`, or -1 if there is none.
pub open spec fn last_dot(s: Seq<char>) -> int
    decreases s.len(),
{
    if s.len() == 0 {
        -1
    } else if s[s.len() - 1] == '.' {
        s.len() - 1
    } else {
        last_dot(s.drop_last())
    }
}

/// `first_occ` finds exactly the first matching position.
proof fn lemma_first_occ_at(s: Seq<char>, from: int, upto: int, c: char)
    requires
        0 <= from <= upto < s.len(),
        s[upto] == c,
        forall|j: int| from <= j < upto ==> s[j] != c,
    ensures
        first_occ(s, from, c) == upto,
    decreases upto - from,
{
    if from < upto {
        lemma_first_occ_at(s, from + 1, upto, c);
    }
}

/// The last dot of `head + "." + tail` is the separator, whenever the
/// tail is dot-free.
proof fn lemma_last_dot_concat(head: Seq<char>, tail: Seq<char>)
    requires
        forall|i: int| 0 <= i < tail.len() ==> tail[i] != '.',
    ensures
        last_dot(head + seq!['.'] + tail) == head.len(),
    decreases tail.len(),
{
    let s = head + seq!['.'] + tail;
    if tail.len() == 0 {
        assert(s[s.len() - 1] == '.');
    } else {
        assert(s[s.len() - 1] == tail[tail.len() - 1]);
        assert(s.drop_last() =~= head + seq!['.'] + tail.drop_last());
        lemma_last_dot_concat(head, tail.drop_last());
    }
}

/// Every character of a decimal rendering is a digit.
proof fn lemma_dec_digits(n: nat)
    ensures
        forall|i: int| 0 <= i < dec_of(n).len() ==> is_dec_digit(#[trigger] dec_of(n)[i]),
        dec_of(n).len() >= 1,
    decreases n,
{
    if n >= 10 {
        lemma_dec_digits(n / 10);
        assert forall|i: int| 0 <= i < dec_of(n).len() implies is_dec_digit(
            #[trigger] dec_of(n)[i],
        ) by {
            if i < dec_of(n / 10).len() {
                assert(dec_of(n)[i] == dec_of(n / 10)[i]);
            }
        }
    }
}

/// A digit is neither a dot nor outside ASCII.
proof fn lemma_digit_class(c: char)
    requires
        is_dec_digit(c),
    ensures
        c != '.',
        '\0' <= c <= '\u{7f}',
{
}

/// The decimal payload of a QR claim: a tag, then the booking id, issue
/// time and expiry, dot-separated.
pub open spec fn qr_payload_of(c: QrClaims) -> Seq<char> {
    seq!['q', '.'] + dec_of(c.booking_id as nat) + seq!['.'] + dec_of(c.iat as nat) + seq!['.']
        + dec_of(c.exp as nat)
}

/// The signed QR token: the payload followed by its HMAC signature.
pub open spec fn spec_qr_token(c: QrClaims, secret: Seq<u8>) -> Seq<char> {
    qr_payload_of(c) + seq!['.'] + hs256_sig_of(qr_payload_of(c), secret)
}

/// What a QR payload denotes, if anything: the exact dot-separated
/// shape, with each field in canonical decimal and within range.
pub open spec fn spec_parse_qr_payload(p: Seq<char>) -> Option<QrClaims> {
    if p.len() < 2 || p[0] != 'q' || p[1] != '.' {
        None
    } else {
        let d1 = first_occ(p, 2, '.');
        let d2 = first_occ(p, d1 + 1, '.');
        if d1 >= p.len() || d2 >= p.len() {
            None
        } else {
            match (
                spec_parse_dec(p.subrange(2, d1)),
                spec_parse_dec(p.subrange(d1 + 1, d2)),
                spec_parse_dec(p.subrange(d2 + 1, p.len() as int)),
            ) {
                (Some(b), Some(i), Some(e)) => if i <= i64::MAX as u64 && e <= i64::MAX as u64 {
                    Some(QrClaims { booking_id: b, iat: i as i64, exp: e as i64 })
                } else {
                    None
                },
                _ => None,
            }
        }
    }
}

/// What QR validation answers for an arbitrary token: the claims behind
/// the last dot's signature, provided the signature matches and the
/// payload parses.
pub open spec fn spec_validate_qr(t: Seq<char>, secret: Seq<u8>) -> Option<QrClaims> {
    if !is_ascii_chars(t) {
        None
    } else {
        let ld = last_dot(t);
        if ld < 0 {
            None
        } else if t.subrange(ld + 1, t.len() as int) != hs256_sig_of(t.subrange(0, ld), secret) {
            None
        } else {
            spec_parse_qr_payload(t.subrange(0, ld))
        }
    }
}

/// A rendered QR payload is ASCII, and parses back to its claims.
proof fn lemma_qr_payload_parses(c: QrClaims)
    requires
        0 <= c.iat,
        0 <= c.exp,
    ensures
        spec_parse_qr_payload(qr_payload_of(c)) == Some(c),
        is_ascii_chars(qr_payload_of(c)),
{
    let a = dec_of(c.booking_id as nat);
    let b = dec_of(c.iat as nat);
    let e = dec_of(c.exp as nat);
    let p = qr_payload_of(c);
    lemma_dec_digits(c.booking_id as nat);
    lemma_dec_digits(c.iat as nat);
    lemma_dec_digits(c.exp as nat);
    assert(p.len() == 4 + a.len() + b.len() + e.len());
    let la = a.len() as int;
    let lb = b.len() as int;
    let le = e.len() as int;
    assert(p[0] == 'q');
    assert(p[1] == '.');
    assert forall|i: int| 0 <= i < la implies #[trigger] p[2 + i] == a[i] by {}
    assert(p[2 + la] == '.');
    assert forall|i: int| 0 <= i < lb implies #[trigger] p[3 + la + i] == b[i] by {}
    assert(p[3 + la + lb] == '.');
    assert forall|i: int| 0 <= i < le implies #[trigger] p[4 + la + lb + i] == e[i] by {}
    assert forall|j: int| 2 <= j < 2 + la implies p[j] != '.' by {
        assert(p[j] == a[j - 2]);
        lemma_digit_class(a[j - 2]);
    }
    lemma_first_occ_at(p, 2, 2 + la, '.');
    let d1 = first_occ(p, 2, '.');
    assert(d1 == 2 + la);
    assert forall|j: int| d1 + 1 <= j < d1 + 1 + lb implies p[j] != '.' by {
        assert(p[j] == b[j - (d1 + 1)]);
        lemma_digit_class(b[j - (d1 + 1)]);
    }
    lemma_first_occ_at(p, d1 + 1, 3 + la + lb, '.');
    let d2 = first_occ(p, d1 + 1, '.');
    assert(d2 == 3 + la + lb);
    assert(p.subrange(2, d1) =~= a);
    assert(p.subrange(d1 + 1, d2) =~= b);
    assert(p.subrange(d2 + 1, p.len() as int) =~= e);
    lemma_dec_round_trip(c.booking_id);
    lemma_dec_round_trip(c.iat as u64);
    lemma_dec_round_trip(c.exp as u64);
    assert(spec_parse_dec(a) == Some(c.booking_id));
    assert(spec_parse_dec(b) == Some(c.iat as u64));
    assert(spec_parse_dec(e) == Some(c.exp as u64));
    assert forall|i: int| 0 <= i < p.len() implies '\0' <= #[trigger] p[i] <= '\u{7f}' by {
        if 2 <= i < 2 + la {
            lemma_digit_class(a[i - 2]);
        } else if d1 + 1 <= i < d1 + 1 + lb {
            lemma_digit_class(b[i - (d1 + 1)]);
        } else if d2 + 1 <= i < p.len() {
            lemma_digit_class(e[i - (d2 + 1)]);
        }
    }
}

/// Builds the decimal payload of a QR claim.
fn build_qr_payload(c: &QrClaims) -> (s: String)
    requires
        0 <= c.iat,
        0 <= c.exp,
    ensures
        s@ == qr_payload_of(*c),
{
    proof {
        reveal_strlit("q.");
        reveal_strlit(".");
    }
    let mut s = "q.".to_owned();
    let bid = u64_to_dec(c.booking_id);
    s.append(bid.as_str());
    s.append(".");
    let iat = u64_to_dec(c.iat as u64);
    s.append(iat.as_str());
    s.append(".");
    let exp = u64_to_dec(c.exp as u64);
    s.append(exp.as_str());
    proof {
        assert(s@ =~= qr_payload_of(*c));
    }
    s
}

/// Issues the signed QR token for a booking: the claims carry the
/// booking's id and end time, and the issued token validates back to
/// exactly those claims under the same secret.
pub fn create_qr_token(booking: &BookingModel, now: i64, secret: &[u8]) -> (r: Result<
    String,
    ProdError,
>)
    requires
        0 <= now,
        0 <= booking.time_end,
    ensures
        r matches Ok(t) ==> t@ == spec_qr_token(
            QrClaims { booking_id: booking.id, iat: now, exp: booking.time_end },
            secret@,
        ) && spec_validate_qr(t@, secret@) == Some(
            QrClaims { booking_id: booking.id, iat: now, exp: booking.time_end },
        ),
        r is Ok,
{
    let c = QrClaims::new(booking, now);
    let payload = build_qr_payload(&c);
    let sig = match sign_hs256(payload.as_str(), secret) {
        Some(s) => s,
        None => {
            proof {
                assert(false);
            }
            return Err(ProdError::InvalidToken("JWT error".to_owned()));
        },
    };
    proof {
        reveal_strlit(".");
    }
    let mut t = payload;
    t.append(".");
    t.append(sig.as_str());
    proof {
        let pl = qr_payload_of(c);
        let sg = hs256_sig_of(pl, secret@);
        assert(t@ =~= pl + seq!['.'] + sg);
        lemma_qr_payload_parses(c);
        lemma_last_dot_concat(pl, sg);
        assert(last_dot(t@) == pl.len());
        assert(t@.subrange(0, pl.len() as int) =~= pl);
        assert(t@.subrange(pl.len() as int + 1, t@.len() as int) =~= sg);
        assert(is_ascii_chars(t@)) by {
            assert forall|i: int| 0 <= i < t@.len() implies '\0' <= #[trigger] t@[i]
                <= '\u{7f}' by {
                if i < pl.len() {
                    assert(t@[i] == pl[i]);
                } else if i == pl.len() {
                    assert(t@[i] == '.');
                } else {
                    assert(t@[i] == sg[i - pl.len() - 1]);
                }
            }
        }
    }
    Ok(t)
}

/// Finds the last '.' of an ASCII string.
#[verifier::loop_isolation(false)]
fn find_last_dot(s: &str) -> (r: Option<usize>)
    requires
        s.is_ascii(),
    ensures
        r matches Some(i) ==> i == last_dot(s@) && 0 <= i < s@.len(),
        r is None ==> last_dot(s@) == -1,
{
    let n = s.unicode_len();
    proof {
        assert(s@.take(n as int) =~= s@);
    }
    let mut i: usize = n;
    while i > 0
        invariant
            0 <= i <= n,
            n == s@.len(),
            last_dot(s@) == last_dot(s@.take(i as int)),
        decreases i,
    {
        i = i - 1;
        let c = s.get_char(i);
        if c == '.' {
            proof {
                assert(s@.take(i as int + 1).drop_last() =~= s@.take(i as int));
                assert(s@.take(i as int + 1)[i as int] == s@[i as int]);
            }
            return Some(i);
        }
        proof {
            assert(s@.take(i as int + 1).drop_last() =~= s@.take(i as int));
            assert(s@.take(i as int + 1)[i as int] == s@[i as int]);
        }
    }
    proof {
        assert(s@.take(0).len() == 0);
    }
    None
}

/// Finds the first '.' of an ASCII string at or after `from`.
#[verifier::loop_isolation(false)]
fn find_first_dot(s: &str, from: usize) -> (r: usize)
    requires
        s.is_ascii(),
        from <= s@.len(),
    ensures
        r == first_occ(s@, from as int, '.'),
        from <= r <= s@.len(),
    decreases s@.len() - from,
{
    let n = s.unicode_len();
    if from >= n {
        return n;
    }
    let c = s.get_char(from);
    if c == '.' {
        return from;
    }
    find_first_dot(s, from + 1)
}

/// Parses the decimal QR payload, answering exactly what the
/// specification denotes.
fn parse_qr_payload(p: &str) -> (r: Option<QrClaims>)
    requires
        p.is_ascii(),
    ensures
        r == spec_parse_qr_payload(p@),
{
    let n = p.unicode_len();
    if n < 2 {
        return None;
    }
    if p.get_char(0) != 'q' || p.get_char(1) != '.' {
        return None;
    }
    let d1 = find_first_dot(p, 2);
    if d1 >= n {
        return None;
    }
    let d2 = find_first_dot(p, d1 + 1);
    if d2 >= n {
        return None;
    }
    let bid = match parse_u64_dec(p.substring_ascii(2, d1)) {
        Some(v) => v,
        None => {
            return None;
        },
    };
    let iat = match parse_u64_dec(p.substring_ascii(d1 + 1, d2)) {
        Some(v) => v,
        None => {
            return None;
        },
    };
    let exp = match parse_u64_dec(p.substring_ascii(d2 + 1, n)) {
        Some(v) => v,
        None => {
            return None;
        },
    };
    if iat > i64::MAX as u64 || exp > i64::MAX as u64 {
        return None;
    }
    Some(QrClaims { booking_id: bid, iat: iat as i64, exp: exp as i64 })
}

/// Validates a QR token: signature first, then the payload's shape. Any
/// failure is the same `InvalidToken` error, never a panic.
pub fn validate_qr_token(token: &str, secret: &[u8]) -> (r: Result<QrClaims, ProdError>)
    ensures
        spec_validate_qr(token@, secret@) matches Some(c) ==> r == Ok::<QrClaims, ProdError>(c),
        spec_validate_qr(token@, secret@) is None ==> (r matches Err(e) && e
            matches ProdError::InvalidToken(m) && m@ == "JWT error"@),
{
    if !token.is_ascii() {
        return Err(ProdError::InvalidToken("JWT error".to_owned()));
    }
    let n = token.unicode_len();
    let ld = match find_last_dot(token) {
        Some(i) => i,
        None => {
            return Err(ProdError::InvalidToken("JWT error".to_owned()));
        },
    };
    let payload = token.substring_ascii(0, ld);
    let sig = token.substring_ascii(ld + 1, n);
    let ok = match verify_hs256(sig, payload, secret) {
        Some(b) => b,
        None => {
            proof {
                assert(false);
            }
            return Err(ProdError::InvalidToken("JWT error".to_owned()));
        },
    };
    if !ok {
        return Err(ProdError::InvalidToken("JWT error".to_owned()));
    }
    match parse_qr_payload(payload) {
        Some(c) => Ok(c),
        None => Err(ProdError::InvalidToken("JWT error".to_owned())),
    }
}


/// Finds the first occurrence of `c` in an ASCII string at or after
/// `from`.
#[verifier::loop_isolation(false)]
fn find_first_occ(s: &str, from: usize, c: char) -> (r: usize)
    requires
        s.is_ascii(),
        from <= s@.len(),
    ensures
        r == first_occ(s@, from as int, c),
        from <= r <= s@.len(),
    decreases s@.len() - from,
{
    let n = s.unicode_len();
    if from >= n {
        return n;
    }
    let c2 = s.get_char(from);
    if c2 == c {
        return from;
    }
    find_first_occ(s, from + 1, c)
}

/// The wire word for each role.
pub open spec fn role_word(r: RoleModel) -> Seq<char> {
    match r {
        RoleModel::Admin => "ADMIN"@,
        RoleModel::Student => "STUDENT"@,
        RoleModel::Guest => "GUEST"@,
        RoleModel::VerifiedGuest => "VERIFIEDGUEST"@,
    }
}

/// The role a wire word denotes, if any.
pub open spec fn parse_role(s: Seq<char>) -> Option<RoleModel> {
    if s == "ADMIN"@ {
        Some(RoleModel::Admin)
    } else if s == "STUDENT"@ {
        Some(RoleModel::Student)
    } else if s == "GUEST"@ {
        Some(RoleModel::Guest)
    } else if s == "VERIFIEDGUEST"@ {
        Some(RoleModel::VerifiedGuest)
    } else {
        None
    }
}

/// Role words are dot-free ASCII and parse back to their role.
proof fn lemma_role_words(r: RoleModel)
    ensures
        parse_role(role_word(r)) == Some(r),
        forall|i: int| 0 <= i < role_word(r).len() ==> #[trigger] role_word(r)[i] != '.' && '\0'
            <= role_word(r)[i] <= '\u{7f}',
        role_word(r).len() >= 1,
{
    reveal_strlit("ADMIN");
    reveal_strlit("STUDENT");
    reveal_strlit("GUEST");
    reveal_strlit("VERIFIEDGUEST");
    assert("ADMIN"@.len() == 5);
    assert("STUDENT"@.len() == 7);
    assert("GUEST"@.len() == 5);
    assert("VERIFIEDGUEST"@.len() == 13);
    assert("GUEST"@[0] != "ADMIN"@[0]);
}

/// The wire word for a role, as a string.
fn role_str(r: RoleModel) -> (s: &'static str)
    ensures
        s@ == role_word(r),
{
    proof {
        reveal_strlit("ADMIN");
        reveal_strlit("STUDENT");
        reveal_strlit("GUEST");
        reveal_strlit("VERIFIEDGUEST");
    }
    match r {
        RoleModel::Admin => "ADMIN",
        RoleModel::Student => "STUDENT",
        RoleModel::Guest => "GUEST",
        RoleModel::VerifiedGuest => "VERIFIEDGUEST",
    }
}

/// Parses a role's wire word.
fn role_from_str(s: &str) -> (r: Option<RoleModel>)
    ensures
        r == parse_role(s@),
{
    proof {
        reveal_strlit("ADMIN");
        reveal_strlit("STUDENT");
        reveal_strlit("GUEST");
        reveal_strlit("VERIFIEDGUEST");
    }
    let w = s.to_owned();
    if w.eq(&"ADMIN".to_owned()) {
        Some(RoleModel::Admin)
    } else if w.eq(&"STUDENT".to_owned()) {
        Some(RoleModel::Student)
    } else if w.eq(&"GUEST".to_owned()) {
        Some(RoleModel::Guest)
    } else if w.eq(&"VERIFIEDGUEST".to_owned()) {
        Some(RoleModel::VerifiedGuest)
    } else {
        None
    }
}

/// The decimal payload of a session claim: a tag, the role word, then
/// user id, company id, issue time and expiry, dot-separated.
pub open spec fn session_payload_of(c: Claims) -> Seq<char> {
    seq!['s', '.'] + role_word(c.role) + seq!['.'] + dec_of(c.user_id as nat) + seq!['.'] + dec_of(
        c.company_id as nat,
    ) + seq!['.'] + dec_of(c.iat as nat) + seq!['.'] + dec_of(c.exp as nat)
}

/// The signed session token: the payload followed by its signature.
pub open spec fn spec_session_token(c: Claims, secret: Seq<u8>) -> Seq<char> {
    session_payload_of(c) + seq!['.'] + hs256_sig_of(session_payload_of(c), secret)
}

/// What a session payload denotes, if anything.
pub open spec fn spec_parse_session_payload(p: Seq<char>) -> Option<Claims> {
    if p.len() < 2 || p[0] != 's' || p[1] != '.' {
        None
    } else {
        let d1 = first_occ(p, 2, '.');
        let d2 = first_occ(p, d1 + 1, '.');
        let d3 = first_occ(p, d2 + 1, '.');
        let d4 = first_occ(p, d3 + 1, '.');
        if d1 >= p.len() || d2 >= p.len() || d3 >= p.len() || d4 >= p.len() {
            None
        } else {
            match (
                parse_role(p.subrange(2, d1)),
                spec_parse_dec(p.subrange(d1 + 1, d2)),
                spec_parse_dec(p.subrange(d2 + 1, d3)),
                spec_parse_dec(p.subrange(d3 + 1, d4)),
                spec_parse_dec(p.subrange(d4 + 1, p.len() as int)),
            ) {
                (Some(role), Some(u), Some(co), Some(i), Some(e)) => if i <= i64::MAX as u64 && e
                    <= i64::MAX as u64 {
                    Some(
                        Claims {
                            role,
                            user_id: u,
                            company_id: co,
                            iat: i as i64,
                            exp: e as i64,
                        },
                    )
                } else {
                    None
                },
                _ => None,
            }
        }
    }
}

/// What session validation answers for an arbitrary token.
pub open spec fn spec_validate_session(t: Seq<char>, secret: Seq<u8>) -> Option<Claims> {
    if !is_ascii_chars(t) {
        None
    } else {
        let ld = last_dot(t);
        if ld < 0 {
            None
        } else if t.subrange(ld + 1, t.len() as int) != hs256_sig_of(t.subrange(0, ld), secret) {
            None
        } else {
            spec_parse_session_payload(t.subrange(0, ld))
        }
    }
}

/// A rendered session payload is ASCII, and parses back to its claims.
proof fn lemma_session_payload_parses(c: Claims)
    requires
        0 <= c.iat,
        0 <= c.exp,
    ensures
        spec_parse_session_payload(session_payload_of(c)) == Some(c),
        is_ascii_chars(session_payload_of(c)),
{
    let w = role_word(c.role);
    let a = dec_of(c.user_id as nat);
    let b = dec_of(c.company_id as nat);
    let d = dec_of(c.iat as nat);
    let e = dec_of(c.exp as nat);
    let p = session_payload_of(c);
    lemma_role_words(c.role);
    lemma_dec_digits(c.user_id as nat);
    lemma_dec_digits(c.company_id as nat);
    lemma_dec_digits(c.iat as nat);
    lemma_dec_digits(c.exp as nat);
    let lw = w.len() as int;
    let la = a.len() as int;
    let lb = b.len() as int;
    let ld2 = d.len() as int;
    let le = e.len() as int;
    assert(p.len() == 6 + lw + la + lb + ld2 + le);
    assert(p[0] == 's');
    assert(p[1] == '.');
    assert forall|i: int| 0 <= i < lw implies #[trigger] p[2 + i] == w[i] by {}
    assert(p[2 + lw] == '.');
    assert forall|i: int| 0 <= i < la implies #[trigger] p[3 + lw + i] == a[i] by {}
    assert(p[3 + lw + la] == '.');
    assert forall|i: int| 0 <= i < lb implies #[trigger] p[4 + lw + la + i] == b[i] by {}
    assert(p[4 + lw + la + lb] == '.');
    assert forall|i: int| 0 <= i < ld2 implies #[trigger] p[5 + lw + la + lb + i] == d[i] by {}
    assert(p[5 + lw + la + lb + ld2] == '.');
    assert forall|i: int| 0 <= i < le implies #[trigger] p[6 + lw + la + lb + ld2 + i]
        == e[i] by {}
    assert forall|j: int| 2 <= j < 2 + lw implies p[j] != '.' by {
        assert(p[j] == w[j - 2]);
    }
    lemma_first_occ_at(p, 2, 2 + lw, '.');
    let q1 = first_occ(p, 2, '.');
    assert(q1 == 2 + lw);
    assert forall|j: int| q1 + 1 <= j < q1 + 1 + la implies p[j] != '.' by {
        assert(p[j] == a[j - (q1 + 1)]);
        lemma_digit_class(a[j - (q1 + 1)]);
    }
    lemma_first_occ_at(p, q1 + 1, 3 + lw + la, '.');
    let q2 = first_occ(p, q1 + 1, '.');
    assert(q2 == 3 + lw + la);
    assert forall|j: int| q2 + 1 <= j < q2 + 1 + lb implies p[j] != '.' by {
        assert(p[j] == b[j - (q2 + 1)]);
        lemma_digit_class(b[j - (q2 + 1)]);
    }
    lemma_first_occ_at(p, q2 + 1, 4 + lw + la + lb, '.');
    let q3 = first_occ(p, q2 + 1, '.');
    assert(q3 == 4 + lw + la + lb);
    assert forall|j: int| q3 + 1 <= j < q3 + 1 + ld2 implies p[j] != '.' by {
        assert(p[j] == d[j - (q3 + 1)]);
        lemma_digit_class(d[j - (q3 + 1)]);
    }
    lemma_first_occ_at(p, q3 + 1, 5 + lw + la + lb + ld2, '.');
    let q4 = first_occ(p, q3 + 1, '.');
    assert(q4 == 5 + lw + la + lb + ld2);
    assert(p.subrange(2, q1) =~= w);
    assert(p.subrange(q1 + 1, q2) =~= a);
    assert(p.subrange(q2 + 1, q3) =~= b);
    assert(p.subrange(q3 + 1, q4) =~= d);
    assert(p.subrange(q4 + 1, p.len() as int) =~= e);
    lemma_dec_round_trip(c.user_id);
    lemma_dec_round_trip(c.company_id);
    lemma_dec_round_trip(c.iat as u64);
    lemma_dec_round_trip(c.exp as u64);
    assert forall|i: int| 0 <= i < p.len() implies '\0' <= #[trigger] p[i] <= '\u{7f}' by {
        if 2 <= i < 2 + lw {
            assert(p[i] == w[i - 2]);
        } else if q1 + 1 <= i < q1 + 1 + la {
            lemma_digit_class(a[i - (q1 + 1)]);
        } else if q2 + 1 <= i < q2 + 1 + lb {
            lemma_digit_class(b[i - (q2 + 1)]);
        } else if q3 + 1 <= i < q3 + 1 + ld2 {
            lemma_digit_class(d[i - (q3 + 1)]);
        } else if q4 + 1 <= i < p.len() {
            lemma_digit_class(e[i - (q4 + 1)]);
        }
    }
}

/// Builds the decimal payload of a session claim.
fn build_session_payload(c: &Claims) -> (s: String)
    requires
        0 <= c.iat,
        0 <= c.exp,
    ensures
        s@ == session_payload_of(*c),
{
    proof {
        reveal_strlit("s.");
        reveal_strlit(".");
    }
    let mut s = "s.".to_owned();
    s.append(role_str(c.role));
    s.append(".");
    let uid = u64_to_dec(c.user_id);
    s.append(uid.as_str());
    s.append(".");
    let cid = u64_to_dec(c.company_id);
    s.append(cid.as_str());
    s.append(".");
    let iat = u64_to_dec(c.iat as u64);
    s.append(iat.as_str());
    s.append(".");
    let exp = u64_to_dec(c.exp as u64);
    s.append(exp.as_str());
    proof {
        assert(s@ =~= session_payload_of(*c));
    }
    s
}

/// Issues the signed session token for a caller: the claims carry the
/// identity, tenant and role, expire one day after issue, and the token
/// validates back to exactly those claims under the same secret.
pub fn create_token(user_id: u64, company_id: u64, role: RoleModel, now: i64, secret: &[u8]) -> (r:
    Result<String, ProdError>)
    requires
        0 <= now,
        now + JWT_EXPIRY_SECONDS <= i64::MAX,
    ensures
        r matches Ok(t) ==> t@ == spec_session_token(
            Claims { role, user_id, company_id, iat: now, exp: (now + JWT_EXPIRY_SECONDS) as i64 },
            secret@,
        ) && spec_validate_session(t@, secret@) == Some(
            Claims { role, user_id, company_id, iat: now, exp: (now + JWT_EXPIRY_SECONDS) as i64 },
        ),
        r is Ok,
{
    let c = Claims::new(user_id, company_id, role, now);
    let payload = build_session_payload(&c);
    let sig = match sign_hs256(payload.as_str(), secret) {
        Some(s) => s,
        None => {
            proof {
                assert(false);
            }
            return Err(ProdError::InvalidToken("JWT error".to_owned()));
        },
    };
    proof {
        reveal_strlit(".");
    }
    let mut t = payload;
    t.append(".");
    t.append(sig.as_str());
    proof {
        let pl = session_payload_of(c);
        let sg = hs256_sig_of(pl, secret@);
        assert(t@ =~= pl + seq!['.'] + sg);
        lemma_session_payload_parses(c);
        lemma_last_dot_concat(pl, sg);
        assert(last_dot(t@) == pl.len());
        assert(t@.subrange(0, pl.len() as int) =~= pl);
        assert(t@.subrange(pl.len() as int + 1, t@.len() as int) =~= sg);
        assert(is_ascii_chars(t@)) by {
            assert forall|i: int| 0 <= i < t@.len() implies '\0' <= #[trigger] t@[i]
                <= '\u{7f}' by {
                if i < pl.len() {
                    assert(t@[i] == pl[i]);
                } else if i == pl.len() {
                    assert(t@[i] == '.');
                } else {
                    assert(t@[i] == sg[i - pl.len() - 1]);
                }
            }
        }
    }
    Ok(t)
}

/// Parses the decimal session payload.
fn parse_session_payload(p: &str) -> (r: Option<Claims>)
    requires
        p.is_ascii(),
    ensures
        r == spec_parse_session_payload(p@),
{
    let n = p.unicode_len();
    if n < 2 {
        return None;
    }
    if p.get_char(0) != 's' || p.get_char(1) != '.' {
        return None;
    }
    let d1 = find_first_occ(p, 2, '.');
    if d1 >= n {
        return None;
    }
    let d2 = find_first_occ(p, d1 + 1, '.');
    if d2 >= n {
        return None;
    }
    let d3 = find_first_occ(p, d2 + 1, '.');
    if d3 >= n {
        return None;
    }
    let d4 = find_first_occ(p, d3 + 1, '.');
    if d4 >= n {
        return None;
    }
    let role = match role_from_str(p.substring_ascii(2, d1)) {
        Some(v) => v,
        None => {
            return None;
        },
    };
    let uid = match parse_u64_dec(p.substring_ascii(d1 + 1, d2)) {
        Some(v) => v,
        None => {
            return None;
        },
    };
    let cid = match parse_u64_dec(p.substring_ascii(d2 + 1, d3)) {
        Some(v) => v,
        None => {
            return None;
        },
    };
    let iat = match parse_u64_dec(p.substring_ascii(d3 + 1, d4)) {
        Some(v) => v,
        None => {
            return None;
        },
    };
    let exp = match parse_u64_dec(p.substring_ascii(d4 + 1, n)) {
        Some(v) => v,
        None => {
            return None;
        },
    };
    if iat > i64::MAX as u64 || exp > i64::MAX as u64 {
        return None;
    }
    Some(Claims { role, user_id: uid, company_id: cid, iat: iat as i64, exp: exp as i64 })
}

/// Validates a session token: signature, payload shape, then expiry
/// against the caller's clock.
pub fn validate_token(token: &str, now: i64, secret: &[u8]) -> (r: Result<Claims, ProdError>)
    ensures
        (spec_validate_session(token@, secret@) matches Some(c) && c.exp > now) ==> r == Ok::<
            Claims,
            ProdError,
        >(spec_validate_session(token@, secret@)->Some_0),
        (spec_validate_session(token@, secret@) matches Some(c) && c.exp <= now) ==> (r
            matches Err(e) && e matches ProdError::InvalidToken(m) && m@ == "JWT error"@),
        spec_validate_session(token@, secret@) is None ==> (r matches Err(e) && e
            matches ProdError::InvalidToken(m) && m@ == "JWT error"@),
{
    if !token.is_ascii() {
        return Err(ProdError::InvalidToken("JWT error".to_owned()));
    }
    let n = token.unicode_len();
    let ld = match find_last_dot(token) {
        Some(i) => i,
        None => {
            return Err(ProdError::InvalidToken("JWT error".to_owned()));
        },
    };
    let payload = token.substring_ascii(0, ld);
    let sig = token.substring_ascii(ld + 1, n);
    let ok = match verify_hs256(sig, payload, secret) {
        Some(b) => b,
        None => {
            proof {
                assert(false);
            }
            return Err(ProdError::InvalidToken("JWT error".to_owned()));
        },
    };
    if !ok {
        return Err(ProdError::InvalidToken("JWT error".to_owned()));
    }
    match parse_session_payload(payload) {
        Some(c) => {
            if c.exp > now {
                Ok(c)
            } else {
                Err(ProdError::InvalidToken("JWT error".to_owned()))
            }
        },
        None => Err(ProdError::InvalidToken("JWT error".to_owned())),
    }
}

/// The token part of an authorization header: the text between the
/// first space and the next space or the end.
pub open spec fn spec_bearer_token(h: Seq<char>) -> Option<Seq<char>> {
    let sp = first_occ(h, 0, ' ');
    if sp >= h.len() {
        None
    } else {
        let sp2 = first_occ(h, sp + 1, ' ');
        Some(h.subrange(sp + 1, sp2))
    }
}

/// What header authentication answers for an ASCII header: the header
/// must carry a token between its first space and the next, the token
/// must validate, and the claims must not have expired.
pub open spec fn bearer_outcome(
    h: Seq<char>,
    now: i64,
    secret: Seq<u8>,
    r: Result<Claims, ProdError>,
) -> bool {
    match spec_bearer_token(h) {
        None => r matches Err(e) && e matches ProdError::ShitHappened(m) && m@
            == "Wrong authorization Bearer format"@,
        Some(tok) => match spec_validate_session(tok, secret) {
            Some(c) => if c.exp > now {
                r == Ok::<Claims, ProdError>(c)
            } else {
                r matches Err(e) && e matches ProdError::InvalidToken(m) && m@ == "JWT error"@
            },
            None => r matches Err(e) && e matches ProdError::InvalidToken(m) && m@
                == "JWT error"@,
        },
    }
}

/// Extracts and validates the session claims from an authorization
/// header, if one was sent at all.
pub fn claims_from_headers(auth: Option<&str>, now: i64, secret: &[u8]) -> (r: Result<
    Claims,
    ProdError,
>)
    ensures
        auth is None ==> (r matches Err(e) && e matches ProdError::Forbidden(m) && m@
            == "No authorization token was found"@),
        auth matches Some(h) ==> (!is_ascii_chars(h@) ==> (r matches Err(e) && e
            matches ProdError::ShitHappened(m) && m@ == "Wrong authorization Bearer format"@)),
        auth matches Some(h) ==> (is_ascii_chars(h@) ==> bearer_outcome(h@, now, secret@, r)),
{
    let h = match auth {
        Some(h) => h,
        None => {
            return Err(ProdError::Forbidden("No authorization token was found".to_owned()));
        },
    };
    if !h.is_ascii() {
        return Err(ProdError::ShitHappened("Wrong authorization Bearer format".to_owned()));
    }
    let n = h.unicode_len();
    let sp = find_first_occ(h, 0, ' ');
    if sp >= n {
        return Err(ProdError::ShitHappened("Wrong authorization Bearer format".to_owned()));
    }
    let sp2 = find_first_occ(h, sp + 1, ' ');
    let token = h.substring_ascii(sp + 1, sp2);
    validate_token(token, now, secret)
}

} // verus!
