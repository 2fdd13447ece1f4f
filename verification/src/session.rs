use vstd::prelude::*;

use argon2::password_hash::{PasswordHash, PasswordHasher, PasswordVerifier, SaltString};
use argon2::Argon2;
use sha2::{Digest, Sha256};

use crate::auth::{current_user, CurrentUser, User};
use crate::config::SessionConfig;
use crate::error::AppError;
use crate::extensions::{split_char, split_exec};
use crate::num::{decimal_signed, i64_to_decimal};
use crate::registry::{trim_exec, trim_ws};
use crate::text::{chars_of, owned, push_char, push_str, starts_with, str_eq, string_of, string_of_range};

verus! {

/// The SHA-256 digest of the UTF-8 bytes of `text`.
pub uninterp spec fn sha256_text(text: Seq<char>) -> Seq<u8>;

/// `sha2::Sha256::digest` of the UTF-8 bytes of `text`: a digest that
/// depends on `text` alone and is 32 bytes long. The contract names the
/// digest without stating the algorithm.
#[verifier::external_body]
fn sha256_digest(text: &str) -> (r: Vec<u8>)
    ensures
        r@ == sha256_text(text@),
        r@.len() == 32,
{
    Sha256::digest(text.as_bytes()).to_vec()
}

/// The lower-case hexadecimal digit of a value below 16.
pub open spec fn hex_digit(n: u8) -> char {
    if n < 10 { (('0' as u8) + n) as char } else { (('a' as u8) + n - 10) as char }
}

/// `bytes` in lower-case hexadecimal, two digits per byte, high half first.
pub open spec fn hex_of(bytes: Seq<u8>) -> Seq<char>
    decreases bytes.len(),
{
    if bytes.len() == 0 {
        Seq::empty()
    } else {
        hex_of(bytes.drop_last()).push(hex_digit(bytes.last() / 16)).push(hex_digit(bytes.last() % 16))
    }
}

fn hex_digit_exec(n: u8) -> (c: char)
    requires n < 16,
    ensures c == hex_digit(n),
{
    if n < 10 { (48u8 + n) as char } else { (87u8 + n) as char }
}

/// `bytes` in lower-case hexadecimal: for each byte, the digit of its high
/// half, then that of its low half.
pub fn hex_encode(bytes: &Vec<u8>) -> (r: String)
    ensures r@ == hex_of(bytes@),
{
    let mut r = String::new();
    let mut i: usize = 0;
    while i < bytes.len()
        invariant
            i <= bytes.len(),
            r@ == hex_of(bytes@.subrange(0, i as int)),
        decreases bytes.len() - i,
    {
        let b = bytes[i];
        proof {
            let next = bytes@.subrange(0, i + 1);
            assert(next.drop_last() =~= bytes@.subrange(0, i as int));
            assert(next.last() == b);
        }
        push_char(&mut r, hex_digit_exec(b / 16));
        push_char(&mut r, hex_digit_exec(b % 16));
        i += 1;
    }
    proof { assert(bytes@.subrange(0, bytes@.len() as int) =~= bytes@); }
    r
}

/// `rand::RngCore::fill_bytes` on `rand::thread_rng()`: 32 random bytes.
#[verifier::external_body]
fn random_bytes() -> (r: Vec<u8>)
    ensures r@.len() == 32,
{
    let mut bytes = [0u8; 32];
    rand::RngCore::fill_bytes(&mut rand::thread_rng(), &mut bytes);
    bytes.to_vec()
}

/// Whether the argon2 verifier accepts `password` for the PHC string `hash`.
pub uninterp spec fn password_verifies(password: Seq<char>, hash: Seq<char>) -> bool;

/// `argon2::password_hash::PasswordHash::new` then
/// `PasswordVerifier::verify_password` of `Argon2::default()`: whether
/// `hash` parses as a PHC string and `password` hashes to it. The verdict
/// depends on the two texts alone.
#[verifier::external_body]
fn argon2_verify(password: &str, hash: &str) -> (r: bool)
    ensures r == password_verifies(password@, hash@),
{
    match PasswordHash::new(hash) {
        Ok(parsed) => Argon2::default().verify_password(password.as_bytes(), &parsed).is_ok(),
        Err(_) => false,
    }
}

/// `PasswordHasher::hash_password` of `Argon2::default()` with a salt from
/// `SaltString::generate` on the operating system's generator, as a PHC
/// string. The salt is random, so only this holds of the hash: the
/// verifier accepts the password for it (the verifier recomputes the hash
/// with the salt and parameters the string holds). With the default
/// parameters and a generated 16-byte salt, the hasher refuses only a
/// password of more than `0xFFFF_FFFF` bytes (`Error::PwdTooLong`); a
/// password of at most `0x3FFF_FFFF` characters has at most that many
/// UTF-8 bytes, so it is hashed.
#[verifier::external_body]
fn argon2_hash(password: &str) -> (r: Result<String, argon2::password_hash::Error>)
    ensures
        r matches Ok(h) ==> password_verifies(password@, h@),
        password@.len() <= 0x3FFF_FFFF ==> r is Ok,
{
    let salt = SaltString::generate(&mut argon2::password_hash::rand_core::OsRng);
    match Argon2::default().hash_password(password.as_bytes(), &salt) {
        Ok(h) => Ok(h.to_string()),
        Err(e) => Err(e),
    }
}

/// The text of an error of the password hasher.
#[verifier::external_body]
fn password_error_text(e: &argon2::password_hash::Error) -> (r: String)
{
    format!("{e}")
}

#[verifier::external_type_specification]
#[verifier::external_body]
pub struct ExPasswordHashError(argon2::password_hash::Error);

/// Why a password could not be hashed: the hasher's message.
#[derive(Debug, Clone, PartialEq, Eq)]
pub struct PasswordError {
    pub message: String,
}

/// Hashes `password` with argon2 and a random salt; the result verifies
/// against `password`. Only a password longer than argon2 accepts (over
/// `0xFFFF_FFFF` bytes) is refused, with the hasher's message.
pub fn hash_password(password: &str) -> (r: Result<String, PasswordError>)
    ensures
        r matches Ok(h) ==> password_verifies(password@, h@),
        password@.len() <= 0x3FFF_FFFF ==> r is Ok,
{
    match argon2_hash(password) {
        Ok(h) => Ok(h),
        Err(e) => Err(PasswordError { message: password_error_text(&e) }),
    }
}

/// Whether `password` matches the stored `password_hash`.
pub fn verify_password(password: &str, password_hash: &str) -> (r: bool)
    ensures r == password_verifies(password@, password_hash@),
{
    argon2_verify(password, password_hash)
}

/// The stored form of a token: the hexadecimal SHA-256 digest of its text.
pub open spec fn token_hash_of(token: Seq<char>) -> Seq<char> {
    hex_of(sha256_text(token))
}

proof fn lemma_hex_len(bytes: Seq<u8>)
    ensures hex_of(bytes).len() == 2 * bytes.len(),
    decreases bytes.len(),
{
    if bytes.len() > 0 {
        lemma_hex_len(bytes.drop_last());
    }
}

/// A lower-case hexadecimal digit.
pub open spec fn is_hex_digit(c: char) -> bool {
    ('0' <= c && c <= '9') || ('a' <= c && c <= 'f')
}

proof fn lemma_hex_digits(bytes: Seq<u8>)
    ensures forall|i: int| 0 <= i < hex_of(bytes).len() ==> is_hex_digit(#[trigger] hex_of(bytes)[i]),
    decreases bytes.len(),
{
    if bytes.len() > 0 {
        lemma_hex_digits(bytes.drop_last());
        lemma_hex_len(bytes.drop_last());
        let b = bytes.last();
        assert(b / 16 < 16 && b % 16 < 16);
        assert(is_hex_digit(hex_digit(b / 16)));
        assert(is_hex_digit(hex_digit(b % 16)));
        let prev = hex_of(bytes.drop_last());
        assert forall|i: int| 0 <= i < hex_of(bytes).len() implies is_hex_digit(#[trigger] hex_of(bytes)[i]) by {
            if i < prev.len() {
                assert(hex_of(bytes)[i] == prev[i]);
            }
        }
    }
}

/// The stored form of `token`: its SHA-256 digest in hexadecimal (64
/// characters).
pub fn token_hash(token: &str) -> (r: String)
    ensures
        r@ == token_hash_of(token@),
        r@.len() == 64,
{
    let d = sha256_digest(token);
    proof { lemma_hex_len(d@); }
    hex_encode(&d)
}

/// A new random token: 32 random bytes in hexadecimal.
pub fn generate_token() -> (r: String)
    ensures
        r@.len() == 64,
        forall|i: int| 0 <= i < 64 ==> is_hex_digit(#[trigger] r@[i]),
{
    let b = random_bytes();
    proof {
        lemma_hex_len(b@);
        lemma_hex_digits(b@);
    }
    hex_encode(&b)
}


/// The token of an `Authorization: Token <key>` header: the key, trimmed,
/// when not empty.
pub open spec fn bearer_of(header: Option<Seq<char>>) -> Option<Seq<char>> {
    match header {
        Some(h) => if starts_with(h, "Token "@) && trim_ws(h.skip(6)).len() > 0 {
            Some(trim_ws(h.skip(6)))
        } else {
            None
        },
        None => None,
    }
}

/// The token an `Authorization` header carries, if it carries one.
pub fn bearer_token(header: Option<&str>) -> (r: Option<String>)
    ensures
        match r {
            Some(t) => bearer_of(match header { Some(h) => Some(h@), None => None }) == Some(t@),
            None => bearer_of(match header { Some(h) => Some(h@), None => None }) is None,
        },
{
    match header {
        None => None,
        Some(h) => {
            let c = chars_of(h);
            let p = chars_of("Token ");
            proof { reveal_strlit("Token "); }
            if !crate::text::has_at(&c, 0, &p) {
                proof { assert(c@.subrange(0, c@.len() as int) == c@); }
                return None;
            }
            proof { assert(c@.subrange(0, c@.len() as int) == c@); }
            let rest: Vec<char> = chars_of(string_of_range(&c, 6, c.len()).as_str());
            proof { assert(rest@ == c@.skip(6)); }
            let t = trim_exec(&rest);
            if t.len() == 0 {
                None
            } else {
                Some(string_of(&t))
            }
        },
    }
}

/// The value of cookie `name` in a `Cookie` header: the first of its
/// `;`-separated items that, trimmed, starts with `name=`.
pub open spec fn cookie_of(header: Seq<char>, name: Seq<char>) -> Option<Seq<char>> {
    let items = split_char(header, ';');
    let key = name + "="@;
    if exists|i: int| 0 <= i < items.len() && starts_with(trim_ws(#[trigger] items[i]), key) {
        let i = choose|i: int| 0 <= i < items.len() && starts_with(trim_ws(#[trigger] items[i]), key)
            && forall|j: int| 0 <= j < i ==> !starts_with(trim_ws(#[trigger] items[j]), key);
        Some(trim_ws(items[i]).skip(key.len() as int))
    } else {
        None
    }
}

/// Reads cookie `name` from a `Cookie` header.
pub fn cookie(header: Option<&str>, name: &str) -> (r: Option<String>)
    ensures
        match header {
            None => r is None,
            Some(h) => match r {
                Some(v) => cookie_of(h@, name@) == Some(v@),
                None => cookie_of(h@, name@) is None,
            },
        },
{
    let h = match header {
        None => { return None; },
        Some(h) => h,
    };
    let c = chars_of(h);
    let items = split_exec(&c, ';');
    let ghost seqs = Seq::new(items@.len(), |j: int| items@[j]@);
    let mut key = owned(name);
    push_str(&mut key, "=");
    let k = chars_of(key.as_str());
    let mut i: usize = 0;
    while i < items.len()
        invariant
            i <= items@.len(),
            seqs == Seq::new(items@.len(), |j: int| items@[j]@),
            seqs == split_char(c@, ';'),
            c@ == h@,
            header == Some(h),
            k@ == name@ + "="@,
            forall|j: int| 0 <= j < i ==> !starts_with(trim_ws(#[trigger] seqs[j]), k@),
        decreases items.len() - i,
    {
        let t = trim_exec(&items[i]);
        proof { assert(seqs[i as int] == items@[i as int]@); }
        if k.len() <= t.len() && crate::text::has_at(&t, 0, &k) {
            proof {
                assert(t@.subrange(0, t@.len() as int) == t@);
                assert(starts_with(trim_ws(seqs[i as int]), k@));
                let w = choose|w: int| 0 <= w < seqs.len() && starts_with(trim_ws(#[trigger] seqs[w]), k@)
                    && forall|j: int| 0 <= j < w ==> !starts_with(trim_ws(#[trigger] seqs[j]), k@);
                if w < i { } else if w > i { assert(!starts_with(trim_ws(seqs[i as int]), k@)); }
            }
            let v = string_of_range(&t, k.len(), t.len());
            proof { assert(t@.subrange(k@.len() as int, t@.len() as int) == t@.skip(k@.len() as int)); }
            return Some(v);
        }
        proof { assert(t@.subrange(0, t@.len() as int) == t@); }
        i += 1;
    }
    None
}

/// The methods that change state and so need a CSRF token.
pub open spec fn is_unsafe_method(method: Seq<char>) -> bool {
    method == "POST"@ || method == "PUT"@ || method == "PATCH"@ || method == "DELETE"@
}

/// Whether an HTTP method changes state.
pub fn unsafe_method(method: &str) -> (r: bool)
    ensures r == is_unsafe_method(method@),
{
    str_eq(method, "POST") || str_eq(method, "PUT") || str_eq(method, "PATCH") || str_eq(method, "DELETE")
}

/// A cookie session: ids, the stored form of its CSRF token, and its
/// creation and expiry instants (nanoseconds since the Unix epoch).
#[derive(Debug, Clone)]
pub struct CurrentSession {
    pub id: i64,
    pub user_id: i64,
    pub csrf_hash: String,
    pub revision: i64,
    pub created_at: i128,
    pub expires_at: i128,
}

/// Whether the `X-CSRF-Token` header value matches the session.
pub fn csrf_valid(header: Option<&str>, session: &CurrentSession) -> (r: bool)
    ensures
        r == match header {
            Some(t) => token_hash_of(t@) == session.csrf_hash@,
            None => false,
        },
{
    match header {
        None => false,
        Some(t) => {
            let h = token_hash(t);
            str_eq(h.as_str(), session.csrf_hash.as_str())
        },
    }
}

/// Whether a request may go on: a state-changing request with a session
/// needs the session's CSRF token in `X-CSRF-Token`.
pub fn csrf_check(method: &str, header: Option<&str>, session: &CurrentSession) -> (r: Result<(), AppError>)
    ensures
        ({
            let valid = match header { Some(t) => token_hash_of(t@) == session.csrf_hash@, None => false };
            if is_unsafe_method(method@) && !valid {
                r matches Err(AppError::Forbidden(m)) && m@ == "CSRF validation failed"@
            } else {
                r is Ok
            }
        }),
{
    if unsafe_method(method) && !csrf_valid(header, session) {
        return Err(AppError::Forbidden(owned("CSRF validation failed")));
    }
    Ok(())
}

/// The `Set-Cookie` value of cookie `name` = `value`.
pub open spec fn cookie_header_of(config: SessionConfig, name: Seq<char>, value: Seq<char>, max_age: i64, http_only: bool) -> Seq<char> {
    name + "="@ + value + "; Path=/; Max-Age="@ + decimal_signed(max_age as int) + "; SameSite="@ + config.same_site@
        + (if http_only { "; HttpOnly"@ } else { Seq::empty() })
        + (if config.secure { "; Secure"@ } else { Seq::empty() })
}

/// The `Set-Cookie` value of cookie `name` = `value`, kept `max_age`
/// seconds.
pub fn cookie_header(config: &SessionConfig, name: &str, value: &str, max_age: i64, http_only: bool) -> (r: String)
    ensures r@ == cookie_header_of(*config, name@, value@, max_age, http_only),
{
    let mut r = owned(name);
    push_str(&mut r, "=");
    push_str(&mut r, value);
    push_str(&mut r, "; Path=/; Max-Age=");
    let a = i64_to_decimal(max_age);
    push_str(&mut r, a.as_str());
    push_str(&mut r, "; SameSite=");
    push_str(&mut r, config.same_site.as_str());
    let ghost base = r@;
    if http_only {
        push_str(&mut r, "; HttpOnly");
    } else {
        proof { assert(r@ == base + Seq::<char>::empty()); }
    }
    let ghost mid = r@;
    if config.secure {
        push_str(&mut r, "; Secure");
    } else {
        proof { assert(r@ == mid + Seq::<char>::empty()); }
    }
    r
}

/// Nanoseconds in a second.
pub open spec fn nanos(seconds: int) -> int {
    seconds * 1_000_000_000
}

/// The instants (nanoseconds since the epoch) that an `OffsetDateTime`
/// holds: years -9999 to 9999.
pub open spec fn in_time_range(t: int) -> bool {
    -377_705_116_800_000_000_000 <= t <= 253_402_300_799_999_999_999
}

/// The new expiry of a session that is used at `now`: only within the
/// renewal window before it expires, by the session lifetime from `now`,
/// never past its absolute lifetime from creation, and only when that is
/// later than its current expiry.
pub open spec fn renewal_of(config: SessionConfig, created_at: int, expires_at: int, now: int) -> Option<int> {
    if config.ttl_seconds <= 0 || config.renewal_window_seconds <= 0 || config.absolute_ttl_seconds <= 0
        || expires_at > now + nanos(config.renewal_window_seconds as int) {
        None
    } else {
        let absolute = created_at + nanos(config.absolute_ttl_seconds as int);
        let by_ttl = now + nanos(config.ttl_seconds as int);
        let e = if by_ttl <= absolute { by_ttl } else { absolute };
        if e > expires_at { Some(e) } else { None }
    }
}

/// The new expiry of `session` used at `now`, if it is renewed.
pub fn renewed_expiry(config: &SessionConfig, session: &CurrentSession, now: i128) -> (r: Option<i128>)
    requires
        in_time_range(session.created_at as int),
        in_time_range(session.expires_at as int),
        in_time_range(now as int),
        config.ttl_seconds > 0 && config.renewal_window_seconds > 0 && config.absolute_ttl_seconds > 0 ==>
            in_time_range(now + nanos(config.renewal_window_seconds as int)),
        config.ttl_seconds > 0 && config.renewal_window_seconds > 0 && config.absolute_ttl_seconds > 0
            && session.expires_at <= now + nanos(config.renewal_window_seconds as int) ==> {
                &&& in_time_range(session.created_at + nanos(config.absolute_ttl_seconds as int))
                &&& in_time_range(now + nanos(config.ttl_seconds as int))
            },
    ensures
        match r {
            Some(e) => renewal_of(*config, session.created_at as int, session.expires_at as int, now as int) == Some(e as int),
            None => renewal_of(*config, session.created_at as int, session.expires_at as int, now as int) is None,
        },
{
    if config.ttl_seconds <= 0 || config.renewal_window_seconds <= 0 || config.absolute_ttl_seconds <= 0 {
        return None;
    }
    let window: i128 = config.renewal_window_seconds as i128 * 1_000_000_000;
    if session.expires_at > now + window {
        return None;
    }
    let absolute: i128 = session.created_at + config.absolute_ttl_seconds as i128 * 1_000_000_000;
    let by_ttl: i128 = now + config.ttl_seconds as i128 * 1_000_000_000;
    let e = if by_ttl <= absolute { by_ttl } else { absolute };
    if e > session.expires_at { Some(e) } else { None }
}

/// The whole seconds of a span of nanoseconds, rounded toward zero.
pub open spec fn whole_seconds(span: int) -> int {
    if span >= 0 { span / 1_000_000_000 } else { -((-span) / 1_000_000_000) }
}

/// The `Max-Age` of cookies that expire at `expires_at`, set at `now`.
pub fn max_age(expires_at: i128, now: i128) -> (r: i64)
    requires
        in_time_range(expires_at as int),
        in_time_range(now as int),
    ensures r == whole_seconds(expires_at - now),
{
    let span: i128 = expires_at - now;
    if span >= 0 {
        (span / 1_000_000_000) as i64
    } else {
        -(((-span) / 1_000_000_000) as i64)
    }
}

/// The lifetime of a new session, in seconds: the session lifetime, but
/// not beyond the absolute lifetime when there is one.
pub fn session_ttl(config: &SessionConfig) -> (r: i64)
    ensures
        r == if config.absolute_ttl_seconds > 0 && config.absolute_ttl_seconds < config.ttl_seconds {
            config.absolute_ttl_seconds
        } else {
            config.ttl_seconds
        },
{
    if config.absolute_ttl_seconds > 0 && config.absolute_ttl_seconds < config.ttl_seconds {
        config.absolute_ttl_seconds
    } else {
        config.ttl_seconds
    }
}

/// Law: a session is renewed only within the renewal window before it
/// expires; a renewed session never outlives its absolute lifetime, and
/// renewal only ever extends it.
pub proof fn law_renewal_bounded(config: SessionConfig, created_at: int, expires_at: int, now: int)
    requires renewal_of(config, created_at, expires_at, now) is Some,
    ensures
        expires_at - now <= nanos(config.renewal_window_seconds as int),
        renewal_of(config, created_at, expires_at, now)->0 <= created_at + nanos(config.absolute_ttl_seconds as int),
        renewal_of(config, created_at, expires_at, now)->0 > expires_at,
        renewal_of(config, created_at, expires_at, now)->0 <= now + nanos(config.ttl_seconds as int),
{
}

/// Decides a token request once its token was looked up: `user` is the
/// owner of the token, if the token and its owner exist. An unknown token
/// and an inactive owner are refused.
pub fn token_user(user: Option<&User>) -> (r: Result<CurrentUser, AppError>)
    ensures
        match user {
            None => r matches Err(AppError::Unauthorized(m)) && m@ == "invalid token"@,
            Some(u) => if !u.is_active {
                r matches Err(AppError::Unauthorized(m)) && m@ == "inactive user"@
            } else {
                r matches Ok(c) && c.id == u.id && c.username@ == u.username@ && c.is_staff == u.is_staff
                    && c.is_admin == u.is_admin && c.is_superuser == u.is_superuser
            },
        },
{
    match user {
        None => Err(AppError::Unauthorized(owned("invalid token"))),
        Some(u) => {
            if !u.is_active {
                Err(AppError::Unauthorized(owned("inactive user")))
            } else {
                Ok(current_user(u))
            }
        },
    }
}

/// Whether a stored session may authenticate a request at `now`: it has not
/// expired and its user exists and is active.
pub fn session_usable(expires_at: i128, now: i128, user: Option<&User>) -> (r: bool)
    ensures r == (expires_at > now && user is Some && user->0.is_active),
{
    if expires_at <= now {
        return false;
    }
    match user {
        None => false,
        Some(u) => u.is_active,
    }
}

/// Decides a login once the user named in it was looked up: the user must
/// exist, be active and have the given password.
pub fn login_check(user: Option<&User>, password: &str) -> (r: Result<(), AppError>)
    ensures
        match user {
            Some(u) => if u.is_active && password_verifies(password@, u.password_hash@) {
                r is Ok
            } else {
                r matches Err(AppError::Unauthorized(m)) && m@ == "invalid session"@
            },
            None => r matches Err(AppError::Unauthorized(m)) && m@ == "invalid session"@,
        },
{
    match user {
        None => Err(AppError::Unauthorized(owned("invalid session"))),
        Some(u) => {
            if !u.is_active || !verify_password(password, u.password_hash.as_str()) {
                return Err(AppError::Unauthorized(owned("invalid session")));
            }
            Ok(())
        },
    }
}

/// The answer to `me` without a user.
pub fn require_user(user: Option<&CurrentUser>) -> (r: Result<(), AppError>)
    ensures
        user is Some ==> r is Ok,
        user is None ==> (r matches Err(AppError::Unauthorized(m)) && m@ == "invalid credentials"@),
{
    match user {
        Some(_) => Ok(()),
        None => Err(AppError::Unauthorized(owned("invalid credentials"))),
    }
}

} // verus!
