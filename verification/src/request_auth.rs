use vstd::prelude::*;

use crate::auth::{current_user, CurrentUser, User};
use crate::config::SessionConfig;
use crate::error::AppError;
use crate::session::{
    bearer_of, bearer_token, cookie, cookie_header, cookie_header_of, cookie_of, csrf_check, in_time_range,
    is_unsafe_method, max_age, nanos, renewal_of, renewed_expiry, session_usable, token_hash, token_hash_of,
    token_user, whole_seconds, CurrentSession,
};
use crate::text::owned;

verus! {

/// Where the authentication of one request stands.
#[derive(Debug)]
pub enum AuthState {
    /// Nothing of the request has been read.
    Start,
    /// Waiting for the user of the bearer token.
    TokenLookup,
    /// The token's user is known; waiting for the application's own user.
    TokenPrincipal { user: CurrentUser },
    /// Waiting for the session of the session cookie.
    SessionLookup { key: String, csrf_cookie: Option<String>, method: String, csrf_header: Option<String> },
    /// The session passed its checks; waiting for the application's user.
    SessionPrincipal { key: String, csrf_token: Option<String>, session: CurrentSession, user: CurrentUser },
    /// The request was handed on; waiting for its response.
    Responding { key: String, csrf_token: Option<String>, session: CurrentSession },
    /// Nothing more to do.
    Done,
}

/// What the runtime reports back.
#[derive(Debug)]
pub enum AuthEvent {
    /// A request arrived: its `Authorization` and `Cookie` headers, its
    /// method and its `X-CSRF-Token` header.
    Request { authorization: Option<String>, cookies: Option<String>, method: String, csrf_header: Option<String> },
    /// The user of the looked-up token, if the token and its user exist.
    TokenFound(Option<User>),
    /// The looked-up session with its user (if any), and the time it was
    /// read at, in nanoseconds since the epoch.
    SessionFound(Option<(CurrentSession, Option<User>)>, i128),
    /// Whether resolving the application's own user succeeded.
    AppUserResolved(Result<(), AppError>),
    /// The response came back, at this time.
    Responded(i128),
}

/// What the runtime does next.
#[derive(Debug)]
pub enum AuthAction {
    /// Look up the token whose stored hash is this, and its user.
    LookupToken(String),
    /// Look up the session whose stored key hash is this, and its user.
    LoadSession(String),
    /// Resolve the application's own user of the user just found.
    ResolveAppUser,
    /// Hand the request on, with this principal and session attached;
    /// without either, the request goes on unchanged.
    RunNext { principal: Option<CurrentUser>, session: Option<CurrentSession> },
    /// Answer the request with this error.
    Respond(AppError),
    /// Move the session's expiry to `expires_at` and, if that was stored,
    /// add the two cookie headers to the response.
    Renew { session_id: i64, expires_at: i128, max_age: i64, session_cookie: String, csrf_cookie: String },
    /// Leave the response as it is.
    Finish,
}

/// The text view of an optional string.
pub open spec fn opt_view(o: Option<String>) -> Option<Seq<char>> {
    match o {
        Some(s) => Some(s@),
        None => None,
    }
}

/// The value of cookie `name` in an optional `Cookie` header.
pub open spec fn cookie_in(header: Option<Seq<char>>, name: Seq<char>) -> Option<Seq<char>> {
    match header {
        Some(h) => cookie_of(h, name),
        None => None,
    }
}

/// `c` is the framework user of `u`.
pub open spec fn principal_of(c: CurrentUser, u: User) -> bool {
    c.id == u.id && c.username@ == u.username@ && c.is_staff == u.is_staff && c.is_admin == u.is_admin
        && c.is_superuser == u.is_superuser
}

/// `a` and `b` are the same session.
pub open spec fn same_session(a: CurrentSession, b: CurrentSession) -> bool {
    a.id == b.id && a.user_id == b.user_id && a.csrf_hash@ == b.csrf_hash@ && a.revision == b.revision
        && a.created_at == b.created_at && a.expires_at == b.expires_at
}

/// The CSRF header `header` matches `session`.
pub open spec fn csrf_matches(header: Option<String>, session: CurrentSession) -> bool {
    match header {
        Some(t) => token_hash_of(t@) == session.csrf_hash@,
        None => false,
    }
}

/// The renewal of `session` at `now` stays within the instants a time
/// stamp can hold.
pub open spec fn renewal_in_range(config: SessionConfig, session: CurrentSession, now: int) -> bool {
    &&& in_time_range(session.created_at as int)
    &&& in_time_range(session.expires_at as int)
    &&& in_time_range(now)
    &&& config.ttl_seconds > 0 && config.renewal_window_seconds > 0 && config.absolute_ttl_seconds > 0 ==>
        in_time_range(now + nanos(config.renewal_window_seconds as int))
    &&& config.ttl_seconds > 0 && config.renewal_window_seconds > 0 && config.absolute_ttl_seconds > 0
        && session.expires_at <= now + nanos(config.renewal_window_seconds as int) ==> {
            &&& in_time_range(session.created_at + nanos(config.absolute_ttl_seconds as int))
            &&& in_time_range(now + nanos(config.ttl_seconds as int))
        }
}

fn in_range_exec(t: i128) -> (r: bool)
    ensures r == in_time_range(t as int),
{
    -377_705_116_800_000_000_000i128 <= t && t <= 253_402_300_799_999_999_999i128
}

fn renewal_in_range_exec(config: &SessionConfig, session: &CurrentSession, now: i128) -> (r: bool)
    ensures r == renewal_in_range(*config, *session, now as int),
{
    if !(in_range_exec(session.created_at) && in_range_exec(session.expires_at) && in_range_exec(now)) {
        return false;
    }
    if !(config.ttl_seconds > 0 && config.renewal_window_seconds > 0 && config.absolute_ttl_seconds > 0) {
        return true;
    }
    let window: i128 = config.renewal_window_seconds as i128 * 1_000_000_000;
    if !in_range_exec(now + window) {
        return false;
    }
    if session.expires_at > now + window {
        return true;
    }
    let absolute: i128 = session.created_at + config.absolute_ttl_seconds as i128 * 1_000_000_000;
    let by_ttl: i128 = now + config.ttl_seconds as i128 * 1_000_000_000;
    in_range_exec(absolute) && in_range_exec(by_ttl)
}

fn copy_session(s: &CurrentSession) -> (r: CurrentSession)
    ensures same_session(r, *s),
{
    CurrentSession {
        id: s.id,
        user_id: s.user_id,
        csrf_hash: owned(s.csrf_hash.as_str()),
        revision: s.revision,
        created_at: s.created_at,
        expires_at: s.expires_at,
    }
}

fn as_deref(o: &Option<String>) -> (r: Option<&str>)
    ensures
        match o {
            Some(s) => r matches Some(t) && t@ == s@,
            None => r is None,
        },
{
    match o {
        Some(s) => Some(s.as_str()),
        None => None,
    }
}

/// One step of authenticating a request. A bearer token is tried first,
/// and a bad token or an inactive user is refused with no fallback to the
/// cookie; token requests never reach the CSRF check. Without a bearer
/// token, a request with no session cookie, or whose session is missing,
/// expired or of an inactive user, goes on unchanged. A session request with
/// an unsafe method needs the CSRF header of its session, else it is
/// refused. After the response, a session is renewed only when the CSRF
/// cookie belongs to it, with the expiry `renewed_expiry` gives. Any other
/// event ends the step with nothing to do.
pub fn auth_next(config: &SessionConfig, state: AuthState, event: AuthEvent) -> (r: (AuthState, AuthAction))
    ensures
        match (state, event) {
            (AuthState::Start, AuthEvent::Request { authorization, cookies, method, csrf_header }) =>
                match bearer_of(opt_view(authorization)) {
                    Some(t) => r.0 is TokenLookup && (r.1 matches AuthAction::LookupToken(h) && h@ == token_hash_of(t)),
                    None => match cookie_in(opt_view(cookies), config.cookie_name@) {
                        None => r.0 is Done && (r.1 matches AuthAction::RunNext { principal: None, session: None }),
                        Some(k) => {
                            &&& r.1 matches AuthAction::LoadSession(h) && h@ == token_hash_of(k)
                            &&& r.0 matches AuthState::SessionLookup { key, csrf_cookie, method: m, csrf_header: x }
                                && key@ == k && opt_view(csrf_cookie) == cookie_in(opt_view(cookies), config.csrf_cookie_name@)
                                && m == method && x == csrf_header
                        },
                    },
                },
            (AuthState::TokenLookup, AuthEvent::TokenFound(user)) => r.0 is Done || r.0 is TokenPrincipal,
            (AuthState::TokenPrincipal { user }, AuthEvent::AppUserResolved(res)) => r.0 is Done && match res {
                Err(e) => r.1 == AuthAction::Respond(e),
                Ok(_) => r.1 == AuthAction::RunNext { principal: Some(user), session: None },
            },
            (AuthState::SessionLookup { key, csrf_cookie, method, csrf_header }, AuthEvent::SessionFound(found, now)) =>
                match found {
                    Some((s, Some(u))) => if !(s.expires_at > now && u.is_active) {
                        r.0 is Done && (r.1 matches AuthAction::RunNext { principal: None, session: None })
                    } else if is_unsafe_method(method@) && !csrf_matches(csrf_header, s) {
                        r.0 is Done && (r.1 matches AuthAction::Respond(AppError::Forbidden(m)) && m@ == "CSRF validation failed"@)
                    } else {
                        &&& r.1 is ResolveAppUser
                        &&& r.0 matches AuthState::SessionPrincipal { key: k, csrf_token, session, user: c }
                            && k == key && session == s && principal_of(c, u)
                            && csrf_token == (match csrf_cookie {
                                Some(t) => if token_hash_of(t@) == s.csrf_hash@ { Some(t) } else { None },
                                None => None,
                            })
                    },
                    _ => r.0 is Done && (r.1 matches AuthAction::RunNext { principal: None, session: None }),
                },
            (AuthState::SessionPrincipal { key, csrf_token, session, user }, AuthEvent::AppUserResolved(res)) => match res {
                Err(e) => r.0 is Done && r.1 == AuthAction::Respond(e),
                Ok(_) => {
                    &&& r.0 == AuthState::Responding { key, csrf_token, session }
                    &&& r.1 matches AuthAction::RunNext { principal: Some(p), session: Some(t) }
                        && p == user && same_session(t, session)
                },
            },
            (AuthState::Responding { key, csrf_token, session }, AuthEvent::Responded(now)) => r.0 is Done && match csrf_token {
                Some(t) => if renewal_in_range(*config, session, now as int)
                    && renewal_of(*config, session.created_at as int, session.expires_at as int, now as int) is Some {
                    let e = renewal_of(*config, session.created_at as int, session.expires_at as int, now as int)->Some_0;
                    r.1 matches AuthAction::Renew { session_id, expires_at, max_age, session_cookie, csrf_cookie }
                        && session_id == session.id && expires_at == e && max_age == whole_seconds(e - now)
                        && session_cookie@ == cookie_header_of(*config, config.cookie_name@, key@, max_age, true)
                        && csrf_cookie@ == cookie_header_of(*config, config.csrf_cookie_name@, t@, max_age, false)
                } else {
                    r.1 is Finish
                },
                None => r.1 is Finish,
            },
            _ => r.0 is Done && r.1 is Finish,
        },
        // The token step, in full.
        (state is TokenLookup && event is TokenFound) ==> match event {
            AuthEvent::TokenFound(None) =>
                r.0 is Done && (r.1 matches AuthAction::Respond(AppError::Unauthorized(m)) && m@ == "invalid token"@),
            AuthEvent::TokenFound(Some(u)) => if !u.is_active {
                r.0 is Done && (r.1 matches AuthAction::Respond(AppError::Unauthorized(m)) && m@ == "inactive user"@)
            } else {
                r.1 is ResolveAppUser && (r.0 matches AuthState::TokenPrincipal { user: c } && principal_of(c, u))
            },
            _ => true,
        },
{
    match (state, event) {
        (AuthState::Start, AuthEvent::Request { authorization, cookies, method, csrf_header }) => {
            match bearer_token(as_deref(&authorization)) {
                Some(t) => (AuthState::TokenLookup, AuthAction::LookupToken(token_hash(t.as_str()))),
                None => {
                    let header = as_deref(&cookies);
                    match cookie(header, config.cookie_name.as_str()) {
                        None => (AuthState::Done, AuthAction::RunNext { principal: None, session: None }),
                        Some(key) => {
                            let csrf_cookie = cookie(header, config.csrf_cookie_name.as_str());
                            let hash = token_hash(key.as_str());
                            (AuthState::SessionLookup { key, csrf_cookie, method, csrf_header }, AuthAction::LoadSession(hash))
                        },
                    }
                },
            }
        },
        (AuthState::TokenLookup, AuthEvent::TokenFound(user)) => {
            match token_user(user.as_ref()) {
                Err(e) => (AuthState::Done, AuthAction::Respond(e)),
                Ok(c) => (AuthState::TokenPrincipal { user: c }, AuthAction::ResolveAppUser),
            }
        },
        (AuthState::TokenPrincipal { user }, AuthEvent::AppUserResolved(res)) => {
            match res {
                Err(e) => (AuthState::Done, AuthAction::Respond(e)),
                Ok(_) => (AuthState::Done, AuthAction::RunNext { principal: Some(user), session: None }),
            }
        },
        (AuthState::SessionLookup { key, csrf_cookie, method, csrf_header }, AuthEvent::SessionFound(found, now)) => {
            match found {
                Some((s, Some(u))) => {
                    if !session_usable(s.expires_at, now, Some(&u)) {
                        return (AuthState::Done, AuthAction::RunNext { principal: None, session: None });
                    }
                    match csrf_check(method.as_str(), as_deref(&csrf_header), &s) {
                        Err(e) => (AuthState::Done, AuthAction::Respond(e)),
                        Ok(()) => {
                            let csrf_token = match csrf_cookie {
                                Some(t) => {
                                    let h = token_hash(t.as_str());
                                    if crate::text::str_eq(h.as_str(), s.csrf_hash.as_str()) { Some(t) } else { None }
                                },
                                None => None,
                            };
                            let c = current_user(&u);
                            (AuthState::SessionPrincipal { key, csrf_token, session: s, user: c }, AuthAction::ResolveAppUser)
                        },
                    }
                },
                _ => (AuthState::Done, AuthAction::RunNext { principal: None, session: None }),
            }
        },
        (AuthState::SessionPrincipal { key, csrf_token, session, user }, AuthEvent::AppUserResolved(res)) => {
            match res {
                Err(e) => (AuthState::Done, AuthAction::Respond(e)),
                Ok(_) => {
                    let attached = copy_session(&session);
                    (
                        AuthState::Responding { key, csrf_token, session },
                        AuthAction::RunNext { principal: Some(user), session: Some(attached) },
                    )
                },
            }
        },
        (AuthState::Responding { key, csrf_token, session }, AuthEvent::Responded(now)) => {
            match csrf_token {
                None => (AuthState::Done, AuthAction::Finish),
                Some(t) => {
                    if !renewal_in_range_exec(config, &session, now) {
                        return (AuthState::Done, AuthAction::Finish);
                    }
                    match renewed_expiry(config, &session, now) {
                        None => (AuthState::Done, AuthAction::Finish),
                        Some(e) => {
                            let age = max_age(e, now);
                            let session_cookie = cookie_header(config, config.cookie_name.as_str(), key.as_str(), age, true);
                            let csrf_cookie = cookie_header(config, config.csrf_cookie_name.as_str(), t.as_str(), age, false);
                            (AuthState::Done, AuthAction::Renew { session_id: session.id, expires_at: e, max_age: age, session_cookie, csrf_cookie })
                        },
                    }
                },
            }
        },
        _ => (AuthState::Done, AuthAction::Finish),
    }
}

} // verus!
