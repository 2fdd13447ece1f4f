use che_rest::auth::User;
use che_rest::config::SessionConfig;
use che_rest::error::AppError;
use che_rest::request_auth::{auth_next, AuthAction, AuthEvent, AuthState};
use che_rest::session::{token_hash, CurrentSession};

const SECOND: i128 = 1_000_000_000;
const DAY: i128 = 86_400 * SECOND;

fn request(authorization: Option<&str>, cookies: Option<&str>, method: &str, csrf: Option<&str>) -> AuthEvent {
    AuthEvent::Request {
        authorization: authorization.map(str::to_string),
        cookies: cookies.map(str::to_string),
        method: method.to_string(),
        csrf_header: csrf.map(str::to_string),
    }
}

fn user(active: bool) -> User {
    User {
        id: 7,
        username: "ada".into(),
        password_hash: String::new(),
        is_active: active,
        is_staff: false,
        is_admin: false,
        is_superuser: false,
    }
}

fn session(expires_at: i128) -> CurrentSession {
    CurrentSession { id: 3, user_id: 7, csrf_hash: token_hash("csrf-1"), revision: 0, created_at: 0, expires_at }
}

#[test]
fn a_bearer_token_is_tried_before_the_session_cookie() {
    let config = SessionConfig::default();
    let (state, action) =
        auth_next(&config, AuthState::Start, request(Some("Token abc"), Some("che_rest_session=key"), "POST", None));
    assert!(matches!(state, AuthState::TokenLookup));
    assert!(matches!(action, AuthAction::LookupToken(ref h) if *h == token_hash("abc")));
}

#[test]
fn bad_tokens_are_refused_without_falling_back_to_the_cookie() {
    let config = SessionConfig::default();
    let (_, action) = auth_next(&config, AuthState::TokenLookup, AuthEvent::TokenFound(None));
    assert!(matches!(action, AuthAction::Respond(AppError::Unauthorized(ref m)) if m == "invalid token"));
    let (_, action) = auth_next(&config, AuthState::TokenLookup, AuthEvent::TokenFound(Some(user(false))));
    assert!(matches!(action, AuthAction::Respond(AppError::Unauthorized(ref m)) if m == "inactive user"));
}

#[test]
fn token_requests_skip_the_csrf_check() {
    let config = SessionConfig::default();
    let (state, action) = auth_next(&config, AuthState::TokenLookup, AuthEvent::TokenFound(Some(user(true))));
    assert!(matches!(action, AuthAction::ResolveAppUser));
    let (state, action) = auth_next(&config, state, AuthEvent::AppUserResolved(Ok(())));
    match action {
        AuthAction::RunNext { principal: Some(p), session: None } => assert_eq!(p.username, "ada"),
        other => panic!("expected the request to go on, got {:?}", other),
    }
    let (_, action) = auth_next(&config, state, AuthEvent::Responded(0));
    assert!(matches!(action, AuthAction::Finish));
}

#[test]
fn requests_without_a_usable_session_go_on_unchanged() {
    let config = SessionConfig::default();
    let (_, action) = auth_next(&config, AuthState::Start, request(None, None, "GET", None));
    assert!(matches!(action, AuthAction::RunNext { principal: None, session: None }));
    let (state, action) = auth_next(&config, AuthState::Start, request(None, Some("che_rest_session=key"), "GET", None));
    assert!(matches!(action, AuthAction::LoadSession(ref h) if *h == token_hash("key")));
    let (_, action) = auth_next(&config, state, AuthEvent::SessionFound(Some((session(10), Some(user(true)))), 20));
    assert!(matches!(action, AuthAction::RunNext { principal: None, session: None }));
}

#[test]
fn unsafe_session_requests_need_the_csrf_header() {
    let config = SessionConfig::default();
    let start = || {
        auth_next(&config, AuthState::Start, request(None, Some("che_rest_session=key; csrf_token=csrf-1"), "POST", None)).0
    };
    let (_, action) = auth_next(&config, start(), AuthEvent::SessionFound(Some((session(DAY), Some(user(true)))), 0));
    assert!(matches!(action, AuthAction::Respond(AppError::Forbidden(ref m)) if m == "CSRF validation failed"));
}

#[test]
fn sessions_are_renewed_only_with_their_csrf_cookie() {
    let config = SessionConfig::default();
    let cookies = "che_rest_session=key; csrf_token=csrf-1";
    let (state, _) = auth_next(&config, AuthState::Start, request(None, Some(cookies), "POST", Some("csrf-1")));
    let (state, action) = auth_next(&config, state, AuthEvent::SessionFound(Some((session(DAY / 2), Some(user(true)))), 0));
    assert!(matches!(action, AuthAction::ResolveAppUser));
    let (state, action) = auth_next(&config, state, AuthEvent::AppUserResolved(Ok(())));
    assert!(matches!(action, AuthAction::RunNext { principal: Some(_), session: Some(_) }));
    let (_, action) = auth_next(&config, state, AuthEvent::Responded(0));
    match action {
        AuthAction::Renew { session_id, expires_at, max_age, session_cookie, csrf_cookie } => {
            assert_eq!(session_id, 3);
            assert_eq!(expires_at, 7 * DAY);
            assert_eq!(max_age, 604_800);
            assert!(session_cookie.starts_with("che_rest_session=key; Path=/; Max-Age=604800"));
            assert!(csrf_cookie.starts_with("csrf_token=csrf-1; Path=/; Max-Age=604800"));
        }
        other => panic!("expected a renewal, got {:?}", other),
    }

    let other = "che_rest_session=key; csrf_token=stale";
    let (state, _) = auth_next(&config, AuthState::Start, request(None, Some(other), "GET", None));
    let (state, _) = auth_next(&config, state, AuthEvent::SessionFound(Some((session(DAY / 2), Some(user(true)))), 0));
    let (state, _) = auth_next(&config, state, AuthEvent::AppUserResolved(Ok(())));
    let (_, action) = auth_next(&config, state, AuthEvent::Responded(0));
    assert!(matches!(action, AuthAction::Finish));
}
