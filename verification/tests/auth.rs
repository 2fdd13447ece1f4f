use che_rest::auth::{module, CurrentPrincipal, CurrentUser, IsAdminUser, IsAuthenticated, ReadOnlyAdminUser, ViewAction};
use che_rest::config::SessionConfig;
use che_rest::error::AppError;
use che_rest::session::{
    bearer_token, cookie, cookie_header, csrf_check, csrf_valid, generate_token, hex_encode, hash_password, max_age,
    renewed_expiry, session_ttl, token_hash, unsafe_method, verify_password, CurrentSession,
};

const SECOND: i128 = 1_000_000_000;
const HOUR: i128 = 3600 * SECOND;
const DAY: i128 = 24 * HOUR;

fn user(is_admin: bool, is_superuser: bool) -> CurrentUser {
    CurrentUser { id: 1, username: "regular".into(), is_staff: false, is_admin, is_superuser }
}

fn session(created_at: i128, expires_at: i128, csrf_hash: String) -> CurrentSession {
    CurrentSession { id: 1, user_id: 2, csrf_hash, revision: 0, created_at, expires_at }
}

#[test]
fn password_hash_round_trip_and_token_hash_are_stable() {
    let hash = hash_password("secret").unwrap();
    assert!(verify_password("secret", &hash));
    assert!(!verify_password("wrong", &hash));
    assert_eq!(token_hash("token"), token_hash("token"));
    assert_ne!(token_hash("token"), token_hash("other"));
}

#[test]
fn csrf_requires_matching_token_header() {
    let token = "csrf-token";
    let s = session(0, 0, token_hash(token));
    assert!(csrf_valid(Some(token), &s));
    assert!(!csrf_valid(Some("wrong-token"), &s));
}

#[test]
fn session_is_renewed_only_in_the_renewal_window() {
    let config = SessionConfig::default();
    let now: i128 = 1_700_000_000 * SECOND;
    let s = session(now - 5 * DAY, now + HOUR, String::new());
    let renewed = renewed_expiry(&config, &s, now).unwrap();
    assert!(renewed > now + 6 * DAY);

    let s = session(now - 5 * DAY, now + 2 * DAY, String::new());
    assert!(renewed_expiry(&config, &s, now).is_none());
}

#[test]
fn session_renewal_does_not_exceed_absolute_ttl() {
    let config = SessionConfig::default();
    let now: i128 = 1_700_000_000 * SECOND;
    let created_at = now - 29 * DAY;
    let s = session(created_at, now + HOUR, String::new());
    assert_eq!(renewed_expiry(&config, &s, now), Some(created_at + 30 * DAY));
}

#[test]
fn cookie_parser_handles_multiple_cookies() {
    let header = Some("other=value; che_rest_session=session-key");
    assert_eq!(cookie(header, "che_rest_session"), Some("session-key".into()));
    assert_eq!(cookie(header, "missing"), None);
}

#[test]
fn admin_permission_requires_admin_or_superuser() {
    let regular = CurrentPrincipal::new(user(false, false));
    assert!(IsAdminUser.check(Some(&regular), ViewAction::List).is_err());
    let admin = CurrentPrincipal::new(user(true, false));
    assert!(IsAdminUser.check(Some(&admin), ViewAction::List).is_ok());
}

#[test]
fn superuser_counts_as_admin_and_relation_endpoint_is_read_only() {
    let root = CurrentPrincipal::new(user(false, true));
    assert!(IsAdminUser.check(Some(&root), ViewAction::Delete).is_ok());
    assert!(ReadOnlyAdminUser.check(Some(&root), ViewAction::Retrieve).is_ok());
    assert_eq!(
        ReadOnlyAdminUser.check(Some(&root), ViewAction::Create),
        Err(AppError::Forbidden("user relation endpoint is read-only".into()))
    );
    assert_eq!(
        IsAuthenticated.check(None, ViewAction::List),
        Err(AppError::Unauthorized("authentication credentials were not provided".into()))
    );
}

#[test]
fn token_hash_is_lower_hex_sha256() {
    assert_eq!(
        token_hash("abc"),
        "ba7816bf8f01cfea414140de5dae2223b00361a396177a9cb410ff61f20015ad"
    );
    assert_eq!(token_hash("").len(), 64);
}

#[test]
fn generated_tokens_are_hex_and_fresh() {
    let a = generate_token();
    let b = generate_token();
    assert_eq!(a.len(), 64);
    assert!(a.chars().all(|c| c.is_ascii_hexdigit() && !c.is_ascii_uppercase()));
    assert_ne!(a, b);
}

#[test]
fn bearer_token_needs_the_token_scheme() {
    assert_eq!(bearer_token(Some("Token  abc ")), Some("abc".into()));
    assert_eq!(bearer_token(Some("Token    ")), None);
    assert_eq!(bearer_token(Some("Bearer abc")), None);
    assert_eq!(bearer_token(None), None);
}

#[test]
fn csrf_check_only_guards_state_changing_methods() {
    let s = session(0, 0, token_hash("t"));
    assert!(unsafe_method("POST") && unsafe_method("DELETE") && !unsafe_method("GET"));
    assert!(csrf_check("GET", None, &s).is_ok());
    assert!(csrf_check("PATCH", Some("t"), &s).is_ok());
    assert_eq!(csrf_check("PUT", Some("x"), &s), Err(AppError::Forbidden("CSRF validation failed".into())));
}

#[test]
fn cookie_header_lists_the_attributes() {
    let mut config = SessionConfig::default();
    assert_eq!(
        cookie_header(&config, "che_rest_session", "key", 60, true),
        "che_rest_session=key; Path=/; Max-Age=60; SameSite=Lax; HttpOnly"
    );
    config.secure = true;
    assert_eq!(
        cookie_header(&config, "csrf_token", "", 0, false),
        "csrf_token=; Path=/; Max-Age=0; SameSite=Lax; Secure"
    );
    assert_eq!(cookie_header(&config, "a", "b", -5, false), "a=b; Path=/; Max-Age=-5; SameSite=Lax; Secure");
}

#[test]
fn session_lifetime_and_cookie_age() {
    let mut config = SessionConfig::default();
    assert_eq!(session_ttl(&config), 604_800);
    config.absolute_ttl_seconds = 100;
    assert_eq!(session_ttl(&config), 100);
    config.absolute_ttl_seconds = 0;
    assert_eq!(session_ttl(&config), 604_800);
    assert_eq!(max_age(10 * SECOND + 999, 0), 10);
    assert_eq!(max_age(0, 10 * SECOND + 999), -10);
}

#[test]
fn auth_module_carries_the_user_token_and_session_tables() {
    let auth = module();
    assert_eq!(auth.name(), "auth");
    assert_eq!(auth.tables(), vec!["auth_users".to_string(), "auth_tokens".to_string(), "auth_sessions".to_string()]);
}

#[test]
fn hex_encoding_is_lower_case_high_half_first() {
    assert_eq!(hex_encode(&vec![0x00, 0xab, 0x7f, 0x10]), "00ab7f10");
    assert_eq!(hex_encode(&vec![]), "");
    let all: Vec<u8> = (0..=255).collect();
    assert_eq!(hex_encode(&all), hex::encode(&all));
}

#[test]
fn the_admin_user_listing_is_read_only_and_filtered_by_username() {
    let viewset = che_rest::auth::admin_user_viewset();
    assert_eq!(viewset.path, "/auth/users");
    assert_eq!(viewset.model_name, "User");
    let names: Vec<&str> = viewset.fields.iter().map(|f| f.name.as_str()).collect();
    assert_eq!(names, vec!["id", "username"]);
    assert!(viewset.fields.iter().all(|f| f.read_only));
    let filters = che_rest::module::documented_filters(&viewset.filter_set, &viewset.columns);
    assert_eq!(filters.len(), 1);
    assert_eq!(filters[0].name, "username__contains");
}
