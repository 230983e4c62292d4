// The authorization-header contract around token verification.

use otp_auth::auth::{strip_bearer, verify_jwt, verify_tenant_jwt};
use otp_auth::outcome::StatusCategory;
use otp_auth::token::{issue_session_token, issue_tenant_token};

const KEY: &[u8] = b"header-check-key";

#[test]
fn missing_header_is_bad_request() {
    let (status, detail) = verify_jwt(None, 0, KEY);
    assert_eq!(status, StatusCategory::BadRequest);
    assert_eq!(detail, "Authorization header is required");
}

#[test]
fn header_without_bearer_prefix_is_bad_request() {
    let (status, detail) = verify_jwt(Some("Token abc"), 0, KEY);
    assert_eq!(status, StatusCategory::BadRequest);
    assert_eq!(detail, "Authorization header must start with Bearer");
}

#[test]
fn invalid_token_is_unauthorized() {
    let (status, detail) = verify_jwt(Some("Bearer garbage"), 0, KEY);
    assert_eq!(status, StatusCategory::Unauthorized);
    assert_eq!(status.code(), 401);
    assert_eq!(detail, "Invalid token");
}

#[test]
fn valid_token_is_acknowledged() {
    let t: u64 = 1_700_000_000;
    let token = issue_session_token("u", "acme", "authka", t, KEY).unwrap();
    let header = format!("Bearer {token}");
    let (status, detail) = verify_jwt(Some(&header), t, KEY);
    assert_eq!(status, StatusCategory::Success);
    assert_eq!(detail, "Valid token");
}

#[test]
fn expired_token_is_unauthorized() {
    let t: u64 = 1_700_000_000;
    let token = issue_session_token("u", "acme", "authka", t, KEY).unwrap();
    let header = format!("Bearer {token}");
    let (status, _) = verify_jwt(Some(&header), t + 86400, KEY);
    assert_eq!(status, StatusCategory::Unauthorized);
}

#[test]
fn tenant_header_round_trips_tenant_id() {
    let token = issue_tenant_token("acme", KEY).unwrap();
    let header = format!("Bearer {token}");
    let (status, tenantid) = verify_tenant_jwt(Some(&header), KEY);
    assert_eq!(status, StatusCategory::Success);
    assert_eq!(tenantid, "acme");
}

#[test]
fn tenant_header_checks() {
    let (status, detail) = verify_tenant_jwt(None, KEY);
    assert_eq!(status, StatusCategory::BadRequest);
    assert_eq!(detail, "Authorization header is required");
    let (status2, _) = verify_tenant_jwt(Some("Basic abc"), KEY);
    assert_eq!(status2, StatusCategory::BadRequest);
    let (status3, detail3) = verify_tenant_jwt(Some("Bearer bad.token.here"), KEY);
    assert_eq!(status3, StatusCategory::Unauthorized);
    assert_eq!(detail3, "Invalid token");
}

#[test]
fn bearer_prefix_is_stripped_exactly() {
    assert_eq!(strip_bearer("Bearer abc"), Some("abc".to_string()));
    assert_eq!(strip_bearer("Bearer "), Some("".to_string()));
    assert_eq!(strip_bearer("bearer abc"), None);
    assert_eq!(strip_bearer("Bearer"), None);
    assert_eq!(strip_bearer(""), None);
}
