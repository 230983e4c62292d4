// Session and tenant tokens: round trips, expiry, and rejection of mutated
// tokens, run against the real signing backend.

use otp_auth::token::{
    issue_session_token, issue_tenant_token, verify_session_token, verify_tenant_token,
};

const KEY: &[u8] = b"another-signing-key";

#[test]
fn session_token_round_trips_identity_and_domain() {
    let t: u64 = 1_700_000_000;
    let token = issue_session_token("+15551234567", "acme", "authka", t, KEY).unwrap();
    let claims = verify_session_token(&token, t, KEY).unwrap();
    assert_eq!(claims.sub, "+15551234567");
    assert_eq!(claims.aud, "acme");
    assert_eq!(claims.iss, "authka");
    assert_eq!(claims.scope, "user");
    assert_eq!(claims.iat, t);
    assert_eq!(claims.exp, t + 86400);
}

#[test]
fn session_token_round_trips_awkward_text() {
    // quotes, backslashes and non-ASCII text survive the payload escaping
    let t: u64 = 1_700_000_000;
    let identity = "na\"me\\with\u{e9}";
    let token = issue_session_token(identity, "acme", "authka", t, KEY).unwrap();
    let claims = verify_session_token(&token, t, KEY).unwrap();
    assert_eq!(claims.sub, identity);
}

#[test]
fn token_expires_after_a_day() {
    let t: u64 = 1_700_000_000;
    let token = issue_session_token("u", "acme", "authka", t, KEY).unwrap();
    assert!(verify_session_token(&token, t + 86399, KEY).is_ok());
    assert!(verify_session_token(&token, t + 86400, KEY).is_err());
}

#[test]
fn mutated_signature_is_rejected() {
    let t: u64 = 1_700_000_000;
    let token = issue_session_token("u", "acme", "authka", t, KEY).unwrap();
    let mut bytes = token.into_bytes();
    let last = bytes.len() - 1;
    bytes[last] = if bytes[last] == b'A' { b'B' } else { b'A' };
    let mutated = String::from_utf8(bytes).unwrap();
    assert!(verify_session_token(&mutated, t, KEY).is_err());
}

#[test]
fn mutated_payload_is_rejected() {
    let t: u64 = 1_700_000_000;
    let token = issue_session_token("u", "acme", "authka", t, KEY).unwrap();
    let mut bytes = token.clone().into_bytes();
    let first_dot = bytes.iter().position(|&b| b == b'.').unwrap();
    let p = first_dot + 1;
    bytes[p] = if bytes[p] == b'A' { b'B' } else { b'A' };
    let mutated = String::from_utf8(bytes).unwrap();
    assert!(verify_session_token(&mutated, t, KEY).is_err());
}

#[test]
fn wrong_key_is_rejected() {
    let t: u64 = 1_700_000_000;
    let token = issue_session_token("u", "acme", "authka", t, KEY).unwrap();
    assert!(verify_session_token(&token, t, b"a different key").is_err());
}

#[test]
fn garbage_tokens_are_rejected() {
    let t: u64 = 1_700_000_000;
    assert!(verify_session_token("", t, KEY).is_err());
    assert!(verify_session_token("abc", t, KEY).is_err());
    assert!(verify_session_token("a.b", t, KEY).is_err());
    assert!(verify_session_token("a.b.c", t, KEY).is_err());
}

#[test]
fn tenant_token_round_trips_tenant_id() {
    let token = issue_tenant_token("acme", KEY).unwrap();
    let claims = verify_tenant_token(&token, KEY).unwrap();
    assert_eq!(claims.tenantid, "acme");
}

#[test]
fn tenant_token_is_not_a_session_token() {
    let t: u64 = 1_700_000_000;
    let token = issue_tenant_token("acme", KEY).unwrap();
    assert!(verify_session_token(&token, t, KEY).is_err());
}
