// The OTP lifecycle, driven sequentially against the in-memory store with an
// explicit clock. The shared secret is the base32 encoding of the twenty-byte
// key "12345678901234567890".

use otp_auth::otp::{generate_token, request_otp, redeem_otp, DeliveryChannel, GenerationError};
use otp_auth::outcome::StatusCategory;
use otp_auth::store::OtpStore;
use otp_auth::token::verify_session_token;

const SECRET_B32: &str = "GEZDGNBVGY3TQOJQGEZDGNBVGY3TQOJQ";
const SIGNING_KEY: &[u8] = b"a-signing-key-for-tests";

#[test]
fn generated_code_matches_reference_vector() {
    // RFC 6238, SHA-1, time step 30: at 59 seconds the eight-digit code for
    // this key is 94287082, so the six-digit code is 287082.
    let code = generate_token(&SECRET_B32.to_string(), 59).unwrap();
    assert_eq!(code, "287082");
}

#[test]
fn generated_code_is_six_digits() {
    let code = generate_token(&SECRET_B32.to_string(), 1_700_000_000).unwrap();
    assert_eq!(code.len(), 6);
    assert!(code.chars().all(|c| c.is_ascii_digit()));
}

#[test]
fn generate_rejects_malformed_secret() {
    assert_eq!(
        generate_token(&"not base32 !!!".to_string(), 59),
        Err(GenerationError::BadEncoding)
    );
}

#[test]
fn generate_rejects_short_secret() {
    // eight base32 characters decode to five key bytes, under the minimum
    assert_eq!(
        generate_token(&"JBSWY3DP".to_string(), 59),
        Err(GenerationError::KeyTooShort)
    );
}

#[test]
fn request_with_bad_secret_reports_the_cause() {
    let mut store = OtpStore::new();
    let outcome = request_otp(
        &mut store,
        &"+15551234567".to_string(),
        &"acme".to_string(),
        &"not base32 !!!".to_string(),
        1_700_000_000,
    )
    .unwrap_err();
    assert_eq!(outcome.status, StatusCategory::Internal);
    assert_eq!(outcome.detail, "Failed to generate OTP: secret is not valid base32");

    let short = request_otp(
        &mut store,
        &"+15551234567".to_string(),
        &"acme".to_string(),
        &"JBSWY3DP".to_string(),
        1_700_000_000,
    )
    .unwrap_err();
    assert_eq!(short.detail, "Failed to generate OTP: decoded secret is shorter than 16 bytes");
}

#[test]
fn requested_code_redeems_to_token_for_identity() {
    let mut store = OtpStore::new();
    let identity = "+15551234567".to_string();
    let domain = "acme".to_string();
    let t0: u64 = 1_700_000_000;

    let plan = request_otp(&mut store, &identity, &domain, &SECRET_B32.to_string(), t0).unwrap();
    assert_eq!(plan.channel, DeliveryChannel::Sms);
    assert_eq!(plan.recipient, identity);

    // the store holds the pending verification under the code, for 300 seconds
    let pending = store.get(&plan.code, t0).unwrap();
    assert_eq!(pending.0, identity);
    assert_eq!(pending.1, domain);
    assert!(store.get(&plan.code, t0 + 299).is_some());
    assert!(store.get(&plan.code, t0 + 300).is_none());

    // redeem within the lifetime
    let t1 = t0 + 60;
    let outcome = redeem_otp(&mut store, &plan.code, &"authka".to_string(), SIGNING_KEY, t1);
    assert_eq!(outcome.status, StatusCategory::Success);
    assert_eq!(outcome.status.code(), 200);

    // the token round-trips the identity and domain
    let claims = verify_session_token(&outcome.detail, t1, SIGNING_KEY).unwrap();
    assert_eq!(claims.sub, identity);
    assert_eq!(claims.aud, domain);
    assert_eq!(claims.iss, "authka");
    assert_eq!(claims.scope, "user");
    assert_eq!(claims.iat, t1);
    assert_eq!(claims.exp, t1 + 86400);
}

#[test]
fn second_redemption_reports_not_found() {
    let mut store = OtpStore::new();
    let t0: u64 = 1_700_000_000;
    let plan = request_otp(
        &mut store,
        &"+15551234567".to_string(),
        &"acme".to_string(),
        &SECRET_B32.to_string(),
        t0,
    )
    .unwrap();

    let first = redeem_otp(&mut store, &plan.code, &"authka".to_string(), SIGNING_KEY, t0 + 1);
    assert_eq!(first.status, StatusCategory::Success);

    let second = redeem_otp(&mut store, &plan.code, &"authka".to_string(), SIGNING_KEY, t0 + 2);
    assert_eq!(second.status, StatusCategory::NotFound);
    assert_eq!(second.detail, "OTP not found or expired");
}

#[test]
fn expired_code_reports_not_found() {
    let mut store = OtpStore::new();
    let t0: u64 = 1_700_000_000;
    let plan = request_otp(
        &mut store,
        &"+15551234567".to_string(),
        &"acme".to_string(),
        &SECRET_B32.to_string(),
        t0,
    )
    .unwrap();

    // exactly at the expiry time the entry is gone
    let late = redeem_otp(&mut store, &plan.code, &"authka".to_string(), SIGNING_KEY, t0 + 300);
    assert_eq!(late.status, StatusCategory::NotFound);
}

#[test]
fn redemption_just_before_expiry_succeeds() {
    let mut store = OtpStore::new();
    let t0: u64 = 1_700_000_000;
    let plan = request_otp(
        &mut store,
        &"+15551234567".to_string(),
        &"acme".to_string(),
        &SECRET_B32.to_string(),
        t0,
    )
    .unwrap();
    let outcome = redeem_otp(&mut store, &plan.code, &"authka".to_string(), SIGNING_KEY, t0 + 299);
    assert_eq!(outcome.status, StatusCategory::Success);
}

#[test]
fn unknown_code_reports_not_found() {
    let mut store = OtpStore::new();
    let outcome = redeem_otp(
        &mut store,
        &"000000".to_string(),
        &"authka".to_string(),
        SIGNING_KEY,
        1_700_000_000,
    );
    assert_eq!(outcome.status, StatusCategory::NotFound);
    assert_eq!(outcome.status.code(), 404);
}

#[test]
fn email_shaped_identity_routes_to_email() {
    let mut store = OtpStore::new();
    let plan = request_otp(
        &mut store,
        &"user@example.com".to_string(),
        &"acme".to_string(),
        &SECRET_B32.to_string(),
        1_700_000_000,
    )
    .unwrap();
    assert_eq!(plan.channel, DeliveryChannel::Email);
}

#[test]
fn delivery_outcome_reports_sent_and_gateway_failure() {
    let ok = otp_auth::otp::delivery_outcome(Ok(()));
    assert_eq!(ok.status, StatusCategory::Success);
    assert_eq!(ok.detail, "OTP sent");

    let err = otp_auth::otp::delivery_outcome(Err("connection refused".to_string()));
    assert_eq!(err.status, StatusCategory::BadGateway);
    assert_eq!(err.status.code(), 502);
    assert_eq!(err.detail, "Reqwest error: connection refused");
}
