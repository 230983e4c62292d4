// Request building for the external tenant store, and the verification
// envelope.

use otp_auth::mail::build_verification_email;
use otp_auth::users::{create_req_body, create_req_headers, User};

#[test]
fn store_user_headers_are_exact() {
    let headers = create_req_headers(&"dXNlcjpwYXNz".to_string(), &"acme".to_string());
    assert_eq!(headers.len(), 4);
    assert_eq!(headers[0], ("Accept".to_string(), "application/json".to_string()));
    assert_eq!(
        headers[1],
        ("Authorization".to_string(), "Basic dXNlcjpwYXNz".to_string())
    );
    assert_eq!(headers[2], ("DB".to_string(), "acme".to_string()));
    assert_eq!(headers[3], ("NS".to_string(), "acme".to_string()));
}

#[test]
fn store_user_body_is_exact() {
    let user = User {
        username: "alice".to_string(),
        password: "secret-pw".to_string(),
        client_domain: "acme".to_string(),
    };
    assert_eq!(
        create_req_body(&user),
        "CREATE user CONTENT {\"username\": \"alice\", \"password\": \"secret-pw\", \"verified\": false}"
    );
}

#[test]
fn verification_email_carries_the_code() {
    let envelope = build_verification_email(
        &"noreply@authka.example".to_string(),
        &"alice@example.com".to_string(),
        &"287082".to_string(),
    );
    assert_eq!(envelope.from, "noreply@authka.example");
    assert_eq!(envelope.to, "alice@example.com");
    assert_eq!(envelope.subject, "Your verification code");
    assert_eq!(envelope.body, "Your verification code is 287082");
}
