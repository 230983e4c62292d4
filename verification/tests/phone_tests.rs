// Classification of identities as SMS-routable phone numbers.

use otp_auth::phone::is_phone_number;

#[test]
fn phone_shaped_identities_classify_as_sms_routable() {
    assert!(is_phone_number("+1-202-555-0130"));
    assert!(is_phone_number("0919123456789"));
    assert!(is_phone_number("+15551234567"));
    assert!(is_phone_number("+639123456789"));
    assert!(is_phone_number("202-555-0130"));
    assert!(is_phone_number("202 555 0130"));
    assert!(is_phone_number("202.555.0130"));
    assert!(is_phone_number("(202)555-0130"));
    assert!(is_phone_number("+1 (202) 555-0130"));
    assert!(is_phone_number("-202-555-0130"));
}

#[test]
fn non_phone_identities_do_not_classify() {
    assert!(!is_phone_number("abc@example.com"));
    assert!(!is_phone_number(""));
    assert!(!is_phone_number("+"));
    assert!(!is_phone_number("12345"));
    assert!(!is_phone_number("123-456-789"));
    assert!(!is_phone_number("1234567890123456"));
    assert!(!is_phone_number("202--555-0130"));
    assert!(!is_phone_number("2025550130-"));
    assert!(!is_phone_number("(202"));
}
