// The ephemeral store's contract: overwrite-on-set, expiry, idempotent
// deletion, and the atomic take.

use otp_auth::store::OtpStore;

#[test]
fn set_overwrites_an_existing_entry() {
    let mut store = OtpStore::new();
    let code = "123456".to_string();
    store.set_with_expiry(&code, &"alice".to_string(), &"acme".to_string(), 100, 300);
    store.set_with_expiry(&code, &"bob".to_string(), &"globex".to_string(), 200, 300);
    let (identity, domain) = store.get(&code, 250).unwrap();
    assert_eq!(identity, "bob");
    assert_eq!(domain, "globex");
}

#[test]
fn get_honors_expiry() {
    let mut store = OtpStore::new();
    let code = "123456".to_string();
    store.set_with_expiry(&code, &"alice".to_string(), &"acme".to_string(), 100, 300);
    assert!(store.get(&code, 399).is_some());
    assert!(store.get(&code, 400).is_none());
    assert!(store.get(&"999999".to_string(), 100).is_none());
}

#[test]
fn delete_is_idempotent() {
    let mut store = OtpStore::new();
    let code = "123456".to_string();
    store.set_with_expiry(&code, &"alice".to_string(), &"acme".to_string(), 100, 300);
    store.delete(&code);
    assert!(store.get(&code, 150).is_none());
    store.delete(&code);
    assert!(store.get(&code, 150).is_none());
}

#[test]
fn take_removes_the_entry() {
    let mut store = OtpStore::new();
    let code = "123456".to_string();
    store.set_with_expiry(&code, &"alice".to_string(), &"acme".to_string(), 100, 300);
    let taken = store.take(&code, 150).unwrap();
    assert_eq!(taken.0, "alice");
    assert!(store.get(&code, 150).is_none());
    assert!(store.take(&code, 150).is_none());
}

#[test]
fn take_of_lapsed_entry_yields_nothing_and_purges() {
    let mut store = OtpStore::new();
    let code = "123456".to_string();
    store.set_with_expiry(&code, &"alice".to_string(), &"acme".to_string(), 100, 300);
    assert!(store.take(&code, 400).is_none());
    assert!(store.get(&code, 100).is_none());
}

#[test]
fn distinct_codes_live_independently() {
    let mut store = OtpStore::new();
    store.set_with_expiry(&"111111".to_string(), &"alice".to_string(), &"acme".to_string(), 0, 300);
    store.set_with_expiry(&"222222".to_string(), &"bob".to_string(), &"globex".to_string(), 0, 300);
    assert!(store.take(&"111111".to_string(), 10).is_some());
    let (identity, _) = store.get(&"222222".to_string(), 10).unwrap();
    assert_eq!(identity, "bob");
}
