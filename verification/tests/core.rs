use mailward::message::folder_name;
use mailward::vendors::{get_vendor, AuthMethod, THUNDERBIRD_CLIENT_ID};
use mailward::version::VERSION;

#[test]
fn version_is_reported() {
    assert!(!VERSION.is_empty());
}

#[test]
fn folder_name_takes_the_leaf() {
    assert_eq!(folder_name("Archive/GitHub"), "GitHub");
    assert_eq!(folder_name("INBOX"), "INBOX");
    assert_eq!(folder_name("a/b/c"), "c");
}

#[test]
fn microsoft_defaults_use_the_thunderbird_client() {
    let v = get_vendor("microsoft").unwrap();
    assert_eq!(v.auth_method, AuthMethod::Xoauth2Msal);
    assert_eq!(v.client_id, Some(THUNDERBIRD_CLIENT_ID));
    assert_eq!(v.imap_port, 993);
}

#[test]
fn unknown_vendor_is_none() {
    assert!(get_vendor("fastmail").is_none());
}
