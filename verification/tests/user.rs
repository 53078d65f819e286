use unix_tools::user::{user_label, User};

#[test]
fn name_when_known() {
    assert_eq!(user_label(0, Some("root".to_string())), "root");
    assert_eq!(user_label(1000, Some("alice".to_string())), "alice");
}

#[test]
fn padded_id_when_unknown() {
    assert_eq!(user_label(5, None), "005");
    assert_eq!(user_label(42, None), "042");
    assert_eq!(user_label(1234, None), "1234");
    assert_eq!(user_label(u32::MAX, None), "4294967295");
}

#[test]
fn looks_up_root() {
    assert_eq!(User(0).to_string(), "root");
}
