use unix_tools::permissions::{PermissionTarget, Permissions};

#[test]
fn new_keeps_mode() {
    assert_eq!(Permissions::new(0o100644).mode, 0o100644);
}

#[test]
fn file_type_of_each_kind() {
    assert_eq!(Permissions::new(0o010644).file_type(), 'p');
    assert_eq!(Permissions::new(0o020644).file_type(), 'c');
    assert_eq!(Permissions::new(0o040755).file_type(), 'd');
    assert_eq!(Permissions::new(0o060644).file_type(), 'b');
    assert_eq!(Permissions::new(0o120777).file_type(), 'l');
    assert_eq!(Permissions::new(0o140755).file_type(), 's');
    assert_eq!(Permissions::new(0o100644).file_type(), '.');
    assert_eq!(Permissions::new(0o000644).file_type(), '.');
    assert_eq!(Permissions::new(0o170000).file_type(), '.');
}

#[test]
fn mode_expression_per_target() {
    let p = Permissions::new(0o100754);
    assert_eq!(p.mode_expression(PermissionTarget::Owner), "rwx");
    assert_eq!(p.mode_expression(PermissionTarget::Group), "r-x");
    assert_eq!(p.mode_expression(PermissionTarget::Other), "r--");
    let none = Permissions::new(0o100000);
    assert_eq!(none.mode_expression(PermissionTarget::Owner), "---");
    assert_eq!(none.mode_expression(PermissionTarget::Other), "---");
}

#[test]
fn setuid_setgid_and_sticky_shown() {
    assert_eq!(Permissions::new(0o104755).mode_expression(PermissionTarget::Owner), "rws");
    assert_eq!(Permissions::new(0o104644).mode_expression(PermissionTarget::Owner), "rwS");
    assert_eq!(Permissions::new(0o102750).mode_expression(PermissionTarget::Group), "r-s");
    assert_eq!(Permissions::new(0o102740).mode_expression(PermissionTarget::Group), "r-S");
    assert_eq!(Permissions::new(0o041777).mode_expression(PermissionTarget::Other), "rwt");
    assert_eq!(Permissions::new(0o041776).mode_expression(PermissionTarget::Other), "rwT");
    // The set-user-ID bit shows in the owner's group only.
    assert_eq!(Permissions::new(0o104755).mode_expression(PermissionTarget::Group), "r-x");
    assert_eq!(Permissions::new(0o104755).mode_expression(PermissionTarget::Other), "r-x");
}

#[test]
fn execution_mode_bytes() {
    let p = Permissions::new(0o106755);
    assert_eq!(p.execution_mode(0o7, PermissionTarget::Owner), b's');
    assert_eq!(p.execution_mode(0o6, PermissionTarget::Owner), b'S');
    assert_eq!(p.execution_mode(0o1, PermissionTarget::Group), b's');
    assert_eq!(p.execution_mode(0o1, PermissionTarget::Other), b'x');
    assert_eq!(p.execution_mode(0o0, PermissionTarget::Other), b'-');
    assert_eq!(p.execution_mode(0o1001, PermissionTarget::Other), b't');
    assert_eq!(p.execution_mode(0o1000, PermissionTarget::Other), b'T');
    let q = Permissions::new(0o100755);
    assert_eq!(q.execution_mode(0o7, PermissionTarget::Owner), b'x');
}

#[test]
fn setuid_and_setgid_flags() {
    assert!(Permissions::new(0o4755).is_setuid());
    assert!(!Permissions::new(0o2755).is_setuid());
    assert!(Permissions::new(0o2755).is_setgid());
    assert!(!Permissions::new(0o4755).is_setgid());
}

#[test]
fn full_mode_text() {
    assert_eq!(Permissions::new(0o040755).to_string(), "drwxr-xr-x");
    assert_eq!(Permissions::new(0o100644).to_string(), ".rw-r--r--");
    assert_eq!(Permissions::new(0o120777).to_string(), "lrwxrwxrwx");
    assert_eq!(Permissions::new(0o107777).to_string(), ".rwsrwsrwt");
    assert_eq!(Permissions::new(0o107000).to_string(), ".--S--S--T");
}

#[test]
fn text_ignores_bits_above_mode() {
    let m: u32 = 0o104751;
    assert_eq!(Permissions::new(m | 0xffff_0000).to_string(), Permissions::new(m).to_string());
}

#[test]
fn text_tells_permission_bits_apart() {
    let mut seen = std::collections::HashMap::new();
    for bits in 0u32..0o10000 {
        let text = Permissions::new(0o100000 | bits).to_string();
        assert_eq!(text.len(), 10);
        assert!(seen.insert(text, bits).is_none());
    }
}
