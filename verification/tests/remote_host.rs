use herdr::remote_host::native_remote_allowed_for;

#[test]
fn native_remote_blocked_for_project_users() {
    assert!(!native_remote_allowed_for("slyce"));
    assert!(!native_remote_allowed_for("seb"));
    assert!(!native_remote_allowed_for("alice"));
}

#[test]
fn native_remote_allowed_for_herm_and_root() {
    assert!(native_remote_allowed_for("herm"));
    assert!(native_remote_allowed_for("root"));
}

#[test]
fn native_remote_requires_exact_user_name() {
    assert!(!native_remote_allowed_for("Herm"));
    assert!(!native_remote_allowed_for("root2"));
    assert!(!native_remote_allowed_for(""));
}

