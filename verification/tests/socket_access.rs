use herdr::socket_access::{
    describe_policy_result, policy_request, resolve_group_policy, socket_access_mode,
    ServerConfig, SocketAccessMode, SocketAccessPolicy, SocketAccessRequest,
};

#[test]
fn user_mode_is_the_default_policy() {
    let request = policy_request(&ServerConfig::default()).unwrap();
    assert!(matches!(request, SocketAccessRequest::User));
    let policy = SocketAccessPolicy::User;
    assert_eq!(policy.mode_bits(), 0o600);
    assert_eq!(policy.describe(), "user (0600)");
}

#[test]
fn group_mode_without_socket_group_fails() {
    let config = ServerConfig { socket_access: "group".into(), socket_group: String::new() };
    let err = policy_request(&config).err().unwrap();
    assert!(err.contains("socket_group"), "{err}");
}

#[test]
fn unknown_socket_access_fails() {
    let config = ServerConfig { socket_access: "world".into(), ..ServerConfig::default() };
    let err = policy_request(&config).err().unwrap();
    assert!(err.contains("user"), "{err}");
    assert!(err.contains("group"), "{err}");
}

#[test]
fn missing_group_name_fails_to_resolve() {
    let config = ServerConfig {
        socket_access: "group".into(),
        socket_group: "herdr-missing-group-name-xyz".into(),
    };
    let name = match policy_request(&config).unwrap() {
        SocketAccessRequest::Group { name } => name,
        SocketAccessRequest::User => panic!("expected a group request"),
    };
    let lookup: Result<u32, String> = Err(format!("group {name:?} does not exist"));
    let err = resolve_group_policy(&name, lookup).err().unwrap();
    assert!(err.contains("herdr-missing-group-name-xyz"), "{err}");
    // the name is quoted into the message whatever the lookup answered
    let err = resolve_group_policy(&name, Err("not found".to_string())).err().unwrap();
    assert!(err.contains("herdr-missing-group-name-xyz"), "{err}");
}

#[test]
fn group_policy_describes_mode_and_group() {
    let policy = resolve_group_policy("staff", Ok(20)).unwrap();
    match &policy {
        SocketAccessPolicy::Group { name, gid } => {
            assert_eq!(name, "staff");
            assert_eq!(*gid, 20);
        }
        SocketAccessPolicy::User => panic!("expected a group policy"),
    }
    assert_eq!(policy.mode_bits(), 0o660);
    assert_eq!(policy.describe(), "group (0660, group=staff)");
    assert_eq!(describe_policy_result(&Ok(policy)), "group (0660, group=staff)");
}

#[test]
fn unknown_mode_quotes_the_value() {
    let config = ServerConfig { socket_access: "wo\"rld".into(), socket_group: String::new() };
    let err = socket_access_mode(&config).err().unwrap();
    assert_eq!(err, "server.socket_access must be \"user\" or \"group\", got \"wo\\\"rld\"");
    assert_eq!(SocketAccessMode::Group.mode_bits(), 0o660);
    assert_eq!(SocketAccessMode::User.mode_bits(), 0o600);
}

#[test]
fn unresolved_group_message_wraps_the_lookup_error() {
    let err = resolve_group_policy("ops", Err("no such group".to_string())).err().unwrap();
    assert_eq!(err, "server.socket_group \"ops\" could not be resolved: no such group");
    assert_eq!(describe_policy_result(&Err("bad".to_string())), "invalid (bad)");
}
