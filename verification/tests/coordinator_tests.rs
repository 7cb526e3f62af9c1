use zatboard::coordinator::Coordinator;
use zatboard::message::Message;

#[test]
fn test_coordinator_registration() {
    let mut coordinator = Coordinator::new(3600);

    let register_msg = Message::new(
        "zs1user123".to_string(),
        "zs1coordinator456".to_string(),
        "REGISTER:zs1reply789".to_string(),
    );

    let result = coordinator.process_incoming_message(&register_msg);
    assert!(result.is_ok());
    assert!(result.unwrap().contains("AUTH:"));
}

#[test]
fn test_ls_command() {
    let mut coordinator = Coordinator::new(3600);

    coordinator
        .filesystem
        .create_directory("/home", "coordinator".to_string())
        .unwrap();
    coordinator
        .filesystem
        .create_file("/home/readme.txt", "Hello!".to_string(), "coordinator".to_string())
        .unwrap();

    coordinator
        .verified_users
        .insert("zs1user123".to_string(), "zs1reply456".to_string());

    let mut ls_msg = Message::new(
        "zs1user123".to_string(),
        "zs1coordinator".to_string(),
        "ls /home".to_string(),
    );
    ls_msg.signature = Some("sig".to_string());

    let result = coordinator.handle_authenticated_command(&ls_msg);
    assert!(result.is_ok());
    assert!(result.unwrap().contains("readme.txt"));
}

#[test]
fn test_mkdir_command() {
    let mut coordinator = Coordinator::new(3600);
    coordinator
        .verified_users
        .insert("zs1user123".to_string(), "zs1reply456".to_string());
    coordinator
        .filesystem
        .root
        .permissions
        .add_write_permission("zs1user123".to_string());

    let mut mkdir_msg = Message::new(
        "zs1user123".to_string(),
        "zs1coordinator".to_string(),
        "mkdir /test".to_string(),
    );
    mkdir_msg.signature = Some("sig".to_string());

    let result = coordinator.handle_authenticated_command(&mkdir_msg);
    assert!(result.is_ok());
    assert!(result.unwrap().contains("Directory created"));
}

fn register_and_auth(coordinator: &mut Coordinator, sender: &str, reply: &str) -> String {
    let register = Message::new(
        sender.to_string(),
        "zs1coordinator".to_string(),
        format!("REGISTER:{}", reply),
    );
    let register_reply = coordinator.process_incoming_message(&register).unwrap();
    assert!(register_reply.contains("AUTH:"));
    let token = register_reply.split("AUTH:").nth(1).unwrap().to_string();

    let mut auth = Message::new(
        sender.to_string(),
        "zs1coordinator".to_string(),
        format!("AUTH:{}", token),
    );
    auth.signature = Some("sig".to_string());
    let auth_reply = coordinator.process_incoming_message(&auth).unwrap();
    assert!(auth_reply.contains("Authentication successful"));
    auth_reply
        .split("Session ID: ")
        .nth(1)
        .unwrap()
        .trim()
        .to_string()
}

#[test]
fn test_register_auth_round_trip() {
    let mut coordinator = Coordinator::new(3600);
    let sid = register_and_auth(&mut coordinator, "S", "R");
    assert_eq!(coordinator.get_reply_address_by_session(&sid), Some("R".to_string()));
    assert!(coordinator.is_user_verified("S"));
    assert_eq!(coordinator.get_reply_address("S"), Some("R".to_string()));
}

#[test]
fn test_second_register_replaces_challenge() {
    let mut coordinator = Coordinator::new(3600);
    let first = Message::new(
        "zs1user".to_string(),
        "zs1coordinator".to_string(),
        "REGISTER:zs1reply_one".to_string(),
    );
    coordinator.process_incoming_message(&first).unwrap();
    // a second REGISTER before AUTH replaces the pending challenge
    let second = Message::new(
        "zs1user".to_string(),
        "zs1coordinator".to_string(),
        "REGISTER:zs1reply_two".to_string(),
    );
    coordinator.process_incoming_message(&second).unwrap();
    let pending = coordinator.pending_challenges.get("zs1user").unwrap();
    assert_eq!(pending.reply_address, "zs1reply_two");

    let mut auth = Message::new(
        "zs1user".to_string(),
        "zs1coordinator".to_string(),
        "AUTH:anything".to_string(),
    );
    auth.signature = Some("sig".to_string());
    coordinator.process_incoming_message(&auth).unwrap();
    // the surviving registration is the later one
    assert_eq!(coordinator.get_reply_address("zs1user"), Some("zs1reply_two".to_string()));
}

#[test]
fn test_auth_without_challenge_fails() {
    let mut coordinator = Coordinator::new(3600);
    let mut auth = Message::new(
        "zs1unknown".to_string(),
        "zs1coordinator".to_string(),
        "AUTH:whatever".to_string(),
    );
    auth.signature = Some("sig".to_string());
    let err = coordinator.process_incoming_message(&auth).unwrap_err();
    assert!(err.contains("Authentication failed"));
}

#[test]
fn test_auth_without_signature_fails_and_challenge_survives() {
    let mut coordinator = Coordinator::new(3600);
    let register = Message::new(
        "zs1user".to_string(),
        "zs1coordinator".to_string(),
        "REGISTER:zs1reply".to_string(),
    );
    coordinator.process_incoming_message(&register).unwrap();
    let auth = Message::new(
        "zs1user".to_string(),
        "zs1coordinator".to_string(),
        "AUTH:echo".to_string(),
    );
    // no signature marker: the attempt fails, the challenge stays for a retry
    let err = coordinator.process_incoming_message(&auth).unwrap_err();
    assert!(err.contains("Authentication failed"));
    assert!(coordinator.pending_challenges.contains("zs1user"));
}

#[test]
fn test_command_requires_authentication() {
    let mut coordinator = Coordinator::new(3600);
    let mut msg = Message::new(
        "zs1user".to_string(),
        "zs1coordinator".to_string(),
        "ls /".to_string(),
    );
    msg.signature = Some("sig".to_string());
    let err = coordinator.process_incoming_message(&msg).unwrap_err();
    assert!(err.contains("Authentication required"));
}

#[test]
fn test_verified_sender_still_needs_signature_marker() {
    let mut coordinator = Coordinator::new(3600);
    register_and_auth(&mut coordinator, "zs1user", "zs1reply");
    // verification alone is not enough: every command must carry a marker
    let unsigned = Message::new(
        "zs1user".to_string(),
        "zs1coordinator".to_string(),
        "ls /".to_string(),
    );
    let err = coordinator.process_incoming_message(&unsigned).unwrap_err();
    assert!(err.contains("Authentication required"));
}

#[test]
fn test_end_to_end_permission_denied() {
    let mut coordinator = Coordinator::new(3600);
    let sid = register_and_auth(&mut coordinator, "zs1user", "zs1reply");
    assert!(!sid.is_empty());
    // root defaults to public-write=false, so mkdir is denied until granted
    let mut mkdir = Message::new(
        "zs1user".to_string(),
        "zs1coordinator".to_string(),
        "mkdir /notes".to_string(),
    );
    mkdir.signature = Some("sig".to_string());
    let err = coordinator.process_incoming_message(&mkdir).unwrap_err();
    assert!(err.contains("Permission denied"));
    // once granted, the same command succeeds
    coordinator
        .filesystem
        .root
        .permissions
        .add_write_permission("zs1user".to_string());
    let reply = coordinator.process_incoming_message(&mkdir).unwrap();
    assert!(reply.contains("Directory created"));
}

#[test]
fn test_touch_overwrites_then_cat_reads_latest() {
    let mut coordinator = Coordinator::new(3600);
    register_and_auth(&mut coordinator, "zs1user", "zs1reply");
    coordinator
        .filesystem
        .root
        .permissions
        .add_write_permission("zs1user".to_string());
    for memo in ["touch /f.txt hello", "touch /f.txt world"] {
        let mut m = Message::new(
            "zs1user".to_string(),
            "zs1coordinator".to_string(),
            memo.to_string(),
        );
        m.signature = Some("sig".to_string());
        let reply = coordinator.process_incoming_message(&m).unwrap();
        assert!(reply.contains("File created"));
    }
    let mut cat = Message::new(
        "zs1user".to_string(),
        "zs1coordinator".to_string(),
        "cat /f.txt".to_string(),
    );
    cat.signature = Some("sig".to_string());
    assert_eq!(coordinator.process_incoming_message(&cat).unwrap(), "world");
}

#[test]
fn test_command_errors() {
    let mut coordinator = Coordinator::new(3600);
    register_and_auth(&mut coordinator, "zs1user", "zs1reply");
    let send = |c: &mut Coordinator, memo: &str| {
        let mut m = Message::new(
            "zs1user".to_string(),
            "zs1coordinator".to_string(),
            memo.to_string(),
        );
        m.signature = Some("sig".to_string());
        c.process_incoming_message(&m)
    };
    assert!(send(&mut coordinator, "dance /").unwrap_err().contains("Unknown command"));
    assert_eq!(
        send(&mut coordinator, "ls /missing").unwrap_err(),
        "Path not found: /missing"
    );
    assert_eq!(
        send(&mut coordinator, "cat /missing.txt").unwrap_err(),
        "File not found: /missing.txt"
    );
    assert_eq!(send(&mut coordinator, "cat /").unwrap_err(), "Not a file");
    assert_eq!(send(&mut coordinator, "ls /").unwrap(), "(empty directory)");
    coordinator
        .filesystem
        .root
        .permissions
        .add_write_permission("zs1user".to_string());
    assert!(send(&mut coordinator, "touch /t.txt").unwrap().contains("File created"));
    assert_eq!(send(&mut coordinator, "ls /t.txt").unwrap_err(), "Not a directory");
    assert_eq!(send(&mut coordinator, "cat /t.txt").unwrap(), "");
}

#[test]
fn test_cleanup_expired_sessions_is_idempotent() {
    let mut coordinator = Coordinator::new(3600);
    let early = Message::new(
        "zs1early".to_string(),
        "zs1coordinator".to_string(),
        "REGISTER:zs1reply_a".to_string(),
    );
    coordinator.process_incoming_message_at(&early, 1000).unwrap();
    let late = Message::new(
        "zs1late".to_string(),
        "zs1coordinator".to_string(),
        "REGISTER:zs1reply_b".to_string(),
    );
    coordinator.process_incoming_message_at(&late, 4999).unwrap();
    assert!(coordinator.pending_challenges.contains("zs1early"));
    assert!(coordinator.pending_challenges.contains("zs1late"));

    // at 5000 the first challenge (issued at 1000, timeout 3600) is expired
    coordinator.cleanup_expired_sessions_at(5000);
    assert!(!coordinator.pending_challenges.contains("zs1early"));
    assert!(coordinator.pending_challenges.contains("zs1late"));

    // a second sweep at the same instant changes nothing more
    coordinator.cleanup_expired_sessions_at(5000);
    assert!(!coordinator.pending_challenges.contains("zs1early"));
    assert!(coordinator.pending_challenges.contains("zs1late"));
}

#[test]
fn test_cleanup_keeps_challenge_at_exact_boundary() {
    let mut coordinator = Coordinator::new(3600);
    let m = Message::new(
        "zs1user".to_string(),
        "zs1coordinator".to_string(),
        "REGISTER:zs1reply".to_string(),
    );
    coordinator.process_incoming_message_at(&m, 1000).unwrap();
    // exactly at issued_at + timeout the challenge is not yet older than the timeout
    coordinator.cleanup_expired_sessions_at(4600);
    assert!(coordinator.pending_challenges.contains("zs1user"));
    coordinator.cleanup_expired_sessions_at(4601);
    assert!(!coordinator.pending_challenges.contains("zs1user"));
}
