use zatboard::message::Message;

#[test]
fn test_message_creation() {
    let msg = Message::new(
        "zs1sender123".to_string(),
        "zs1recipient456".to_string(),
        "ls /home".to_string(),
    );

    assert_eq!(msg.memo_text, "ls /home");
    assert!(msg.timestamp > 0);
}

#[test]
fn test_message_signing() {
    let mut msg = Message::new(
        "zs1sender123".to_string(),
        "zs1recipient456".to_string(),
        "ls /home".to_string(),
    );

    let private_key = "test_private_key";
    msg.sign(private_key).unwrap();
    assert!(msg.signature.is_some());
    assert!(msg.verify_signature(private_key));

    assert!(!msg.verify_signature("wrong_key"));
}

#[test]
fn test_memo_command_formats() {
    let zatboard_commands = vec![
        "ls /home",
        "cat /readme.txt",
        "mkdir /new-folder",
        "chat general Hello everyone!",
    ];

    for cmd in zatboard_commands {
        let message = Message::new(
            "zs1test".to_string(),
            "zs1coordinator".to_string(),
            cmd.to_string(),
        );

        assert!(!message.memo_text.is_empty());
        assert!(message.memo_text.len() <= 512);
    }
}

#[test]
fn test_signature_is_hex_digest() {
    let mut msg = Message::new(
        "zs1sender".to_string(),
        "zs1recipient".to_string(),
        "cat /x".to_string(),
    );
    msg.sign("key").unwrap();
    let sig = msg.signature.clone().unwrap();
    // the placeholder signature is a 64-character lowercase hex digest,
    // never the payload itself
    assert_eq!(sig.len(), 64);
    assert!(sig.chars().all(|c| c.is_ascii_hexdigit() && !c.is_ascii_uppercase()));
    assert_ne!(sig, msg.memo_text);
    // an unsigned message never verifies
    let unsigned = Message::new(
        "zs1sender".to_string(),
        "zs1recipient".to_string(),
        "cat /x".to_string(),
    );
    assert!(!unsigned.verify_signature("key"));
}
