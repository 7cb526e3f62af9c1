use zatboard::cli::{build_auth_memo, build_register_memo, parse_cli, UserCommand};

#[test]
fn test_parse_register_command() {
    let args = vec![
        "zatboard".to_string(),
        "register".to_string(),
        "zs1coord".to_string(),
        "zs1reply".to_string(),
    ];

    let cmd = parse_cli(&args).unwrap();
    match cmd {
        UserCommand::Register {
            coordinator,
            reply_address,
        } => {
            assert_eq!(coordinator, "zs1coord");
            assert_eq!(reply_address, "zs1reply");
        }
        _ => panic!("Expected register command"),
    }
}

#[test]
fn test_parse_auth_command() {
    let args = vec![
        "zatboard".to_string(),
        "auth".to_string(),
        "zs1coord".to_string(),
        "challenge".to_string(),
        "signature".to_string(),
    ];

    let cmd = parse_cli(&args).unwrap();
    match cmd {
        UserCommand::Auth {
            coordinator,
            challenge,
            signature,
        } => {
            assert_eq!(coordinator, "zs1coord");
            assert_eq!(challenge, "challenge");
            assert_eq!(signature, "signature");
        }
        _ => panic!("Expected auth command"),
    }
}

#[test]
fn test_parse_command_with_spaces() {
    let args = vec![
        "zatboard".to_string(),
        "command".to_string(),
        "zs1coord".to_string(),
        "chat".to_string(),
        "/lobby".to_string(),
        "hello".to_string(),
        "world".to_string(),
    ];

    let cmd = parse_cli(&args).unwrap();
    match cmd {
        UserCommand::Command { coordinator, memo } => {
            assert_eq!(coordinator, "zs1coord");
            assert_eq!(memo, "chat /lobby hello world");
        }
        _ => panic!("Expected command variant"),
    }
}

#[test]
fn test_parse_poll_command() {
    let args = vec!["zatboard".to_string(), "poll".to_string()];
    let cmd = parse_cli(&args).unwrap();
    assert!(matches!(cmd, UserCommand::Poll));
}

#[test]
fn test_parse_invalid_command() {
    let args = vec!["zatboard".to_string(), "unknown".to_string()];
    let result = parse_cli(&args);
    assert!(result.is_err());
}

#[test]
fn test_build_register_memo() {
    let memo = build_register_memo("zs1reply");
    assert_eq!(memo, "REGISTER:zs1reply");
}

#[test]
fn test_build_auth_memo() {
    let memo = build_auth_memo("challenge");
    assert_eq!(memo, "AUTH:challenge");
}

#[test]
fn test_parse_connect_command() {
    let args = vec![
        "zatboard".to_string(),
        "connect".to_string(),
        "zs1coord".to_string(),
    ];
    let cmd = parse_cli(&args).unwrap();
    match cmd {
        UserCommand::Connect { coordinator } => assert_eq!(coordinator, "zs1coord"),
        _ => panic!("Expected connect command"),
    }
}

#[test]
fn test_parse_wrong_arity_reports_usage() {
    let args = vec!["zatboard".to_string(), "connect".to_string()];
    let err = parse_cli(&args).unwrap_err();
    assert!(err.contains("Usage: zatboard connect"));
    let args = vec!["zatboard".to_string()];
    let err = parse_cli(&args).unwrap_err();
    assert!(err.contains("ZatBoard User CLI"));
}
