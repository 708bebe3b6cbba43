use room_relay::command::{parse, is_command_line, Intent, ProtocolError};
use room_relay::handshake::{build_response, calculate_accept_key, find_nonce, handshake_reply,
    HandshakeError};
use room_relay::text::{to_lower, trim, starts_with, bytes_eq};

#[test]
fn accept_token_matches_known_vector() {
    let nonce = b"dGhlIHNhbXBsZSBub25jZQ==".to_vec();
    let token = calculate_accept_key(&nonce);
    assert_eq!(token, b"s3pPLMBiTxaQ9kYGzzhZRbK+xOo=".to_vec());
    assert_eq!(token.len(), 28);
    assert_eq!(token[27], b'=');
}

#[test]
fn accept_token_is_deterministic() {
    let nonce = b"x3JJHMbDL1EzLkh9GBhXDw==".to_vec();
    let a = calculate_accept_key(&nonce);
    let b = calculate_accept_key(&nonce);
    assert_eq!(a, b);
    assert_ne!(a, nonce);
}

#[test]
fn response_is_bit_exact() {
    let token = b"s3pPLMBiTxaQ9kYGzzhZRbK+xOo=".to_vec();
    let resp = build_response(&token);
    let expected = b"HTTP/1.1 101 Switching Protocols\r\n\
        Upgrade: websocket\r\n\
        Connection: Upgrade\r\n\
        Sec-WebSocket-Accept: s3pPLMBiTxaQ9kYGzzhZRbK+xOo=\r\n\r\n"
        .to_vec();
    assert_eq!(resp, expected);
}

#[test]
fn nonce_is_found_and_trimmed() {
    let lines = vec![
        b"GET /chat HTTP/1.1".to_vec(),
        b"Host: example".to_vec(),
        b"Sec-WebSocket-Key:  dGhlIHNhbXBsZSBub25jZQ==  ".to_vec(),
        b"Upgrade: websocket".to_vec(),
    ];
    let nonce = find_nonce(&lines);
    assert_eq!(nonce, Some(b"dGhlIHNhbXBsZSBub25jZQ==".to_vec()));
}

#[test]
fn nonce_header_name_is_case_sensitive() {
    let lines = vec![b"sec-websocket-key: abc".to_vec()];
    assert_eq!(find_nonce(&lines), None);
}

#[test]
fn reply_for_full_header_block() {
    let lines = vec![
        b"GET /chat HTTP/1.1".to_vec(),
        b"Sec-WebSocket-Key: dGhlIHNhbXBsZSBub25jZQ==".to_vec(),
    ];
    match handshake_reply(&lines) {
        Ok(resp) => {
            let text = String::from_utf8(resp).unwrap();
            assert!(text.starts_with("HTTP/1.1 101 Switching Protocols\r\n"));
            assert!(text.contains("Sec-WebSocket-Accept: s3pPLMBiTxaQ9kYGzzhZRbK+xOo=\r\n"));
            assert!(text.ends_with("\r\n\r\n"));
        },
        Err(_) => panic!("expected a reply"),
    }
}

#[test]
fn reply_without_nonce_is_missing_nonce() {
    let lines = vec![b"GET /chat HTTP/1.1".to_vec(), b"Host: example".to_vec()];
    match handshake_reply(&lines) {
        Ok(_) => panic!("expected an error"),
        Err(e) => assert!(matches!(e, HandshakeError::MissingNonce)),
    }
}

#[test]
fn parse_new_room() {
    match parse(&b"dd::core::NEW_ROOM".to_vec()) {
        Ok(Intent::CreateRoom) => {},
        _ => panic!("expected CreateRoom"),
    }
}

#[test]
fn parse_join_room() {
    match parse(&b"dd::core::JOIN_ROOM::abc12345".to_vec()) {
        Ok(Intent::JoinRoom { code }) => assert_eq!(code, b"abc12345".to_vec()),
        _ => panic!("expected JoinRoom"),
    }
}

#[test]
fn parse_garbage_is_invalid_command() {
    match parse(&b"garbage".to_vec()) {
        Err(ProtocolError::InvalidCommand) => {},
        _ => panic!("expected InvalidCommand"),
    }
}

#[test]
fn parse_is_case_insensitive_and_lowercases_code() {
    match parse(&b"dd::core::join_room::ABC12345".to_vec()) {
        Ok(Intent::JoinRoom { code }) => assert_eq!(code, b"abc12345".to_vec()),
        _ => panic!("expected JoinRoom"),
    }
    match parse(&b"dd::core::new_room".to_vec()) {
        Ok(Intent::CreateRoom) => {},
        _ => panic!("expected CreateRoom"),
    }
}

#[test]
fn parse_short_join_code_is_invalid_room_code() {
    match parse(&b"dd::core::JOIN_ROOM::abc".to_vec()) {
        Err(ProtocolError::InvalidRoomCode) => {},
        _ => panic!("expected InvalidRoomCode"),
    }
}

#[test]
fn parse_join_without_code_is_invalid_room_code() {
    match parse(&b"dd::core::JOIN_ROOM".to_vec()) {
        Err(ProtocolError::InvalidRoomCode) => {},
        _ => panic!("expected InvalidRoomCode"),
    }
}

#[test]
fn parse_unknown_command_is_invalid_command() {
    match parse(&b"dd::core::DROP_ROOM::abc12345".to_vec()) {
        Err(ProtocolError::InvalidCommand) => {},
        _ => panic!("expected InvalidCommand"),
    }
}

#[test]
fn command_line_recognition_skips_noise() {
    assert!(is_command_line(&b"dd::core::NEW_ROOM".to_vec()));
    assert!(is_command_line(&b"  dd::core::JOIN_ROOM::abc12345\r\n".to_vec()));
    assert!(!is_command_line(&b"".to_vec()));
    assert!(!is_command_line(&b"ping".to_vec()));
    assert!(!is_command_line(&b"dd::other::NEW_ROOM".to_vec()));
}

#[test]
fn trim_strips_both_ends() {
    assert_eq!(trim(&b"  hello\r\n".to_vec()), b"hello".to_vec());
    assert_eq!(trim(&b"\t\r\n ".to_vec()), b"".to_vec());
    assert_eq!(trim(&b"a b".to_vec()), b"a b".to_vec());
}

#[test]
fn lowercase_maps_only_ascii_uppercase() {
    assert_eq!(to_lower(&b"AbC-12Z".to_vec()), b"abc-12z".to_vec());
}

#[test]
fn prefix_and_equality_checks() {
    assert!(starts_with(&b"abcdef".to_vec(), &b"abc".to_vec()));
    assert!(!starts_with(&b"ab".to_vec(), &b"abc".to_vec()));
    assert!(bytes_eq(&b"same".to_vec(), &b"same".to_vec()));
    assert!(!bytes_eq(&b"same".to_vec(), &b"sam".to_vec()));
}
