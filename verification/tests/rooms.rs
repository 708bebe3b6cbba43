use room_relay::command::{parse, Intent};
use room_relay::registry::{fresh_room_code, resolve_code, room_key, RoomRegistry};
use room_relay::room::Room;
use room_relay::session::{next_state, publish, relay_step, RelayAction, RelayError, RelayEvent,
    SessionState};
use tokio::sync::broadcast::error::TryRecvError;

#[test]
fn room_membership_tracks_joins_and_leaves() {
    let mut room = Room::new();
    assert_eq!(room.len(), 0);
    room.add_client(1);
    room.add_client(2);
    assert_eq!(room.len(), 2);
    room.remove_client(1);
    assert_eq!(room.len(), 1);
    room.remove_client(1);
    assert_eq!(room.len(), 1);
    room.remove_client(2);
    assert_eq!(room.len(), 0);
}

#[test]
fn room_broadcast_fans_out() {
    let room = Room::new();
    let tx = room.get_broadcast();
    let mut rx = room.subscribe();
    match publish(&tx, b"hi".to_vec(), 9) {
        Ok(n) => assert_eq!(n, 1),
        Err(_) => panic!("expected delivery"),
    }
    match rx.try_recv() {
        Ok((payload, origin)) => {
            assert_eq!(payload, b"hi".to_vec());
            assert_eq!(origin, 9);
        },
        Err(_) => panic!("expected a frame"),
    }
}

#[test]
fn publish_without_subscribers_is_channel_closed() {
    let room = Room::new();
    let tx = room.get_broadcast();
    match publish(&tx, b"hi".to_vec(), 9) {
        Err(RelayError::ChannelClosed) => {},
        _ => panic!("expected ChannelClosed"),
    }
}

#[test]
fn registry_keeps_entry_iff_members_remain() {
    let mut reg = RoomRegistry::new();
    let key = room_key(&b"abc12345".to_vec());
    assert!(!reg.contains_room(key));
    let _h1 = reg.join(key, 1);
    assert!(reg.contains_room(key));
    assert_eq!(reg.member_count(key), 1);
    let _h2 = reg.join(key, 2);
    assert_eq!(reg.member_count(key), 2);
    let removed = reg.remove_if_empty(key, 1);
    assert!(!removed);
    assert!(reg.contains_room(key));
    assert_eq!(reg.member_count(key), 1);
    let removed = reg.remove_if_empty(key, 2);
    assert!(removed);
    assert!(!reg.contains_room(key));
    assert_eq!(reg.room_count(), 0);
}

#[test]
fn exactly_one_leave_deletes_the_room() {
    let mut reg = RoomRegistry::new();
    let key = room_key(&b"qqqq0000".to_vec());
    let _a = reg.join(key, 10);
    let _b = reg.join(key, 20);
    let first = reg.remove_if_empty(key, 20);
    let second = reg.remove_if_empty(key, 10);
    assert!(!first);
    assert!(second);
    assert!(!reg.contains_room(key));
}

#[test]
fn joiners_of_one_code_share_one_group() {
    let mut reg = RoomRegistry::new();
    let key = room_key(&b"wire0000".to_vec());
    let (_tx_a, mut rx_a) = reg.join(key, 1);
    let (tx_b, mut rx_b) = reg.join(key, 2);
    // A frame published through the second join's handle reaches the first
    // join's subscription: both handle pairs are onto one broadcast group.
    match publish(&tx_b, b"shared".to_vec(), 2) {
        Ok(n) => assert_eq!(n, 2),
        Err(_) => panic!("expected delivery"),
    }
    let (payload, origin) = rx_a.try_recv().unwrap();
    assert_eq!(payload, b"shared".to_vec());
    assert_eq!(origin, 2);
    let (payload, _) = rx_b.try_recv().unwrap();
    assert_eq!(payload, b"shared".to_vec());
}

#[test]
fn leave_of_unknown_code_is_a_no_op() {
    let mut reg = RoomRegistry::new();
    let key = room_key(&b"none0000".to_vec());
    assert!(!reg.remove_if_empty(key, 1));
    assert!(!reg.contains_room(key));
    assert_eq!(reg.room_count(), 0);
}

#[test]
fn distinct_codes_get_distinct_rooms() {
    let mut reg = RoomRegistry::new();
    let k1 = room_key(&b"aaaa1111".to_vec());
    let k2 = room_key(&b"aaaa1112".to_vec());
    assert_ne!(k1, k2);
    let _x = reg.join(k1, 1);
    let _y = reg.join(k2, 2);
    assert_eq!(reg.room_count(), 2);
    assert_eq!(reg.member_count(k1), 1);
    assert_eq!(reg.member_count(k2), 1);
}

#[test]
fn fresh_codes_are_normalized() {
    let code = fresh_room_code();
    assert_eq!(code.len(), 8);
    for b in code {
        assert!(b.is_ascii_lowercase() || b.is_ascii_digit());
    }
}

#[test]
fn resolve_code_keeps_a_join_code() {
    let intent = Intent::JoinRoom { code: b"abc12345".to_vec() };
    assert_eq!(resolve_code(&intent), b"abc12345".to_vec());
    let fresh = resolve_code(&Intent::CreateRoom);
    assert_eq!(fresh.len(), 8);
}

#[test]
fn relay_step_suppresses_self_echo() {
    match relay_step(7, RelayEvent::Delivery(b"m".to_vec(), 7)) {
        RelayAction::Skip => {},
        _ => panic!("expected Skip"),
    }
    match relay_step(7, RelayEvent::Delivery(b"m".to_vec(), 8)) {
        RelayAction::Forward(payload) => assert_eq!(payload, b"m\n".to_vec()),
        _ => panic!("expected Forward"),
    }
}

#[test]
fn relay_step_publishes_lines_verbatim_and_closes_on_failures() {
    match relay_step(7, RelayEvent::Inbound(b"hello\r\n".to_vec())) {
        RelayAction::Publish(payload) => assert_eq!(payload, b"hello".to_vec()),
        _ => panic!("expected Publish"),
    }
    // Only the terminator is normalized away: interior and leading
    // whitespace pass through verbatim.
    match relay_step(7, RelayEvent::Inbound(b"  two  words \n".to_vec())) {
        RelayAction::Publish(payload) => assert_eq!(payload, b"  two  words ".to_vec()),
        _ => panic!("expected Publish"),
    }
    assert!(matches!(relay_step(7, RelayEvent::InboundClosed), RelayAction::Close));
    assert!(matches!(relay_step(7, RelayEvent::Lagged), RelayAction::Skip));
    assert!(matches!(relay_step(7, RelayEvent::ChannelClosed), RelayAction::Close));
    assert!(matches!(relay_step(7, RelayEvent::WriteFailed), RelayAction::Close));
}

#[test]
fn forwarded_frames_are_newline_terminated() {
    match relay_step(3, RelayEvent::Delivery(b"first".to_vec(), 4)) {
        RelayAction::Forward(payload) => assert_eq!(payload, b"first\n".to_vec()),
        _ => panic!("expected Forward"),
    }
}

#[test]
fn session_states_never_go_backward() {
    let s0 = SessionState::Connecting;
    let s1 = next_state(&s0, true);
    assert!(s1 == SessionState::Handshaking);
    let s2 = next_state(&s1, true);
    assert!(s2 == SessionState::AwaitingRoomCommand);
    let s3 = next_state(&s2, true);
    assert!(s3 == SessionState::Relaying);
    let s4 = next_state(&s3, true);
    assert!(s4 == SessionState::Closed);
    assert!(next_state(&s4, true) == SessionState::Closed);
    assert!(next_state(&s1, false) == SessionState::Closed);
}

#[test]
fn per_sender_order_is_preserved() {
    let room = Room::new();
    let tx = room.get_broadcast();
    let mut rx = room.subscribe();
    publish(&tx, b"m1".to_vec(), 1).unwrap();
    publish(&tx, b"m2".to_vec(), 1).unwrap();
    let first = rx.try_recv().unwrap();
    let second = rx.try_recv().unwrap();
    assert_eq!(first.0, b"m1".to_vec());
    assert_eq!(second.0, b"m2".to_vec());
}

#[test]
fn end_to_end_create_join_relay_teardown() {
    let mut reg = RoomRegistry::new();

    // Client X asks for a new room.
    let intent_x = match parse(&b"dd::core::NEW_ROOM".to_vec()) {
        Ok(i) => i,
        Err(_) => panic!("expected CreateRoom"),
    };
    let code = resolve_code(&intent_x);
    let key = room_key(&code);
    let (tx_x, mut rx_x) = reg.join(key, 1);

    // Client Y joins by the same code.
    let mut line = b"dd::core::JOIN_ROOM::".to_vec();
    line.extend_from_slice(&code);
    let intent_y = match parse(&line) {
        Ok(i) => i,
        Err(_) => panic!("expected JoinRoom"),
    };
    let code_y = resolve_code(&intent_y);
    assert_eq!(code_y, code);
    let (_tx_y, mut rx_y) = reg.join(room_key(&code_y), 2);
    assert_eq!(reg.member_count(key), 2);

    // X sends "hello"; Y receives it as a newline-terminated line, X does
    // not (self-filtered).
    publish(&tx_x, b"hello".to_vec(), 1).unwrap();
    let (payload, origin) = rx_y.try_recv().unwrap();
    match relay_step(2, RelayEvent::Delivery(payload, origin)) {
        RelayAction::Forward(p) => assert_eq!(p, b"hello\n".to_vec()),
        _ => panic!("expected Forward"),
    }
    let (payload, origin) = rx_x.try_recv().unwrap();
    match relay_step(1, RelayEvent::Delivery(payload, origin)) {
        RelayAction::Skip => {},
        _ => panic!("expected Skip"),
    }
    assert!(matches!(rx_x.try_recv(), Err(TryRecvError::Empty)));

    // Both disconnect; the room is gone afterwards.
    assert!(!reg.remove_if_empty(key, 1));
    assert!(reg.remove_if_empty(key, 2));
    assert!(!reg.contains_room(key));
}
