use rust_voice::client::{Client, ClientEvent};
use rust_voice::packets::{
    AudioPacket, ClientMessage, SeqNum, ServerMessage, UserInfo,
};

#[test]
fn handshake_accepts_only_pong() {
    let mut client = Client::new();
    assert!(!client.connected());
    let rejected = client.handle_connect_reply(&ServerMessage::Connected(UserInfo {
        id: 0,
        username: "x".to_string(),
    }));
    assert!(!rejected);
    assert!(!client.connected());
    let accepted = client.handle_connect_reply(&ServerMessage::Pong);
    assert!(accepted);
    assert!(client.connected());
}

#[test]
fn connect_request_carries_name() {
    let client = Client::new();
    match client.connect_request("u1".to_string()) {
        ClientMessage::Connect { username } => assert_eq!(username, "u1"),
        _ => panic!("expected a connect request"),
    }
    assert!(matches!(client.disconnect_message(), ClientMessage::Disconnect));
}

#[test]
fn voice_messages_count_up_from_zero() {
    let mut client = Client::new();
    match client.voice_message(vec![1]) {
        ClientMessage::Voice { seq_num, samples } => {
            assert_eq!(seq_num.0, 0);
            assert_eq!(samples, vec![1]);
        }
        _ => panic!("expected voice"),
    }
    match client.voice_message(vec![2]) {
        ClientMessage::Voice { seq_num, .. } => assert_eq!(seq_num.0, 1),
        _ => panic!("expected voice"),
    }
}

#[test]
fn next_seq_wraps() {
    let mut client = Client::new();
    client.seq_num = SeqNum(65535);
    assert_eq!(client.next_seq().0, 65535);
    assert_eq!(client.next_seq().0, 0);
}

#[test]
fn dispatch_maps_messages_to_events() {
    let client = Client::new();
    assert!(matches!(client.handle_message(ServerMessage::Pong), ClientEvent::Pong));
    match client.handle_message(ServerMessage::Connected(UserInfo {
        id: 3,
        username: "ann".to_string(),
    })) {
        ClientEvent::Joined(u) => {
            assert_eq!(u.id, 3);
            assert_eq!(u.username, "ann");
        }
        _ => panic!("expected joined"),
    }
    match client.handle_message(ServerMessage::Disconnected(UserInfo {
        id: 3,
        username: "ann".to_string(),
    })) {
        ClientEvent::Left(u) => assert_eq!(u.id, 3),
        _ => panic!("expected left"),
    }
    match client.handle_message(ServerMessage::Voice(AudioPacket {
        seq_num: SeqNum(7),
        peer_id: 2,
        data: vec![1, 2],
    })) {
        ClientEvent::Voice(p) => {
            assert_eq!(p.seq_num.0, 7);
            assert_eq!(p.peer_id, 2);
            assert_eq!(p.data, vec![1, 2]);
        }
        _ => panic!("expected voice"),
    }
}

#[test]
fn traffic_statistics_accumulate() {
    let mut client = Client::new();
    client.record_sent(100);
    client.record_sent(20);
    client.record_received(7);
    let snap = client.stats.get();
    assert_eq!(snap.packets_sent, 2);
    assert_eq!(snap.bytes_sent, 120);
    assert_eq!(snap.packets_received, 1);
    assert_eq!(snap.bytes_received, 7);
}
