use rust_voice::packets::{AudioPacket, ClientMessage, SeqNum, ServerMessage, UserInfo};

#[test]
fn ping_layout() {
    assert_eq!(ClientMessage::Ping.to_bytes(), vec![2, 0, 0, 0]);
    assert_eq!(ClientMessage::Disconnect.to_bytes(), vec![1, 0, 0, 0]);
    assert_eq!(ServerMessage::Pong.to_bytes(), vec![0, 0, 0, 0]);
}

#[test]
fn voice_layout() {
    let m = ClientMessage::Voice { seq_num: SeqNum(513), samples: vec![9, 8, 7] };
    let bytes = m.to_bytes();
    assert_eq!(
        bytes,
        vec![3, 0, 0, 0, 1, 2, 3, 0, 0, 0, 0, 0, 0, 0, 9, 8, 7]
    );
}

#[test]
fn connect_layout() {
    let m = ClientMessage::Connect { username: "u1".to_string() };
    let bytes = m.to_bytes();
    assert_eq!(
        bytes,
        vec![0, 0, 0, 0, 2, 0, 0, 0, 0, 0, 0, 0, b'u', b'1']
    );
}

#[test]
fn client_round_trips() {
    let cases = vec![
        ClientMessage::Connect { username: "alice".to_string() },
        ClientMessage::Connect { username: String::new() },
        ClientMessage::Connect { username: "héllo ∞".to_string() },
        ClientMessage::Disconnect,
        ClientMessage::Ping,
        ClientMessage::Voice { seq_num: SeqNum(0), samples: Vec::new() },
        ClientMessage::Voice { seq_num: SeqNum(65535), samples: vec![0, 255, 1] },
    ];
    for m in cases {
        let bytes = m.to_bytes();
        let back = ClientMessage::from_bytes(&bytes).expect("decode failed");
        assert_eq!(back.to_bytes(), bytes);
        match (&m, &back) {
            (
                ClientMessage::Connect { username: a },
                ClientMessage::Connect { username: b },
            ) => assert_eq!(a, b),
            (ClientMessage::Disconnect, ClientMessage::Disconnect) => {}
            (ClientMessage::Ping, ClientMessage::Ping) => {}
            (
                ClientMessage::Voice { seq_num: sa, samples: da },
                ClientMessage::Voice { seq_num: sb, samples: db },
            ) => {
                assert_eq!(sa.0, sb.0);
                assert_eq!(da, db);
            }
            _ => panic!("variant changed in round trip"),
        }
    }
}

#[test]
fn server_round_trips() {
    let cases = vec![
        ServerMessage::Pong,
        ServerMessage::Connected(UserInfo { id: 7, username: "bob".to_string() }),
        ServerMessage::Disconnected(UserInfo { id: 4294967295, username: String::new() }),
        ServerMessage::Voice(AudioPacket {
            seq_num: SeqNum(65530),
            peer_id: 255,
            data: vec![1, 2, 3, 4],
        }),
    ];
    for m in cases {
        let bytes = m.to_bytes();
        let back = ServerMessage::from_bytes(&bytes).expect("decode failed");
        assert_eq!(back.to_bytes(), bytes);
        match (&m, &back) {
            (ServerMessage::Pong, ServerMessage::Pong) => {}
            (ServerMessage::Connected(a), ServerMessage::Connected(b)) => {
                assert_eq!(a.id, b.id);
                assert_eq!(a.username, b.username);
            }
            (ServerMessage::Disconnected(a), ServerMessage::Disconnected(b)) => {
                assert_eq!(a.id, b.id);
                assert_eq!(a.username, b.username);
            }
            (ServerMessage::Voice(a), ServerMessage::Voice(b)) => {
                assert_eq!(a.seq_num.0, b.seq_num.0);
                assert_eq!(a.peer_id, b.peer_id);
                assert_eq!(a.data, b.data);
            }
            _ => panic!("variant changed in round trip"),
        }
    }
}

#[test]
fn malformed_rejected() {
    // fifty bytes of garbage, as an attacker might send
    let garbage = vec![0xABu8; 50];
    assert!(ClientMessage::from_bytes(&garbage).is_none());
    assert!(ServerMessage::from_bytes(&garbage).is_none());

    // fifty zero bytes: a Connect tag whose length field lies
    let zeros = vec![0u8; 50];
    assert!(ClientMessage::from_bytes(&zeros).is_none());

    // too short for any message
    assert!(ClientMessage::from_bytes(&[]).is_none());
    assert!(ClientMessage::from_bytes(&[2, 0, 0]).is_none());

    // unknown tag
    assert!(ClientMessage::from_bytes(&[9, 0, 0, 0]).is_none());

    // a valid message with a trailing byte is not a message
    let mut bytes = ClientMessage::Ping.to_bytes();
    bytes.push(0);
    assert!(ClientMessage::from_bytes(&bytes).is_none());

    // a Connect whose name is not UTF-8
    let m = ClientMessage::Connect { username: "a".to_string() };
    let mut bytes = m.to_bytes();
    let last = bytes.len() - 1;
    bytes[last] = 0xFF;
    assert!(ClientMessage::from_bytes(&bytes).is_none());

    // a Voice whose length field overshoots the buffer
    let m = ClientMessage::Voice { seq_num: SeqNum(1), samples: vec![5, 5] };
    let mut bytes = m.to_bytes();
    bytes[6] = 99;
    assert!(ClientMessage::from_bytes(&bytes).is_none());
}
