use rust_voice::config::ServerConfig;
use rust_voice::packets::{ClientMessage, SeqNum, ServerMessage};
use rust_voice::server::Server;

fn connect(server: &mut Server, addr: u64, now: u64, name: &str) -> Vec<rust_voice::server::Outgoing> {
    server.handle_command(addr, now, ClientMessage::Connect { username: name.to_string() })
}

// A lone user connecting gets a Pong and nothing else, and its voice
// goes nowhere: the broadcast set of a one-user room is empty.
#[test]
fn single_peer_loopback() {
    let mut server = Server::new(ServerConfig::new());
    let out = connect(&mut server, 1, 0, "u1");
    assert_eq!(out.len(), 1);
    assert_eq!(out[0].addr, 1);
    assert!(matches!(out[0].msg, ServerMessage::Pong));
    assert_eq!(server.users.len(), 1);
    assert_eq!(server.users[0].id, 0);
    assert_eq!(server.users[0].username, "u1");

    let out = server.handle_command(
        1,
        20,
        ClientMessage::Voice { seq_num: SeqNum(0), samples: vec![1, 2, 3] },
    );
    assert_eq!(out.len(), 0);
}

// The second user gets the roster; the first hears about the newcomer.
#[test]
fn second_connect_roster_and_announcement() {
    let mut server = Server::new(ServerConfig::new());
    connect(&mut server, 1, 0, "u1");
    let out = connect(&mut server, 2, 5, "u2");
    assert_eq!(out.len(), 3);
    assert_eq!(out[0].addr, 2);
    assert!(matches!(out[0].msg, ServerMessage::Pong));
    assert_eq!(out[1].addr, 2);
    match &out[1].msg {
        ServerMessage::Connected(u) => {
            assert_eq!(u.id, 0);
            assert_eq!(u.username, "u1");
        }
        _ => panic!("expected the roster entry for u1"),
    }
    assert_eq!(out[2].addr, 1);
    match &out[2].msg {
        ServerMessage::Connected(u) => {
            assert_eq!(u.id, 1);
            assert_eq!(u.username, "u2");
        }
        _ => panic!("expected the announcement of u2"),
    }
}

// Voice from one peer reaches every other present address and never
// the sender itself.
#[test]
fn fanout_excludes_sender() {
    let mut server = Server::new(ServerConfig::new());
    connect(&mut server, 1, 0, "u1");
    connect(&mut server, 2, 0, "u2");
    connect(&mut server, 3, 0, "u3");
    let out = server.handle_command(
        1,
        10,
        ClientMessage::Voice { seq_num: SeqNum(42), samples: vec![7, 7, 7] },
    );
    let mut dests: Vec<u64> = out.iter().map(|o| o.addr).collect();
    dests.sort();
    assert_eq!(dests, vec![2, 3]);
    for o in &out {
        match &o.msg {
            ServerMessage::Voice(p) => {
                assert_eq!(p.seq_num.0, 42);
                assert_eq!(p.peer_id, 0);
                assert_eq!(p.data, vec![7, 7, 7]);
            }
            _ => panic!("expected relayed voice"),
        }
    }
}

// A duplicate Connect from a present address changes nothing and sends
// nothing.
#[test]
fn duplicate_connect_ignored() {
    let mut server = Server::new(ServerConfig::new());
    connect(&mut server, 1, 0, "u1");
    let out = connect(&mut server, 1, 5, "u1-again");
    assert_eq!(out.len(), 0);
    assert_eq!(server.users.len(), 1);
    assert_eq!(server.users[0].username, "u1");
    assert_eq!(server.counter, 1);
}

// A user that falls silent past the timeout is evicted on the next
// tick, and each survivor hears Disconnected about it exactly once.
#[test]
fn timeout_eviction() {
    let mut server = Server::new(ServerConfig::new());
    connect(&mut server, 1, 0, "u1");
    connect(&mut server, 2, 1000, "u2");
    // u2 stays fresh with a ping; u1 stays silent
    let out = server.handle_command(2, 3400, ClientMessage::Ping);
    assert_eq!(out.len(), 1);
    assert!(matches!(out[0].msg, ServerMessage::Pong));

    let out = server.heartbeat_tick(3500);
    assert_eq!(server.users.len(), 1);
    assert_eq!(server.users[0].username, "u2");
    assert_eq!(out.len(), 1);
    assert_eq!(out[0].addr, 2);
    match &out[0].msg {
        ServerMessage::Disconnected(u) => {
            assert_eq!(u.id, 0);
            assert_eq!(u.username, "u1");
        }
        _ => panic!("expected the eviction notice"),
    }
}

// A fresh user survives the tick untouched.
#[test]
fn heartbeat_keeps_live_users() {
    let mut server = Server::new(ServerConfig::new());
    connect(&mut server, 1, 0, "u1");
    let out = server.heartbeat_tick(3000);
    assert_eq!(out.len(), 0);
    assert_eq!(server.users.len(), 1);
}

// Disconnect removes the user and tells everyone left.
#[test]
fn disconnect_broadcasts_farewell() {
    let mut server = Server::new(ServerConfig::new());
    connect(&mut server, 1, 0, "u1");
    connect(&mut server, 2, 0, "u2");
    let out = server.handle_command(1, 10, ClientMessage::Disconnect);
    assert_eq!(server.users.len(), 1);
    assert_eq!(server.users[0].username, "u2");
    assert_eq!(out.len(), 1);
    assert_eq!(out[0].addr, 2);
    match &out[0].msg {
        ServerMessage::Disconnected(u) => assert_eq!(u.username, "u1"),
        _ => panic!("expected the farewell"),
    }
}

// Messages from an unknown address other than Connect are dropped.
#[test]
fn unknown_address_dropped() {
    let mut server = Server::new(ServerConfig::new());
    let out = server.handle_command(9, 0, ClientMessage::Ping);
    assert_eq!(out.len(), 0);
    let out = server.handle_command(
        9,
        0,
        ClientMessage::Voice { seq_num: SeqNum(0), samples: vec![1] },
    );
    assert_eq!(out.len(), 0);
    let out = server.handle_command(9, 0, ClientMessage::Disconnect);
    assert_eq!(out.len(), 0);
    assert_eq!(server.users.len(), 0);
}

// A malformed datagram decodes to nothing, so the receive loop drops
// it before the table is ever touched, and valid traffic still works.
#[test]
fn malformed_datagram_leaves_state_alone() {
    let mut server = Server::new(ServerConfig::new());
    connect(&mut server, 1, 0, "u1");
    let garbage = vec![0x5Au8; 50];
    assert!(ClientMessage::from_bytes(&garbage).is_none());
    assert_eq!(server.users.len(), 1);
    assert_eq!(server.counter, 1);

    let bytes = ClientMessage::Ping.to_bytes();
    let msg = ClientMessage::from_bytes(&bytes).expect("valid message after garbage");
    let out = server.handle_command(1, 100, msg);
    assert_eq!(out.len(), 1);
    assert!(matches!(out[0].msg, ServerMessage::Pong));
}
