use rust_voice::client::Client;
use rust_voice::client::Statistics;
use rust_voice::packets::{ClientMessage, SeqNum};

fn greater_than(a: u16, b: u16, greater_than: bool) {
    let (a, b): (SeqNum, SeqNum) = (a.into(), b.into());
    assert_eq!(a > b, greater_than);
    assert_eq!(a < b, !greater_than);
}

#[test]
fn packet_test_sequence_ordering() {
    greater_than(0, 1, false);
    greater_than(0, u16::MAX, true);
    greater_than(32768, u16::MAX, false);
    greater_than(32767, u16::MAX, true);
}

#[test]
fn packets_test_sequence_ordering() {
    greater_than(0, 1, false);
    greater_than(0, u16::MAX, true);
    greater_than(32768, u16::MAX, false);
    greater_than(32767, u16::MAX, true);
}

#[test]
fn seq_num_equal_compare_equal() {
    assert_eq!(SeqNum(5), SeqNum(5));
    assert!(!(SeqNum(5) > SeqNum(5)));
    assert!(!(SeqNum(5) < SeqNum(5)));
}

#[test]
fn seq_num_wrapping_add() {
    assert_eq!(SeqNum(65535).wrapping_add(1).0, 0);
    assert_eq!(SeqNum(65530).wrapping_add(10).0, 4);
    assert_eq!(SeqNum(1).wrapping_add(2).0, 3);
}

#[test]
fn seq_num_is_after() {
    assert!(SeqNum(1).is_after(&SeqNum(0)));
    assert!(SeqNum(0).is_after(&SeqNum(65535)));
    assert!(!SeqNum(65535).is_after(&SeqNum(0)));
}

// A client whose counter sits just below the wrap sends a burst: the
// numbers run 65530..65535 and then 0..13, and the post-wrap numbers
// still order after the pre-wrap ones.
#[test]
fn seq_wrap_burst() {
    let mut client = Client {
        seq_num: SeqNum(65530),
        connected: true,
        stats: Statistics::new(),
    };
    let mut seen: Vec<u16> = Vec::new();
    for _ in 0..20 {
        match client.voice_message(vec![0u8]) {
            ClientMessage::Voice { seq_num, .. } => seen.push(seq_num.0),
            _ => panic!("expected a voice message"),
        }
    }
    let mut expected: Vec<u16> = (65530..=65535).collect();
    expected.extend(0..14);
    assert_eq!(seen, expected);
    assert!(SeqNum(0).is_after(&SeqNum(65535)));
    assert!(SeqNum(13).is_after(&SeqNum(65530)));
    assert!(SeqNum(0) > SeqNum(65535));
}
