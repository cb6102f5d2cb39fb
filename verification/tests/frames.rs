use rust_voice::frames::{AudioFrame, FrameQueue};
use rust_voice::packets::SeqNum;

fn frame(seq: u16, v: i16) -> AudioFrame {
    AudioFrame { seq_num: SeqNum(seq), data: vec![v] }
}

#[test]
fn frames_come_out_in_sequence_order() {
    let mut q = FrameQueue::new();
    q.push(frame(3, 30));
    q.push(frame(1, 10));
    q.push(frame(2, 20));
    assert_eq!(q.len(), 3);
    assert_eq!(q.next().unwrap().seq_num.0, 1);
    assert_eq!(q.next().unwrap().seq_num.0, 2);
    let last = q.next().unwrap();
    assert_eq!(last.seq_num.0, 3);
    assert_eq!(last.data, vec![30]);
    assert!(q.next().is_none());
}

// Around the counter roll-over, the queue does not treat 0 as older
// than 65535: the pre-wrap frame still plays first.
#[test]
fn wrap_around_keeps_order() {
    let mut q = FrameQueue::new();
    q.push(frame(0, 2));
    q.push(frame(65535, 1));
    q.push(frame(1, 3));
    assert_eq!(q.next().unwrap().seq_num.0, 65535);
    assert_eq!(q.next().unwrap().seq_num.0, 0);
    assert_eq!(q.next().unwrap().seq_num.0, 1);
}

#[test]
fn equal_sequence_numbers_keep_arrival_order() {
    let mut q = FrameQueue::new();
    q.push(frame(5, 1));
    q.push(frame(5, 2));
    assert_eq!(q.next().unwrap().data, vec![1]);
    assert_eq!(q.next().unwrap().data, vec![2]);
}
