use rust_voice::latency::Latency;
use rust_voice::microphone::capture_input;
use rust_voice::mixer::{AddPeer, Channel, PeerMixer};
use rust_voice::stats::Statistics;

// A fresh channel yields exactly the latency budget of silence before
// any producer pushed a sample.
#[test]
fn jitter_preroll() {
    let latency = Latency::new(10, 1000, 1);
    assert_eq!(latency.samples(), 10);
    let mut ch = Channel::new(&latency);
    for _ in 0..10 {
        assert_eq!(ch.pop(), Some(0));
    }
    assert_eq!(ch.pop(), None);
}

#[test]
fn channel_orders_and_bounds() {
    let latency = Latency::new(5, 1000, 1);
    let mut ch = Channel::new(&latency);
    // capacity is twice the budget: 10 slots, 5 already hold silence
    let taken = ch.push_slice(&[1, 2, 3, 4, 5, 6, 7]);
    assert_eq!(taken, 5);
    assert_eq!(ch.len(), 10);
    for _ in 0..5 {
        assert_eq!(ch.pop(), Some(0));
    }
    for expected in 1..=5 {
        assert_eq!(ch.pop(), Some(expected));
    }
    assert_eq!(ch.pop(), None);
}

// Two peers' streams mix sample-wise; silence fills in for whoever has
// nothing to say, and the mixer runs dry when every channel is empty.
#[test]
fn mixer_additivity() {
    let latency = Latency::new(2, 1000, 1);
    let mut mixer = PeerMixer::new(48000, latency);
    assert!(matches!(mixer.add_peer(1), AddPeer::Added));
    assert!(matches!(mixer.add_peer(2), AddPeer::Added));
    assert!(matches!(mixer.add_peer(1), AddPeer::AlreadyPresent));

    let (n, lazy) = mixer.push(1, &[100, 200, 300]);
    assert_eq!(n, 2); // the channel holds 2 preroll + 2 new samples
    assert!(!lazy);
    let (n, lazy) = mixer.push(2, &[7, 8]);
    assert_eq!(n, 2);
    assert!(!lazy);

    // two preroll frames of silence from both channels
    assert_eq!(mixer.next(), Some(0));
    assert_eq!(mixer.next(), Some(0));
    // then the element-wise sums
    assert_eq!(mixer.next(), Some(107));
    assert_eq!(mixer.next(), Some(208));
    assert_eq!(mixer.next(), None);
}

// A frame for a never-seen peer lazily creates its channel.
#[test]
fn mixer_lazy_add() {
    let latency = Latency::new(2, 1000, 1);
    let mut mixer = PeerMixer::new(48000, latency);
    let (n, lazy) = mixer.push(9, &[5]);
    assert_eq!(n, 1);
    assert!(lazy);
    assert_eq!(mixer.next(), Some(0));
    assert_eq!(mixer.next(), Some(0));
    assert_eq!(mixer.next(), Some(5));
    assert_eq!(mixer.next(), None);
}

#[test]
fn mixer_remove_peer_discards_samples() {
    let latency = Latency::new(1, 1000, 1);
    let mut mixer = PeerMixer::new(48000, latency);
    mixer.add_peer(1);
    mixer.push(1, &[9]);
    mixer.remove_peer(1);
    assert_eq!(mixer.next(), None);
}

// The capture path never blocks: what the full queue cannot take is
// dropped and counted, here a second of audio against a tiny queue.
#[test]
fn mic_overflow_counts_drops() {
    let latency = Latency::new(5, 1000, 1);
    let mut ch = Channel::new(&latency);
    let mut stats = Statistics::new();
    let data = vec![1i16; 48000];
    let pushed = capture_input(&mut ch, &mut stats, &data, 1);
    assert_eq!(pushed, 5); // room left after the preroll
    assert_eq!(stats.dropped_mic_samples(), 48000 - 5);
    assert_eq!(stats.pushed_output_samples(), 0);
}

// Only the first channel of interleaved input is captured.
#[test]
fn capture_takes_first_channel() {
    let latency = Latency::new(8, 1000, 1);
    let mut ch = Channel::new(&latency);
    let mut stats = Statistics::new();
    // stereo: left samples 1,2,3 with right samples 9,9,9
    let data = vec![1i16, 9, 2, 9, 3, 9];
    let pushed = capture_input(&mut ch, &mut stats, &data, 2);
    assert_eq!(pushed, 3);
    assert_eq!(stats.dropped_mic_samples(), 0);
    for _ in 0..8 {
        assert_eq!(ch.pop(), Some(0));
    }
    assert_eq!(ch.pop(), Some(1));
    assert_eq!(ch.pop(), Some(2));
    assert_eq!(ch.pop(), Some(3));
    assert_eq!(ch.pop(), None);
}
