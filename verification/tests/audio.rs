use rust_voice::audio::{StreamConfig, SupportedConfig};
use rust_voice::latency::Latency;
use rust_voice::opus::{nearest_opus_rate, opus_rates, OpusDecoder, OpusEncoder};
use rust_voice::playback::write_frames;
use rust_voice::stats::AtomicCounter;
use rust_voice::window::Window;
use rust_voice::{microphone, playback};

#[test]
fn latency_budget() {
    let l = Latency::new(150, 48000, 2);
    assert_eq!(l.ms, 150);
    assert_eq!(l.frames, 7200);
    assert_eq!(l.samples(), 14400);
}

#[test]
fn nearest_rate_picks_closest_then_first() {
    assert_eq!(nearest_opus_rate(44100), Some(48000));
    assert_eq!(nearest_opus_rate(22050), Some(24000));
    assert_eq!(nearest_opus_rate(8000), Some(8000));
    assert_eq!(nearest_opus_rate(0), Some(8000));
    // 20000 is equally far from 24000 and 16000: the earlier listed wins
    assert_eq!(nearest_opus_rate(20000), Some(24000));
    assert_eq!(opus_rates(), vec![48000, 24000, 16000, 12000, 8000]);
}

#[test]
fn encoder_assembles_whole_frames() {
    let mut enc = OpusEncoder::new(8000);
    assert_eq!(enc.frame_size(), 160);
    assert_eq!(OpusEncoder::new(16000).frame_size(), 320);
    assert!(enc.push(&[1i16; 100]).is_none());
    let frame = enc.push(&[2i16; 60]).expect("a full frame");
    assert_eq!(frame.len(), 160);
    assert_eq!(frame[0], 1);
    assert_eq!(frame[99], 1);
    assert_eq!(frame[100], 2);
    assert_eq!(frame[159], 2);
    // the frame's samples left the queue
    assert!(enc.push(&[3i16; 159]).is_none());
    assert!(enc.push(&[3i16; 1]).is_some());
}

#[test]
fn decoder_bookkeeping() {
    let mut dec = OpusDecoder::new(44100);
    assert_eq!(dec.frame_size(), 960); // 20 ms at the nearest rate, 48 kHz
    assert!(!dec.take_reset());
    dec.reset();
    assert!(dec.take_reset());
    assert!(!dec.take_reset());
    // a supported input rate is kept as the codec rate
    assert_eq!(OpusDecoder::new(8000).frame_size(), 160);
    assert_eq!(OpusDecoder::new(12000).frame_size(), 240);
    assert_eq!(OpusDecoder::new(24000).frame_size(), 480);
}

#[test]
fn input_config_first_usable_range() {
    let ranges = vec![
        SupportedConfig { min_sample_rate: 100, max_sample_rate: 200, channels: 1, is_f32: true },
        SupportedConfig {
            min_sample_rate: 8000,
            max_sample_rate: 50000,
            channels: 1,
            is_f32: false,
        },
    ];
    assert_eq!(
        microphone::get_config(&ranges),
        Some(StreamConfig { sample_rate: 48000, channels: 1 })
    );
    let none = vec![SupportedConfig {
        min_sample_rate: 1,
        max_sample_rate: 2,
        channels: 1,
        is_f32: true,
    }];
    assert_eq!(microphone::get_config(&none), None);
}

#[test]
fn output_config_requires_stereo_float() {
    let mono = SupportedConfig {
        min_sample_rate: 8000,
        max_sample_rate: 48000,
        channels: 1,
        is_f32: true,
    };
    let stereo_int = SupportedConfig {
        min_sample_rate: 8000,
        max_sample_rate: 48000,
        channels: 2,
        is_f32: false,
    };
    let stereo_f32 = SupportedConfig {
        min_sample_rate: 10000,
        max_sample_rate: 20000,
        channels: 2,
        is_f32: true,
    };
    let ranges = vec![mono, stereo_int, stereo_f32];
    assert_eq!(
        playback::get_config(&ranges),
        Some(StreamConfig { sample_rate: 16000, channels: 2 })
    );
    assert_eq!(playback::get_config(&vec![mono, stereo_int]), None);
}

#[test]
fn output_duplicates_mono_across_channels() {
    let mut out = vec![0i32; 7];
    let mono = vec![10, 20, 30];
    write_frames(&mut out, 2, &mono);
    assert_eq!(out, vec![10, 10, 20, 20, 30, 30, 0]);
}

#[test]
fn counters() {
    let mut c = AtomicCounter(0);
    assert_eq!(c.inc(), 0);
    assert_eq!(c.add(10), 1);
    assert_eq!(c.get(), 11);
    assert_eq!(c.reset(), 11);
    assert_eq!(c.get(), 0);
    c.add(3);
    assert_eq!(c.into_inner(), 3);
}

#[test]
fn window_far_corner() {
    let w = Window { x: 3, y: 4, w: 10, h: 20 };
    assert_eq!(w.get_max_yx(), (13, 24));
}
