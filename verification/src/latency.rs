//! The playback delay budget, derived once per stream from the chosen
//! latency in milliseconds, the sample rate, and the channel count.
use vstd::prelude::*;

verus! {

/// A latency budget: `frames = ms * rate / 1000` and
/// `samples = frames * channels`, fixed once computed.
#[derive(Clone, Copy)]
pub struct Latency {
    pub ms: u32,
    pub frames: usize,
    pub samples: usize,
}

impl Latency {
    /// Derive the budget for a stream configuration.
    pub fn new(latency_ms: u32, sample_rate: u32, channels: u16) -> (r: Latency)
        requires
            latency_ms * sample_rate / 1000 <= usize::MAX,
            latency_ms * sample_rate / 1000 * channels <= usize::MAX,
        ensures
            r.ms == latency_ms,
            r.frames == latency_ms * sample_rate / 1000,
            r.samples == r.frames * channels,
    {
        proof {
            assert(latency_ms * sample_rate <= 0xffff_ffff * 0xffff_ffff) by (nonlinear_arith)
                requires
                    latency_ms <= 0xffff_ffffu32,
                    sample_rate <= 0xffff_ffffu32,
            ;
        }
        let frames: usize = ((latency_ms as u64 * sample_rate as u64) / 1000) as usize;
        let samples: usize = frames * (channels as usize);
        Latency { ms: latency_ms, frames, samples }
    }

    /// The budget in samples.
    pub fn samples(&self) -> (r: usize)
        ensures
            r == self.samples,
    {
        self.samples
    }
}

} // verus!
