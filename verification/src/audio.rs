//! Plain-value models of what the audio host reports about a device:
//! the supported configuration ranges the negotiation code reads, and
//! the configuration it settles on.
use vstd::prelude::*;

verus! {

/// One supported configuration range of a device: the rate span it
/// accepts, its channel count, and whether it delivers float samples.
#[derive(Clone, Copy, Debug)]
pub struct SupportedConfig {
    pub min_sample_rate: u32,
    pub max_sample_rate: u32,
    pub channels: u16,
    pub is_f32: bool,
}

/// The configuration a stream is opened with.
#[derive(Clone, Copy, Debug, PartialEq, Eq, Structural)]
pub struct StreamConfig {
    pub sample_rate: u32,
    pub channels: u16,
}

} // verus!
