//! Bookkeeping around the speech codec: the supported rates, the frame
//! clock of the encoder, and the decoder's reset discipline.  The codec
//! itself is an outside collaborator; these types decide what it is fed
//! and when its state must be cleared.
use vstd::prelude::*;

verus! {

/// The sample rates the codec accepts, preferred first.
pub open spec fn spec_opus_rates() -> Seq<u32> {
    seq![48000u32, 24000u32, 16000u32, 12000u32, 8000u32]
}

/// The distance between two rates.
pub open spec fn rate_diff(a: u32, b: u32) -> int {
    if a >= b {
        a - b
    } else {
        b - a
    }
}

/// The supported rates as a vector, preferred first.
pub fn opus_rates() -> (r: Vec<u32>)
    ensures
        r@ == spec_opus_rates(),
{
    let r: Vec<u32> = vec![48000, 24000, 16000, 12000, 8000];
    proof {
        assert(r@ =~= spec_opus_rates());
    }
    r
}

/// `x` is the supported rate closest to `sample_rate`, and the first
/// listed among equally close ones.
pub open spec fn is_nearest_rate(x: u32, sample_rate: u32) -> bool {
    exists|k: int|
        0 <= k < spec_opus_rates().len() && spec_opus_rates()[k] == x && (forall|i: int|
            0 <= i < spec_opus_rates().len() ==> rate_diff(x, sample_rate) <= rate_diff(
                #[trigger] spec_opus_rates()[i],
                sample_rate,
            )) && (forall|i: int|
            0 <= i < k ==> rate_diff(#[trigger] spec_opus_rates()[i], sample_rate) > rate_diff(
                x,
                sample_rate,
            ))
}

/// The codec-supported rate closest to the hardware's rate; among
/// equally close rates, the one listed first wins.
pub fn nearest_opus_rate(sample_rate: u32) -> (r: Option<u32>)
    ensures
        r is Some,
        r matches Some(x) ==> is_nearest_rate(x, sample_rate),
{
    let rates = opus_rates();
    let mut best: u32 = rates[0];
    let ghost mut bk: int = 0;
    let mut i: usize = 1;
    while i < rates.len()
        invariant
            1 <= i <= rates@.len(),
            rates@ == spec_opus_rates(),
            0 <= bk < i,
            rates@[bk] == best,
            forall|j: int| 0 <= j < i ==> rate_diff(best, sample_rate) <= rate_diff(
                #[trigger] rates@[j],
                sample_rate,
            ),
            forall|j: int| 0 <= j < bk ==> rate_diff(#[trigger] rates@[j], sample_rate)
                > rate_diff(best, sample_rate),
        decreases rates@.len() - i,
    {
        let cand = rates[i];
        let cd = if cand >= sample_rate {
            cand - sample_rate
        } else {
            sample_rate - cand
        };
        let bd = if best >= sample_rate {
            best - sample_rate
        } else {
            sample_rate - best
        };
        if cd < bd {
            best = cand;
            proof {
                bk = i as int;
            }
        }
        i = i + 1;
    }
    Some(best)
}

/// The number of samples in one codec frame (20 ms) at `rate`.
pub open spec fn spec_frame_size(rate: u32) -> int {
    rate * 20 / 1000
}

/// Decoder-side bookkeeping: the stream's rates, the fixed number of
/// samples one compressed frame yields, and whether the codec state
/// must be cleared before the next decode (required when a peer
/// rejoins, to avoid stale-state artifacts).
pub struct OpusDecoder {
    sample_rate: u32,
    opus_rate: u32,
    frame_size: usize,
    pending_reset: bool,
}

impl OpusDecoder {
    /// The codec rate chosen for the stream.
    pub closed spec fn spec_opus_rate(&self) -> u32 {
        self.opus_rate
    }

    /// Whether the codec state must be cleared before the next decode.
    pub closed spec fn spec_pending_reset(&self) -> bool {
        self.pending_reset
    }

    /// The samples one compressed frame decodes to, as a ghost value.
    pub closed spec fn spec_frame(&self) -> int {
        self.frame_size as int
    }

    /// Set up decoding for a stream heard at `sample_rate`: the codec
    /// runs at the nearest supported rate, one frame per 20 ms.
    pub fn new(sample_rate: u32) -> (r: OpusDecoder)
        ensures
            spec_opus_rates().contains(r.spec_opus_rate()),
            is_nearest_rate(r.spec_opus_rate(), sample_rate),
            r.spec_frame() == spec_frame_size(r.spec_opus_rate()),
            !r.spec_pending_reset(),
    {
        let opus_rate = match nearest_opus_rate(sample_rate) {
            Some(r) => r,
            None => 48000,
        };
        proof {
            assert(spec_opus_rates().contains(opus_rate));
            let k = choose|k: int|
                0 <= k < spec_opus_rates().len() && spec_opus_rates()[k] == opus_rate;
            assert(8000 <= spec_opus_rates()[k] <= 48000);
        }
        let frame_size: usize = (opus_rate as usize * 20) / 1000;
        OpusDecoder { sample_rate, opus_rate, frame_size, pending_reset: false }
    }

    /// How many samples one compressed frame decodes to.
    pub fn frame_size(&self) -> (r: usize)
        ensures
            r == self.spec_frame(),
    {
        self.frame_size
    }

    /// Ask for the codec state to be cleared before the next decode.
    pub fn reset(&mut self)
        ensures
            final(self).spec_pending_reset(),
            final(self).spec_opus_rate() == old(self).spec_opus_rate(),
            final(self).spec_frame() == old(self).spec_frame(),
    {
        self.pending_reset = true;
    }

    /// Consume the reset request: true exactly when the codec state
    /// must be cleared now.
    pub fn take_reset(&mut self) -> (r: bool)
        ensures
            r == old(self).spec_pending_reset(),
            !final(self).spec_pending_reset(),
            final(self).spec_opus_rate() == old(self).spec_opus_rate(),
            final(self).spec_frame() == old(self).spec_frame(),
    {
        let r = self.pending_reset;
        self.pending_reset = false;
        r
    }
}

/// Encoder-side frame assembly: samples queue up until one 20 ms frame
/// is complete, which is then handed out for the codec to compress.
pub struct OpusEncoder {
    sample_rate: u32,
    opus_rate: u32,
    frame_size: usize,
    buffer: Vec<i16>,
}

impl OpusEncoder {
    /// The codec rate chosen for the stream.
    pub closed spec fn spec_opus_rate(&self) -> u32 {
        self.opus_rate
    }

    /// The samples waiting for a frame boundary.
    pub closed spec fn spec_buffered(&self) -> Seq<i16> {
        self.buffer@
    }

    /// The assembler is set up for whole positive frames.
    pub closed spec fn wf(&self) -> bool {
        self.frame_size == spec_frame_size(self.opus_rate) && self.frame_size > 0
            && spec_opus_rates().contains(self.opus_rate)
    }

    /// Set up encoding for input captured at `sample_rate`: the codec
    /// runs at the nearest supported rate, one frame per 20 ms.
    pub fn new(sample_rate: u32) -> (r: OpusEncoder)
        ensures
            r.wf(),
            is_nearest_rate(r.spec_opus_rate(), sample_rate),
            r.spec_buffered().len() == 0,
    {
        let opus_rate = match nearest_opus_rate(sample_rate) {
            Some(r) => r,
            None => 48000,
        };
        proof {
            assert(spec_opus_rates().contains(opus_rate));
            let k = choose|k: int|
                0 <= k < spec_opus_rates().len() && spec_opus_rates()[k] == opus_rate;
            assert(8000 <= spec_opus_rates()[k] <= 48000);
        }
        let frame_size: usize = (opus_rate as usize * 20) / 1000;
        OpusEncoder { sample_rate, opus_rate, frame_size, buffer: Vec::new() }
    }

    /// How many samples make one frame.
    pub fn frame_size(&self) -> (r: usize)
        requires
            self.wf(),
        ensures
            r == spec_frame_size(self.spec_opus_rate()),
    {
        self.frame_size
    }

    /// Queue captured samples; once a whole frame has accumulated,
    /// return it for compression.  At most one frame comes out per
    /// call, and its samples leave the queue.
    pub fn push(&mut self, data: &[i16]) -> (r: Option<Vec<i16>>)
        requires
            old(self).wf(),
            old(self).spec_buffered().len() + data@.len() <= usize::MAX,
        ensures
            final(self).wf(),
            final(self).spec_opus_rate() == old(self).spec_opus_rate(),
            ({
                let all = old(self).spec_buffered() + data@;
                let fs = spec_frame_size(old(self).spec_opus_rate());
                if all.len() >= fs {
                    r matches Some(frame) && frame@ == all.subrange(0, fs) && final(self).spec_buffered() == all.skip(fs)
                } else {
                    r is None && final(self).spec_buffered() == all
                }
            }),
    {
        let ghost all = self.buffer@ + data@;
        let mut i: usize = 0;
        while i < data.len()
            invariant
                i <= data@.len(),
                self.buffer@.len() + data@.len() <= usize::MAX + i,
                self.buffer@ == old(self).buffer@ + data@.subrange(0, i as int),
                self.frame_size == old(self).frame_size,
                self.opus_rate == old(self).opus_rate,
                self.sample_rate == old(self).sample_rate,
            decreases data@.len() - i,
        {
            self.buffer.push(data[i]);
            i = i + 1;
            assert(self.buffer@ =~= old(self).buffer@ + data@.subrange(0, i as int));
        }
        proof {
            assert(self.buffer@ =~= all);
        }
        if self.buffer.len() >= self.frame_size {
            let frame = take_front(&mut self.buffer, self.frame_size);
            Some(frame)
        } else {
            None
        }
    }

}

/// Split the first `n` elements off the front of `v`.
fn take_front(v: &mut Vec<i16>, n: usize) -> (r: Vec<i16>)
    requires
        n <= old(v)@.len(),
    ensures
        r@ == old(v)@.subrange(0, n as int),
        final(v)@ == old(v)@.skip(n as int),
{
    let mut front: Vec<i16> = Vec::new();
    let mut i: usize = 0;
    while i < n
        invariant
            i <= n <= v@.len(),
            v@ == old(v)@,
            front@ == v@.subrange(0, i as int),
        decreases n - i,
    {
        front.push(v[i]);
        i = i + 1;
        assert(front@ =~= v@.subrange(0, i as int));
    }
    let mut rest: Vec<i16> = Vec::new();
    let mut j: usize = n;
    while j < v.len()
        invariant
            n <= j <= v@.len(),
            v@ == old(v)@,
            rest@ == v@.subrange(n as int, j as int),
        decreases v@.len() - j,
    {
        rest.push(v[j]);
        j = j + 1;
        assert(rest@ =~= v@.subrange(n as int, j as int));
    }
    proof {
        assert(rest@ =~= old(v)@.skip(n as int));
    }
    *v = rest;
    front
}

} // verus!
