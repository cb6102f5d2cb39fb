//! The capture side: choosing an input configuration that the codec
//! can work with, and the hot-path kernel that moves one callback's
//! samples toward the encoder without ever blocking.
use vstd::prelude::*;

use crate::audio::{StreamConfig, SupportedConfig};
use crate::mixer::{spec_push_count, Channel};
use crate::opus::{opus_rates, spec_opus_rates};
use crate::stats::Statistics;

verus! {

/// The first listed codec rate that the range supports.
pub open spec fn input_rate_for(c: SupportedConfig, rates: Seq<u32>) -> Option<u32>
    decreases rates.len(),
{
    if rates.len() == 0 {
        None
    } else if c.min_sample_rate <= rates[0] && rates[0] <= c.max_sample_rate {
        Some(rates[0])
    } else {
        input_rate_for(c, rates.drop_first())
    }
}

/// The configuration the first usable range yields: its channel count,
/// at the first codec rate it supports.
pub open spec fn spec_input_pick(cfgs: Seq<SupportedConfig>, rates: Seq<u32>) -> Option<
    StreamConfig,
>
    decreases cfgs.len(),
{
    if cfgs.len() == 0 {
        None
    } else {
        match input_rate_for(cfgs[0], rates) {
            Some(r) => Some(StreamConfig { sample_rate: r, channels: cfgs[0].channels }),
            None => spec_input_pick(cfgs.drop_first(), rates),
        }
    }
}

/// Pick the input configuration: the first supported range whose rate
/// span contains a codec rate, opened at the first such rate.  `None`
/// means no range works and the caller falls back to the device
/// default.
pub fn get_config(supported: &Vec<SupportedConfig>) -> (r: Option<StreamConfig>)
    ensures
        r == spec_input_pick(supported@, spec_opus_rates()),
{
    let rates = opus_rates();
    proof {
        assert(supported@.skip(0) =~= supported@);
    }
    let mut i: usize = 0;
    while i < supported.len()
        invariant
            i <= supported@.len(),
            rates@ == spec_opus_rates(),
            spec_input_pick(supported@, spec_opus_rates()) == spec_input_pick(
                supported@.skip(i as int),
                spec_opus_rates(),
            ),
        decreases supported@.len() - i,
    {
        let c = supported[i];
        proof {
            assert(supported@.skip(i as int)[0] == supported@[i as int]);
        }
        let mut j: usize = 0;
        let mut found: Option<u32> = None;
        proof {
            assert(rates@.skip(0) =~= rates@);
        }
        while j < rates.len() && found.is_none()
            invariant
                j <= rates@.len(),
                rates@ == spec_opus_rates(),
                c == supported@[i as int],
                i < supported@.len(),
                match found {
                    Some(x) => input_rate_for(c, rates@) == Some(x),
                    None => input_rate_for(c, rates@) == input_rate_for(
                        c,
                        rates@.skip(j as int),
                    ),
                },
            decreases rates@.len() - j, if found is None { 1int } else { 0int },
        {
            proof {
                assert(rates@.skip(j as int)[0] == rates@[j as int]);
                assert(rates@.skip(j as int).drop_first() =~= rates@.skip(j + 1));
            }
            if c.min_sample_rate <= rates[j] && rates[j] <= c.max_sample_rate {
                found = Some(rates[j]);
            }
            j = j + 1;
        }
        proof {
            if j == rates@.len() && found is None {
                assert(rates@.skip(j as int) =~= Seq::<u32>::empty());
            }
        }
        match found {
            Some(rate) => {
                return Some(StreamConfig { sample_rate: rate, channels: c.channels });
            }
            None => {
                proof {
                    assert(supported@.skip(i as int).drop_first() =~= supported@.skip(i + 1));
                }
                i = i + 1;
            }
        }
    }
    proof {
        assert(supported@.skip(supported@.len() as int) =~= Seq::<SupportedConfig>::empty());
    }
    None
}

/// Drop all but the first `step`-th of a sequence's head, clamping a
/// long step to the end.
pub open spec fn skip_clamped(data: Seq<i16>, n: int) -> Seq<i16> {
    if 0 <= n <= data.len() {
        data.skip(n)
    } else if n > data.len() {
        Seq::empty()
    } else {
        data
    }
}

/// Every `step`-th sample of an interleaved buffer: the first channel.
pub open spec fn spec_first_channel(data: Seq<i16>, step: int) -> Seq<i16>
    decreases data.len(),
    when step >= 1
{
    if data.len() == 0 {
        Seq::empty()
    } else {
        seq![data[0]] + spec_first_channel(skip_clamped(data, step), step)
    }
}

/// The capture callback's work: keep the first channel of the
/// interleaved buffer, queue it toward the encoder, and count every
/// sample the full queue forced us to drop.  No blocking, no
/// allocation beyond the staging vector.
pub fn capture_input(
    ch: &mut Channel,
    stats: &mut Statistics,
    data: &[i16],
    channels: usize,
) -> (n: usize)
    requires
        channels >= 1,
    ensures
        final(ch).capacity() == old(ch).capacity(),
        ({
            let taken = spec_first_channel(data@, channels as int);
            let n0 = spec_push_count(old(ch)@.len(), old(ch).capacity(), taken.len());
            &&& n == n0
            &&& final(ch)@ == old(ch)@ + taken.subrange(0, n0 as int)
            &&& final(stats).dropped_mic_samples.0 == (old(stats).dropped_mic_samples.0 + (
            taken.len() - n0)) % (usize::MAX + 1)
            &&& final(stats).pushed_output_samples == old(stats).pushed_output_samples
        }),
{
    let mut taken: Vec<i16> = Vec::new();
    let mut idx: usize = 0;
    proof {
        assert(skip_clamped(data@, 0) =~= data@);
    }
    while idx < data.len()
        invariant
            channels >= 1,
            idx <= data@.len(),
            taken@.len() <= idx,
            spec_first_channel(data@, channels as int) == taken@ + spec_first_channel(
                skip_clamped(data@, idx as int),
                channels as int,
            ),
        decreases data@.len() - idx,
    {
        let ghost rest = skip_clamped(data@, idx as int);
        proof {
            assert(rest[0] == data@[idx as int]);
            assert(skip_clamped(rest, channels as int) =~= skip_clamped(
                data@,
                idx + channels,
            ));
        }
        taken.push(data[idx]);
        if data.len() - idx <= channels {
            idx = data.len();
            proof {
                assert(skip_clamped(data@, data@.len() as int) =~= Seq::<i16>::empty());
                assert(spec_first_channel(Seq::<i16>::empty(), channels as int)
                    =~= Seq::<i16>::empty());
                assert(taken@ + Seq::<i16>::empty() =~= taken@);
            }
        } else {
            idx = idx + channels;
        }
    }
    proof {
        assert(skip_clamped(data@, idx as int) =~= Seq::<i16>::empty());
        assert(taken@ =~= spec_first_channel(data@, channels as int));
    }
    let n = ch.push_slice(taken.as_slice());
    stats.dropped_mic_samples.add(taken.len() - n);
    n
}

} // verus!
