//! The playback side: choosing an output configuration the codec and
//! mixer can feed, and the hot-path kernel that spreads mixed mono
//! samples across the device's channels.
use vstd::prelude::*;

use crate::audio::{StreamConfig, SupportedConfig};
use crate::opus::{opus_rates, spec_opus_rates};

verus! {

/// The first listed codec rate usable with this range for playback:
/// the range must be two-channel float and span the rate.
pub open spec fn output_rate_for(c: SupportedConfig, rates: Seq<u32>) -> Option<u32>
    decreases rates.len(),
{
    if rates.len() == 0 {
        None
    } else if c.channels == 2 && c.is_f32 && c.min_sample_rate <= rates[0] && rates[0]
        <= c.max_sample_rate {
        Some(rates[0])
    } else {
        output_rate_for(c, rates.drop_first())
    }
}

/// The configuration the first usable range yields.
pub open spec fn spec_output_pick(cfgs: Seq<SupportedConfig>, rates: Seq<u32>) -> Option<
    StreamConfig,
>
    decreases cfgs.len(),
{
    if cfgs.len() == 0 {
        None
    } else {
        match output_rate_for(cfgs[0], rates) {
            Some(r) => Some(StreamConfig { sample_rate: r, channels: cfgs[0].channels }),
            None => spec_output_pick(cfgs.drop_first(), rates),
        }
    }
}

/// Pick the output configuration: the first two-channel float range
/// whose rate span contains a codec rate, opened at the first such
/// rate.  `None` sends the caller to the device default.
pub fn get_config(supported: &Vec<SupportedConfig>) -> (r: Option<StreamConfig>)
    ensures
        r == spec_output_pick(supported@, spec_opus_rates()),
{
    let rates = opus_rates();
    proof {
        assert(supported@.skip(0) =~= supported@);
    }
    let mut i: usize = 0;
    while i < supported.len()
        invariant
            i <= supported@.len(),
            rates@ == spec_opus_rates(),
            spec_output_pick(supported@, spec_opus_rates()) == spec_output_pick(
                supported@.skip(i as int),
                spec_opus_rates(),
            ),
        decreases supported@.len() - i,
    {
        let c = supported[i];
        proof {
            assert(supported@.skip(i as int)[0] == supported@[i as int]);
        }
        let mut j: usize = 0;
        let mut found: Option<u32> = None;
        proof {
            assert(rates@.skip(0) =~= rates@);
        }
        while j < rates.len() && found.is_none()
            invariant
                j <= rates@.len(),
                rates@ == spec_opus_rates(),
                c == supported@[i as int],
                i < supported@.len(),
                match found {
                    Some(x) => output_rate_for(c, rates@) == Some(x),
                    None => output_rate_for(c, rates@) == output_rate_for(
                        c,
                        rates@.skip(j as int),
                    ),
                },
            decreases rates@.len() - j, if found is None { 1int } else { 0int },
        {
            proof {
                assert(rates@.skip(j as int)[0] == rates@[j as int]);
                assert(rates@.skip(j as int).drop_first() =~= rates@.skip(j + 1));
            }
            if c.channels == 2 && c.is_f32 && c.min_sample_rate <= rates[j] && rates[j]
                <= c.max_sample_rate {
                found = Some(rates[j]);
            }
            j = j + 1;
        }
        proof {
            if j == rates@.len() && found is None {
                assert(rates@.skip(j as int) =~= Seq::<u32>::empty());
            }
        }
        match found {
            Some(rate) => {
                return Some(StreamConfig { sample_rate: rate, channels: c.channels });
            }
            None => {
                proof {
                    assert(supported@.skip(i as int).drop_first() =~= supported@.skip(i + 1));
                }
                i = i + 1;
            }
        }
    }
    proof {
        assert(supported@.skip(supported@.len() as int) =~= Seq::<SupportedConfig>::empty());
    }
    None
}

/// The output callback's work for one buffer: write the mixed mono
/// sample of each frame into every channel of that frame.  Whatever
/// tail the buffer has beyond whole frames stays untouched.
pub fn write_frames(out: &mut Vec<i32>, channels: usize, mono: &Vec<i32>)
    requires
        channels >= 1,
        mono@.len() == old(out)@.len() as int / channels as int,
    ensures
        final(out)@.len() == old(out)@.len(),
        forall|k: int|
            0 <= k < mono@.len() * channels ==> #[trigger] final(out)@[k] == mono@[k / channels
                as int],
        forall|k: int|
            mono@.len() * channels <= k < old(out)@.len() ==> #[trigger] final(out)@[k] == old(
                out,
            )@[k],
{
    let n = mono.len();
    let outlen = out.len();
    proof {
        assert(n * channels <= outlen) by (nonlinear_arith)
            requires
                n == outlen as int / channels as int,
                channels >= 1,
                outlen >= 0,
        ;
    }
    let mut k: usize = 0;
    let total = n * channels;
    while k < total
        invariant
            channels >= 1,
            n == mono@.len(),
            total == n * channels,
            total <= out@.len(),
            k <= total,
            out@.len() == old(out)@.len(),
            forall|p: int| 0 <= p < k ==> #[trigger] out@[p] == mono@[p / channels as int],
            forall|p: int| k <= p < old(out)@.len() ==> #[trigger] out@[p] == old(out)@[p],
        decreases total - k,
    {
        let q = k / channels;
        proof {
            assert((k as int) / (channels as int) < n) by (nonlinear_arith)
                requires
                    0 <= (k as int) < n * (channels as int),
                    channels >= 1,
            ;
        }
        let v = mono[q];
        out.set(k, v);
        k = k + 1;
    }
    proof {
        assert(total == mono@.len() * channels);
    }
}

} // verus!
