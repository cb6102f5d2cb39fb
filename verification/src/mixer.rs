//! Per-peer jitter channels and the mixer that sums them.
//!
//! Each peer owns a [`Channel`]: a bounded sample queue of twice the
//! latency budget, prefilled with one budget of silence so that late
//! datagrams have headroom before the consumer underruns.  The
//! [`PeerMixer`] holds one channel per live peer, accepts decoded
//! samples for a peer, and hands out one mixed sample per pull.
use vstd::prelude::*;

use crate::latency::Latency;
use crate::ring::{ring_contents, ring_capacity, ring_len, ring_new, ring_pop, ring_push, RingBuffer};

verus! {

/// How many of `want` samples fit into a queue of `len` items with
/// capacity `cap`.
pub open spec fn spec_push_count(len: nat, cap: nat, want: nat) -> nat {
    let room = if len < cap {
        (cap - len) as nat
    } else {
        0nat
    };
    if want <= room {
        want
    } else {
        room
    }
}

/// One peer's jitter buffer: a bounded queue of decoded samples,
/// created with a latency budget of silence already queued.
pub struct Channel {
    ring: RingBuffer,
}

impl View for Channel {
    type V = Seq<i16>;

    closed spec fn view(&self) -> Seq<i16> {
        ring_contents(&self.ring)
    }
}

impl Channel {
    /// The fixed capacity: twice the latency budget.
    pub closed spec fn capacity(&self) -> nat {
        ring_capacity(&self.ring)
    }

    /// A fresh channel holding `latency.samples` zero samples in a
    /// queue of twice that size.
    pub fn new(latency: &Latency) -> (r: Channel)
        requires
            latency.samples > 0,
            2 * latency.samples <= usize::MAX,
        ensures
            r@ == Seq::new(latency.samples as nat, |i: int| 0i16),
            r.capacity() == 2 * latency.samples,
    {
        let mut ring = ring_new(latency.samples * 2);
        proof {
            assert(ring_contents(&ring) =~= Seq::new(0nat, |k: int| 0i16));
        }
        let mut i: usize = 0;
        while i < latency.samples
            invariant
                i <= latency.samples,
                2 * latency.samples <= usize::MAX,
                ring_capacity(&ring) == 2 * latency.samples,
                ring_contents(&ring) == Seq::new(i as nat, |k: int| 0i16),
            decreases latency.samples - i,
        {
            let ok = ring_push(&mut ring, 0);
            assert(ok);
            i = i + 1;
            assert(ring_contents(&ring) =~= Seq::new(i as nat, |k: int| 0i16));
        }
        Channel { ring }
    }

    /// Take the oldest sample; `None` reports an underrun.
    pub fn pop(&mut self) -> (s: Option<i16>)
        ensures
            final(self).capacity() == old(self).capacity(),
            match s {
                Some(x) => old(self)@.len() > 0 && x == old(self)@[0] && final(self)@ == old(self)@.drop_first(),
                None => old(self)@.len() == 0 && final(self)@ == old(self)@,
            },
    {
        ring_pop(&mut self.ring)
    }

    /// Queue decoded samples, oldest first, dropping whatever exceeds
    /// the capacity.  Returns how many were taken.
    pub fn push_slice(&mut self, samples: &[i16]) -> (n: usize)
        ensures
            final(self).capacity() == old(self).capacity(),
            n == spec_push_count(old(self)@.len(), old(self).capacity(), samples@.len()),
            final(self)@ == old(self)@ + samples@.subrange(0, n as int),
    {
        let ghost c0 = self@;
        let ghost cap = self.capacity();
        proof {
            assert(self@ =~= c0 + samples@.subrange(0, 0));
        }
        let mut i: usize = 0;
        let mut stopped = false;
        while i < samples.len() && !stopped
            invariant
                i <= samples@.len(),
                self.capacity() == cap,
                self@ == c0 + samples@.subrange(0, i as int),
                i > 0 ==> c0.len() + i <= cap,
                stopped ==> c0.len() + i >= cap,
            decreases samples@.len() - i, if stopped { 0int } else { 1int },
        {
            let ok = ring_push(&mut self.ring, samples[i]);
            if ok {
                i = i + 1;
                assert(self@ =~= c0 + samples@.subrange(0, i as int));
            } else {
                stopped = true;
            }
        }
        proof {
            n_result_proof(c0, cap, samples@, i as int, stopped);
        }
        i
    }

    /// How many samples wait in the channel.
    pub fn len(&self) -> (n: usize)
        ensures
            n == self@.len(),
    {
        ring_len(&self.ring)
    }
}

/// What became of one call to [`PeerMixer::add_peer`].
pub enum AddPeer {
    /// The peer got a fresh channel with its silence preroll.
    Added,
    /// The peer already had a channel; nothing changed here, but the
    /// caller should reset its decoder state for this peer.
    AlreadyPresent,
    /// Every mixer slot is taken; the peer was not added.
    Full,
}

/// The sum of the oldest sample of each queue, an empty queue counting
/// as silence.
pub open spec fn spec_mix_sum(bufs: Seq<Seq<i16>>) -> int
    decreases bufs.len(),
{
    if bufs.len() == 0 {
        0
    } else {
        spec_mix_sum(bufs.drop_last()) + if bufs.last().len() > 0 {
            bufs.last()[0] as int
        } else {
            0
        }
    }
}

/// Whether any queue still holds a sample.
pub open spec fn spec_any_sample(bufs: Seq<Seq<i16>>) -> bool {
    exists|i: int| 0 <= i < bufs.len() && bufs[i].len() > 0
}

/// Mixes the streams of all live peers: one jitter channel per peer,
/// pulled one sample at a time and summed.
pub struct PeerMixer {
    sample_rate: u32,
    latency: Latency,
    ids: Vec<u32>,
    chans: Vec<Channel>,
}

impl PeerMixer {
    /// The peers' ids, in the order their channels are mixed.
    pub closed spec fn spec_ids(&self) -> Seq<u32> {
        self.ids@
    }

    /// The queued samples of each channel, in the same order.
    pub closed spec fn spec_bufs(&self) -> Seq<Seq<i16>> {
        self.chans@.map_values(|c: Channel| c@)
    }

    /// The silence budget every new channel starts with.
    pub closed spec fn preroll(&self) -> nat {
        self.latency.samples as nat
    }

    /// One channel per peer, ids unique, capacity fixed at twice the
    /// preroll, and no more slots than a wire peer id can name.
    pub closed spec fn wf(&self) -> bool {
        &&& self.latency.samples > 0
        &&& 2 * self.latency.samples <= usize::MAX
        &&& self.ids@.len() == self.chans@.len()
        &&& self.ids@.len() <= crate::MAX_PEERS
        &&& forall|i: int, j: int| 0 <= i < j < self.ids@.len() ==> self.ids@[i] != self.ids@[j]
        &&& forall|i: int|
            0 <= i < self.chans@.len() ==> (#[trigger] self.chans@[i]).capacity() == 2
                * self.latency.samples as nat
    }

    /// A peer with this id has a channel.
    pub open spec fn has_peer(&self, id: u32) -> bool {
        self.spec_ids().contains(id)
    }

    /// The mixing slot of the peer with this id.
    pub closed spec fn peer_index(&self, id: u32) -> int {
        choose|i: int| 0 <= i < self.spec_ids().len() && self.spec_ids()[i] == id
    }

    /// An empty mixer for streams at this rate and latency budget.
    pub fn new(sample_rate: u32, latency: Latency) -> (r: PeerMixer)
        requires
            latency.samples > 0,
            2 * latency.samples <= usize::MAX,
        ensures
            r.wf(),
            r.spec_ids().len() == 0,
            r.spec_bufs().len() == 0,
            r.preroll() == latency.samples,
    {
        let r = PeerMixer { sample_rate, latency, ids: Vec::new(), chans: Vec::new() };
        proof {
            assert(r.spec_bufs() =~= Seq::<Seq<i16>>::empty());
        }
        r
    }

    /// The slot of the peer with this id, if any.
    fn find_peer(&self, id: u32) -> (r: Option<usize>)
        ensures
            match r {
                Some(i) => i < self.spec_ids().len() && self.spec_ids()[i as int] == id,
                None => !self.has_peer(id),
            },
    {
        let mut i: usize = 0;
        while i < self.ids.len()
            invariant
                i <= self.ids@.len(),
                forall|j: int| 0 <= j < i ==> self.ids@[j] != id,
            decreases self.ids@.len() - i,
        {
            if self.ids[i] == id {
                return Some(i);
            }
            i = i + 1;
        }
        proof {
            if self.spec_ids().contains(id) {
                let j = choose|j: int|
                    0 <= j < self.spec_ids().len() && self.spec_ids()[j] == id;
                assert(false);
            }
        }
        None
    }

    /// Give `id` a channel.  Idempotent: an existing peer keeps its
    /// channel (the caller resets its decoder instead), and a full
    /// mixer turns the request away.
    pub fn add_peer(&mut self, id: u32) -> (r: AddPeer)
        requires
            old(self).wf(),
        ensures
            final(self).wf(),
            final(self).preroll() == old(self).preroll(),
            match r {
                AddPeer::AlreadyPresent => old(self).has_peer(id) && final(self).spec_ids() == old(self).spec_ids() && final(self).spec_bufs() == old(self).spec_bufs(),
                AddPeer::Full => !old(self).has_peer(id) && old(self).spec_ids().len()
                    == crate::MAX_PEERS && final(self).spec_ids() == old(self).spec_ids() && final(self).spec_bufs() == old(self).spec_bufs(),
                AddPeer::Added => !old(self).has_peer(id) && final(self).spec_ids() == old(self).spec_ids().push(id) && final(self).spec_bufs() == old(self).spec_bufs().push(
                    Seq::new(old(self).preroll(), |k: int| 0i16),
                ),
            },
    {
        match self.find_peer(id) {
            Some(_) => AddPeer::AlreadyPresent,
            None => {
                if self.ids.len() >= crate::MAX_PEERS {
                    AddPeer::Full
                } else {
                    let ch = Channel::new(&self.latency);
                    self.ids.push(id);
                    self.chans.push(ch);
                    proof {
                        assert(self.spec_bufs() =~= old(self).spec_bufs().push(
                            Seq::new(old(self).preroll(), |k: int| 0i16),
                        ));
                    }
                    AddPeer::Added
                }
            }
        }
    }

    /// Drop a peer's channel; queued samples for it are discarded.
    pub fn remove_peer(&mut self, id: u32)
        requires
            old(self).wf(),
        ensures
            final(self).wf(),
            final(self).preroll() == old(self).preroll(),
            old(self).has_peer(id) ==> {
                let k = old(self).peer_index(id);
                final(self).spec_ids() == old(self).spec_ids().remove(k) && final(self).spec_bufs() == old(self).spec_bufs().remove(k)
            },
            !old(self).has_peer(id) ==> final(self).spec_ids() == old(self).spec_ids() && final(self).spec_bufs() == old(self).spec_bufs(),
    {
        match self.find_peer(id) {
            Some(i) => {
                proof {
                    let k = old(self).peer_index(id);
                    assert(old(self).spec_ids().contains(id));
                    assert(old(self).spec_ids()[k] == id);
                    if k != i {
                        assert(false);
                    }
                }
                self.ids.remove(i);
                self.chans.remove(i);
                proof {
                    assert(self.spec_bufs() =~= old(self).spec_bufs().remove(i as int));
                }
            }
            None => {}
        }
    }

    /// Queue decoded samples for a peer, creating the channel on the
    /// fly for a peer heard of for the first time.  Returns how many
    /// samples were taken (the rest overflowed) and whether the peer
    /// had to be added lazily.
    pub fn push(&mut self, id: u32, samples: &[i16]) -> (r: (usize, bool))
        requires
            old(self).wf(),
        ensures
            final(self).wf(),
            final(self).preroll() == old(self).preroll(),
            old(self).has_peer(id) ==> {
                let k = old(self).peer_index(id);
                let n = spec_push_count(
                    old(self).spec_bufs()[k].len(),
                    2 * old(self).preroll(),
                    samples@.len(),
                );
                &&& !r.1
                &&& r.0 == n
                &&& final(self).spec_ids() == old(self).spec_ids()
                &&& final(self).spec_bufs() == old(self).spec_bufs().update(
                    k,
                    old(self).spec_bufs()[k] + samples@.subrange(0, n as int),
                )
            },
            !old(self).has_peer(id) && old(self).spec_ids().len() < crate::MAX_PEERS ==> {
                let n = spec_push_count(
                    old(self).preroll(),
                    2 * old(self).preroll(),
                    samples@.len(),
                );
                &&& r.1
                &&& r.0 == n
                &&& final(self).spec_ids() == old(self).spec_ids().push(id)
                &&& final(self).spec_bufs() == old(self).spec_bufs().push(
                    Seq::new(old(self).preroll(), |k: int| 0i16) + samples@.subrange(0, n as int),
                )
            },
            !old(self).has_peer(id) && old(self).spec_ids().len() == crate::MAX_PEERS ==> final(self).spec_ids() == old(self).spec_ids() && final(self).spec_bufs() == old(self).spec_bufs() && r.0 == 0,
    {
        match self.find_peer(id) {
            Some(i) => {
                proof {
                    let k = old(self).peer_index(id);
                    assert(old(self).spec_ids().contains(id));
                    assert(old(self).spec_ids()[k] == id);
                    if k != i {
                        assert(false);
                    }
                }
                let mut ch = self.chans.remove(i);
                let n = ch.push_slice(samples);
                self.chans.insert(i, ch);
                proof {
                    assert(self.spec_bufs() =~= old(self).spec_bufs().update(
                        i as int,
                        old(self).spec_bufs()[i as int] + samples@.subrange(0, n as int),
                    ));
                }
                (n, false)
            }
            None => {
                if self.ids.len() >= crate::MAX_PEERS {
                    return (0, false);
                }
                let mut ch = Channel::new(&self.latency);
                let n = ch.push_slice(samples);
                self.ids.push(id);
                self.chans.push(ch);
                proof {
                    assert(self.spec_bufs() =~= old(self).spec_bufs().push(
                        Seq::new(old(self).preroll(), |k: int| 0i16) + samples@.subrange(
                            0,
                            n as int,
                        ),
                    ));
                }
                (n, true)
            }
        }
    }

    /// Pull one mixed sample: pop the head of every channel and sum
    /// the samples found.  `None` means every channel was empty.
    pub fn next(&mut self) -> (r: Option<i32>)
        requires
            old(self).wf(),
        ensures
            final(self).wf(),
            final(self).preroll() == old(self).preroll(),
            final(self).spec_ids() == old(self).spec_ids(),
            final(self).spec_bufs().len() == old(self).spec_bufs().len(),
            forall|i: int|
                0 <= i < old(self).spec_bufs().len() ==> final(self).spec_bufs()[i] == (
                if old(self).spec_bufs()[i].len() > 0 {
                    (#[trigger] old(self).spec_bufs()[i]).drop_first()
                } else {
                    old(self).spec_bufs()[i]
                }),
            r is Some <==> spec_any_sample(old(self).spec_bufs()),
            r matches Some(s) ==> s == spec_mix_sum(old(self).spec_bufs()),
    {
        let ghost bufs0 = self.spec_bufs();
        let mut sum: i32 = 0;
        let mut any = false;
        let mut i: usize = 0;
        while i < self.chans.len()
            invariant
                self.wf(),
                i <= self.chans@.len(),
                self.chans@.len() == bufs0.len(),
                self.spec_ids() == old(self).spec_ids(),
                self.preroll() == old(self).preroll(),
                self.chans@.len() <= crate::MAX_PEERS,
                forall|j: int|
                    i <= j < bufs0.len() ==> #[trigger] self.spec_bufs()[j] == bufs0[j],
                forall|j: int|
                    0 <= j < i ==> #[trigger] self.spec_bufs()[j] == (if bufs0[j].len() > 0 {
                        bufs0[j].drop_first()
                    } else {
                        bufs0[j]
                    }),
                any == spec_any_sample(bufs0.subrange(0, i as int)),
                sum == spec_mix_sum(bufs0.subrange(0, i as int)),
                -32768 * i <= sum <= 32767 * i,
            decreases self.chans@.len() - i,
        {
            let ghost pre = self.chans@;
            let ghost pre_bufs = self.spec_bufs();
            let mut ch = self.chans.remove(i);
            let s = ch.pop();
            match s {
                Some(x) => {
                    sum = sum + (x as i32);
                    any = true;
                }
                None => {}
            }
            self.chans.insert(i, ch);
            i = i + 1;
            proof {
                assert(self.chans@ =~= pre.update(i - 1, self.chans@[i - 1]));
                assert(pre_bufs[i - 1] == bufs0[i - 1]);
                assert(pre_bufs[i - 1] == pre[i - 1]@);
                assert forall|j: int| 0 <= j < bufs0.len() && j != i - 1 implies
                    self.spec_bufs()[j] == pre_bufs[j] by {
                    assert(self.chans@[j] == pre[j]);
                }
                assert(self.spec_bufs()[i - 1] == self.chans@[i - 1]@);
                assert(self.spec_bufs()[i - 1] == (if bufs0[i - 1].len() > 0 {
                    bufs0[i - 1].drop_first()
                } else {
                    bufs0[i - 1]
                }));
                assert forall|j: int| i <= j < bufs0.len() implies #[trigger] self.spec_bufs()[j]
                    == bufs0[j] by {
                    assert(self.chans@[j] == pre[j]);
                    assert(self.spec_bufs()[j] == pre[j]@);
                    assert(pre_bufs[j] == pre[j]@);
                    assert(pre_bufs[j] == bufs0[j]);
                }
                assert forall|j: int| 0 <= j < i implies #[trigger] self.spec_bufs()[j] == (
                if bufs0[j].len() > 0 {
                    bufs0[j].drop_first()
                } else {
                    bufs0[j]
                }) by {
                    if j < i - 1 {
                        assert(self.chans@[j] == pre[j]);
                        assert(self.spec_bufs()[j] == pre[j]@);
                        assert(pre_bufs[j] == pre[j]@);
                        assert(pre_bufs[j] == (if bufs0[j].len() > 0 {
                            bufs0[j].drop_first()
                        } else {
                            bufs0[j]
                        }));
                    }
                }
                assert(bufs0.subrange(0, i as int).drop_last() =~= bufs0.subrange(0, i - 1));
                assert(bufs0.subrange(0, i as int).last() == bufs0[i - 1]);
                if !spec_any_sample(bufs0.subrange(0, i - 1)) && spec_any_sample(
                    bufs0.subrange(0, i as int),
                ) {
                    let w = choose|w: int|
                        0 <= w < i && bufs0.subrange(0, i as int)[w].len() > 0;
                    if w < i - 1 {
                        assert(bufs0.subrange(0, i - 1)[w].len() > 0);
                    }
                }
                if any && !spec_any_sample(bufs0.subrange(0, i as int)) {
                    assert(false);
                }
            }
        }
        proof {
            assert(bufs0.subrange(0, bufs0.len() as int) =~= bufs0);
        }
        if any {
            Some(sum)
        } else {
            None
        }
    }
}

/// What is left of a channel that started as `s` after `i` pulls: a
/// pull drops the head, and a pull on an empty channel changes nothing.
pub open spec fn spec_tail(s: Seq<i16>, i: int) -> Seq<i16> {
    if 0 <= i <= s.len() {
        s.skip(i)
    } else if i > s.len() {
        Seq::empty()
    } else {
        s
    }
}

/// Mixer additivity: after `i` pulls from a two-peer mixer whose
/// channels began with `a` and `b`, the next pull returns the sum of
/// `a[i]` and `b[i]` (an exhausted channel contributing silence), and
/// runs dry exactly when both channels are past their last sample.
pub proof fn lemma_mixer_additivity(a: Seq<i16>, b: Seq<i16>, i: int)
    requires
        0 <= i,
    ensures
        spec_mix_sum(seq![spec_tail(a, i), spec_tail(b, i)]) == (if i < a.len() {
            a[i] as int
        } else {
            0
        }) + (if i < b.len() {
            b[i] as int
        } else {
            0
        }),
        spec_any_sample(seq![spec_tail(a, i), spec_tail(b, i)]) <==> (i < a.len() || i < b.len()),
{
    let pair = seq![spec_tail(a, i), spec_tail(b, i)];
    assert(pair.drop_last() =~= seq![spec_tail(a, i)]);
    assert(pair.drop_last().drop_last() =~= Seq::<Seq<i16>>::empty());
    assert(pair.last() == spec_tail(b, i));
    assert(pair.drop_last().last() == spec_tail(a, i));
    if i < a.len() {
        assert(spec_tail(a, i)[0] == a[i]);
        assert(spec_tail(a, i).len() > 0);
    } else {
        assert(spec_tail(a, i).len() == 0);
    }
    if i < b.len() {
        assert(spec_tail(b, i)[0] == b[i]);
        assert(spec_tail(b, i).len() > 0);
    } else {
        assert(spec_tail(b, i).len() == 0);
    }
    assert(pair.len() == 2);
    assert(pair.drop_last().len() == 1);
    assert(spec_mix_sum(pair.drop_last().drop_last()) == 0);
    assert(spec_mix_sum(pair.drop_last()) == (if i < a.len() {
        a[i] as int
    } else {
        0
    }));
    if i < a.len() || i < b.len() {
        if i < a.len() {
            assert(pair[0].len() > 0);
        } else {
            assert(pair[1].len() > 0);
        }
    }
}

/// The loop above stopped either after taking every sample or exactly
/// when the queue filled; both match `spec_push_count`.
proof fn n_result_proof(c0: Seq<i16>, cap: nat, samples: Seq<i16>, i: int, stopped: bool)
    requires
        0 <= i <= samples.len(),
        i > 0 ==> c0.len() + i <= cap,
        stopped ==> c0.len() + i >= cap,
        !stopped ==> i == samples.len(),
    ensures
        i == spec_push_count(c0.len(), cap, samples.len()),
{
}

} // verus!
