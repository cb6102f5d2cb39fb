//! A per-peer store of decoded frames kept in sequence-number order,
//! for the decoder path that reorders late datagrams before playing
//! them.  Order is the wraparound order of [`SeqNum`], so a frame that
//! arrives after the counter rolled over still sorts behind the ones
//! from just before the roll-over.
use vstd::prelude::*;

use crate::packets::{
    lemma_seq_order_antisymmetric, lemma_seq_order_transitive_in_window, seq_greater, wrap_diff,
    SeqNum,
};

verus! {

/// One decoded frame: the wire sequence number and its samples.
pub struct AudioFrame {
    pub seq_num: SeqNum,
    pub data: Vec<i16>,
}

/// Neighbours never sit in reversed ring order.
pub open spec fn frames_ordered(s: Seq<AudioFrame>) -> bool {
    forall|i: int|
        0 <= i < s.len() - 1 ==> !seq_greater(
            (#[trigger] s[i]).seq_num.0,
            s[i + 1].seq_num.0,
        )
}

/// Where a frame belongs: after every stored frame it does not precede,
/// scanning from the back past everything strictly newer.
pub open spec fn spec_insert_pos(s: Seq<AudioFrame>, f: AudioFrame) -> int
    decreases s.len(),
{
    if s.len() == 0 {
        0
    } else if seq_greater(s.last().seq_num.0, f.seq_num.0) {
        spec_insert_pos(s.drop_last(), f)
    } else {
        s.len() as int
    }
}

/// With every buffered frame inside one half-ring window starting at
/// `base`, neighbour order extends to the whole queue: an earlier slot
/// never holds a later sequence number.  Callers keep the live window
/// below half the ring; this is what that discipline buys them.
pub proof fn lemma_queue_sorted_in_window(s: Seq<AudioFrame>, base: u16, i: int, j: int)
    requires
        frames_ordered(s),
        forall|k: int|
            0 <= k < s.len() ==> wrap_diff((#[trigger] s[k]).seq_num.0, base) < 0x8000,
        0 <= i <= j < s.len(),
    ensures
        !seq_greater(s[i].seq_num.0, s[j].seq_num.0),
    decreases j - i,
{
    if i < j {
        lemma_queue_sorted_in_window(s, base, i, j - 1);
        lemma_seq_order_transitive_in_window(
            base,
            s[i].seq_num.0,
            s[j - 1].seq_num.0,
            s[j].seq_num.0,
        );
    }
}

/// A queue of decoded frames for one peer, kept in ring order so that
/// the consumer always takes the earliest sequence number buffered.
pub struct FrameQueue {
    frames: Vec<AudioFrame>,
}

impl View for FrameQueue {
    type V = Seq<AudioFrame>;

    closed spec fn view(&self) -> Seq<AudioFrame> {
        self.frames@
    }
}

impl FrameQueue {
    /// The stored frames never sit in reversed ring order.
    pub open spec fn wf(&self) -> bool {
        frames_ordered(self@)
    }

    /// An empty queue.
    pub fn new() -> (r: FrameQueue)
        ensures
            r.wf(),
            r@.len() == 0,
    {
        FrameQueue { frames: Vec::new() }
    }

    /// How many frames wait.
    pub fn len(&self) -> (n: usize)
        ensures
            n == self@.len(),
    {
        self.frames.len()
    }

    /// File a frame where its sequence number belongs: late arrivals
    /// slot in front of everything strictly newer.
    pub fn push(&mut self, frame: AudioFrame)
        requires
            old(self).wf(),
            old(self)@.len() < usize::MAX,
        ensures
            final(self).wf(),
            final(self)@ == old(self)@.insert(spec_insert_pos(old(self)@, frame), frame),
    {
        let ghost s0 = self.frames@;
        proof {
            assert(s0.subrange(0, s0.len() as int) =~= s0);
        }
        let mut k: usize = self.frames.len();
        while k > 0 && self.frames[k - 1].seq_num.is_after(&frame.seq_num)
            invariant
                k <= self.frames@.len(),
                self.frames@ == s0,
                spec_insert_pos(s0, frame) == spec_insert_pos(s0.subrange(0, k as int), frame),
                forall|j: int|
                    k <= j < s0.len() ==> seq_greater(
                        (#[trigger] s0[j]).seq_num.0,
                        frame.seq_num.0,
                    ),
            decreases k,
        {
            proof {
                let pre = s0.subrange(0, k as int);
                assert(pre.last() == s0[k - 1]);
                assert(pre.drop_last() =~= s0.subrange(0, k - 1));
            }
            k = k - 1;
        }
        proof {
            let pre = s0.subrange(0, k as int);
            if k > 0 {
                assert(pre.last() == s0[k - 1]);
                assert(spec_insert_pos(pre, frame) == k as int);
            } else {
                assert(pre =~= Seq::<AudioFrame>::empty());
            }
            assert(spec_insert_pos(s0, frame) == k as int);
        }
        self.frames.insert(k, frame);
        proof {
            let s1 = self.frames@;
            assert forall|i: int| 0 <= i < s1.len() - 1 implies !seq_greater(
                (#[trigger] s1[i]).seq_num.0,
                s1[i + 1].seq_num.0,
            ) by {
                if i + 1 < k {
                    assert(s1[i] == s0[i] && s1[i + 1] == s0[i + 1]);
                } else if i + 1 == k {
                    assert(s1[i] == s0[i] && s1[i + 1] == frame);
                } else if i == k {
                    assert(s1[i] == frame && s1[i + 1] == s0[i]);
                    assert(seq_greater(s0[i].seq_num.0, frame.seq_num.0));
                    lemma_seq_order_antisymmetric(s0[i].seq_num.0, frame.seq_num.0);
                } else {
                    assert(s1[i] == s0[i - 1] && s1[i + 1] == s0[i]);
                }
            }
        }
    }

    /// Take the earliest buffered frame in ring order.
    pub fn next(&mut self) -> (r: Option<AudioFrame>)
        requires
            old(self).wf(),
        ensures
            final(self).wf(),
            match r {
                Some(f) => old(self)@.len() > 0 && f == old(self)@[0] && final(self)@ == old(
                    self,
                )@.drop_first(),
                None => old(self)@.len() == 0 && final(self)@ == old(self)@,
            },
    {
        if self.frames.len() == 0 {
            return None;
        }
        let f = self.frames.remove(0);
        proof {
            let s1 = self.frames@;
            assert(s1 =~= old(self)@.drop_first());
            assert forall|i: int| 0 <= i < s1.len() - 1 implies !seq_greater(
                (#[trigger] s1[i]).seq_num.0,
                s1[i + 1].seq_num.0,
            ) by {
                assert(s1[i] == old(self)@[i + 1] && s1[i + 1] == old(self)@[i + 2]);
            }
        }
        Some(f)
    }
}

} // verus!
