//! A rolling average over the last `N` samples, used by the shells to
//! smooth displayed rates.  The window bookkeeping is verified; the
//! averaging arithmetic itself runs through the numeric conversion
//! traits and is taken on trust.
use vstd::prelude::*;

use core::iter::Sum;
use core::ops::Div;
use num_traits::AsPrimitive;

verus! {

/// The last `N` samples in a ring, plus how many slots have ever been
/// written.
pub struct Average<const N: usize, S> {
    idx: usize,
    max_idx: usize,
    samples: Vec<S>,
}

impl<const N: usize, S> Average<N, S> {
    /// The write cursor.
    pub closed spec fn spec_idx(&self) -> int {
        self.idx as int
    }

    /// How many slots hold real samples.
    pub closed spec fn spec_filled(&self) -> int {
        self.max_idx as int
    }

    /// The stored window.
    pub closed spec fn spec_samples(&self) -> Seq<S> {
        self.samples@
    }

    /// The ring is fully allocated and the cursors are in range.
    pub closed spec fn wf(&self) -> bool {
        self.samples@.len() == N && self.idx < N && self.max_idx <= N
    }
}

impl<const N: usize, S: Default> Average<N, S> {
    /// An empty window, every slot holding the default sample.
    pub fn new() -> (r: Self)
        requires
            N >= 1,
        ensures
            r.wf(),
            r.spec_idx() == 0,
            r.spec_filled() == 0,
    {
        let mut samples: Vec<S> = Vec::new();
        let mut i: usize = 0;
        while i < N
            invariant
                i <= N,
                samples@.len() == i,
            decreases N - i,
        {
            samples.push(S::default());
            i = i + 1;
        }
        Average { idx: 0, max_idx: 0, samples }
    }

    /// Record a sample, overwriting the oldest once the window is full.
    pub fn push(&mut self, sample: S)
        requires
            old(self).wf(),
        ensures
            final(self).wf(),
            final(self).spec_samples() == old(self).spec_samples().update(
                old(self).spec_idx(),
                sample,
            ),
            final(self).spec_idx() == (old(self).spec_idx() + 1) % (N as int),
            final(self).spec_filled() == if old(self).spec_filled() + 1 <= N {
                old(self).spec_filled() + 1
            } else {
                N as int
            },
    {
        self.samples.set(self.idx, sample);
        self.idx = (self.idx + 1) % N;
        self.max_idx = if self.max_idx < N {
            self.max_idx + 1
        } else {
            N
        };
    }
}

impl<const N: usize, S: Default + Copy> Average<N, S> {
    /// Relies on `num_traits::AsPrimitive` and the standard `Sum` and
    /// `Div` impls: the written slots converted to `O`, summed, and
    /// divided by their number.  Generic numeric arithmetic cannot be
    /// stated here, so this promises nothing of the result; an empty
    /// window is excluded, since dividing by a count of zero panics
    /// for integer outputs.
    #[verifier::external_body]
    pub fn avg<O>(&self) -> O where
        O: Div<O, Output = O> + Sum<O> + Copy + 'static,
        S: AsPrimitive<O>,
        usize: AsPrimitive<O>,

        requires
            self.wf(),
            self.spec_filled() >= 1,
    {
        let total: O = self.samples[..self.max_idx].iter().map(|s| s.as_()).sum();
        let size: O = (N.min(self.max_idx)).as_();
        total / size
    }
}

} // verus!
