//! Counters for the audio hot paths.  Errors there are never surfaced,
//! only counted; these are the counts.
use vstd::prelude::*;

verus! {

/// A monotone event counter with wrapping addition.  The name is kept
/// from the transport layer, where one task owns each counter; here the
/// owner mutates it directly.
#[derive(Debug)]
pub struct AtomicCounter(pub usize);

impl AtomicCounter {
    /// Count one event; returns the previous value.
    pub fn inc(&mut self) -> (r: usize)
        ensures
            r == old(self).0,
            final(self).0 == (old(self).0 + 1) % (usize::MAX + 1),
    {
        self.add(1)
    }

    /// Count `amount` events at once; returns the previous value.
    pub fn add(&mut self, amount: usize) -> (r: usize)
        ensures
            r == old(self).0,
            final(self).0 == (old(self).0 + amount) % (usize::MAX + 1),
    {
        let prev = self.0;
        self.0 = self.0.wrapping_add(amount);
        proof {
            let m = usize::MAX as int + 1;
            let x = old(self).0 + amount;
            if x <= usize::MAX {
                vstd::arithmetic::div_mod::lemma_small_mod(x as nat, m as nat);
            } else {
                vstd::arithmetic::div_mod::lemma_mod_multiples_vanish(1, x - m, m);
                vstd::arithmetic::div_mod::lemma_small_mod((x - m) as nat, m as nat);
            }
        }
        prev
    }

    /// The current count.
    pub fn get(&self) -> (r: usize)
        ensures
            r == self.0,
    {
        self.0
    }

    /// Zero the counter; returns the count it had.
    pub fn reset(&mut self) -> (r: usize)
        ensures
            r == old(self).0,
            final(self).0 == 0,
    {
        let prev = self.0;
        self.0 = 0;
        prev
    }

    /// Give up the counter for its final count.
    pub fn into_inner(self) -> (r: usize)
        ensures
            r == self.0,
    {
        self.0
    }
}

impl Default for AtomicCounter {
    fn default() -> (r: Self)
        ensures
            r.0 == 0,
    {
        AtomicCounter(0)
    }
}

/// What the audio service counts on its two hot paths.
#[derive(Debug)]
pub struct Statistics {
    pub dropped_mic_samples: AtomicCounter,
    pub pushed_output_samples: AtomicCounter,
}

impl Statistics {
    /// Fresh counters at zero.
    pub fn new() -> (r: Self)
        ensures
            r.dropped_mic_samples.0 == 0,
            r.pushed_output_samples.0 == 0,
    {
        Statistics { dropped_mic_samples: AtomicCounter(0), pushed_output_samples: AtomicCounter(0) }
    }

    /// Microphone samples lost because the capture queue was full.
    pub fn dropped_mic_samples(&self) -> (r: usize)
        ensures
            r == self.dropped_mic_samples.0,
    {
        self.dropped_mic_samples.get()
    }

    /// Samples handed to the output device so far.
    pub fn pushed_output_samples(&self) -> (r: usize)
        ensures
            r == self.pushed_output_samples.0,
    {
        self.pushed_output_samples.get()
    }
}

impl Default for Statistics {
    fn default() -> (r: Self)
        ensures
            r.dropped_mic_samples.0 == 0,
            r.pushed_output_samples.0 == 0,
    {
        Statistics::new()
    }
}

} // verus!
