//! The render side's own copy of the newest batch of samples.
use crate::queue::{drained, left_behind, SampleQueue, BATCH_THRESHOLD};
use vstd::prelude::*;

verus! {

/// The stereo pairs of interleaved `samples`, in order: pair `i` is made of
/// the samples `2 * i` and `2 * i + 1`. A last sample without a partner
/// belongs to no pair.
pub open spec fn stereo_pairs<T>(samples: Seq<T>) -> Seq<(T, T)> {
    Seq::new(samples.len() / 2, |i: int| (samples[2 * i], samples[2 * i + 1]))
}

/// The front buffer, and whether it was filled for the frame at hand.
pub struct FrameSampler<T> {
    front: Vec<T>,
    fresh: bool,
}

impl<T: Copy> FrameSampler<T> {
    /// The samples of the newest batch.
    pub closed spec fn front(&self) -> Seq<T> {
        self.front@
    }

    /// The newest batch came in when the frame at hand was prepared.
    pub closed spec fn fresh(&self) -> bool {
        self.fresh
    }

    /// A sampler that has seen no batch yet.
    pub fn new() -> (sampler: FrameSampler<T>)
        ensures
            sampler.front() == Seq::<T>::empty(),
            !sampler.fresh(),
    {
        FrameSampler { front: Vec::new(), fresh: false }
    }

    /// Prepares a frame. If `queue` holds more than 2048 samples, they all
    /// leave the queue and become the front buffer, in place of what it held.
    /// Otherwise queue and front buffer stay as they are, and the frame has
    /// nothing new to draw.
    pub fn prepare_frame(&mut self, queue: &mut SampleQueue<T>) -> (swapped: bool)
        ensures
            swapped == (old(queue)@.len() > BATCH_THRESHOLD),
            final(self).fresh() == swapped,
            final(self).front() == match drained(old(queue)@, BATCH_THRESHOLD as int) {
                Some(batch) => batch,
                None => old(self).front(),
            },
            final(queue)@ == left_behind(old(queue)@, BATCH_THRESHOLD as int),
    {
        match queue.drain_if_above(BATCH_THRESHOLD) {
            Some(batch) => {
                self.front = batch;
                self.fresh = true;
                true
            },
            None => {
                self.fresh = false;
                false
            },
        }
    }

    /// Whether the frame at hand has a new batch to draw.
    pub fn has_new_batch(&self) -> (yes: bool)
        ensures
            yes == self.fresh(),
    {
        self.fresh
    }

    /// The stereo pairs of the front buffer, in order.
    pub fn pairs(&self) -> (pairs: Vec<(T, T)>)
        ensures
            pairs@ == stereo_pairs(self.front()),
    {
        let length: usize = self.front.len();
        let count: usize = length / 2;
        let mut pairs: Vec<(T, T)> = Vec::new();
        let mut i: usize = 0;
        while i < count
            invariant
                i <= count,
                length == self.front@.len(),
                count == length / 2,
                pairs@ == stereo_pairs(self.front@).take(i as int),
            decreases count - i,
        {
            pairs.push((self.front[2 * i], self.front[2 * i + 1]));
            i = i + 1;
        }
        pairs
    }

    /// The stereo pairs that the frame at hand has to draw: those of the
    /// front buffer if it was filled for this frame, none if it was not, so
    /// that no batch is drawn twice.
    pub fn frame_pairs(&self) -> (pairs: Vec<(T, T)>)
        ensures
            pairs@ == if self.fresh() {
                stereo_pairs(self.front())
            } else {
                Seq::<(T, T)>::empty()
            },
    {
        if self.fresh {
            self.pairs()
        } else {
            Vec::new()
        }
    }
}

/// Samples of even number make half as many pairs, and the pairs hold every
/// sample at its place.
pub proof fn lemma_pairs_of_even_length<T>(samples: Seq<T>)
    requires
        samples.len() % 2 == 0,
    ensures
        2 * stereo_pairs(samples).len() == samples.len(),
        forall|j: int|
            0 <= j < samples.len() ==> samples[j] == if j % 2 == 0 {
                (#[trigger] stereo_pairs(samples)[j / 2]).0
            } else {
                stereo_pairs(samples)[j / 2].1
            },
{
}

/// A last sample without a partner is dropped: the pairs are those of the
/// samples before it.
pub proof fn lemma_pairs_drop_odd_sample<T>(samples: Seq<T>)
    requires
        samples.len() % 2 == 1,
    ensures
        stereo_pairs(samples) == stereo_pairs(samples.drop_last()),
{
}

} // verus!
