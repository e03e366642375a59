//! The queue between capture and rendering.
use vstd::prelude::*;

verus! {

/// The number of queued samples that a batch must exceed.
pub const BATCH_THRESHOLD: usize = 2048;

/// What draining a queue of `samples` hands out: all of them where there are
/// more than `threshold`, nothing otherwise.
pub open spec fn drained<T>(samples: Seq<T>, threshold: int) -> Option<Seq<T>> {
    if samples.len() > threshold {
        Some(samples)
    } else {
        None
    }
}

/// What draining leaves in a queue of `samples`: nothing where they were
/// handed out, all of them otherwise.
pub open spec fn left_behind<T>(samples: Seq<T>, threshold: int) -> Seq<T> {
    if samples.len() > threshold {
        Seq::empty()
    } else {
        samples
    }
}

/// A queue after `batches` were appended to it, one after the other.
pub open spec fn after_appends<T>(samples: Seq<T>, batches: Seq<Seq<T>>) -> Seq<T>
    decreases batches.len(),
{
    if batches.len() == 0 {
        samples
    } else {
        after_appends(samples, batches.drop_last()) + batches.last()
    }
}

/// Interleaved samples (left, right, left, right, ...) in the order of their
/// capture. The capture side appends; the render side takes everything at
/// once, and only when enough has gathered.
pub struct SampleQueue<T> {
    samples: Vec<T>,
}

impl<T> View for SampleQueue<T> {
    type V = Seq<T>;

    /// The queued samples, oldest first.
    closed spec fn view(&self) -> Seq<T> {
        self.samples@
    }
}

impl<T: Copy> SampleQueue<T> {
    /// An empty queue.
    pub fn new() -> (queue: SampleQueue<T>)
        ensures
            queue@ == Seq::<T>::empty(),
    {
        SampleQueue { samples: Vec::new() }
    }

    /// The number of queued samples.
    pub fn len(&self) -> (count: usize)
        ensures
            count == self@.len(),
    {
        self.samples.len()
    }

    /// Appends `samples` behind what is queued.
    pub fn append(&mut self, samples: &[T])
        ensures
            final(self)@ == old(self)@ + samples@,
    {
        let mut i: usize = 0;
        while i < samples.len()
            invariant
                i <= samples@.len(),
                self.samples@ == old(self).samples@ + samples@.take(i as int),
            decreases samples@.len() - i,
        {
            self.samples.push(samples[i]);
            i = i + 1;
        }
    }

    /// Takes everything out of the queue if it holds more than `threshold`
    /// samples, and leaves it untouched otherwise.
    pub fn drain_if_above(&mut self, threshold: usize) -> (batch: Option<Vec<T>>)
        ensures
            match batch {
                Some(samples) => drained(old(self)@, threshold as int) == Some(samples@),
                None => drained(old(self)@, threshold as int).is_none(),
            },
            final(self)@ == left_behind(old(self)@, threshold as int),
    {
        if self.samples.len() > threshold {
            let mut batch: Vec<T> = Vec::new();
            std::mem::swap(&mut self.samples, &mut batch);
            Some(batch)
        } else {
            None
        }
    }
}

/// However many batches were appended: while the queue holds no more than
/// `threshold` samples, draining hands out nothing and leaves in the queue
/// all that was appended, in order.
pub proof fn lemma_drain_below_threshold_keeps_all<T>(
    samples: Seq<T>,
    batches: Seq<Seq<T>>,
    threshold: int,
)
    requires
        after_appends(samples, batches).len() <= threshold,
    ensures
        drained(after_appends(samples, batches), threshold).is_none(),
        left_behind(after_appends(samples, batches), threshold) == after_appends(samples, batches),
{
}

/// Above the threshold, draining hands out every sample that was appended, in
/// order, and leaves the queue empty: none is lost and none comes twice.
pub proof fn lemma_drain_above_threshold_takes_all<T>(
    samples: Seq<T>,
    batches: Seq<Seq<T>>,
    threshold: int,
)
    requires
        after_appends(samples, batches).len() > threshold,
    ensures
        drained(after_appends(samples, batches), threshold) == Some(
            after_appends(samples, batches),
        ),
        left_behind(after_appends(samples, batches), threshold).len() == 0,
{
}

} // verus!
