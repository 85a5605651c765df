//! The queue of updates that wait for the next tick.

use vstd::prelude::*;

use crate::block::WorldUpdate;

verus! {

/// Updates in the order in which they arrived. Producers push at any time;
/// the tick loop takes everything out at once, so each update is handed
/// over exactly once.
///
/// The queue has no bound and never refuses or drops an update. If updates
/// arrive faster than the ticks take them out, the queue grows; its length
/// is there to be watched.
pub struct UpdateQueue {
    pending: Vec<WorldUpdate>,
}

impl View for UpdateQueue {
    type V = Seq<WorldUpdate>;

    /// The waiting updates, oldest first.
    closed spec fn view(&self) -> Seq<WorldUpdate> {
        self.pending@
    }
}

impl UpdateQueue {
    /// A queue with nothing in it.
    pub fn new() -> (queue: UpdateQueue)
        ensures
            queue@ == Seq::<WorldUpdate>::empty(),
    {
        UpdateQueue { pending: Vec::new() }
    }

    /// The number of waiting updates.
    pub fn len(&self) -> (n: usize)
        ensures
            n == self@.len(),
    {
        self.pending.len()
    }

    /// Puts an update at the end of the queue.
    pub fn push(&mut self, update: WorldUpdate)
        ensures
            final(self)@ == old(self)@.push(update),
    {
        self.pending.push(update);
    }

    /// Takes out everything that waits, oldest first, and leaves the queue
    /// empty.
    pub fn drain_all(&mut self) -> (drained: Vec<WorldUpdate>)
        ensures
            drained@ == old(self)@,
            final(self)@ == Seq::<WorldUpdate>::empty(),
    {
        let mut drained: Vec<WorldUpdate> = Vec::new();
        core::mem::swap(&mut drained, &mut self.pending);
        drained
    }
}

} // verus!
