//! The books of a worker pool: which tasks wait, how many are being worked
//! on, and whether the pool has been told to stop.
//!
//! The pool's threads live outside this library. They share one `TaskQueue`
//! and go by it: a worker takes the task that has waited longest, works on
//! it, and reports it finished; whoever handed in a batch waits until the
//! queue is quiet.

use std::collections::VecDeque;
use vstd::prelude::*;

verus! {

/// Waiting tasks in the order in which they were handed in, and the count
/// of tasks that workers have taken and not yet finished.
pub struct TaskQueue<T> {
    waiting: VecDeque<T>,
    running: usize,
    workers: usize,
    closed: bool,
}

impl<T> TaskQueue<T> {
    /// The tasks that wait, the one that has waited longest first.
    pub closed spec fn waiting(&self) -> Seq<T> {
        self.waiting@
    }

    /// The number of tasks that were taken and are not finished.
    pub closed spec fn running(&self) -> nat {
        self.running as nat
    }

    /// The number of workers of the pool.
    pub closed spec fn workers(&self) -> nat {
        self.workers as nat
    }

    /// Whether the pool has been told to stop.
    pub closed spec fn closed(&self) -> bool {
        self.closed
    }

    /// The queue of a pool with the given number of workers: nothing waits,
    /// nothing runs.
    pub fn new(workers: usize) -> (queue: TaskQueue<T>)
        ensures
            queue.waiting() == Seq::<T>::empty(),
            queue.running() == 0,
            queue.workers() == workers,
            !queue.closed(),
    {
        TaskQueue { waiting: VecDeque::new(), running: 0, workers, closed: false }
    }

    /// Hands in a task. A pool that was told to stop takes no more tasks and
    /// gives the task back.
    pub fn submit(&mut self, task: T) -> (refused: Option<T>)
        ensures
            final(self).running() == old(self).running(),
            final(self).workers() == old(self).workers(),
            final(self).closed() == old(self).closed(),
            old(self).closed() ==> refused == Some(task) && final(self).waiting() == old(
                self,
            ).waiting(),
            !old(self).closed() ==> refused.is_none() && final(self).waiting() == old(
                self,
            ).waiting().push(task),
    {
        if self.closed {
            Some(task)
        } else {
            self.waiting.push_back(task);
            None
        }
    }

    /// Takes the task that has waited longest, for a worker to work on.
    /// There is none to take if nothing waits, if every worker is busy, or
    /// if the pool was told to stop.
    pub fn take(&mut self) -> (task: Option<T>)
        ensures
            final(self).workers() == old(self).workers(),
            final(self).closed() == old(self).closed(),
            task.is_some() <==> old(self).can_take(),
            match task {
                Some(t) => {
                    &&& t == old(self).waiting()[0]
                    &&& final(self).waiting() == old(self).waiting().subrange(
                        1,
                        old(self).waiting().len() as int,
                    )
                    &&& final(self).running() == old(self).running() + 1
                },
                None => {
                    &&& final(self).waiting() == old(self).waiting()
                    &&& final(self).running() == old(self).running()
                },
            },
    {
        if self.closed || self.running >= self.workers {
            None
        } else {
            let task = self.waiting.pop_front();
            if task.is_some() {
                self.running = self.running + 1;
            }
            task
        }
    }

    /// Whether a worker that asks now gets a task.
    pub open spec fn can_take(&self) -> bool {
        !self.closed() && self.running() < self.workers() && self.waiting().len() > 0
    }

    /// Notes that a worker has finished the task it took.
    pub fn finish(&mut self)
        requires
            old(self).running() > 0,
        ensures
            final(self).running() == old(self).running() - 1,
            final(self).waiting() == old(self).waiting(),
            final(self).workers() == old(self).workers(),
            final(self).closed() == old(self).closed(),
    {
        self.running = self.running - 1;
    }

    /// Whether every task that was handed in has been finished: nothing
    /// waits and nothing runs.
    pub fn is_quiet(&self) -> (quiet: bool)
        ensures
            quiet == (self.waiting().len() == 0 && self.running() == 0),
    {
        self.waiting.len() == 0 && self.running == 0
    }

    /// The number of tasks that were taken and are not finished.
    pub fn in_flight(&self) -> (n: usize)
        ensures
            n == self.running(),
    {
        self.running
    }

    /// The number of tasks that wait.
    pub fn pending(&self) -> (n: usize)
        ensures
            n == self.waiting().len(),
    {
        self.waiting.len()
    }

    /// Whether the pool has been told to stop.
    pub fn is_closed(&self) -> (closed: bool)
        ensures
            closed == self.closed(),
    {
        self.closed
    }

    /// Tells the pool to stop and says how many tasks are left that no
    /// worker has taken. They stay in the queue, so none is lost unseen.
    pub fn close(&mut self) -> (left: usize)
        ensures
            final(self).closed(),
            left == old(self).waiting().len(),
            final(self).waiting() == old(self).waiting(),
            final(self).running() == old(self).running(),
            final(self).workers() == old(self).workers(),
    {
        self.closed = true;
        self.waiting.len()
    }
}

} // verus!
