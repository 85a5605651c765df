//! The server's cycle: wait, take in the queued updates, apply them, run one
//! tick, publish what happened, and wait again.
//!
//! The server does the work on the world. Whoever drives it does the rest:
//! looks for a stop signal, empties the update queue and sends the report to
//! the clients. The stage says what comes next.

use vstd::prelude::*;

use crate::block::{with_update, with_updates, Block, WorldUpdate};
use crate::handoff::{
    accepted, collected, dispatched, rejected_with, ChunkResult, ChunkTask, PoolFault,
};
use crate::tick::{accepts_all, ticked, UpdateScheduler};
use crate::world::World;

verus! {

/// Where the server is in its cycle.
#[derive(Clone, Copy, Debug, PartialEq, Eq, Structural)]
pub enum Stage {
    /// Between two cycles. Only here does a stop signal count.
    Idle,
    /// Waiting for the updates that were queued since the last cycle.
    Draining,
    /// About to apply the updates that were taken in.
    Applying,
    /// About to run the tick.
    Ticking,
    /// Waiting for the report of the cycle to be fetched.
    Publishing,
    /// Stopped for good.
    Stopped,
}

/// The stage that follows `stage`. The stop signal `stop` is looked at in
/// `Idle` only.
pub open spec fn next_stage(stage: Stage, stop: bool) -> Stage {
    match stage {
        Stage::Idle => if stop {
            Stage::Stopped
        } else {
            Stage::Draining
        },
        Stage::Draining => Stage::Applying,
        Stage::Applying => Stage::Ticking,
        Stage::Ticking => Stage::Publishing,
        Stage::Publishing => Stage::Idle,
        Stage::Stopped => Stage::Stopped,
    }
}

/// What one cycle did: the updates that were applied, in the order in which
/// they were applied, and the chunks that failed in the tick.
#[derive(Debug)]
pub struct TickReport {
    pub applied: Vec<WorldUpdate>,
    pub failed: Vec<u8>,
}

/// The number of the phase that a tick carried out by workers is in.
struct PhaseCounter {
    next: usize,
}

impl PhaseCounter {
    #[verifier::type_invariant]
    spec fn in_range(&self) -> bool {
        self.next < 4
    }
}

/// The world together with the state of the cycle.
pub struct Server {
    blocks: World,
    scheduler: UpdateScheduler,
    stage: Stage,
    phase: PhaseCounter,
    inbox: Vec<WorldUpdate>,
    outbox: Vec<WorldUpdate>,
    failed: Vec<u8>,
}

impl Server {
    /// The blocks of the server's world, by flat index.
    pub closed spec fn cells(&self) -> Seq<Block> {
        self.blocks@
    }

    /// The stage that the server is in.
    pub closed spec fn at(&self) -> Stage {
        self.stage
    }

    /// The phase that workers carry out next, while a tick is handed out
    /// to them phase by phase; 0 at any other time.
    pub closed spec fn next_phase(&self) -> int {
        self.phase.next as int
    }

    /// The updates that were taken in and wait to be applied.
    pub closed spec fn inbox(&self) -> Seq<WorldUpdate> {
        self.inbox@
    }

    /// The updates that were applied in this cycle and wait to be
    /// published.
    pub closed spec fn outbox(&self) -> Seq<WorldUpdate> {
        self.outbox@
    }

    /// The chunks that failed in the tick of this cycle.
    pub closed spec fn failed(&self) -> Seq<u8> {
        self.failed@
    }

    /// A server for the given world, between two cycles.
    pub fn new(blocks: World) -> (server: Server)
        ensures
            server.cells() == blocks@,
            server.at() == Stage::Idle,
            server.next_phase() == 0,
            server.inbox().len() == 0,
            server.outbox().len() == 0,
            server.failed().len() == 0,
    {
        Server {
            blocks,
            scheduler: UpdateScheduler::new(),
            stage: Stage::Idle,
            phase: PhaseCounter { next: 0 },
            inbox: Vec::new(),
            outbox: Vec::new(),
            failed: Vec::new(),
        }
    }

    /// The stage that the server is in.
    pub fn stage(&self) -> (stage: Stage)
        ensures
            stage == self.at(),
    {
        self.stage
    }

    /// The server's world.
    pub fn blocks(&self) -> (blocks: &World)
        ensures
            blocks@ == self.cells(),
    {
        &self.blocks
    }

    /// Leaves `Idle`: stops for good if a stop was asked for, and otherwise
    /// begins a cycle. Returns whether a cycle began.
    pub fn begin(&mut self, stop: bool) -> (running: bool)
        requires
            old(self).at() == Stage::Idle,
        ensures
            running == !stop,
            final(self).at() == next_stage(Stage::Idle, stop),
            final(self).next_phase() == old(self).next_phase(),
            final(self).cells() == old(self).cells(),
            final(self).inbox() == old(self).inbox(),
            final(self).outbox() == old(self).outbox(),
            final(self).failed() == old(self).failed(),
    {
        if stop {
            self.stage = Stage::Stopped;
            false
        } else {
            self.stage = Stage::Draining;
            true
        }
    }

    /// Takes in the updates that were drained from the queue.
    pub fn take_updates(&mut self, updates: Vec<WorldUpdate>)
        requires
            old(self).at() == Stage::Draining,
        ensures
            final(self).at() == Stage::Applying,
            final(self).next_phase() == old(self).next_phase(),
            final(self).inbox() == updates@,
            final(self).cells() == old(self).cells(),
            final(self).outbox() == old(self).outbox(),
            final(self).failed() == old(self).failed(),
    {
        self.inbox = updates;
        self.stage = Stage::Applying;
    }

    /// Applies one update to the world and notes it for publishing.
    pub fn process_update(&mut self, update: WorldUpdate, updates_to_send: &mut Vec<WorldUpdate>)
        ensures
            final(self).cells() == with_update(old(self).cells(), update),
            final(updates_to_send)@ == old(updates_to_send)@.push(update),
            final(self).at() == old(self).at(),
            final(self).next_phase() == old(self).next_phase(),
            final(self).inbox() == old(self).inbox(),
            final(self).outbox() == old(self).outbox(),
            final(self).failed() == old(self).failed(),
    {
        self.blocks.process_update(update);
        updates_to_send.push(update);
    }

    /// Applies the updates that were taken in, each once, in their order,
    /// and keeps them for publishing.
    pub fn apply_updates(&mut self)
        requires
            old(self).at() == Stage::Applying,
        ensures
            final(self).at() == Stage::Ticking,
            final(self).next_phase() == old(self).next_phase(),
            final(self).cells() == with_updates(old(self).cells(), old(self).inbox()),
            final(self).inbox().len() == 0,
            final(self).outbox() == old(self).inbox(),
            final(self).failed() == old(self).failed(),
    {
        let mut updates: Vec<WorldUpdate> = Vec::new();
        core::mem::swap(&mut updates, &mut self.inbox);
        let mut updates_to_send: Vec<WorldUpdate> = Vec::new();
        let mut i: usize = 0;
        while i < updates.len()
            invariant
                i <= updates@.len(),
                updates@ == old(self).inbox(),
                updates_to_send@ == updates@.subrange(0, i as int),
                self.cells() == with_updates(old(self).cells(), updates@.subrange(0, i as int)),
                self.at() == old(self).at(),
                self.next_phase() == old(self).next_phase(),
                self.inbox().len() == 0,
                self.failed() == old(self).failed(),
            decreases updates@.len() - i,
        {
            self.process_update(updates[i], &mut updates_to_send);
            proof {
                let done = updates@.subrange(0, i + 1);
                assert(done.drop_last() == updates@.subrange(0, i as int));
                assert(done.last() == updates@[i as int]);
            }
            i += 1;
        }
        assert(updates@.subrange(0, i as int) == updates@);
        self.outbox = updates_to_send;
        self.stage = Stage::Ticking;
    }

    /// Runs one whole tick on the world, chunk after chunk, and notes the
    /// chunks that failed.
    pub fn update_world<F: Fn(Block) -> Option<Block>>(&mut self, rule: &F)
        requires
            old(self).at() == Stage::Ticking,
            old(self).next_phase() == 0,
            accepts_all(*rule),
        ensures
            final(self).at() == Stage::Publishing,
            final(self).next_phase() == 0,
            ticked(*rule, old(self).cells(), final(self).cells(), final(self).failed()),
            final(self).inbox() == old(self).inbox(),
            final(self).outbox() == old(self).outbox(),
    {
        let failed = self.scheduler.run_tick(&mut self.blocks, rule);
        self.failed = failed;
        self.stage = Stage::Publishing;
    }

    /// The number of the phase that workers carry out next.
    pub fn phase(&self) -> (phase: usize)
        ensures
            phase == self.next_phase(),
            phase < 4,
    {
        proof {
            use_type_invariant(&self.phase);
        }
        self.phase.next
    }

    /// Hands out the next phase of the tick to workers: one task for each
    /// chunk of the phase, each with a copy of the cells of its chunk.
    pub fn dispatch(&self) -> (tasks: Vec<ChunkTask>)
        requires
            self.at() == Stage::Ticking,
        ensures
            0 <= self.next_phase() < 4,
            dispatched(self.cells(), self.next_phase(), tasks@),
    {
        proof {
            use_type_invariant(&self.phase);
        }
        self.scheduler.dispatch(&self.blocks, self.phase.next)
    }

    /// Takes back the results of the phase that was handed out, once all
    /// its tasks are done, and puts them into the world. After the fourth
    /// phase the tick is over. Results that are not those of exactly the
    /// tasks handed out are refused, and nothing changes.
    pub fn collect(&mut self, results: &Vec<ChunkResult>) -> (outcome: Result<Vec<u8>, PoolFault>)
        requires
            old(self).at() == Stage::Ticking,
        ensures
            final(self).inbox() == old(self).inbox(),
            final(self).outbox() == old(self).outbox(),
            match outcome {
                Ok(newly) => {
                    &&& accepted(old(self).next_phase(), results@)
                    &&& collected(
                        old(self).cells(),
                        final(self).cells(),
                        old(self).next_phase(),
                        results@,
                        newly@,
                    )
                    &&& final(self).failed() == old(self).failed() + newly@
                    &&& if old(self).next_phase() == 3 {
                        final(self).at() == Stage::Publishing && final(self).next_phase() == 0
                    } else {
                        final(self).at() == Stage::Ticking && final(self).next_phase() == old(
                            self,
                        ).next_phase() + 1
                    }
                },
                Err(fault) => {
                    &&& !accepted(old(self).next_phase(), results@)
                    &&& rejected_with(old(self).next_phase(), results@, fault)
                    &&& final(self).cells() == old(self).cells()
                    &&& final(self).failed() == old(self).failed()
                    &&& final(self).at() == old(self).at()
                    &&& final(self).next_phase() == old(self).next_phase()
                },
            },
    {
        proof {
            use_type_invariant(&self.phase);
        }
        let phase = self.phase.next;
        match self.scheduler.collect(&mut self.blocks, phase, results) {
            Ok(newly) => {
                let ghost put_in = self.blocks@;
                let mut i: usize = 0;
                while i < newly.len()
                    invariant
                        i <= newly@.len(),
                        self.failed@ == old(self).failed@ + newly@.subrange(0, i as int),
                        self.blocks@ == put_in,
                        self.stage == old(self).stage,
                        self.phase == old(self).phase,
                        self.inbox@ == old(self).inbox@,
                        self.outbox@ == old(self).outbox@,
                    decreases newly@.len() - i,
                {
                    self.failed.push(newly[i]);
                    assert(newly@.subrange(0, i + 1) == newly@.subrange(0, i as int).push(
                        newly@[i as int],
                    ));
                    i += 1;
                }
                assert(newly@.subrange(0, i as int) == newly@);
                if phase == 3 {
                    self.phase = PhaseCounter { next: 0 };
                    self.stage = Stage::Publishing;
                } else {
                    self.phase = PhaseCounter { next: phase + 1 };
                }
                Ok(newly)
            },
            Err(fault) => Err(fault),
        }
    }

    /// Hands out the report of the cycle and ends the cycle.
    pub fn publish(&mut self) -> (report: TickReport)
        requires
            old(self).at() == Stage::Publishing,
        ensures
            final(self).at() == Stage::Idle,
            final(self).next_phase() == old(self).next_phase(),
            report.applied@ == old(self).outbox(),
            report.failed@ == old(self).failed(),
            final(self).cells() == old(self).cells(),
            final(self).inbox() == old(self).inbox(),
            final(self).outbox().len() == 0,
            final(self).failed().len() == 0,
    {
        let mut applied: Vec<WorldUpdate> = Vec::new();
        core::mem::swap(&mut applied, &mut self.outbox);
        let mut failed: Vec<u8> = Vec::new();
        core::mem::swap(&mut failed, &mut self.failed);
        self.stage = Stage::Idle;
        TickReport { applied, failed }
    }
}

/// A cycle that has begun runs to its end: from `Draining` the server is
/// back in `Idle` after four steps, whatever the stop signal says on the
/// way.
pub proof fn lemma_cycle_runs_to_end(s1: bool, s2: bool, s3: bool, s4: bool)
    ensures
        next_stage(next_stage(next_stage(next_stage(Stage::Draining, s1), s2), s3), s4)
            == Stage::Idle,
{
}

/// A stop signal that stays up stops the server within one cycle: from any
/// stage, five steps lead to `Stopped`.
pub proof fn lemma_stop_within_one_cycle(stage: Stage)
    ensures
        next_stage(
            next_stage(next_stage(next_stage(next_stage(stage, true), true), true), true),
            true,
        ) == Stage::Stopped,
{
}

} // verus!
