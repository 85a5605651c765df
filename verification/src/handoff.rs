//! A phase carried out by workers: the scheduler hands out each chunk of
//! the phase as a task that owns a copy of the chunk's cells, the workers
//! run the tasks in any order and at the same time, and when all are done
//! the scheduler puts the results back. The tasks of one phase share no
//! cell, and the next phase is handed out only after the results of this
//! one are in.

use vstd::prelude::*;

use crate::block::Block;
use crate::position::{DOUBLE, TRIPLE};
use crate::tick::{
    accepts_all, chunk_outcome, faulted, in_tick_order, listed, next_cells, phase_ran, stepped,
    UpdateScheduler,
};
use crate::tiling::{
    lemma_phase_ascending, lemma_phase_len, lemma_phase_membership, lemma_same_phase_apart,
    phase_index, phase_members, wrapped_distance,
};
use crate::world::{chunk_cells, lemma_other_chunks_kept, World};

verus! {

/// One chunk to simulate: its number and a copy of its cells.
#[derive(Debug)]
pub struct ChunkTask {
    pub chunk: u8,
    pub cells: Vec<Block>,
}

/// What became of a task: the new cells of the chunk, or `None` if the
/// rule gave up on one of its cells.
#[derive(Debug)]
pub struct ChunkResult {
    pub chunk: u8,
    pub cells: Option<Vec<Block>>,
}

/// Why the results of a phase were not accepted: the workers did not carry
/// out exactly the tasks that were handed out.
#[derive(Clone, Copy, Debug, PartialEq, Eq, Structural)]
pub enum PoolFault {
    /// There are `count` results, not one for each of the 64 tasks.
    WrongCount { count: usize },
    /// The result at index `at` is for `chunk`, which is not the chunk of
    /// the task at that index.
    WrongChunk { at: usize, chunk: u8 },
    /// The result for `chunk` has `len` cells, not as many as a chunk has.
    WrongSize { chunk: u8, len: usize },
}

/// Whether `tasks` are the tasks of the phase for a world with the given
/// cells: one for each chunk of the phase, in ascending order, each with
/// the cells of its chunk.
pub open spec fn dispatched(cells: Seq<Block>, phase: int, tasks: Seq<ChunkTask>) -> bool {
    &&& tasks.len() == 64
    &&& forall|j: int|
        0 <= j < 64 ==> (#[trigger] tasks[j]).chunk == phase_members(phase)[j] && tasks[j].cells@
            == chunk_cells(cells, tasks[j].chunk as int)
}

/// Whether `result` is what running `task` with the rule gives.
pub open spec fn ran<F: Fn(Block) -> Option<Block>>(
    rule: F,
    task: ChunkTask,
    result: ChunkResult,
) -> bool {
    &&& result.chunk == task.chunk
    &&& match result.cells {
        Some(cells) => stepped(rule, task.cells@, cells@),
        None => faulted(rule, task.cells@),
    }
}

/// Whether the result at index `j` is for the chunk of the task at that
/// index and, if it brings cells, brings as many as a chunk has.
pub open spec fn fits(phase: int, results: Seq<ChunkResult>, j: int) -> bool {
    &&& results[j].chunk == phase_members(phase)[j]
    &&& results[j].cells matches Some(cells) ==> cells@.len() == 65536
}

/// What is wrong with the result at index `j`, if it does not fit.
pub open spec fn fault_at(phase: int, results: Seq<ChunkResult>, j: int) -> PoolFault {
    if results[j].chunk != phase_members(phase)[j] {
        PoolFault::WrongChunk { at: j as usize, chunk: results[j].chunk }
    } else {
        PoolFault::WrongSize {
            chunk: results[j].chunk,
            len: results[j].cells.unwrap()@.len() as usize,
        }
    }
}

/// Whether the results are those of exactly the tasks of the phase, in the
/// order of the tasks.
pub open spec fn accepted(phase: int, results: Seq<ChunkResult>) -> bool {
    &&& results.len() == 64
    &&& forall|j: int| 0 <= j < 64 ==> fits(phase, results, j)
}

/// Whether `fault` names what is wrong with the results: their number, or
/// else the first of them that does not fit.
pub open spec fn rejected_with(phase: int, results: Seq<ChunkResult>, fault: PoolFault) -> bool {
    if results.len() != 64 {
        fault == (PoolFault::WrongCount { count: results.len() as usize })
    } else {
        exists|j: int|
            0 <= j < 64 && !fits(phase, results, j) && (forall|i: int|
                0 <= i < j ==> fits(phase, results, i)) && fault == fault_at(phase, results, j)
    }
}

/// Whether one of the first `count` results says that the rule gave up on
/// `chunk`.
pub open spec fn gave_up(results: Seq<ChunkResult>, count: int, chunk: u8) -> bool {
    exists|j: int|
        0 <= j < count && (#[trigger] results[j]).chunk == chunk && results[j].cells.is_none()
}

/// Whether `after` is `before` with the results of a phase put in: a chunk
/// whose result brings cells has those cells, every other chunk is as it
/// was, and `failed` lists the chunks on which the rule gave up.
pub open spec fn collected(
    before: Seq<Block>,
    after: Seq<Block>,
    phase: int,
    results: Seq<ChunkResult>,
    failed: Seq<u8>,
) -> bool {
    &&& after.len() == before.len()
    &&& forall|j: int|
        0 <= j < 64 ==> chunk_cells(after, (#[trigger] results[j]).chunk as int) == match results[j]
            .cells {
            Some(cells) => cells@,
            None => chunk_cells(before, results[j].chunk as int),
        }
    &&& forall|c: u8|
        phase_index(c as int) != phase ==> #[trigger] chunk_cells(after, c as int) == chunk_cells(
            before,
            c as int,
        )
    &&& forall|c: u8| #[trigger] failed.contains(c) <==> gave_up(results, 64, c)
    &&& in_tick_order(failed)
}

impl ChunkTask {
    /// Runs the task: applies the rule to each cell of the copy. This is
    /// the work of one worker on one chunk; it touches nothing else.
    pub fn run<F: Fn(Block) -> Option<Block>>(self, rule: &F) -> (result: ChunkResult)
        requires
            accepts_all(*rule),
        ensures
            ran(*rule, self, result),
    {
        let cells = next_cells(self.cells.as_slice(), rule);
        ChunkResult { chunk: self.chunk, cells }
    }
}

impl UpdateScheduler {
    /// The tasks of a phase: one for each chunk of the phase, in ascending
    /// order, each with a copy of the cells of its chunk. No two of the
    /// chunks touch, so no task works next to another.
    pub fn dispatch(&self, world: &World, phase: usize) -> (tasks: Vec<ChunkTask>)
        requires
            phase < 4,
        ensures
            dispatched(world@, phase as int, tasks@),
            forall|i: int, j: int|
                0 <= i < j < 64 ==> wrapped_distance(
                    (#[trigger] tasks@[i]).chunk as int,
                    (#[trigger] tasks@[j]).chunk as int,
                ) >= 2,
    {
        let chunks = self.plan().chunks_in_phase(phase);
        proof {
            lemma_phase_len(phase as int);
            lemma_phase_ascending(phase as int);
            assert forall|i: int, j: int| 0 <= i < j < 64 implies wrapped_distance(
                #[trigger] phase_members(phase as int)[i] as int,
                #[trigger] phase_members(phase as int)[j] as int,
            ) >= 2 by {
                let a = phase_members(phase as int)[i];
                let b = phase_members(phase as int)[j];
                assert(phase_members(phase as int).contains(a));
                assert(phase_members(phase as int).contains(b));
                lemma_phase_membership(phase as int, a);
                lemma_phase_membership(phase as int, b);
                lemma_same_phase_apart(a, b);
            }
        }
        let mut tasks: Vec<ChunkTask> = Vec::new();
        let mut j: usize = 0;
        while j < chunks.len()
            invariant
                j <= chunks@.len(),
                chunks@.len() == 64,
                chunks@ == phase_members(phase as int),
                tasks@.len() == j,
                forall|i: int|
                    0 <= i < j ==> (#[trigger] tasks@[i]).chunk == chunks@[i] && tasks@[i].cells@
                        == chunk_cells(world@, tasks@[i].chunk as int),
            decreases chunks@.len() - j,
        {
            let chunk = chunks[j];
            tasks.push(ChunkTask { chunk, cells: world.copy_chunk(chunk) });
            j += 1;
        }
        tasks
    }

    /// Puts the results of a phase into the world, once all its tasks are
    /// done. The results must be those of exactly the tasks that `dispatch`
    /// handed out, in the same order; if they are not, nothing is put in
    /// and the fault is returned. Otherwise the result is the list of the
    /// chunks on which the rule gave up; they stay as they were.
    pub fn collect(&self, world: &mut World, phase: usize, results: &Vec<ChunkResult>) -> (outcome:
        Result<Vec<u8>, PoolFault>)
        requires
            phase < 4,
        ensures
            match outcome {
                Ok(failed) => {
                    &&& accepted(phase as int, results@)
                    &&& collected(old(world)@, final(world)@, phase as int, results@, failed@)
                },
                Err(fault) => {
                    &&& final(world)@ == old(world)@
                    &&& !accepted(phase as int, results@)
                    &&& rejected_with(phase as int, results@, fault)
                },
            },
    {
        let chunks = self.plan().chunks_in_phase(phase);
        let total = world.len();
        proof {
            lemma_phase_len(phase as int);
            lemma_phase_ascending(phase as int);
        }
        if results.len() != 64 {
            return Err(PoolFault::WrongCount { count: results.len() });
        }
        let mut j: usize = 0;
        while j < 64
            invariant
                j <= 64,
                results@.len() == 64,
                chunks@ == phase_members(phase as int),
                chunks@.len() == 64,
                world@ == old(world)@,
                forall|i: int| 0 <= i < j ==> fits(phase as int, results@, i),
            decreases 64 - j,
        {
            let result = &results[j];
            if result.chunk != chunks[j] {
                let fault = PoolFault::WrongChunk { at: j, chunk: result.chunk };
                assert(!fits(phase as int, results@, j as int) && fault == fault_at(
                    phase as int,
                    results@,
                    j as int,
                ));
                return Err(fault);
            }
            match &result.cells {
                Some(cells) => {
                    if cells.len() != DOUBLE {
                        let fault = PoolFault::WrongSize { chunk: result.chunk, len: cells.len() };
                        assert(!fits(phase as int, results@, j as int) && fault == fault_at(
                            phase as int,
                            results@,
                            j as int,
                        ));
                        return Err(fault);
                    }
                },
                None => {},
            }
            j += 1;
        }
        let mut failed: Vec<u8> = Vec::new();
        let mut j: usize = 0;
        while j < 64
            invariant
                j <= 64,
                phase < 4,
                results@.len() == 64,
                chunks@ == phase_members(phase as int),
                chunks@.len() == 64,
                forall|a: int, b: int| 0 <= a < b < chunks@.len() ==> chunks@[a] < chunks@[b],
                forall|i: int| 0 <= i < 64 ==> fits(phase as int, results@, i),
                total == TRIPLE,
                world@.len() == total,
                world@.len() == old(world)@.len(),
                forall|i: int|
                    0 <= i < j ==> chunk_cells(world@, (#[trigger] results@[i]).chunk as int)
                        == match results@[i].cells {
                        Some(cells) => cells@,
                        None => chunk_cells(old(world)@, results@[i].chunk as int),
                    },
                forall|c: u8|
                    !listed(chunks@, j as int, c) ==> #[trigger] chunk_cells(world@, c as int)
                        == chunk_cells(old(world)@, c as int),
                forall|c: u8| #[trigger] failed@.contains(c) <==> gave_up(results@, j as int, c),
                forall|i: int, m: int|
                    0 <= i < failed@.len() && j <= m < chunks@.len() ==> failed@[i] < chunks@[m],
                forall|i: int|
                    0 <= i < failed@.len() ==> phase_index(#[trigger] failed@[i] as int) == phase,
                in_tick_order(failed@),
            decreases 64 - j,
        {
            let result = &results[j];
            let ghost prev = world@;
            let ghost prev_failed = failed@;
            proof {
                assert(fits(phase as int, results@, j as int));
                lemma_phase_membership(phase as int, result.chunk);
                assert(chunks@.contains(result.chunk));
                assert(!listed(chunks@, j as int, result.chunk));
                assert(chunk_cells(prev, result.chunk as int) == chunk_cells(
                    old(world)@,
                    result.chunk as int,
                ));
            }
            match &result.cells {
                Some(cells) => {
                    world.store_chunk(result.chunk, cells.as_slice());
                },
                None => {
                    failed.push(result.chunk);
                    proof {
                        assert(world@ == prev);
                        assert(failed@[prev_failed.len() as int] == result.chunk);
                    }
                },
            }
            proof {
                let chunk = result.chunk;
                lemma_other_chunks_kept(prev, world@, chunk as int);
                assert forall|i: int| 0 <= i < j + 1 implies chunk_cells(
                    world@,
                    (#[trigger] results@[i]).chunk as int,
                ) == match results@[i].cells {
                    Some(cells) => cells@,
                    None => chunk_cells(old(world)@, results@[i].chunk as int),
                } by {
                    if i < j {
                        assert(fits(phase as int, results@, i));
                        assert(results@[i].chunk != chunk);
                        assert(chunk_cells(world@, results@[i].chunk as int) == chunk_cells(
                            prev,
                            results@[i].chunk as int,
                        ));
                    }
                }
                assert forall|c: u8| !listed(chunks@, j + 1, c) implies #[trigger] chunk_cells(
                    world@,
                    c as int,
                ) == chunk_cells(old(world)@, c as int) by {
                    assert(c != chunk);
                    assert(!listed(chunks@, j as int, c));
                    assert(chunk_cells(world@, c as int) == chunk_cells(prev, c as int));
                }
                assert forall|c: u8| #[trigger] failed@.contains(c) <==> gave_up(
                    results@,
                    j + 1,
                    c,
                ) by {
                    if failed@.contains(c) {
                        if prev_failed.contains(c) {
                            let w = choose|w: int|
                                0 <= w < j && (#[trigger] results@[w]).chunk == c
                                    && results@[w].cells.is_none();
                            assert(0 <= w < j + 1);
                        } else {
                            let i = choose|i: int| 0 <= i < failed@.len() && failed@[i] == c;
                            assert(i == prev_failed.len());
                            assert(results@[j as int].chunk == c);
                        }
                    }
                    if gave_up(results@, j + 1, c) {
                        let w = choose|w: int|
                            0 <= w < j + 1 && (#[trigger] results@[w]).chunk == c
                                && results@[w].cells.is_none();
                        if w < j {
                            assert(gave_up(results@, j as int, c));
                            assert(prev_failed.contains(c));
                            let i = choose|i: int|
                                0 <= i < prev_failed.len() && prev_failed[i] == c;
                            assert(failed@[i] == c);
                        } else {
                            assert(failed@[prev_failed.len() as int] == c);
                        }
                    }
                }
            }
            j += 1;
        }
        proof {
            assert forall|c: u8| phase_index(c as int) != phase implies #[trigger] chunk_cells(
                world@,
                c as int,
            ) == chunk_cells(old(world)@, c as int) by {
                lemma_phase_membership(phase as int, c);
                if listed(chunks@, 64, c) {
                    let m = choose|m: int| 0 <= m < 64 && chunks@[m] == c;
                    assert(chunks@.contains(c));
                }
            }
        }
        Ok(failed)
    }
}

/// Results that workers got by running the tasks that were handed out are
/// accepted.
pub proof fn lemma_results_of_tasks_accepted<F: Fn(Block) -> Option<Block>>(
    rule: F,
    cells: Seq<Block>,
    phase: int,
    tasks: Seq<ChunkTask>,
    results: Seq<ChunkResult>,
)
    requires
        cells.len() == 16777216,
        0 <= phase < 4,
        dispatched(cells, phase, tasks),
        results.len() == 64,
        forall|j: int| 0 <= j < 64 ==> ran(rule, #[trigger] tasks[j], results[j]),
    ensures
        accepted(phase, results),
{
    assert forall|j: int| 0 <= j < 64 implies fits(phase, results, j) by {
        assert(ran(rule, tasks[j], results[j]));
        assert(tasks[j].cells@ == chunk_cells(cells, tasks[j].chunk as int));
    }
}

/// A phase carried out by workers comes to the same as one carried out by
/// the scheduler alone: if each result is what running its task gives, then
/// the world with the results put in is the world after the phase.
pub proof fn lemma_collected_phase<F: Fn(Block) -> Option<Block>>(
    rule: F,
    before: Seq<Block>,
    after: Seq<Block>,
    phase: int,
    tasks: Seq<ChunkTask>,
    results: Seq<ChunkResult>,
    failed: Seq<u8>,
)
    requires
        before.len() == 16777216,
        0 <= phase < 4,
        dispatched(before, phase, tasks),
        results.len() == 64,
        forall|j: int| 0 <= j < 64 ==> ran(rule, #[trigger] tasks[j], results[j]),
        collected(before, after, phase, results, failed),
    ensures
        phase_ran(rule, before, after, phase, failed),
{
    lemma_phase_ascending(phase);
    lemma_phase_len(phase);
    assert forall|c: u8| phase_index(c as int) == phase implies #[trigger] chunk_outcome(
        rule,
        before,
        after,
        c as int,
        failed.contains(c),
    ) by {
        lemma_phase_membership(phase, c);
        let j = choose|j: int| 0 <= j < 64 && phase_members(phase)[j] == c;
        assert(ran(rule, tasks[j], results[j]));
        assert(results[j].chunk == c);
        if results[j].cells.is_none() {
            assert(gave_up(results, 64, c));
        } else {
            if gave_up(results, 64, c) {
                let w = choose|w: int|
                    0 <= w < 64 && (#[trigger] results[w]).chunk == c && results[w].cells.is_none();
                assert(ran(rule, tasks[w], results[w]));
                assert(phase_members(phase)[w] == phase_members(phase)[j]);
                assert(w == j);
            }
        }
    }
    assert forall|c: u8| #[trigger] failed.contains(c) implies phase_index(c as int) == phase by {
        let w = choose|w: int|
            0 <= w < 64 && (#[trigger] results[w]).chunk == c && results[w].cells.is_none();
        assert(ran(rule, tasks[w], results[w]));
        assert(phase_members(phase).contains(c));
        lemma_phase_membership(phase, c);
    }
}

} // verus!
