//! One simulation step of the world.
//!
//! A tick applies a rule to every cell. The rule is any function from a
//! block to the block that takes its place; it sees the block it is applied
//! to and nothing else, neither the cell's position nor its neighbours. So
//! what a tick makes of a cell does not depend on when the cells around it
//! are dealt with, and a rule that gives one result for each block gives
//! one world, in whatever order and by however many workers the chunks are
//! simulated.
//!
//! A rule may give up on a block by returning `None`. The chunk that holds
//! the block then stays as it was before the tick, whole, and is reported as
//! failed; all other chunks are simulated as usual.
//!
//! The chunks are gone through phase by phase, as the tiling plan groups
//! them, and one phase is over before the next begins.

use vstd::prelude::*;

use crate::block::Block;
use crate::position::{index_chunk, TRIPLE};
use crate::tiling::{
    all_phases, lemma_phase_ascending, lemma_phase_membership, phase_index, phase_members,
    TilingPlan,
};
use crate::world::{chunk_cells, lemma_other_chunks_kept, same_outside, World};

verus! {

/// Whether the rule may be applied to every block.
pub open spec fn accepts_all<F: Fn(Block) -> Option<Block>>(rule: F) -> bool {
    forall|b: Block| call_requires(rule, (b,))
}

/// Whether `after` is `before` with the rule applied to every cell.
pub open spec fn stepped<F: Fn(Block) -> Option<Block>>(
    rule: F,
    before: Seq<Block>,
    after: Seq<Block>,
) -> bool {
    &&& after.len() == before.len()
    &&& forall|i: int|
        0 <= i < before.len() ==> call_ensures(rule, (before[i],), Some(#[trigger] after[i]))
}

/// Whether the rule gives up on some cell of `cells`.
pub open spec fn faulted<F: Fn(Block) -> Option<Block>>(rule: F, cells: Seq<Block>) -> bool {
    exists|i: int| 0 <= i < cells.len() && call_ensures(rule, (#[trigger] cells[i],), None)
}

/// The blocks that the rule makes of the cells, one for one, or `None` if
/// it gives up on one of them.
pub fn next_cells<F: Fn(Block) -> Option<Block>>(cells: &[Block], rule: &F) -> (next: Option<
    Vec<Block>,
>)
    requires
        accepts_all(*rule),
    ensures
        match next {
            Some(blocks) => stepped(*rule, cells@, blocks@),
            None => faulted(*rule, cells@),
        },
{
    let n = cells.len();
    let mut next: Vec<Block> = Vec::with_capacity(n);
    let mut i: usize = 0;
    while i < n
        invariant
            i <= n,
            n == cells@.len(),
            accepts_all(*rule),
            next@.len() == i,
            forall|k: int|
                0 <= k < i ==> call_ensures(*rule, (cells@[k],), Some(#[trigger] next@[k])),
        decreases n - i,
    {
        match rule(cells[i]) {
            Some(block) => {
                next.push(block);
            },
            None => {
                return None;
            },
        }
        i += 1;
    }
    Some(next)
}

/// Applies the rule to every cell, all or nothing: if the rule gives up on
/// any cell, no cell changes.
pub fn step_cells<F: Fn(Block) -> Option<Block>>(cells: &mut [Block], rule: &F) -> (done: bool)
    requires
        accepts_all(*rule),
    ensures
        done ==> stepped(*rule, old(cells)@, final(cells)@),
        !done ==> final(cells)@ == old(cells)@ && faulted(*rule, old(cells)@),
{
    match next_cells(cells, rule) {
        Some(next) => {
            let n = cells.len();
            let mut j: usize = 0;
            while j < n
                invariant
                    j <= n,
                    n == cells@.len(),
                    n == next@.len(),
                    forall|k: int| 0 <= k < j ==> cells@[k] == next@[k],
                decreases n - j,
            {
                cells[j] = next[j];
                j += 1;
            }
            assert(cells@ =~= next@);
            true
        },
        None => false,
    }
}

/// Whether the rule gives at most one result for each block.
pub open spec fn deterministic<F: Fn(Block) -> Option<Block>>(rule: F) -> bool {
    forall|b: Block, r1: Option<Block>, r2: Option<Block>|
        call_ensures(rule, (b,), r1) && call_ensures(rule, (b,), r2) ==> r1 == r2
}

/// What a tick does to one chunk. A chunk that did not fail has the rule
/// applied to each of its cells; one that failed is as it was, and the rule
/// gave up on one of its cells.
pub open spec fn chunk_outcome<F: Fn(Block) -> Option<Block>>(
    rule: F,
    before: Seq<Block>,
    after: Seq<Block>,
    chunk: int,
    failed: bool,
) -> bool {
    if failed {
        chunk_cells(after, chunk) == chunk_cells(before, chunk) && faulted(
            rule,
            chunk_cells(before, chunk),
        )
    } else {
        stepped(rule, chunk_cells(before, chunk), chunk_cells(after, chunk))
    }
}

/// The place of a chunk in the order in which a tick goes through the
/// chunks: phase by phase, and within a phase in ascending order.
pub open spec fn tick_rank(chunk: u8) -> int {
    256 * phase_index(chunk as int) + chunk
}

/// Whether the chunks are listed in the order in which a tick goes through
/// them, none of them twice.
pub open spec fn in_tick_order(chunks: Seq<u8>) -> bool {
    forall|i: int, j: int|
        0 <= i < j < chunks.len() ==> tick_rank(chunks[i]) < tick_rank(chunks[j])
}

/// Whether `after` is `before` with the chunks of one phase updated, and
/// `failed` lists the chunks of the phase that failed.
pub open spec fn phase_ran<F: Fn(Block) -> Option<Block>>(
    rule: F,
    before: Seq<Block>,
    after: Seq<Block>,
    phase: int,
    failed: Seq<u8>,
) -> bool {
    &&& after.len() == before.len()
    &&& forall|c: u8|
        phase_index(c as int) == phase ==> #[trigger] chunk_outcome(
            rule,
            before,
            after,
            c as int,
            failed.contains(c),
        )
    &&& forall|c: u8|
        phase_index(c as int) != phase ==> #[trigger] chunk_cells(after, c as int) == chunk_cells(
            before,
            c as int,
        )
    &&& forall|c: u8| #[trigger] failed.contains(c) ==> phase_index(c as int) == phase
    &&& in_tick_order(failed)
}

/// Whether `after` is `before` one tick later, and `failed` lists the chunks
/// that failed.
pub open spec fn ticked<F: Fn(Block) -> Option<Block>>(
    rule: F,
    before: Seq<Block>,
    after: Seq<Block>,
    failed: Seq<u8>,
) -> bool {
    &&& after.len() == before.len()
    &&& forall|c: u8| #[trigger] chunk_outcome(rule, before, after, c as int, failed.contains(c))
    &&& in_tick_order(failed)
}

/// Whether `after` is `before` with the first `phases` phases of a tick
/// done, and `failed` lists the chunks that failed in them. Before the first
/// phase `after` is `before`; after the fourth the tick is done.
pub open spec fn ticked_through<F: Fn(Block) -> Option<Block>>(
    rule: F,
    before: Seq<Block>,
    after: Seq<Block>,
    failed: Seq<u8>,
    phases: int,
) -> bool {
    &&& after.len() == before.len()
    &&& forall|c: u8|
        phase_index(c as int) < phases ==> #[trigger] chunk_outcome(
            rule,
            before,
            after,
            c as int,
            failed.contains(c),
        )
    &&& forall|c: u8|
        phase_index(c as int) >= phases ==> #[trigger] chunk_cells(after, c as int) == chunk_cells(
            before,
            c as int,
        )
    &&& forall|c: u8| #[trigger] failed.contains(c) ==> phase_index(c as int) < phases
    &&& in_tick_order(failed)
}

/// Runs the ticks of a world: the four phases one after another, and within
/// a phase one chunk after another.
pub struct UpdateScheduler {
    plan: TilingPlan,
}

impl UpdateScheduler {
    /// The phases that the scheduler goes through, in order.
    pub closed spec fn phases(&self) -> Seq<Seq<u8>> {
        self.plan@
    }

    /// A scheduler with a freshly computed tiling plan.
    pub fn new() -> (scheduler: UpdateScheduler)
        ensures
            scheduler.phases() == all_phases(),
    {
        UpdateScheduler { plan: TilingPlan::new() }
    }

    /// The tiling plan that the scheduler follows.
    pub fn plan(&self) -> (plan: &TilingPlan)
        ensures
            plan@ == self.phases(),
            plan@ == all_phases(),
    {
        let _ = self.plan.phases();
        &self.plan
    }

    /// Runs one phase of a tick: each chunk of the phase is simulated, in
    /// ascending order. A chunk on which the rule gives up stays as it was
    /// and is listed in the result; the other chunks of the phase are still
    /// simulated. Chunks of other phases are not touched.
    pub fn run_phase<F: Fn(Block) -> Option<Block>>(
        &self,
        world: &mut World,
        phase: usize,
        rule: &F,
    ) -> (failed: Vec<u8>)
        requires
            phase < 4,
            accepts_all(*rule),
        ensures
            phase_ran(*rule, old(world)@, final(world)@, phase as int, failed@),
    {
        let chunks = self.plan.chunks_in_phase(phase);
        let total = world.len();
        let mut failed: Vec<u8> = Vec::new();
        let mut j: usize = 0;
        proof {
            lemma_phase_ascending(phase as int);
        }
        while j < chunks.len()
            invariant
                j <= chunks@.len(),
                phase < 4,
                chunks@ == phase_members(phase as int),
                forall|a: int, b: int|
                    0 <= a < b < chunks@.len() ==> chunks@[a] < chunks@[b],
                accepts_all(*rule),
                total == TRIPLE,
                world@.len() == total,
                world@.len() == old(world)@.len(),
                forall|c: u8|
                    listed(chunks@, j as int, c) ==> #[trigger] chunk_outcome(
                        *rule,
                        old(world)@,
                        world@,
                        c as int,
                        failed@.contains(c),
                    ),
                forall|c: u8|
                    !listed(chunks@, j as int, c) ==> #[trigger] chunk_cells(world@, c as int)
                        == chunk_cells(old(world)@, c as int),
                forall|c: u8| #[trigger] failed@.contains(c) ==> listed(chunks@, j as int, c),
                forall|i: int, m: int|
                    0 <= i < failed@.len() && j <= m < chunks@.len() ==> failed@[i] < chunks@[m],
                forall|i: int|
                    0 <= i < failed@.len() ==> phase_index(#[trigger] failed@[i] as int) == phase,
                in_tick_order(failed@),
            decreases chunks@.len() - j,
        {
            let chunk = chunks[j];
            let ghost prev = world@;
            let ghost prev_failed = failed@;
            proof {
                lemma_phase_membership(phase as int, chunk);
                assert(phase_members(phase as int).contains(chunk));
                assert(!listed(chunks@, j as int, chunk));
                assert(chunk_cells(prev, chunk as int) == chunk_cells(old(world)@, chunk as int));
            }
            let done = world.simulate(chunk, rule);
            if !done {
                failed.push(chunk);
            }
            proof {
                lemma_other_chunks_kept(prev, world@, chunk as int);
                assert(failed@.contains(chunk) == !done) by {
                    if !done {
                        assert(failed@[prev_failed.len() as int] == chunk);
                    } else {
                        assert(failed@ == prev_failed);
                    }
                }
                assert forall|c: u8| c != chunk implies failed@.contains(c) == prev_failed.contains(
                    c,
                ) by {
                    if !done {
                        assert(failed@ == prev_failed.push(chunk));
                        if prev_failed.contains(c) {
                            let i = choose|i: int|
                                0 <= i < prev_failed.len() && prev_failed[i] == c;
                            assert(failed@[i] == c);
                        }
                        if failed@.contains(c) {
                            let i = choose|i: int| 0 <= i < failed@.len() && failed@[i] == c;
                            assert(prev_failed[i] == c);
                        }
                    }
                }
                assert forall|c: u8| listed(chunks@, j + 1, c) implies #[trigger] chunk_outcome(
                    *rule,
                    old(world)@,
                    world@,
                    c as int,
                    failed@.contains(c),
                ) by {
                    if c == chunk {
                    } else {
                        let m = choose|m: int| 0 <= m < j + 1 && chunks@[m] == c;
                        assert(listed(chunks@, j as int, c));
                        assert(chunk_outcome(
                            *rule,
                            old(world)@,
                            prev,
                            c as int,
                            prev_failed.contains(c),
                        ));
                        assert(chunk_cells(world@, c as int) == chunk_cells(prev, c as int));
                    }
                }
                assert forall|c: u8| !listed(chunks@, j + 1, c) implies #[trigger] chunk_cells(
                    world@,
                    c as int,
                ) == chunk_cells(old(world)@, c as int) by {
                    assert(c != chunk);
                    assert(!listed(chunks@, j as int, c));
                    assert(chunk_cells(world@, c as int) == chunk_cells(prev, c as int));
                    assert(chunk_cells(prev, c as int) == chunk_cells(old(world)@, c as int));
                }
                assert forall|c: u8| #[trigger] failed@.contains(c) implies listed(
                    chunks@,
                    j + 1,
                    c,
                ) by {
                    if c != chunk {
                        assert(prev_failed.contains(c));
                        let m = choose|m: int| 0 <= m < j && chunks@[m] == c;
                        assert(0 <= m < j + 1 && chunks@[m] == c);
                    }
                }
            }
            j += 1;
        }
        proof {
            assert forall|c: u8| phase_index(c as int) == phase implies #[trigger] chunk_outcome(
                *rule,
                old(world)@,
                world@,
                c as int,
                failed@.contains(c),
            ) by {
                lemma_phase_membership(phase as int, c);
                let m = choose|m: int| 0 <= m < chunks@.len() && chunks@[m] == c;
                assert(listed(chunks@, j as int, c));
            }
            assert forall|c: u8| phase_index(c as int) != phase implies #[trigger] chunk_cells(
                world@,
                c as int,
            ) == chunk_cells(old(world)@, c as int) by {
                lemma_phase_membership(phase as int, c);
                if listed(chunks@, j as int, c) {
                    let m = choose|m: int| 0 <= m < j && chunks@[m] == c;
                    assert(chunks@.contains(c));
                }
            }
            assert forall|c: u8| #[trigger] failed@.contains(c) implies phase_index(c as int)
                == phase by {
                lemma_phase_membership(phase as int, c);
                let m = choose|m: int| 0 <= m < j && chunks@[m] == c;
                assert(chunks@.contains(c));
            }
        }
        failed
    }
}

impl UpdateScheduler {
    /// Runs one tick: the four phases in order, each to its end before the
    /// next begins. Every chunk is simulated once. A chunk on which the rule
    /// gives up stays as it was and is listed in the result, in the order in
    /// which the tick went through the chunks; all other chunks have the
    /// rule applied to each of their cells.
    pub fn run_tick<F: Fn(Block) -> Option<Block>>(&self, world: &mut World, rule: &F) -> (failed:
        Vec<u8>)
        requires
            accepts_all(*rule),
        ensures
            ticked(*rule, old(world)@, final(world)@, failed@),
    {
        let mut failed: Vec<u8> = Vec::new();
        let mut phase: usize = 0;
        while phase < 4
            invariant
                phase <= 4,
                accepts_all(*rule),
                ticked_through(*rule, old(world)@, world@, failed@, phase as int),
            decreases 4 - phase,
        {
            let ghost prev = world@;
            let ghost prev_failed = failed@;
            let mut newly = self.run_phase(world, phase, rule);
            proof {
                lemma_phase_extends_tick(
                    *rule,
                    old(world)@,
                    prev,
                    world@,
                    prev_failed,
                    newly@,
                    phase as int,
                );
            }
            failed.append(&mut newly);
            phase += 1;
        }
        failed
    }
}

/// One more phase of a tick: if the first `phase` phases are done and the
/// next one runs, the first `phase + 1` phases are done, and the chunks that
/// failed in it come after those that failed before.
pub proof fn lemma_phase_extends_tick<F: Fn(Block) -> Option<Block>>(
    rule: F,
    before: Seq<Block>,
    mid: Seq<Block>,
    after: Seq<Block>,
    failed: Seq<u8>,
    newly: Seq<u8>,
    phase: int,
)
    requires
        0 <= phase < 4,
        ticked_through(rule, before, mid, failed, phase),
        phase_ran(rule, mid, after, phase, newly),
    ensures
        ticked_through(rule, before, after, failed + newly, phase + 1),
{
    let all = failed + newly;
    assert forall|c: u8| #[trigger] all.contains(c) == (failed.contains(c) || newly.contains(
        c,
    )) by {
        lemma_concat_contains(failed, newly, c);
    }
    assert forall|c: u8| phase_index(c as int) < phase + 1 implies #[trigger] chunk_outcome(
        rule,
        before,
        after,
        c as int,
        all.contains(c),
    ) by {
        assert(all.contains(c) == (failed.contains(c) || newly.contains(c)));
        if phase_index(c as int) == phase {
            assert(chunk_outcome(rule, mid, after, c as int, newly.contains(c)));
            assert(chunk_cells(mid, c as int) == chunk_cells(before, c as int));
        } else {
            assert(chunk_outcome(rule, before, mid, c as int, failed.contains(c)));
            assert(chunk_cells(after, c as int) == chunk_cells(mid, c as int));
        }
    }
    assert forall|c: u8| phase_index(c as int) >= phase + 1 implies #[trigger] chunk_cells(
        after,
        c as int,
    ) == chunk_cells(before, c as int) by {
        assert(chunk_cells(after, c as int) == chunk_cells(mid, c as int));
        assert(chunk_cells(mid, c as int) == chunk_cells(before, c as int));
    }
    assert forall|i: int, j: int| 0 <= i < j < all.len() implies tick_rank(all[i]) < tick_rank(
        all[j],
    ) by {
        if j < failed.len() {
            assert(all[i] == failed[i] && all[j] == failed[j]);
        } else if i >= failed.len() {
            assert(all[i] == newly[i - failed.len()]);
            assert(all[j] == newly[j - failed.len()]);
        } else {
            assert(all[i] == failed[i]);
            assert(all[j] == newly[j - failed.len()]);
            assert(failed.contains(all[i]));
            assert(newly.contains(all[j]));
        }
    }
}

/// A chunk is in the concatenation of two lists exactly if it is in one of
/// them.
proof fn lemma_concat_contains(first: Seq<u8>, second: Seq<u8>, chunk: u8)
    ensures
        (first + second).contains(chunk) == (first.contains(chunk) || second.contains(chunk)),
{
    let both = first + second;
    if first.contains(chunk) {
        let i = choose|i: int| 0 <= i < first.len() && first[i] == chunk;
        assert(both[i] == chunk);
    }
    if second.contains(chunk) {
        let i = choose|i: int| 0 <= i < second.len() && second[i] == chunk;
        assert(both[first.len() + i] == chunk);
    }
    if both.contains(chunk) {
        let i = choose|i: int| 0 <= i < both.len() && both[i] == chunk;
        if i < first.len() {
            assert(first[i] == chunk);
        } else {
            assert(second[i - first.len()] == chunk);
        }
    }
}

/// What a tick does to one cell: in a chunk that failed the cell is as it
/// was, and in any other chunk it is what the rule makes of it.
pub proof fn lemma_ticked_cell<F: Fn(Block) -> Option<Block>>(
    rule: F,
    before: Seq<Block>,
    after: Seq<Block>,
    failed: Seq<u8>,
    index: int,
)
    requires
        before.len() == 16777216,
        ticked(rule, before, after, failed),
        0 <= index < 16777216,
    ensures
        failed.contains(index_chunk(index) as u8) ==> after[index] == before[index],
        !failed.contains(index_chunk(index) as u8) ==> call_ensures(
            rule,
            (before[index],),
            Some(after[index]),
        ),
{
    let chunk = index_chunk(index) as u8;
    let offset = index - chunk * 65536;
    assert(chunk_outcome(rule, before, after, chunk as int, failed.contains(chunk)));
    assert(chunk_cells(before, chunk as int)[offset] == before[index]);
    assert(chunk_cells(after, chunk as int)[offset] == after[index]);
}

/// A tick with a rule that never gives up fails on no chunk.
pub proof fn lemma_tick_without_faults<F: Fn(Block) -> Option<Block>>(
    rule: F,
    before: Seq<Block>,
    after: Seq<Block>,
    failed: Seq<u8>,
)
    requires
        ticked(rule, before, after, failed),
        forall|b: Block| !call_ensures(rule, (b,), None),
    ensures
        failed.len() == 0,
{
    if failed.len() > 0 {
        let chunk = failed[0];
        assert(failed.contains(chunk));
        assert(chunk_outcome(rule, before, after, chunk as int, failed.contains(chunk)));
    }
}

/// With a rule that gives one result for each block, a tick has one
/// outcome: whoever carries it out, and in whatever order the chunks are
/// simulated, the world and the list of failed chunks come out the same.
pub proof fn lemma_tick_deterministic<F: Fn(Block) -> Option<Block>>(
    rule: F,
    before: Seq<Block>,
    first: Seq<Block>,
    first_failed: Seq<u8>,
    second: Seq<Block>,
    second_failed: Seq<u8>,
)
    requires
        before.len() == 16777216,
        deterministic(rule),
        ticked(rule, before, first, first_failed),
        ticked(rule, before, second, second_failed),
    ensures
        first == second,
        first_failed == second_failed,
{
    assert forall|c: u8| first_failed.contains(c) == second_failed.contains(c) by {
        assert(chunk_outcome(rule, before, first, c as int, first_failed.contains(c)));
        assert(chunk_outcome(rule, before, second, c as int, second_failed.contains(c)));
        let cells = chunk_cells(before, c as int);
        if first_failed.contains(c) && !second_failed.contains(c) {
            let i = choose|i: int|
                0 <= i < cells.len() && call_ensures(rule, (#[trigger] cells[i],), None);
            assert(call_ensures(rule, (cells[i],), Some(chunk_cells(second, c as int)[i])));
        }
        if second_failed.contains(c) && !first_failed.contains(c) {
            let i = choose|i: int|
                0 <= i < cells.len() && call_ensures(rule, (#[trigger] cells[i],), None);
            assert(call_ensures(rule, (cells[i],), Some(chunk_cells(first, c as int)[i])));
        }
    }
    assert forall|i: int| 0 <= i < first.len() implies first[i] == second[i] by {
        lemma_ticked_cell(rule, before, first, first_failed, i);
        lemma_ticked_cell(rule, before, second, second_failed, i);
    }
    assert(first =~= second);
    lemma_tick_order_unique(first_failed, second_failed);
}

/// Two lists in tick order that hold the same chunks are the same list.
proof fn lemma_tick_order_unique(first: Seq<u8>, second: Seq<u8>)
    requires
        in_tick_order(first),
        in_tick_order(second),
        forall|c: u8| first.contains(c) == second.contains(c),
    ensures
        first == second,
    decreases first.len(),
{
    if first.len() == 0 {
        if second.len() > 0 {
            assert(second.contains(second[0]));
        }
        assert(first =~= second);
    } else {
        let top = first.last();
        assert(first.contains(top));
        assert(second.contains(top));
        let at = choose|i: int| 0 <= i < second.len() && second[i] == top;
        if at < second.len() - 1 {
            let above = second.last();
            assert(second.contains(above));
            assert(first.contains(above));
            let k = choose|k: int| 0 <= k < first.len() && first[k] == above;
            assert(tick_rank(first[k]) <= tick_rank(top));
            assert(tick_rank(second[at]) < tick_rank(above));
        }
        assert(second.last() == top);
        let first_rest = first.drop_last();
        let second_rest = second.drop_last();
        assert forall|c: u8| first_rest.contains(c) == second_rest.contains(c) by {
            if first_rest.contains(c) {
                let i = choose|i: int| 0 <= i < first_rest.len() && first_rest[i] == c;
                assert(first[i] == c && tick_rank(c) < tick_rank(top));
                assert(first.contains(c));
                let m = choose|m: int| 0 <= m < second.len() && second[m] == c;
                assert(m < second.len() - 1);
                assert(second_rest[m] == c);
            }
            if second_rest.contains(c) {
                let i = choose|i: int| 0 <= i < second_rest.len() && second_rest[i] == c;
                assert(second[i] == c && tick_rank(c) < tick_rank(top));
                assert(second.contains(c));
                let m = choose|m: int| 0 <= m < first.len() && first[m] == c;
                assert(m < first.len() - 1);
                assert(first_rest[m] == c);
            }
        }
        lemma_tick_order_unique(first_rest, second_rest);
        assert(first =~= first_rest.push(top));
        assert(second =~= second_rest.push(top));
    }
}

/// Whether `chunk` is among the first `count` of `chunks`.
pub open spec fn listed(chunks: Seq<u8>, count: int, chunk: u8) -> bool {
    exists|m: int| 0 <= m < count && chunks[m] == chunk
}

} // verus!
