//! The tiling plan: the 256 chunks split into four phases such that two
//! chunks of one phase never touch, not even at a corner.
//!
//! Chunks form a 16 x 16 grid; chunk `c` sits at macro coordinates
//! `(c % 16, c / 16)`. A chunk's phase is the parity of its two macro
//! coordinates, so the chunks of one phase lie two apart in each direction
//! and can be updated at the same time without sharing a neighbour.

use vstd::prelude::*;

verus! {

/// Number of phases.
pub const PHASES: usize = 4;

/// Number of chunks in each phase.
pub const PHASE_LEN: usize = 64;

/// The macro x coordinate of a chunk.
pub open spec fn macro_x(chunk: int) -> int {
    chunk % 16
}

/// The macro z coordinate of a chunk.
pub open spec fn macro_z(chunk: int) -> int {
    chunk / 16
}

/// The phase of a chunk: `(cx mod 2) + 2 * (cz mod 2)`.
pub open spec fn phase_index(chunk: int) -> int {
    macro_x(chunk) % 2 + 2 * (macro_z(chunk) % 2)
}

/// The distance between two integers.
pub open spec fn gap(a: int, b: int) -> int {
    if a <= b {
        b - a
    } else {
        a - b
    }
}

/// The distance between two chunks in the macro grid: the larger of their
/// distances along x and along z. Two distinct chunks touch at an edge or a
/// corner exactly when it is 1.
pub open spec fn macro_distance(a: int, b: int) -> int {
    let dx = gap(macro_x(a), macro_x(b));
    let dz = gap(macro_z(a), macro_z(b));
    if dx >= dz {
        dx
    } else {
        dz
    }
}

/// The distance between two coordinates on a ring of 16.
pub open spec fn ring_gap(a: int, b: int) -> int {
    let d = gap(a, b);
    if d <= 16 - d {
        d
    } else {
        16 - d
    }
}

/// The distance between two chunks when the macro grid wraps around at its
/// borders, as the world does.
pub open spec fn wrapped_distance(a: int, b: int) -> int {
    let dx = ring_gap(macro_x(a), macro_x(b));
    let dz = ring_gap(macro_z(a), macro_z(b));
    if dx >= dz {
        dx
    } else {
        dz
    }
}

/// The chunks below `bound` that belong to `phase`, in ascending order.
pub open spec fn phase_members_below(phase: int, bound: int) -> Seq<u8>
    decreases bound,
{
    if bound <= 0 {
        Seq::empty()
    } else if phase_index(bound - 1) == phase {
        phase_members_below(phase, bound - 1).push((bound - 1) as u8)
    } else {
        phase_members_below(phase, bound - 1)
    }
}

/// The chunks of a phase, in ascending order.
pub open spec fn phase_members(phase: int) -> Seq<u8> {
    phase_members_below(phase, 256)
}

/// The four phases in order, each with its chunks in ascending order.
pub open spec fn all_phases() -> Seq<Seq<u8>> {
    Seq::new(4, |phase: int| phase_members(phase))
}

/// The phase of a chunk.
pub fn phase_of(chunk: u8) -> (phase: u8)
    ensures
        phase == phase_index(chunk as int),
        phase < 4,
{
    (chunk % 16) % 2 + 2 * ((chunk / 16) % 2)
}

/// The four phases, each with its chunks in ascending order.
pub struct TilingPlan {
    phases: Vec<Vec<u8>>,
}

impl View for TilingPlan {
    type V = Seq<Seq<u8>>;

    /// The phases of the plan, each as the list of its chunks.
    closed spec fn view(&self) -> Seq<Seq<u8>> {
        Seq::new(self.phases@.len(), |phase: int| self.phases@[phase]@)
    }
}

impl TilingPlan {
    #[verifier::type_invariant]
    spec fn grouped(&self) -> bool {
        &&& self.phases@.len() == 4
        &&& forall|k: int| 0 <= k < 4 ==> (#[trigger] self.phases@[k])@ == phase_members(k)
    }

    /// Computes the plan: every chunk is put into the group of its phase.
    /// There is only one plan, so every call gives the same.
    pub fn new() -> (plan: TilingPlan)
        ensures
            plan@ == all_phases(),
    {
        let mut phases: Vec<Vec<u8>> = Vec::new();
        let mut phase: u8 = 0;
        while phase < 4
            invariant
                phase <= 4,
                phases@.len() == phase,
                forall|k: int| 0 <= k < phase ==> (#[trigger] phases@[k])@ == phase_members(k),
            decreases 4 - phase,
        {
            let mut group: Vec<u8> = Vec::new();
            let mut id: usize = 0;
            while id < 256
                invariant
                    id <= 256,
                    group@ == phase_members_below(phase as int, id as int),
                decreases 256 - id,
            {
                if phase_of(id as u8) == phase {
                    group.push(id as u8);
                }
                id += 1;
            }
            phases.push(group);
            phase += 1;
        }
        let plan = TilingPlan { phases };
        assert(plan@ =~= all_phases());
        plan
    }

    /// The four phases in order; phase `k` is at index `k`.
    pub fn phases(&self) -> (phases: &Vec<Vec<u8>>)
        ensures
            self@ == all_phases(),
            phases@.len() == 4,
            forall|k: int| 0 <= k < 4 ==> (#[trigger] phases@[k])@ == phase_members(k),
    {
        proof {
            use_type_invariant(self);
            assert(self@ =~= all_phases());
        }
        &self.phases
    }

    /// The chunks of the given phase, in ascending order.
    pub fn chunks_in_phase(&self, phase: usize) -> (chunks: &Vec<u8>)
        requires
            phase < 4,
        ensures
            self@ == all_phases(),
            chunks@ == phase_members(phase as int),
    {
        proof {
            use_type_invariant(self);
            assert(self@ =~= all_phases());
        }
        &self.phases[phase]
    }
}

/// How many chunks below `bound` belong to `phase`: eight for each full row
/// of the right parity, and those of the row that `bound` cuts.
spec fn members_count(phase: int, bound: int) -> int {
    let row = bound / 16;
    let col = bound % 16;
    let full_rows = (row + 1 - phase / 2) / 2;
    let cut_row = if row % 2 == phase / 2 {
        (col + 1 - phase % 2) / 2
    } else {
        0
    };
    8 * full_rows + cut_row
}

/// What `phase_members_below` holds: exactly the chunks of the phase below
/// the bound, each once, in ascending order.
proof fn lemma_members_below(phase: int, bound: int)
    requires
        0 <= phase < 4,
        0 <= bound <= 256,
    ensures
        phase_members_below(phase, bound).len() == members_count(phase, bound),
        forall|j: int|
            0 <= j < phase_members_below(phase, bound).len() ==> {
                let c = #[trigger] phase_members_below(phase, bound)[j];
                c < bound && phase_index(c as int) == phase
            },
        forall|c: u8|
            c < bound && phase_index(c as int) == phase ==> phase_members_below(
                phase,
                bound,
            ).contains(c),
        forall|i: int, j: int|
            0 <= i < j < phase_members_below(phase, bound).len() ==> phase_members_below(
                phase,
                bound,
            )[i] < phase_members_below(phase, bound)[j],
    decreases bound,
{
    if bound > 0 {
        lemma_members_below(phase, bound - 1);
        let rest = phase_members_below(phase, bound - 1);
        let all = phase_members_below(phase, bound);
        if phase_index(bound - 1) == phase {
            assert(all == rest.push((bound - 1) as u8));
            assert(all[rest.len() as int] == (bound - 1) as u8);
            assert forall|c: u8| c < bound && phase_index(c as int) == phase implies all.contains(
                c,
            ) by {
                if c < bound - 1 {
                    assert(rest.contains(c));
                    let j = choose|j: int| 0 <= j < rest.len() && rest[j] == c;
                    assert(all[j] == c);
                } else {
                    assert(all[rest.len() as int] == c);
                }
            }
        } else {
            assert(all == rest);
        }
    }
}

/// Each phase has exactly 64 chunks.
pub proof fn lemma_phase_len(phase: int)
    requires
        0 <= phase < 4,
    ensures
        phase_members(phase).len() == 64,
{
    lemma_members_below(phase, 256);
}

/// A phase holds exactly the chunks whose phase it is.
pub proof fn lemma_phase_membership(phase: int, chunk: u8)
    requires
        0 <= phase < 4,
    ensures
        phase_members(phase).contains(chunk) <==> phase_index(chunk as int) == phase,
{
    lemma_members_below(phase, 256);
}

/// The chunks of a phase are listed in ascending order, so none is listed
/// twice.
pub proof fn lemma_phase_ascending(phase: int)
    requires
        0 <= phase < 4,
    ensures
        forall|i: int, j: int|
            0 <= i < j < phase_members(phase).len() ==> phase_members(phase)[i] < phase_members(
                phase,
            )[j],
        phase_members(phase).no_duplicates(),
{
    lemma_members_below(phase, 256);
}

/// The four phases partition the chunks: no chunk is in two phases, each
/// phase has exactly 64 chunks, and together they hold every chunk.
pub proof fn lemma_phases_partition()
    ensures
        forall|p: int, q: int|
            0 <= p < 4 && 0 <= q < 4 && p != q ==> phase_members(p).to_set().disjoint(
                phase_members(q).to_set(),
            ),
        forall|p: int| 0 <= p < 4 ==> (#[trigger] phase_members(p).to_set()).len() == 64,
        phase_members(0).to_set() + phase_members(1).to_set() + phase_members(2).to_set()
            + phase_members(3).to_set() == Set::<u8>::full(),
{
    assert forall|p: int, q: int| 0 <= p < 4 && 0 <= q < 4 && p != q implies phase_members(
        p,
    ).to_set().disjoint(phase_members(q).to_set()) by {
        assert forall|c: u8|
            !(phase_members(p).to_set().contains(c) && phase_members(q).to_set().contains(
                c,
            )) by {
            lemma_phase_membership(p, c);
            lemma_phase_membership(q, c);
        }
    }
    assert forall|p: int| 0 <= p < 4 implies (#[trigger] phase_members(p).to_set()).len()
        == 64 by {
        lemma_phase_len(p);
        lemma_phase_ascending(p);
        phase_members(p).unique_seq_to_set();
    }
    let all = phase_members(0).to_set() + phase_members(1).to_set() + phase_members(2).to_set()
        + phase_members(3).to_set();
    assert forall|c: u8| all.contains(c) by {
        lemma_phase_membership(phase_index(c as int), c);
    }
    assert(all =~= Set::<u8>::full());
}

/// Two distinct chunks of one phase are at least two apart in the macro
/// grid, so they share neither an edge nor a corner. This also holds where
/// the grid wraps around at its borders.
pub proof fn lemma_same_phase_apart(a: u8, b: u8)
    requires
        a != b,
        phase_index(a as int) == phase_index(b as int),
    ensures
        macro_distance(a as int, b as int) >= 2,
        wrapped_distance(a as int, b as int) >= 2,
{
}

} // verus!
