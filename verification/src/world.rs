//! The block store: every cell of the world in one array, in
//! chunk-column-block order.

use vstd::prelude::*;
use vstd::slice::slice_to_vec;

use crate::block::{with_update, with_updates, Block, WorldUpdate};
use crate::position::{in_world, Position, DOUBLE, TRIPLE};
use crate::tick::{accepts_all, faulted, next_cells, stepped};

verus! {

/// The blocks of the whole world.
///
/// There are 256 chunks stored one after another, 256 columns within each
/// chunk and 256 blocks within each column, so the array always holds
/// exactly 256 * 256 * 256 blocks.
pub struct World {
    blocks: Vec<Block>,
}

impl View for World {
    type V = Seq<Block>;

    /// The blocks of the world by flat index.
    closed spec fn view(&self) -> Seq<Block> {
        self.blocks@
    }
}

/// The cells of one chunk of a world.
pub open spec fn chunk_cells(cells: Seq<Block>, chunk: int) -> Seq<Block> {
    cells.subrange(chunk * 65536, (chunk + 1) * 65536)
}

/// Whether `after` has every cell outside the chunk as `before` has it.
pub open spec fn same_outside(before: Seq<Block>, after: Seq<Block>, chunk: int) -> bool {
    &&& after.len() == before.len()
    &&& forall|i: int|
        0 <= i < before.len() && !(chunk * 65536 <= i < (chunk + 1) * 65536) ==> after[i]
            == before[i]
}

impl World {
    #[verifier::type_invariant]
    spec fn full(&self) -> bool {
        self.blocks@.len() == TRIPLE
    }

    /// A world in which every block is the default block.
    pub fn empty() -> (world: World)
        ensures
            world@ == Seq::new(TRIPLE as nat, |i: int| Block { kind: 0, aux: 0 }),
    {
        let blocks = vec![Block::default(); TRIPLE];
        assert(blocks@ =~= Seq::new(TRIPLE as nat, |i: int| Block { kind: 0, aux: 0 }));
        World { blocks }
    }

    /// The number of blocks, which is the same for every world.
    pub fn len(&self) -> (n: usize)
        ensures
            n == TRIPLE,
            self@.len() == TRIPLE,
    {
        proof {
            use_type_invariant(self);
        }
        self.blocks.len()
    }

    /// The block at the given position.
    pub fn get_block(&self, pos: Position) -> (block: &Block)
        requires
            in_world(pos as int),
        ensures
            *block == self@[pos as int],
    {
        proof {
            use_type_invariant(self);
        }
        &self.blocks[pos]
    }

    /// Mutable access to the block at the given position. Whatever is
    /// written through the handle is the block at that position afterwards;
    /// no other block changes.
    pub fn get_block_mut(&mut self, pos: Position) -> (block: &mut Block)
        requires
            in_world(pos as int),
        ensures
            *block == old(self)@[pos as int],
            final(self)@ == old(self)@.update(pos as int, *final(block)),
    {
        proof {
            use_type_invariant(&*self);
        }
        &mut self.blocks[pos]
    }

    /// Applies one update: the block at the update's position gets the new
    /// kind and keeps its auxiliary byte.
    pub fn process_update(&mut self, update: WorldUpdate)
        ensures
            final(self)@ == with_update(old(self)@, update),
    {
        let pos = update.position();
        self.get_block_mut(pos).kind = update.new_kind;
    }

    /// Applies a list of updates, each once, in the order of the list.
    pub fn process_updates(&mut self, updates: &Vec<WorldUpdate>)
        ensures
            final(self)@ == with_updates(old(self)@, updates@),
    {
        let mut i: usize = 0;
        while i < updates.len()
            invariant
                i <= updates@.len(),
                self@ == with_updates(old(self)@, updates@.subrange(0, i as int)),
            decreases updates@.len() - i,
        {
            self.process_update(updates[i]);
            proof {
                let done = updates@.subrange(0, i + 1);
                assert(done.drop_last() == updates@.subrange(0, i as int));
                assert(done.last() == updates@[i as int]);
            }
            i += 1;
        }
        assert(updates@.subrange(0, i as int) == updates@);
    }

    /// The blocks of the world, by flat index.
    pub fn cells(&self) -> (cells: &[Block])
        ensures
            cells@ == self@,
            cells@.len() == TRIPLE,
    {
        proof {
            use_type_invariant(self);
        }
        self.blocks.as_slice()
    }

    /// A world with the given blocks, or `None` unless there are exactly
    /// 256 * 256 * 256 of them.
    pub fn from_blocks(blocks: Vec<Block>) -> (world: Option<World>)
        ensures
            match world {
                Some(w) => blocks@.len() == TRIPLE && w@ == blocks@,
                None => blocks@.len() != TRIPLE,
            },
    {
        if blocks.len() == TRIPLE {
            Some(World { blocks })
        } else {
            None
        }
    }

    /// The blocks of the world, given up by it.
    pub fn into_blocks(self) -> (blocks: Vec<Block>)
        ensures
            blocks@ == self@,
            blocks@.len() == TRIPLE,
    {
        proof {
            use_type_invariant(&self);
        }
        self.blocks
    }

    /// A world made by the given generator, which is called once. The
    /// result is `None` if the generator does not deliver exactly
    /// 256 * 256 * 256 blocks.
    pub fn generate<G: FnOnce() -> Vec<Block>>(generator: G) -> (world: Option<World>)
        requires
            call_requires(generator, ()),
        ensures
            match world {
                Some(w) => exists|blocks: Vec<Block>|
                    call_ensures(generator, (), blocks) && blocks@ == w@ && w@.len() == TRIPLE,
                None => exists|blocks: Vec<Block>|
                    call_ensures(generator, (), blocks) && blocks@.len() != TRIPLE,
            },
    {
        let blocks = generator();
        World::from_blocks(blocks)
    }
}

impl World {
    /// A copy of the cells of one chunk, to be worked on elsewhere.
    pub fn copy_chunk(&self, chunk: u8) -> (cells: Vec<Block>)
        ensures
            cells@ == chunk_cells(self@, chunk as int),
            cells@.len() == DOUBLE,
    {
        proof {
            use_type_invariant(self);
        }
        let base = chunk as usize * DOUBLE;
        slice_to_vec(&self.blocks[base..base + DOUBLE])
    }

    /// Puts the given cells in the place of one chunk. Cells of other
    /// chunks are not touched.
    pub fn store_chunk(&mut self, chunk: u8, cells: &[Block])
        requires
            cells@.len() == DOUBLE,
        ensures
            final(self)@.len() == TRIPLE,
            chunk_cells(final(self)@, chunk as int) == cells@,
            same_outside(old(self)@, final(self)@, chunk as int),
    {
        proof {
            use_type_invariant(&*self);
        }
        let base = chunk as usize * DOUBLE;
        let mut i: usize = 0;
        while i < DOUBLE
            invariant
                i <= DOUBLE,
                base == chunk * 65536,
                cells@.len() == DOUBLE,
                self.blocks@.len() == TRIPLE,
                forall|k: int| 0 <= k < i ==> self.blocks@[base + k] == cells@[k],
                forall|k: int|
                    0 <= k < TRIPLE && !(base <= k < base + i) ==> self.blocks@[k] == old(
                        self,
                    ).blocks@[k],
            decreases DOUBLE - i,
        {
            self.blocks[base + i] = cells[i];
            i += 1;
        }
        assert(chunk_cells(self@, chunk as int) =~= cells@);
    }

    /// Simulates one tick at the given chunk: the rule is applied to each of
    /// the chunk's cells. If the rule gives up on any of them, the whole
    /// chunk stays as it was. Cells of other chunks are never touched.
    pub fn simulate<F: Fn(Block) -> Option<Block>>(&mut self, chunk: u8, rule: &F) -> (done: bool)
        requires
            accepts_all(*rule),
        ensures
            final(self)@.len() == TRIPLE,
            same_outside(old(self)@, final(self)@, chunk as int),
            done ==> stepped(
                *rule,
                chunk_cells(old(self)@, chunk as int),
                chunk_cells(final(self)@, chunk as int),
            ),
            !done ==> final(self)@ == old(self)@ && faulted(
                *rule,
                chunk_cells(old(self)@, chunk as int),
            ),
    {
        proof {
            use_type_invariant(&*self);
        }
        let base = chunk as usize * DOUBLE;
        match next_cells(&self.blocks[base..base + DOUBLE], rule) {
            Some(next) => {
                self.store_chunk(chunk, next.as_slice());
                true
            },
            None => false,
        }
    }
}

/// A change that leaves everything outside one chunk alone leaves every
/// other chunk alone.
pub proof fn lemma_other_chunks_kept(before: Seq<Block>, after: Seq<Block>, chunk: int)
    requires
        before.len() == 16777216,
        same_outside(before, after, chunk),
    ensures
        forall|other: u8|
            other != chunk ==> #[trigger] chunk_cells(after, other as int) == chunk_cells(
                before,
                other as int,
            ),
{
    assert forall|other: u8| other != chunk implies #[trigger] chunk_cells(after, other as int)
        == chunk_cells(before, other as int) by {
        assert(chunk_cells(after, other as int) =~= chunk_cells(before, other as int));
    }
}

} // verus!
