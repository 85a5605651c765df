//! The value stored in each cell, and the command that changes one.

use vstd::prelude::*;

use crate::position::{
    from_ccb, from_xyz, grid_index, in_world, lemma_world_round_trip, world_index, xz_chunk,
    xz_column, Position,
};

verus! {

/// One voxel: what it is made of, and one byte of auxiliary state.
#[derive(Clone, Copy, Debug, PartialEq, Eq, Structural)]
pub struct Block {
    pub kind: u8,
    pub aux: u8,
}

impl Default for Block {
    /// The block of an empty world: kind 0, auxiliary byte 0.
    fn default() -> (b: Block)
        ensures
            b == (Block { kind: 0, aux: 0 }),
    {
        Block { kind: 0, aux: 0 }
    }
}

/// A request to give the block at `position` the kind `new_kind`.
///
/// The position is kept in grid form, so every update names a cell of the
/// world.
#[derive(Clone, Copy, Debug, PartialEq, Eq, Structural)]
pub struct WorldUpdate {
    pub chunk: u8,
    pub column: u8,
    pub block: u8,
    pub new_kind: u8,
}

/// The cells after one update: the block at the update's position has the
/// new kind and its old auxiliary byte; every other block is as before.
pub open spec fn with_update(cells: Seq<Block>, update: WorldUpdate) -> Seq<Block> {
    cells.update(
        update.index(),
        Block { kind: update.new_kind, aux: cells[update.index()].aux },
    )
}

/// The cells after a list of updates, each applied once, in the order of
/// the list.
pub open spec fn with_updates(cells: Seq<Block>, updates: Seq<WorldUpdate>) -> Seq<Block>
    decreases updates.len(),
{
    if updates.len() == 0 {
        cells
    } else {
        with_update(with_updates(cells, updates.drop_last()), updates.last())
    }
}

impl WorldUpdate {
    /// The flat index of the cell that the update changes.
    pub open spec fn index(&self) -> int {
        grid_index(self.chunk as int, self.column as int, self.block as int)
    }

    /// An update of the cell `(chunk, column, block)`.
    pub fn new(chunk: u8, column: u8, block: u8, new_kind: u8) -> (update: WorldUpdate)
        ensures
            update == (WorldUpdate { chunk, column, block, new_kind }),
    {
        WorldUpdate { chunk, column, block, new_kind }
    }

    /// An update of the cell at world coordinates `(x, y, z)`; `x` and `z`
    /// wrap around modulo 256.
    pub fn at_xyz(x: i16, y: u8, z: i16, new_kind: u8) -> (update: WorldUpdate)
        ensures
            update == (WorldUpdate {
                chunk: xz_chunk(x as int, z as int) as u8,
                column: xz_column(x as int, z as int) as u8,
                block: y,
                new_kind,
            }),
            update.index() == world_index(x as int, y as int, z as int),
    {
        proof {
            lemma_world_round_trip(x as int, y as int, z as int);
        }
        let pos = from_xyz(x, y, z);
        WorldUpdate {
            chunk: crate::position::chunk(pos),
            column: crate::position::column(pos),
            block: crate::position::block(pos),
            new_kind,
        }
    }

    /// The position of the cell that the update changes.
    pub fn position(&self) -> (pos: Position)
        ensures
            pos == self.index(),
            in_world(pos as int),
    {
        from_ccb(self.chunk, self.column, self.block)
    }
}

/// What a list of updates does to one cell. The cell keeps its auxiliary
/// byte. If no update names the cell, it is unchanged; otherwise its kind is
/// that of the last update that names it.
pub proof fn lemma_with_updates_cell(cells: Seq<Block>, updates: Seq<WorldUpdate>, index: int)
    requires
        cells.len() == 16777216,
        0 <= index < 16777216,
    ensures
        with_updates(cells, updates).len() == cells.len(),
        with_updates(cells, updates)[index].aux == cells[index].aux,
        (forall|j: int| 0 <= j < updates.len() ==> (#[trigger] updates[j]).index() != index)
            ==> with_updates(cells, updates)[index] == cells[index],
        forall|j: int|
            0 <= j < updates.len() && (#[trigger] updates[j]).index() == index && (forall|m: int|
                j < m < updates.len() ==> (#[trigger] updates[m]).index() != index)
                ==> with_updates(cells, updates)[index].kind == updates[j].new_kind,
    decreases updates.len(),
{
    if updates.len() > 0 {
        let rest = updates.drop_last();
        let last = updates.last();
        lemma_with_updates_cell(cells, rest, index);
        lemma_with_updates_cell(cells, rest, last.index());
        assert(0 <= last.index() < 16777216);
        assert forall|j: int|
            0 <= j < updates.len() && (#[trigger] updates[j]).index() == index && (forall|m: int|
                j < m < updates.len() ==> (#[trigger] updates[m]).index() != index) implies with_updates(
            cells,
            updates,
        )[index].kind == updates[j].new_kind by {
            if j < updates.len() - 1 {
                assert(updates[updates.len() - 1].index() != index);
                assert(rest[j] == updates[j]);
                assert forall|m: int| j < m < rest.len() implies (#[trigger] rest[m]).index()
                    != index by {
                    assert(rest[m] == updates[m]);
                }
            }
        }
        if forall|j: int| 0 <= j < updates.len() ==> (#[trigger] updates[j]).index() != index {
            assert forall|j: int| 0 <= j < rest.len() implies (#[trigger] rest[j]).index()
                != index by {
                assert(rest[j] == updates[j]);
            }
            assert(updates[updates.len() - 1].index() != index);
        }
    }
}

} // verus!
