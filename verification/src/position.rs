//! Addressing of cells.
//!
//! A cell is named either by world coordinates `(x, y, z)`, where `x` and `z`
//! wrap around modulo 256, or by the triple `(chunk, column, block)`. Both
//! forms map to one flat index into the block array; the three decoders take
//! an index apart again.

use vstd::prelude::*;

verus! {

/// Flat index of a cell in the block array.
pub type Position = usize;

/// Number of blocks in a column, of columns in a chunk and of chunks in the world.
pub const SINGLE: usize = 256;

/// Number of blocks in a chunk.
pub const DOUBLE: usize = 65536;

/// Number of blocks in the world.
pub const TRIPLE: usize = 16777216;

/// The flat index of the cell `(chunk, column, block)`.
pub open spec fn grid_index(chunk: int, column: int, block: int) -> int {
    chunk * 65536 + column * 256 + block
}

/// The chunk that holds the world coordinates `(x, _, z)`: the macro
/// coordinates `cx` and `cz` of the wrapped `x` and `z`, packed as `cx + 16 * cz`.
pub open spec fn xz_chunk(x: int, z: int) -> int {
    (x % 256) / 16 + 16 * ((z % 256) / 16)
}

/// The column, within its chunk, that holds the world coordinates `(x, _, z)`:
/// the micro coordinates `fx` and `fz`, packed as `fx + 16 * fz`.
pub open spec fn xz_column(x: int, z: int) -> int {
    (x % 256) % 16 + 16 * ((z % 256) % 16)
}

/// The flat index of the cell at world coordinates `(x, y, z)`.
pub open spec fn world_index(x: int, y: int, z: int) -> int {
    grid_index(xz_chunk(x, z), xz_column(x, z), y)
}

/// The chunk component of a flat index, reduced to a byte.
pub open spec fn index_chunk(index: int) -> int {
    (index / 65536) % 256
}

/// The column component of a flat index.
pub open spec fn index_column(index: int) -> int {
    (index / 256) % 256
}

/// The block component of a flat index.
pub open spec fn index_block(index: int) -> int {
    index % 256
}

/// The wrapped x coordinate of the cell at a flat index.
pub open spec fn index_x(index: int) -> int {
    16 * (index_chunk(index) % 16) + index_column(index) % 16
}

/// The wrapped z coordinate of the cell at a flat index.
pub open spec fn index_z(index: int) -> int {
    16 * (index_chunk(index) / 16) + index_column(index) / 16
}

/// Whether a flat index names a cell of the world.
pub open spec fn in_world(index: int) -> bool {
    0 <= index < 16777216
}

/// Position of the cell `(chunk, column, block)`.
pub fn from_ccb(chunk: u8, column: u8, block: u8) -> (pos: Position)
    ensures
        pos == grid_index(chunk as int, column as int, block as int),
        in_world(pos as int),
{
    chunk as usize * DOUBLE + column as usize * SINGLE + block as usize
}

/// Position of the cell at world coordinates `(x, y, z)`; `x` and `z` wrap
/// around modulo 256.
pub fn from_xyz(x: i16, y: u8, z: i16) -> (pos: Position)
    ensures
        pos == world_index(x as int, y as int, z as int),
        in_world(pos as int),
{
    let x: usize = wrap(x);
    let z: usize = wrap(z);

    let chunk: usize = x / 16 + 16 * (z / 16);
    let column: usize = x % 16 + 16 * (z % 16);
    let block: usize = y as usize;

    chunk * DOUBLE + column * SINGLE + block
}

/// The coordinate `v` wrapped into `0..256`.
fn wrap(v: i16) -> (w: usize)
    ensures
        w == (v as int) % 256,
{
    // 32768 is a multiple of 256, so the shift keeps the remainder and makes
    // the value non-negative.
    let shifted: u32 = (v as i32 + 32768) as u32;
    (shifted % 256) as usize
}

/// The chunk of a position.
pub fn chunk(pos: Position) -> (c: u8)
    ensures
        c == index_chunk(pos as int),
{
    ((pos / DOUBLE) % SINGLE) as u8
}

/// The column of a position within its chunk.
pub fn column(pos: Position) -> (c: u8)
    ensures
        c == index_column(pos as int),
{
    ((pos / SINGLE) % SINGLE) as u8
}

/// The block of a position within its column.
pub fn block(pos: Position) -> (b: u8)
    ensures
        b == index_block(pos as int),
{
    (pos % SINGLE) as u8
}

/// Decoding the index of a grid triple gives the triple back.
pub proof fn lemma_grid_round_trip(chunk: int, column: int, block: int)
    requires
        0 <= chunk < 256,
        0 <= column < 256,
        0 <= block < 256,
    ensures
        in_world(grid_index(chunk, column, block)),
        index_chunk(grid_index(chunk, column, block)) == chunk,
        index_column(grid_index(chunk, column, block)) == column,
        index_block(grid_index(chunk, column, block)) == block,
{
}

/// Encoding the three components of an index of the world gives the index
/// back, so grid triples and indices of the world correspond one to one.
pub proof fn lemma_index_round_trip(index: int)
    requires
        in_world(index),
    ensures
        0 <= index_chunk(index) < 256,
        0 <= index_column(index) < 256,
        0 <= index_block(index) < 256,
        grid_index(index_chunk(index), index_column(index), index_block(index)) == index,
{
}

/// Decoding the index of world coordinates gives the chunk and column that
/// hold them and the height unchanged, and putting the macro and micro
/// coordinates together again gives `x` and `z` modulo 256.
pub proof fn lemma_world_round_trip(x: int, y: int, z: int)
    requires
        0 <= y < 256,
    ensures
        in_world(world_index(x, y, z)),
        index_chunk(world_index(x, y, z)) == xz_chunk(x, z),
        index_column(world_index(x, y, z)) == xz_column(x, z),
        index_block(world_index(x, y, z)) == y,
        index_x(world_index(x, y, z)) == x % 256,
        index_z(world_index(x, y, z)) == z % 256,
{
    let xm = x % 256;
    let zm = z % 256;
    let chunk = xz_chunk(x, z);
    let column = xz_column(x, z);
    assert(chunk == xm / 16 + 16 * (zm / 16));
    assert(column == xm % 16 + 16 * (zm % 16));
    assert(0 <= chunk < 256 && chunk % 16 == xm / 16 && chunk / 16 == zm / 16);
    assert(0 <= column < 256 && column % 16 == xm % 16 && column / 16 == zm % 16);
    lemma_grid_round_trip(chunk, column, y);
}

} // verus!
