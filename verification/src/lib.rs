//! A fixed-size voxel world: 256 chunks of 256 columns of 256 blocks, stored
//! as one flat array, together with the plan that splits the chunks into four
//! groups of mutually non-adjacent chunks and the tick that updates the world
//! group by group.

pub mod block;
pub mod handoff;
pub mod pool;
pub mod position;
pub mod queue;
pub mod server;
pub mod stream;
pub mod tick;
pub mod tiling;
pub mod world;
