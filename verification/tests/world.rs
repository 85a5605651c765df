use voxel_world::block::{Block, WorldUpdate};
use voxel_world::position::{from_ccb, from_xyz, DOUBLE, TRIPLE};
use voxel_world::world::World;

#[test]
fn default_block_is_all_zero() {
    assert_eq!(Block::default(), Block { kind: 0, aux: 0 });
}

#[test]
fn empty_world_holds_only_default_blocks() {
    let world = World::empty();
    assert_eq!(world.len(), TRIPLE);
    assert_eq!(world.cells().len(), 16777216);
    assert!(world.cells().iter().all(|b| *b == Block { kind: 0, aux: 0 }));
    assert_eq!(*world.get_block(from_ccb(0, 0, 0)), Block::default());
    assert_eq!(*world.get_block(from_ccb(255, 255, 255)), Block::default());
}

#[test]
fn get_block_mut_writes_one_cell() {
    let mut world = World::empty();
    let pos = from_ccb(3, 4, 5);
    *world.get_block_mut(pos) = Block { kind: 9, aux: 1 };
    assert_eq!(*world.get_block(pos), Block { kind: 9, aux: 1 });
    world.get_block_mut(pos).aux = 77;
    assert_eq!(*world.get_block(pos), Block { kind: 9, aux: 77 });
    let changed = world.cells().iter().filter(|b| **b != Block::default()).count();
    assert_eq!(changed, 1);
    assert_eq!(world.cells()[3 * 65536 + 4 * 256 + 5], Block { kind: 9, aux: 77 });
}

#[test]
fn first_and_last_cell_can_be_written() {
    let mut world = World::empty();
    world.get_block_mut(0).kind = 1;
    world.get_block_mut(TRIPLE - 1).kind = 2;
    assert_eq!(world.get_block(from_ccb(0, 0, 0)).kind, 1);
    assert_eq!(world.get_block(from_ccb(255, 255, 255)).kind, 2);
}

#[test]
fn update_constructors() {
    let u = WorldUpdate::new(5, 10, 20, 7);
    assert_eq!(u, WorldUpdate { chunk: 5, column: 10, block: 20, new_kind: 7 });
    assert_eq!(u.position(), 330260);
    let v = WorldUpdate::at_xyz(-1, 3, 17, 4);
    assert_eq!(v, WorldUpdate { chunk: 31, column: 31, block: 3, new_kind: 4 });
    assert_eq!(v.position(), from_xyz(-1, 3, 17));
    let w = WorldUpdate::at_xyz(37, 9, 200, 1);
    assert_eq!((w.chunk, w.column, w.block, w.new_kind), (194, 133, 9, 1));
}

#[test]
fn process_update_sets_the_kind_and_keeps_the_rest() {
    let mut world = World::empty();
    let pos = from_ccb(5, 10, 20);
    world.get_block_mut(pos).aux = 42;
    world.process_update(WorldUpdate::new(5, 10, 20, 7));
    assert_eq!(*world.get_block(pos), Block { kind: 7, aux: 42 });
    for (i, b) in world.cells().iter().enumerate() {
        if i != pos {
            assert_eq!(*b, Block::default());
        }
    }
}

#[test]
fn process_updates_applies_in_order() {
    let mut world = World::empty();
    let updates = vec![
        WorldUpdate::new(1, 1, 1, 5),
        WorldUpdate::new(2, 2, 2, 6),
        WorldUpdate::new(1, 1, 1, 8),
        WorldUpdate::at_xyz(0, 0, 0, 3),
    ];
    world.process_updates(&updates);
    assert_eq!(world.get_block(from_ccb(1, 1, 1)).kind, 8);
    assert_eq!(world.get_block(from_ccb(2, 2, 2)).kind, 6);
    assert_eq!(world.get_block(0).kind, 3);
    let changed = world.cells().iter().filter(|b| b.kind != 0).count();
    assert_eq!(changed, 3);
    world.process_updates(&Vec::new());
    assert_eq!(world.cells().iter().filter(|b| b.kind != 0).count(), 3);
}

#[test]
fn from_blocks_wants_the_exact_number_of_blocks() {
    assert!(World::from_blocks(Vec::new()).is_none());
    assert!(World::from_blocks(vec![Block::default(); TRIPLE - 1]).is_none());
    assert!(World::from_blocks(vec![Block::default(); TRIPLE + 1]).is_none());
    let mut blocks = vec![Block::default(); TRIPLE];
    blocks[330260] = Block { kind: 3, aux: 4 };
    let world = World::from_blocks(blocks).unwrap();
    assert_eq!(*world.get_block(from_ccb(5, 10, 20)), Block { kind: 3, aux: 4 });
    assert_eq!(*world.get_block(from_ccb(5, 10, 21)), Block::default());
}

#[test]
fn into_blocks_gives_the_blocks_back() {
    let mut world = World::empty();
    world.process_update(WorldUpdate::new(255, 255, 255, 1));
    let blocks = world.into_blocks();
    assert_eq!(blocks.len(), TRIPLE);
    assert_eq!(blocks[TRIPLE - 1], Block { kind: 1, aux: 0 });
    assert_eq!(blocks[0], Block::default());
}

#[test]
fn generate_calls_the_generator() {
    let world = World::generate(|| {
        let mut blocks = vec![Block { kind: 1, aux: 0 }; TRIPLE];
        blocks[7] = Block { kind: 2, aux: 9 };
        blocks
    })
    .unwrap();
    assert_eq!(*world.get_block(7), Block { kind: 2, aux: 9 });
    assert_eq!(*world.get_block(8), Block { kind: 1, aux: 0 });
    assert_eq!(world.cells().iter().filter(|b| b.kind == 1).count(), TRIPLE - 1);
}

#[test]
fn generate_refuses_a_world_of_the_wrong_size() {
    assert!(World::generate(|| vec![Block::default(); DOUBLE]).is_none());
    assert!(World::generate(Vec::new).is_none());
}

#[test]
fn simulate_touches_only_its_chunk() {
    let mut world = World::empty();
    let done = world.simulate(7, &|b: Block| Some(Block { kind: b.kind + 1, aux: 5 }));
    assert!(done);
    for (i, b) in world.cells().iter().enumerate() {
        if i / DOUBLE == 7 {
            assert_eq!(*b, Block { kind: 1, aux: 5 });
        } else {
            assert_eq!(*b, Block::default());
        }
    }
}

#[test]
fn simulate_first_and_last_chunk() {
    let mut world = World::empty();
    assert!(world.simulate(0, &|_b: Block| Some(Block { kind: 1, aux: 0 })));
    assert!(world.simulate(255, &|_b: Block| Some(Block { kind: 2, aux: 0 })));
    assert_eq!(world.get_block(0).kind, 1);
    assert_eq!(world.get_block(DOUBLE - 1).kind, 1);
    assert_eq!(world.get_block(DOUBLE).kind, 0);
    assert_eq!(world.get_block(255 * DOUBLE - 1).kind, 0);
    assert_eq!(world.get_block(255 * DOUBLE).kind, 2);
    assert_eq!(world.get_block(TRIPLE - 1).kind, 2);
}

#[test]
fn simulate_leaves_a_chunk_alone_when_the_rule_gives_up() {
    let mut world = World::empty();
    // the rule gives up on the very last cell of the chunk
    world.process_update(WorldUpdate::new(7, 255, 255, 9));
    let rule = |b: Block| if b.kind == 9 { None } else { Some(Block { kind: 1, aux: 1 }) };
    let done = world.simulate(7, &rule);
    assert!(!done);
    for (i, b) in world.cells().iter().enumerate() {
        if i == from_ccb(7, 255, 255) {
            assert_eq!(*b, Block { kind: 9, aux: 0 });
        } else {
            assert_eq!(*b, Block::default());
        }
    }
    // the neighbouring chunk is not held back by it
    assert!(world.simulate(8, &rule));
    assert_eq!(*world.get_block(from_ccb(8, 0, 0)), Block { kind: 1, aux: 1 });
}
