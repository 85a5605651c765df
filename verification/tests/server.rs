use voxel_world::block::{Block, WorldUpdate};
use voxel_world::position::from_ccb;
use voxel_world::queue::UpdateQueue;
use voxel_world::server::{Server, Stage};
use voxel_world::world::World;

fn identity(b: Block) -> Option<Block> {
    Some(b)
}

fn gives_up_on_9(b: Block) -> Option<Block> {
    if b.kind == 9 {
        None
    } else {
        Some(Block { kind: b.kind, aux: b.aux.wrapping_add(1) })
    }
}

#[test]
fn queue_hands_out_updates_in_order_of_arrival() {
    let mut queue = UpdateQueue::new();
    assert_eq!(queue.len(), 0);
    queue.push(WorldUpdate::new(1, 2, 3, 4));
    queue.push(WorldUpdate::new(5, 6, 7, 8));
    queue.push(WorldUpdate::new(1, 2, 3, 9));
    assert_eq!(queue.len(), 3);
    let drained = queue.drain_all();
    assert_eq!(
        drained,
        vec![
            WorldUpdate::new(1, 2, 3, 4),
            WorldUpdate::new(5, 6, 7, 8),
            WorldUpdate::new(1, 2, 3, 9)
        ]
    );
    assert_eq!(queue.len(), 0);
}

#[test]
fn queue_hands_out_each_update_once() {
    let mut queue = UpdateQueue::new();
    assert!(queue.drain_all().is_empty());
    queue.push(WorldUpdate::new(1, 2, 3, 4));
    assert_eq!(queue.drain_all().len(), 1);
    assert!(queue.drain_all().is_empty());
    queue.push(WorldUpdate::new(9, 9, 9, 9));
    assert_eq!(queue.drain_all(), vec![WorldUpdate::new(9, 9, 9, 9)]);
}

#[test]
fn a_new_server_is_idle() {
    let server = Server::new(World::empty());
    assert_eq!(server.stage(), Stage::Idle);
    assert_eq!(*server.blocks().get_block(0), Block::default());
}

#[test]
fn a_stop_at_idle_stops_the_server() {
    let mut server = Server::new(World::empty());
    assert!(!server.begin(true));
    assert_eq!(server.stage(), Stage::Stopped);
}

#[test]
fn a_cycle_goes_through_all_stages() {
    let mut server = Server::new(World::empty());
    assert!(server.begin(false));
    assert_eq!(server.stage(), Stage::Draining);
    server.take_updates(vec![WorldUpdate::new(5, 10, 20, 7), WorldUpdate::new(0, 0, 0, 1)]);
    assert_eq!(server.stage(), Stage::Applying);
    assert_eq!(server.blocks().get_block(from_ccb(5, 10, 20)).kind, 0);
    server.apply_updates();
    assert_eq!(server.stage(), Stage::Ticking);
    assert_eq!(server.blocks().get_block(from_ccb(5, 10, 20)).kind, 7);
    server.update_world(&identity);
    assert_eq!(server.stage(), Stage::Publishing);
    let report = server.publish();
    assert_eq!(server.stage(), Stage::Idle);
    assert_eq!(report.applied, vec![WorldUpdate::new(5, 10, 20, 7), WorldUpdate::new(0, 0, 0, 1)]);
    assert!(report.failed.is_empty());
    for (i, b) in server.blocks().cells().iter().enumerate() {
        let kind = if i == 330260 {
            7
        } else if i == 0 {
            1
        } else {
            0
        };
        assert_eq!(*b, Block { kind, aux: 0 });
    }
}

#[test]
fn a_cycle_reports_failed_chunks_and_goes_on() {
    let mut server = Server::new(World::empty());
    let mut queue = UpdateQueue::new();
    queue.push(WorldUpdate::new(40, 0, 0, 9));
    queue.push(WorldUpdate::new(41, 0, 0, 3));

    assert!(server.begin(false));
    server.take_updates(queue.drain_all());
    server.apply_updates();
    server.update_world(&gives_up_on_9);
    let report = server.publish();
    assert_eq!(report.applied.len(), 2);
    assert_eq!(report.failed, vec![40]);
    assert_eq!(*server.blocks().get_block(from_ccb(40, 0, 0)), Block { kind: 9, aux: 0 });
    assert_eq!(*server.blocks().get_block(from_ccb(40, 0, 1)), Block { kind: 0, aux: 0 });
    assert_eq!(*server.blocks().get_block(from_ccb(41, 0, 0)), Block { kind: 3, aux: 1 });
    assert_eq!(*server.blocks().get_block(from_ccb(41, 0, 1)), Block { kind: 0, aux: 1 });

    // the next cycle starts with a clean report
    assert!(server.begin(false));
    server.take_updates(queue.drain_all());
    server.apply_updates();
    server.update_world(&identity);
    let report = server.publish();
    assert!(report.applied.is_empty());
    assert!(report.failed.is_empty());
    assert!(!server.begin(true));
    assert_eq!(server.stage(), Stage::Stopped);
}

#[test]
fn process_update_notes_the_update_for_sending() {
    let mut server = Server::new(World::empty());
    let mut to_send = vec![WorldUpdate::new(1, 1, 1, 1)];
    server.process_update(WorldUpdate::new(2, 3, 4, 5), &mut to_send);
    assert_eq!(to_send, vec![WorldUpdate::new(1, 1, 1, 1), WorldUpdate::new(2, 3, 4, 5)]);
    assert_eq!(server.blocks().get_block(from_ccb(2, 3, 4)).kind, 5);
    assert_eq!(server.blocks().get_block(from_ccb(1, 1, 1)).kind, 0);
    assert_eq!(server.stage(), Stage::Idle);
}
