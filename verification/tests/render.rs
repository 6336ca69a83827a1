use chunksync::change_queue::ChangeQueue;
use chunksync::coords::{units_of_column, ColumnCoord, RealmId, SpatialUnitCoord, Y_LAYERS};
use chunksync::load_area::LoadArea;
use chunksync::render::{process_changes, RenderAction, RenderEntities};

fn col(x: i32, z: i32) -> ColumnCoord {
    ColumnCoord { realm: RealmId(0), x, z }
}

fn unit(x: i32, z: i32) -> SpatialUnitCoord {
    SpatialUnitCoord::Column { col: col(x, z) }
}

fn areas_around_origin() -> Vec<LoadArea> {
    vec![LoadArea { center: col(0, 0), radius: 4 }]
}

#[test]
fn mark_dirty_is_idempotent() {
    let mut queue = ChangeQueue::new();
    assert!(queue.mark_dirty(unit(2, 2)));
    assert_eq!(queue.len(), 1);
    assert!(!queue.mark_dirty(unit(2, 2)));
    assert_eq!(queue.len(), 1);
    assert!(queue.mark_dirty(unit(2, 3)));
    assert_eq!(queue.len(), 2);
    assert_eq!(queue.peek(), Some(unit(2, 2)));
}

#[test]
fn fresh_key_builds_once() {
    let mut queue = ChangeQueue::new();
    let mut ents = RenderEntities::new();
    let areas = areas_around_origin();
    queue.mark_dirty(unit(2, 2));
    let step = process_changes(&mut queue, &ents, &areas, false);
    assert_eq!(step, Some((unit(2, 2), RenderAction::BuildNew)));
    ents.insert(unit(2, 2), 41);
    assert_eq!(queue.len(), 0);

    queue.mark_dirty(unit(2, 2));
    queue.mark_dirty(unit(2, 2));
    assert_eq!(queue.len(), 1);
    let step = process_changes(&mut queue, &ents, &areas, true);
    assert_eq!(step, Some((unit(2, 2), RenderAction::UpdateExisting { entity: 41 })));
    assert_eq!(queue.len(), 0);
    let step = process_changes(&mut queue, &ents, &areas, true);
    assert_eq!(step, None);
}

#[test]
fn unready_artifact_requeues_until_ready() {
    let mut queue = ChangeQueue::new();
    let mut ents = RenderEntities::new();
    let areas = areas_around_origin();
    ents.insert(unit(1, 1), 7);
    queue.mark_dirty(unit(1, 1));

    let step = process_changes(&mut queue, &ents, &areas, false);
    assert_eq!(step, Some((unit(1, 1), RenderAction::Requeued)));
    assert_eq!(queue.len(), 1);
    assert!(queue.contains(unit(1, 1)));

    let step = process_changes(&mut queue, &ents, &areas, false);
    assert_eq!(step, Some((unit(1, 1), RenderAction::Requeued)));
    assert_eq!(queue.len(), 1);

    let step = process_changes(&mut queue, &ents, &areas, true);
    assert_eq!(step, Some((unit(1, 1), RenderAction::UpdateExisting { entity: 7 })));
    assert_eq!(queue.len(), 0);
}

#[test]
fn irrelevant_key_is_dropped() {
    let mut queue = ChangeQueue::new();
    let ents = RenderEntities::new();
    let areas = areas_around_origin();
    queue.mark_dirty(unit(100, 100));
    let step = process_changes(&mut queue, &ents, &areas, true);
    assert_eq!(step, Some((unit(100, 100), RenderAction::Dropped)));
    assert_eq!(queue.len(), 0);
}

#[test]
fn requeue_keeps_queue_order_fair() {
    let mut queue = ChangeQueue::new();
    let mut ents = RenderEntities::new();
    let areas = areas_around_origin();
    ents.insert(unit(0, 0), 1);
    queue.mark_dirty(unit(0, 0));
    queue.mark_dirty(unit(0, 1));
    let step = process_changes(&mut queue, &ents, &areas, false);
    assert_eq!(step, Some((unit(0, 0), RenderAction::Requeued)));
    assert_eq!(queue.peek(), Some(unit(0, 1)));
    let step = process_changes(&mut queue, &ents, &areas, true);
    assert_eq!(step, Some((unit(0, 1), RenderAction::BuildNew)));
    assert_eq!(queue.peek(), Some(unit(0, 0)));
}

#[test]
fn remove_column_despawns_all_layers() {
    let mut ents = RenderEntities::new();
    let c = col(3, 3);
    ents.insert(SpatialUnitCoord::Column { col: c }, 10);
    ents.insert(SpatialUnitCoord::Chunk { col: c, layer: 0 }, 11);
    ents.insert(SpatialUnitCoord::Chunk { col: c, layer: Y_LAYERS - 1 }, 12);
    ents.insert(SpatialUnitCoord::Column { col: col(4, 4) }, 13);
    let removed = ents.remove_column(c);
    assert_eq!(removed.len(), 3);
    assert!(removed.contains(&10));
    assert!(removed.contains(&11));
    assert!(removed.contains(&12));
    assert_eq!(ents.lookup(SpatialUnitCoord::Column { col: c }), None);
    assert_eq!(ents.lookup(SpatialUnitCoord::Chunk { col: c, layer: 0 }), None);
    assert_eq!(ents.lookup(SpatialUnitCoord::Column { col: col(4, 4) }), Some(13));
}

#[test]
fn units_of_column_enumerates_layers() {
    let c = col(1, 2);
    let units = units_of_column(c);
    assert_eq!(units.len(), Y_LAYERS as usize);
    for (i, u) in units.iter().enumerate() {
        assert_eq!(*u, SpatialUnitCoord::Chunk { col: c, layer: i as u32 });
    }
}
