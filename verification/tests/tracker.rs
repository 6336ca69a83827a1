use chunksync::coords::{ColumnCoord, RealmId, SpatialUnitCoord};
use chunksync::load_area::{LoadArea, LoadAreaOld};
use chunksync::registry::ColumnRegistry;
use chunksync::tracker::{load_order, release_load_area, update_load_area};

fn col(x: i32, z: i32) -> ColumnCoord {
    ColumnCoord { realm: RealmId(0), x, z }
}

fn unit(x: i32, z: i32) -> SpatialUnitCoord {
    SpatialUnitCoord::Column { col: col(x, z) }
}

#[test]
fn window_move_scenario() {
    let mut reg = ColumnRegistry::new();
    let mut area = LoadArea { center: col(0, 0), radius: 1 };
    let mut area_old: Option<LoadAreaOld> = None;

    let (loads, unloads) = load_order(&area, &mut area_old, &mut reg, 1);
    assert_eq!(loads.len(), 9);
    assert_eq!(unloads.len(), 0);
    assert_eq!(reg.len(), 9);

    let changed = update_load_area(&mut area, col(1, 0));
    assert!(changed);
    let (loads, unloads) = load_order(&area, &mut area_old, &mut reg, 1);
    assert_eq!(loads.len(), 3);
    assert!(loads.contains(&unit(2, -1)));
    assert!(loads.contains(&unit(2, 0)));
    assert!(loads.contains(&unit(2, 1)));
    assert_eq!(unloads.len(), 3);
    assert!(unloads.contains(&unit(-1, -1)));
    assert!(unloads.contains(&unit(-1, 0)));
    assert!(unloads.contains(&unit(-1, 1)));
    assert_eq!(reg.len(), 9);
}

#[test]
fn update_load_area_same_column_is_noop() {
    let mut area = LoadArea { center: col(4, 4), radius: 2 };
    let changed = update_load_area(&mut area, col(4, 4));
    assert!(!changed);
    assert_eq!(area.center, col(4, 4));
    let changed = update_load_area(&mut area, col(4, 5));
    assert!(changed);
    assert_eq!(area.center, col(4, 5));
    assert_eq!(area.radius, 2);
}

#[test]
fn stable_window_fires_no_events() {
    let mut reg = ColumnRegistry::new();
    let area = LoadArea { center: col(0, 0), radius: 1 };
    let mut area_old: Option<LoadAreaOld> = None;
    load_order(&area, &mut area_old, &mut reg, 1);
    let (loads, unloads) = load_order(&area, &mut area_old, &mut reg, 1);
    assert_eq!(loads.len(), 0);
    assert_eq!(unloads.len(), 0);
    assert_eq!(reg.len(), 9);
}

#[test]
fn release_unregisters_whole_window() {
    let mut reg = ColumnRegistry::new();
    let area = LoadArea { center: col(0, 0), radius: 1 };
    let mut area_old: Option<LoadAreaOld> = None;
    load_order(&area, &mut area_old, &mut reg, 1);
    assert_eq!(reg.len(), 9);
    let unloads = release_load_area(&area_old, &mut reg, 1);
    assert_eq!(unloads.len(), 9);
    assert_eq!(reg.len(), 0);
}

#[test]
fn two_observers_overlapping_windows() {
    let mut reg = ColumnRegistry::new();
    let area_a = LoadArea { center: col(0, 0), radius: 1 };
    let area_b = LoadArea { center: col(1, 0), radius: 1 };
    let mut old_a: Option<LoadAreaOld> = None;
    let mut old_b: Option<LoadAreaOld> = None;
    let (loads_a, _) = load_order(&area_a, &mut old_a, &mut reg, 1);
    assert_eq!(loads_a.len(), 9);
    let (loads_b, _) = load_order(&area_b, &mut old_b, &mut reg, 2);
    assert_eq!(loads_b.len(), 3);
    assert_eq!(reg.len(), 12);
    let unloads = release_load_area(&old_a, &mut reg, 1);
    assert_eq!(unloads.len(), 3);
    assert_eq!(reg.len(), 9);
}
