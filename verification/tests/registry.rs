use chunksync::coords::{ColumnCoord, RealmId, SpatialUnitCoord};
use chunksync::registry::ColumnRegistry;

fn unit(realm: u32, x: i32, z: i32) -> SpatialUnitCoord {
    SpatialUnitCoord::Column { col: ColumnCoord { realm: RealmId(realm), x, z } }
}

#[test]
fn register_unregister_round_trip() {
    let mut reg = ColumnRegistry::new();
    let units = vec![unit(0, 1, 1), unit(0, 1, 2), unit(0, 2, 1)];
    let loads = reg.register(&units, 11);
    assert_eq!(loads.len(), 3);
    for u in units.iter() {
        assert!(loads.contains(u));
        assert!(reg.is_loaded(*u));
    }
    assert_eq!(reg.len(), 3);
    let unloads = reg.unregister(&units, 11);
    assert_eq!(unloads.len(), 3);
    for u in units.iter() {
        assert!(unloads.contains(u));
        assert!(!reg.is_loaded(*u));
    }
    assert_eq!(reg.len(), 0);
}

#[test]
fn shared_unit_unloads_once() {
    let mut reg = ColumnRegistry::new();
    let units = vec![unit(0, 5, 5)];
    let loads_a = reg.register(&units, 1);
    assert_eq!(loads_a.len(), 1);
    let loads_b = reg.register(&units, 2);
    assert_eq!(loads_b.len(), 0);
    let unloads_a = reg.unregister(&units, 1);
    assert_eq!(unloads_a.len(), 0);
    assert!(reg.is_loaded(unit(0, 5, 5)));
    let unloads_b = reg.unregister(&units, 2);
    assert_eq!(unloads_b.len(), 1);
    assert_eq!(unloads_b[0], unit(0, 5, 5));
    assert!(!reg.is_loaded(unit(0, 5, 5)));
}

#[test]
fn register_idempotent_per_observer() {
    let mut reg = ColumnRegistry::new();
    let units = vec![unit(0, 0, 0), unit(0, 0, 1)];
    let first = reg.register(&units, 9);
    assert_eq!(first.len(), 2);
    let second = reg.register(&units, 9);
    assert_eq!(second.len(), 0);
    assert_eq!(reg.len(), 2);
    let unloads = reg.unregister(&units, 9);
    assert_eq!(unloads.len(), 2);
    assert_eq!(reg.len(), 0);
}

#[test]
fn unregister_unknown_is_noop() {
    let mut reg = ColumnRegistry::new();
    let units = vec![unit(0, 3, 3)];
    let unloads = reg.unregister(&units, 4);
    assert_eq!(unloads.len(), 0);
    assert_eq!(reg.len(), 0);
    reg.register(&units, 5);
    let unloads = reg.unregister(&units, 6);
    assert_eq!(unloads.len(), 0);
    assert!(reg.is_loaded(unit(0, 3, 3)));
}
