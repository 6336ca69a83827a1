use chunksync::coords::{ColumnCoord, RealmId};
use chunksync::load_area::LoadArea;

fn col(realm: u32, x: i32, z: i32) -> ColumnCoord {
    ColumnCoord { realm: RealmId(realm), x, z }
}

#[test]
fn radius_zero_single_column() {
    let area = LoadArea { center: col(7, 3, -2), radius: 0 };
    let cols = area.iter();
    assert_eq!(cols.len(), 1);
    assert_eq!(cols[0], col(7, 3, -2));
    assert!(area.contains(col(7, 3, -2)));
    assert!(!area.contains(col(7, 4, -2)));
    assert!(!area.contains(col(7, 3, -1)));
    assert!(!area.contains(col(6, 3, -2)));
}

#[test]
fn enumerate_radius_one() {
    let area = LoadArea { center: col(0, 0, 0), radius: 1 };
    let cols = area.iter();
    assert_eq!(cols.len(), 9);
    for x in -1..=1 {
        for z in -1..=1 {
            assert!(cols.contains(&col(0, x, z)));
            assert!(area.contains(col(0, x, z)));
        }
    }
    assert!(!area.contains(col(0, 2, 0)));
}

#[test]
fn contains_is_chebyshev() {
    let area = LoadArea { center: col(1, 10, 10), radius: 3 };
    assert!(area.contains(col(1, 13, 13)));
    assert!(area.contains(col(1, 7, 10)));
    assert!(!area.contains(col(1, 14, 10)));
    assert!(!area.contains(col(1, 10, 14)));
    assert!(!area.contains(col(2, 10, 10)));
}

#[test]
fn difference_excludes_other_window() {
    let a = LoadArea { center: col(0, 0, 0), radius: 1 };
    let b = LoadArea { center: col(0, 1, 0), radius: 1 };
    let diff = a.difference(&b);
    assert_eq!(diff.len(), 3);
    assert!(diff.contains(&col(0, -1, -1)));
    assert!(diff.contains(&col(0, -1, 0)));
    assert!(diff.contains(&col(0, -1, 1)));
    for c in diff.iter() {
        assert!(!b.contains(*c));
        assert!(a.contains(*c));
    }
}

#[test]
fn difference_cross_realm_is_whole_window() {
    let a = LoadArea { center: col(0, 0, 0), radius: 1 };
    let b = LoadArea { center: col(1, 0, 0), radius: 5 };
    let diff = a.difference(&b);
    let all = a.iter();
    assert_eq!(diff, all);
    assert_eq!(diff.len(), 9);
}

#[test]
fn difference_with_self_is_empty() {
    let a = LoadArea { center: col(0, 4, 4), radius: 2 };
    assert_eq!(a.difference(&a).len(), 0);
}

#[test]
fn larger_window_has_square_size() {
    let area = LoadArea { center: col(3, -20, 17), radius: 5 };
    let cols = area.iter();
    assert_eq!(cols.len(), 121);
    for c in cols.iter() {
        assert!(area.contains(*c));
    }
    let shifted = LoadArea { center: col(3, -19, 17), radius: 5 };
    let diff = area.difference(&shifted);
    assert_eq!(diff.len(), 11);
    for c in diff.iter() {
        assert_eq!(c.x, -25);
    }
}
