use vstd::prelude::*;
use crate::coords::{ColumnCoord, SpatialUnitCoord};
use crate::load_area::{lemma_enum_contains, LoadArea, LoadAreaOld};
use crate::registry::{ColumnRegistry, ObserverId};

verus! {

/// Moves the window center to the column the observer now stands in,
/// leaving the window alone when the observer has not crossed a column
/// boundary. Reports whether the center changed.
pub fn update_load_area(area: &mut LoadArea, new_center: ColumnCoord) -> (changed: bool)
    ensures
        final(area).center == new_center,
        final(area).radius == old(area).radius,
        changed == (old(area).center != new_center),
        !changed ==> *final(area) == *old(area),
{
    if area.center != new_center {
        area.center = new_center;
        true
    } else {
        false
    }
}

/// The column-shaped spatial units of the given columns, in order.
pub open spec fn spec_column_units(cols: Seq<ColumnCoord>) -> Seq<SpatialUnitCoord> {
    cols.map_values(|c: ColumnCoord| SpatialUnitCoord::Column { col: c })
}

/// A unit is among a column sequence's units iff it is the column shape of
/// one of its columns.
pub proof fn lemma_column_units_contains(cols: Seq<ColumnCoord>, v: SpatialUnitCoord)
    ensures
        spec_column_units(cols).contains(v) <==> (v matches SpatialUnitCoord::Column { col }
            && cols.contains(col)),
{
    let m = spec_column_units(cols);
    if m.contains(v) {
        let i = choose|i: int| 0 <= i < m.len() && m[i] == v;
        assert(cols[i] == v.spec_column());
        assert(cols.contains(v.spec_column()));
    }
    match v {
        SpatialUnitCoord::Column { col } => {
            if cols.contains(col) {
                let i = choose|i: int| 0 <= i < cols.len() && cols[i] == col;
                assert(m[i] == v);
                assert(m.contains(v));
            }
        },
        _ => {},
    }
}

fn units_of_columns(cols: &Vec<ColumnCoord>) -> (r: Vec<SpatialUnitCoord>)
    ensures
        r@ == spec_column_units(cols@),
{
    let mut out: Vec<SpatialUnitCoord> = Vec::new();
    let mut i: usize = 0;
    while i < cols.len()
        invariant
            i <= cols@.len(),
            out@ == spec_column_units(cols@.take(i as int)),
        decreases cols@.len() - i,
    {
        out.push(SpatialUnitCoord::Column { col: cols[i] });
        proof {
            assert(cols@.take(i as int + 1) =~= cols@.take(i as int).push(cols@[i as int]));
            assert(out@ =~= spec_column_units(cols@.take(i as int + 1)));
        }
        i = i + 1;
    }
    proof {
        assert(cols@.take(cols@.len() as int) =~= cols@);
    }
    out
}

/// The columns a window move newly exposes and those it newly hides are
/// disjoint, so registering the former before unregistering the latter
/// never touches one unit twice.
pub proof fn lemma_move_diffs_disjoint(a: LoadArea, b: LoadArea)
    requires
        a.in_bounds(),
        b.in_bounds(),
    ensures
        forall|c: ColumnCoord|
            !(#[trigger] a.spec_difference(b).contains(c) && b.spec_difference(a).contains(c)),
{
    broadcast use vstd::seq_lib::group_filter_ensures;

    assert forall|c: ColumnCoord|
        !(#[trigger] a.spec_difference(b).contains(c) && b.spec_difference(a).contains(c)) by {
        if a.spec_difference(b).contains(c) && b.spec_difference(a).contains(c) {
            let pa = |x: ColumnCoord| !b.spec_contains(x);
            let pb = |x: ColumnCoord| !a.spec_contains(x);
            a.enum_seq().lemma_filter_contains_rev(pa, c);
            b.enum_seq().lemma_filter_contains_rev(pb, c);
            let i = choose|i: int|
                0 <= i < a.spec_difference(b).len() && a.spec_difference(b)[i] == c;
            let j = choose|j: int|
                0 <= j < b.spec_difference(a).len() && b.spec_difference(a)[j] == c;
            assert(pa(a.spec_difference(b)[i]));
            assert(pb(b.spec_difference(a)[j]));
            lemma_enum_contains(a, c);
            assert(a.spec_contains(c));
            assert(false);
        }
    }
}

/// Applies one window transition for an observer. On the first call (no
/// previous window) the whole window is registered; afterwards the newly
/// exposed columns are registered and the newly hidden ones unregistered,
/// register before unregister. Returns the Load and the Unload events
/// fired, in that order.
pub fn load_order(
    area: &LoadArea,
    area_old: &mut Option<LoadAreaOld>,
    registry: &mut ColumnRegistry,
    observer: ObserverId,
) -> (events: (Vec<SpatialUnitCoord>, Vec<SpatialUnitCoord>))
    requires
        area.in_bounds(),
        *old(area_old) matches Some(o) ==> o.0.in_bounds(),
        old(registry).wf(),
    ensures
        final(registry).wf(),
        *final(area_old) == Some(LoadAreaOld(*area)),
        events.0@.no_duplicates(),
        events.1@.no_duplicates(),
        match *old(area_old) {
            None => {
                let units = spec_column_units(area.enum_seq());
                &&& events.1@ =~= Seq::<SpatialUnitCoord>::empty()
                &&& forall|v: SpatialUnitCoord|
                    events.0@.contains(v) == (units.contains(v) && !old(registry).spec_has(v))
                &&& forall|v: SpatialUnitCoord|
                    units.contains(v) ==> final(registry).spec_observers(v) == old(
                        registry,
                    ).spec_observers(v).insert(observer)
                &&& forall|v: SpatialUnitCoord|
                    !units.contains(v) ==> final(registry).spec_observers(v) == old(
                        registry,
                    ).spec_observers(v)
            },
            Some(prev) => {
                let added = spec_column_units(area.spec_difference(prev.0));
                let removed = spec_column_units(prev.0.spec_difference(*area));
                &&& forall|v: SpatialUnitCoord|
                    events.0@.contains(v) == (added.contains(v) && !old(registry).spec_has(v))
                &&& forall|v: SpatialUnitCoord|
                    events.1@.contains(v) == (removed.contains(v) && old(registry).spec_has(v)
                        && old(registry).spec_observers(v).remove(observer).is_empty())
                &&& forall|v: SpatialUnitCoord|
                    added.contains(v) ==> final(registry).spec_observers(v) == old(
                        registry,
                    ).spec_observers(v).insert(observer)
                &&& forall|v: SpatialUnitCoord|
                    removed.contains(v) ==> final(registry).spec_observers(v) == old(
                        registry,
                    ).spec_observers(v).remove(observer)
                &&& forall|v: SpatialUnitCoord|
                    !added.contains(v) && !removed.contains(v) ==> final(registry).spec_observers(
                        v,
                    ) == old(registry).spec_observers(v)
            },
        },
{
    let prev_opt: Option<LoadAreaOld> = *area_old;
    match prev_opt {
        Some(prev) => {
            let prev_area = prev.area();
            let added_cols = area.difference(&prev_area);
            let removed_cols = prev_area.difference(area);
            let added = units_of_columns(&added_cols);
            let removed = units_of_columns(&removed_cols);
            proof {
                lemma_move_diffs_disjoint(*area, prev.0);
                assert forall|v: SpatialUnitCoord|
                    !(#[trigger] added@.contains(v) && removed@.contains(v)) by {
                    lemma_column_units_contains(area.spec_difference(prev.0), v);
                    lemma_column_units_contains(prev.0.spec_difference(*area), v);
                }
            }
            let loads = registry.register(&added, observer);
            let unloads = registry.unregister(&removed, observer);
            *area_old = Some(LoadAreaOld(*area));
            (loads, unloads)
        },
        None => {
            let cols = area.iter();
            let units = units_of_columns(&cols);
            let loads = registry.register(&units, observer);
            *area_old = Some(LoadAreaOld(*area));
            let unloads: Vec<SpatialUnitCoord> = Vec::new();
            (loads, unloads)
        },
    }
}

/// Unregisters an observer's whole current window, to be done before the
/// observer and its window are discarded: a window registered is always
/// eventually unregistered. Returns the Unload events fired.
pub fn release_load_area(
    area_old: &Option<LoadAreaOld>,
    registry: &mut ColumnRegistry,
    observer: ObserverId,
) -> (unloads: Vec<SpatialUnitCoord>)
    requires
        old(registry).wf(),
        *area_old matches Some(o) ==> o.0.in_bounds(),
    ensures
        final(registry).wf(),
        unloads@.no_duplicates(),
        match *area_old {
            None => unloads@ =~= Seq::<SpatialUnitCoord>::empty() && *final(registry) == *old(
                registry,
            ),
            Some(prev) => {
                let units = spec_column_units(prev.0.enum_seq());
                &&& forall|v: SpatialUnitCoord|
                    unloads@.contains(v) == (units.contains(v) && old(registry).spec_has(v) && old(
                        registry,
                    ).spec_observers(v).remove(observer).is_empty())
                &&& forall|v: SpatialUnitCoord|
                    units.contains(v) ==> final(registry).spec_observers(v) == old(
                        registry,
                    ).spec_observers(v).remove(observer)
                &&& forall|v: SpatialUnitCoord|
                    !units.contains(v) ==> final(registry).spec_observers(v) == old(
                        registry,
                    ).spec_observers(v)
            },
        },
{
    match area_old {
        None => Vec::new(),
        Some(prev) => {
            let prev_area = prev.area();
            let cols = prev_area.iter();
            let units = units_of_columns(&cols);
            registry.unregister(&units, observer)
        },
    }
}

} // verus!
