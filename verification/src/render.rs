use vstd::prelude::*;
use crate::change_queue::ChangeQueue;
use vstd::seq_lib::lemma_seq_contains_after_push;
use crate::coords::{ColumnCoord, SpatialUnitCoord, Y_LAYERS};
use crate::load_area::LoadArea;

verus! {

/// Handle of a spawned render entity, as the surrounding engine names it.
pub type EntityHandle = u64;

/// The table from spatial unit to its render entity: an entry exists iff a
/// render artifact has been created for that unit.
pub struct RenderEntities {
    entries: Vec<(SpatialUnitCoord, EntityHandle)>,
}

impl RenderEntities {
    /// A unit has an entry when some index keys it.
    pub closed spec fn spec_has(self, u: SpatialUnitCoord) -> bool {
        exists|i: int| 0 <= i < self.entries@.len() && self.entries@[i].0 == u
    }

    spec fn key_index(self, u: SpatialUnitCoord) -> int {
        choose|i: int| 0 <= i < self.entries@.len() && self.entries@[i].0 == u
    }

    /// The entity recorded for a unit, if its artifact was materialized.
    pub closed spec fn spec_get(self, u: SpatialUnitCoord) -> Option<EntityHandle> {
        if self.spec_has(u) {
            Some(self.entries@[self.key_index(u)].1)
        } else {
            None
        }
    }

    /// Each unit is keyed at most once.
    pub closed spec fn wf(self) -> bool {
        forall|i: int, j: int|
            0 <= i < j < self.entries@.len() ==> (#[trigger] self.entries@[i]).0 != (
            #[trigger] self.entries@[j]).0
    }

    pub closed spec fn len_spec(self) -> nat {
        self.entries@.len()
    }

    proof fn lemma_key_index(self, u: SpatialUnitCoord)
        requires
            self.spec_has(u),
        ensures
            0 <= self.key_index(u) < self.entries@.len(),
            self.entries@[self.key_index(u)].0 == u,
    {
    }

    proof fn lemma_get_at(self, i: int)
        requires
            self.wf(),
            0 <= i < self.entries@.len(),
        ensures
            self.spec_get(self.entries@[i].0) == Some(self.entries@[i].1),
    {
        let u = self.entries@[i].0;
        assert(self.spec_has(u));
        self.lemma_key_index(u);
        let j = self.key_index(u);
        if j < i {
            assert(self.entries@[j].0 != self.entries@[i].0);
        } else if i < j {
            assert(self.entries@[i].0 != self.entries@[j].0);
        }
    }

    pub fn new() -> (r: RenderEntities)
        ensures
            r.wf(),
            r.len_spec() == 0,
            forall|u: SpatialUnitCoord| r.spec_get(u) is None,
    {
        RenderEntities { entries: Vec::new() }
    }

    pub fn len(&self) -> (r: usize)
        ensures
            r == self.len_spec(),
    {
        self.entries.len()
    }

    fn find_key(&self, u: SpatialUnitCoord) -> (r: Option<usize>)
        ensures
            match r {
                Some(i) => 0 <= i < self.entries@.len() && self.entries@[i as int].0 == u,
                None => !self.spec_has(u),
            },
    {
        let mut i: usize = 0;
        while i < self.entries.len()
            invariant
                i <= self.entries@.len(),
                forall|j: int| 0 <= j < i ==> (#[trigger] self.entries@[j]).0 != u,
            decreases self.entries@.len() - i,
        {
            if self.entries[i].0 == u {
                return Some(i);
            }
            i = i + 1;
        }
        None
    }

    pub fn lookup(&self, u: SpatialUnitCoord) -> (r: Option<EntityHandle>)
        requires
            self.wf(),
        ensures
            r == self.spec_get(u),
    {
        match self.find_key(u) {
            Some(i) => {
                proof {
                    self.lemma_get_at(i as int);
                }
                Some(self.entries[i].1)
            },
            None => None,
        }
    }

    /// Records the entity now carrying `u`'s artifact, replacing any stale
    /// record.
    pub fn insert(&mut self, u: SpatialUnitCoord, entity: EntityHandle)
        requires
            old(self).wf(),
        ensures
            final(self).wf(),
            final(self).spec_get(u) == Some(entity),
            forall|v: SpatialUnitCoord| v != u ==> final(self).spec_get(v) == old(self).spec_get(v),
    {
        let ghost o = old(self).entries@;
        match self.find_key(u) {
            Some(i) => {
                self.entries.remove(i);
                self.entries.insert(i, (u, entity));
                proof {
                    let n = self.entries@;
                    assert(n =~= o.update(i as int, (u, entity)));
                    assert forall|p: int, q: int| 0 <= p < q < n.len() implies (
                    #[trigger] n[p]).0 != (#[trigger] n[q]).0 by {
                        assert(o[p].0 != o[q].0);
                    }
                    assert(n[i as int].0 == u);
                    assert(self.spec_has(u));
                    self.lemma_get_at(i as int);
                    assert forall|v: SpatialUnitCoord| v != u implies final(self).spec_get(v)
                        == old(self).spec_get(v) by {
                        self.lemma_same_keys_elsewhere(*old(self), i as int, v);
                    }
                }
            },
            None => {
                self.entries.push((u, entity));
                proof {
                    let n = self.entries@;
                    assert(n == o.push((u, entity)));
                    assert forall|p: int, q: int| 0 <= p < q < n.len() implies (
                    #[trigger] n[p]).0 != (#[trigger] n[q]).0 by {
                        if q == o.len() {
                            assert(o[p].0 != u);
                        } else {
                            assert(o[p].0 != o[q].0);
                        }
                    }
                    self.lemma_get_at(o.len() as int);
                    assert forall|v: SpatialUnitCoord| v != u implies final(self).spec_get(v)
                        == old(self).spec_get(v) by {
                        if old(self).spec_has(v) {
                            old(self).lemma_key_index(v);
                            let j = old(self).key_index(v);
                            assert(n[j].0 == v);
                            self.lemma_get_at(j);
                            old(self).lemma_get_at(j);
                        }
                        if self.spec_has(v) {
                            self.lemma_key_index(v);
                            let j = self.key_index(v);
                            assert(j < o.len());
                            assert(o[j].0 == v);
                            self.lemma_get_at(j);
                            old(self).lemma_get_at(j);
                        }
                    }
                }
            },
        }
    }

    proof fn lemma_same_keys_elsewhere(self, prev: RenderEntities, i: int, v: SpatialUnitCoord)
        requires
            prev.wf(),
            self.wf(),
            0 <= i < prev.entries@.len(),
            self.entries@.len() == prev.entries@.len(),
            forall|k: int|
                0 <= k < self.entries@.len() && k != i ==> self.entries@[k] == prev.entries@[k],
            self.entries@[i].0 == prev.entries@[i].0,
            v != prev.entries@[i].0,
        ensures
            self.spec_get(v) == prev.spec_get(v),
    {
        if prev.spec_has(v) {
            prev.lemma_key_index(v);
            let j = prev.key_index(v);
            assert(j != i);
            assert(self.entries@[j].0 == v);
            self.lemma_get_at(j);
            prev.lemma_get_at(j);
        } else if self.spec_has(v) {
            self.lemma_key_index(v);
            let j = self.key_index(v);
            assert(j != i);
            assert(prev.entries@[j].0 == v);
            assert(prev.spec_has(v));
        }
    }

    /// Drops the record for `u`, returning its entity so the caller can
    /// despawn it; a no-op when no record exists.
    pub fn remove(&mut self, u: SpatialUnitCoord) -> (r: Option<EntityHandle>)
        requires
            old(self).wf(),
        ensures
            final(self).wf(),
            r == old(self).spec_get(u),
            final(self).spec_get(u) is None,
            forall|v: SpatialUnitCoord| v != u ==> final(self).spec_get(v) == old(self).spec_get(v),
    {
        let ghost o = old(self).entries@;
        match self.find_key(u) {
            None => None,
            Some(i) => {
                proof {
                    old(self).lemma_get_at(i as int);
                }
                let pair = self.entries.remove(i);
                proof {
                    let n = self.entries@;
                    assert(n == o.remove(i as int));
                    assert forall|p: int, q: int| 0 <= p < q < n.len() implies (
                    #[trigger] n[p]).0 != (#[trigger] n[q]).0 by {
                        lemma_remove_entry_index(o, i as int, p);
                        lemma_remove_entry_index(o, i as int, q);
                    }
                    assert forall|v: SpatialUnitCoord| self.spec_has(v) implies v != u && old(
                        self,
                    ).spec_get(v) == self.spec_get(v) by {
                        self.lemma_key_index(v);
                        let k = self.key_index(v);
                        lemma_remove_entry_index(o, i as int, k);
                        let k0: int = if k < i { k } else { k + 1 };
                        assert(o[k0].0 == v);
                        assert(old(self).spec_has(v));
                        if v == u {
                            if k0 < i {
                                assert(o[k0].0 != o[i as int].0);
                            } else {
                                assert(o[i as int].0 != o[k0].0);
                            }
                            assert(false);
                        }
                        self.lemma_get_at(k);
                        old(self).lemma_get_at(k0);
                    }
                    assert forall|v: SpatialUnitCoord|
                        v != u && old(self).spec_has(v) implies self.spec_has(v) by {
                        old(self).lemma_key_index(v);
                        let k0 = old(self).key_index(v);
                        assert(k0 != i);
                        let k: int = if k0 < i { k0 } else { k0 - 1 };
                        lemma_remove_entry_index(o, i as int, k);
                        assert(self.entries@[k].0 == v);
                    }
                    assert(!self.spec_has(u));
                }
                Some(pair.1)
            },
        }
    }

    /// Drops the records of every unit of one column: the whole column and
    /// each of its vertical layers. Returns the entities to despawn.
    pub fn remove_column(&mut self, col: ColumnCoord) -> (r: Vec<EntityHandle>)
        requires
            old(self).wf(),
        ensures
            final(self).wf(),
            forall|u: SpatialUnitCoord|
                u.spec_column() == col && u.wf() ==> final(self).spec_get(u) is None,
            forall|u: SpatialUnitCoord|
                u.spec_column() != col ==> final(self).spec_get(u) == old(self).spec_get(u),
            forall|e: EntityHandle|
                r@.contains(e) ==> exists|u: SpatialUnitCoord|
                    u.spec_column() == col && old(self).spec_get(u) == Some(e),
    {
        let mut r: Vec<EntityHandle> = Vec::new();
        match self.remove(SpatialUnitCoord::Column { col }) {
            Some(e) => {
                r.push(e);
                proof {
                    let w = SpatialUnitCoord::Column { col };
                    assert forall|e2: EntityHandle| r@.contains(e2) implies exists|
                        u: SpatialUnitCoord,
                    | u.spec_column() == col && old(self).spec_get(u) == Some(e2) by {
                        assert(r@[0] == e);
                        assert(e2 == e);
                        assert(w.spec_column() == col && old(self).spec_get(w) == Some(e2));
                    }
                }
            },
            None => {},
        }
        let mut layer: u32 = 0;
        while layer < Y_LAYERS
            invariant
                self.wf(),
                layer <= Y_LAYERS,
                self.spec_get(SpatialUnitCoord::Column { col }) is None,
                forall|u: SpatialUnitCoord|
                    (u matches SpatialUnitCoord::Chunk { col: c, layer: l } && c == col && l
                        < layer) ==> (#[trigger] self.spec_get(u)) is None,
                forall|u: SpatialUnitCoord|
                    u.spec_column() != col ==> self.spec_get(u) == old(self).spec_get(u),
                forall|u: SpatialUnitCoord|
                    (u matches SpatialUnitCoord::Chunk { col: c, layer: l } && c == col && l
                        >= layer) ==> #[trigger] self.spec_get(u) == old(self).spec_get(u),
                forall|e: EntityHandle|
                    r@.contains(e) ==> exists|u: SpatialUnitCoord|
                        u.spec_column() == col && old(self).spec_get(u) == Some(e),
            decreases Y_LAYERS - layer,
        {
            let ghost pre_r = r@;
            match self.remove(SpatialUnitCoord::Chunk { col, layer }) {
                Some(e) => {
                    r.push(e);
                    proof {
                        broadcast use lemma_seq_contains_after_push;

                        let w = SpatialUnitCoord::Chunk { col, layer };
                        assert forall|e2: EntityHandle| r@.contains(e2) implies exists|
                            u: SpatialUnitCoord,
                        |
                            u.spec_column() == col && old(self).spec_get(u) == Some(e2) by {
                            if e2 == e && !pre_r.contains(e2) {
                                assert(w.spec_column() == col && old(self).spec_get(w) == Some(
                                    e2,
                                ));
                            }
                        }
                    }
                },
                None => {},
            }
            layer = layer + 1;
        }
        r
    }
}

/// Indexing into an entry sequence with one element removed.
proof fn lemma_remove_entry_index(s: Seq<(SpatialUnitCoord, EntityHandle)>, i: int, k: int)
    requires
        0 <= i < s.len(),
        0 <= k < s.len() - 1,
    ensures
        s.remove(i)[k] == if k < i {
            s[k]
        } else {
            s[k + 1]
        },
{
}

/// A unit is relevant when some active window contains its column.
pub open spec fn in_any_area(areas: Seq<LoadArea>, u: SpatialUnitCoord) -> bool {
    exists|i: int| 0 <= i < areas.len() && areas[i].spec_contains(u.spec_column())
}

fn any_area_contains(areas: &Vec<LoadArea>, u: SpatialUnitCoord) -> (r: bool)
    ensures
        r == in_any_area(areas@, u),
{
    let col = u.column();
    let mut i: usize = 0;
    while i < areas.len()
        invariant
            i <= areas@.len(),
            col == u.spec_column(),
            forall|j: int| 0 <= j < i ==> !(#[trigger] areas@[j]).spec_contains(u.spec_column()),
        decreases areas@.len() - i,
    {
        if areas[i].contains(col) {
            return true;
        }
        i = i + 1;
    }
    false
}

/// What one reconciliation step decided for a popped dirty key.
#[derive(Clone, Copy, PartialEq, Eq, Structural, Debug)]
pub enum RenderAction {
    /// The key lies outside every active window: dropped for good.
    Dropped,
    /// No entity exists yet: the caller must build a fresh artifact from
    /// the unit's current state and record the new entity.
    BuildNew,
    /// An entity exists but its artifact is not resolved yet: the key was
    /// put back at the end of the queue to be retried.
    Requeued,
    /// An entity with a resolved artifact exists: the caller must apply an
    /// incremental update to it.
    UpdateExisting { entity: EntityHandle },
}

/// The decision for key `k` given the table, the active windows, and
/// whether the artifact behind `k`'s entity, if any, is resolved.
pub open spec fn spec_decide(
    ents: RenderEntities,
    areas: Seq<LoadArea>,
    k: SpatialUnitCoord,
    artifact_ready: bool,
) -> RenderAction {
    if !in_any_area(areas, k) {
        RenderAction::Dropped
    } else {
        match ents.spec_get(k) {
            None => RenderAction::BuildNew,
            Some(e) => if !artifact_ready {
                RenderAction::Requeued
            } else {
                RenderAction::UpdateExisting { entity: e }
            },
        }
    }
}

/// One bounded reconciliation step: pops the oldest dirty key and decides
/// what must happen to its artifact. `artifact_ready` reports whether the
/// artifact behind the front key's entity, if there is one, is resolved;
/// the caller learns the front key from `peek` before calling. A key whose
/// artifact is not ready goes back to the end of the queue, so a relevant
/// key is never lost: it is handled this call or queued for the next.
pub fn process_changes(
    queue: &mut ChangeQueue,
    ents: &RenderEntities,
    areas: &Vec<LoadArea>,
    artifact_ready: bool,
) -> (r: Option<(SpatialUnitCoord, RenderAction)>)
    requires
        old(queue).wf(),
        ents.wf(),
    ensures
        final(queue).wf(),
        (r is None) <==> old(queue).pending().len() == 0,
        r is None ==> final(queue).pending() == old(queue).pending(),
        old(queue).pending().len() > 0 ==> r == Some(
            (
                old(queue).pending()[0],
                spec_decide(*ents, areas@, old(queue).pending()[0], artifact_ready),
            ),
        ),
        old(queue).pending().len() > 0 ==> final(queue).pending() == (
        if spec_decide(*ents, areas@, old(queue).pending()[0], artifact_ready)
            == RenderAction::Requeued {
            old(queue).pending().subrange(1, old(queue).pending().len() as int).push(
                old(queue).pending()[0],
            )
        } else {
            old(queue).pending().subrange(1, old(queue).pending().len() as int)
        }),
{
    let popped = queue.pop();
    match popped {
        None => None,
        Some(k) => {
            if !any_area_contains(areas, k) {
                Some((k, RenderAction::Dropped))
            } else {
                match ents.lookup(k) {
                    None => Some((k, RenderAction::BuildNew)),
                    Some(e) => {
                        if !artifact_ready {
                            proof {
                                crate::change_queue::lemma_front_not_in_rest(*old(queue));
                            }
                            queue.mark_dirty(k);
                            Some((k, RenderAction::Requeued))
                        } else {
                            Some((k, RenderAction::UpdateExisting { entity: e }))
                        }
                    },
                }
            }
        },
    }
}

} // verus!
