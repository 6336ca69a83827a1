use vstd::prelude::*;
use crate::coords::SpatialUnitCoord;
use vstd::seq_lib::lemma_seq_contains_after_push;

verus! {

/// Identifier of an observer whose movement drives a visibility window.
pub type ObserverId = u32;

/// For every loaded spatial unit, the set of observers currently requiring
/// it. A unit is keyed iff at least one observer requires it; the
/// absent-to-present transition is a Load event, present-to-absent an
/// Unload event.
pub struct ColumnRegistry {
    entries: Vec<(SpatialUnitCoord, Vec<ObserverId>)>,
}

/// The observer set a registry map associates with a unit, empty when the
/// unit is not loaded.
pub open spec fn obs_or_empty(
    m: Map<SpatialUnitCoord, Set<ObserverId>>,
    u: SpatialUnitCoord,
) -> Set<ObserverId> {
    if m.dom().contains(u) {
        m[u]
    } else {
        Set::empty()
    }
}

/// The registry map after `observer` registers every unit in `units`.
pub open spec fn spec_register(
    m: Map<SpatialUnitCoord, Set<ObserverId>>,
    units: Seq<SpatialUnitCoord>,
    observer: ObserverId,
) -> Map<SpatialUnitCoord, Set<ObserverId>> {
    Map::new(
        |u: SpatialUnitCoord| m.dom().contains(u) || units.contains(u),
        |u: SpatialUnitCoord|
            if units.contains(u) {
                obs_or_empty(m, u).insert(observer)
            } else {
                m[u]
            },
    )
}

/// The registry map after `observer` unregisters every unit in `units`.
pub open spec fn spec_unregister(
    m: Map<SpatialUnitCoord, Set<ObserverId>>,
    units: Seq<SpatialUnitCoord>,
    observer: ObserverId,
) -> Map<SpatialUnitCoord, Set<ObserverId>> {
    Map::new(
        |u: SpatialUnitCoord| m.dom().contains(u) && (!units.contains(u) || !m[u].remove(
            observer,
        ).is_empty()),
        |u: SpatialUnitCoord|
            if units.contains(u) {
                m[u].remove(observer)
            } else {
                m[u]
            },
    )
}

impl ColumnRegistry {
    /// A unit is loaded when some entry keys it.
    pub closed spec fn spec_has(self, u: SpatialUnitCoord) -> bool {
        exists|i: int| 0 <= i < self.entries@.len() && self.entries@[i].0 == u
    }

    /// The index of the entry keyed by `u`, meaningful when `spec_has(u)`.
    spec fn key_index(self, u: SpatialUnitCoord) -> int {
        choose|i: int| 0 <= i < self.entries@.len() && self.entries@[i].0 == u
    }

    /// The set of observers currently requiring `u`, empty when unloaded.
    pub closed spec fn spec_observers(self, u: SpatialUnitCoord) -> Set<ObserverId> {
        if self.spec_has(u) {
            self.entries@[self.key_index(u)].1@.to_set()
        } else {
            Set::empty()
        }
    }

    /// Each unit is keyed at most once, and every observer list is free of
    /// duplicates and non-empty: a key exists iff its set is non-empty.
    pub closed spec fn wf(self) -> bool {
        &&& forall|i: int, j: int|
            0 <= i < j < self.entries@.len() ==> (#[trigger] self.entries@[i]).0 != (
            #[trigger] self.entries@[j]).0
        &&& forall|i: int|
            0 <= i < self.entries@.len() ==> (#[trigger] self.entries@[i]).1@.no_duplicates()
                && self.entries@[i].1@.len() > 0
    }

    /// The registry as a map from loaded unit to its observer set.
    pub closed spec fn as_map(self) -> Map<SpatialUnitCoord, Set<ObserverId>> {
        Map::new(
            |u: SpatialUnitCoord| self.spec_has(u),
            |u: SpatialUnitCoord| self.spec_observers(u),
        )
    }

    proof fn lemma_key_index(self, u: SpatialUnitCoord)
        requires
            self.spec_has(u),
        ensures
            0 <= self.key_index(u) < self.entries@.len(),
            self.entries@[self.key_index(u)].0 == u,
    {
    }

    proof fn lemma_observers_at(self, i: int)
        requires
            self.wf(),
            0 <= i < self.entries@.len(),
        ensures
            self.spec_has(self.entries@[i].0),
            self.spec_observers(self.entries@[i].0) == self.entries@[i].1@.to_set(),
    {
        let u = self.entries@[i].0;
        assert(self.spec_has(u));
        self.lemma_key_index(u);
        let j = self.key_index(u);
        if j < i {
            assert(self.entries@[j].0 != self.entries@[i].0);
        } else if i < j {
            assert(self.entries@[i].0 != self.entries@[j].0);
        }
    }

    pub fn new() -> (r: ColumnRegistry)
        ensures
            r.wf(),
            r.len_spec() == 0,
            forall|u: SpatialUnitCoord| !r.spec_has(u),
            forall|u: SpatialUnitCoord| r.spec_observers(u) == Set::<ObserverId>::empty(),
    {
        ColumnRegistry { entries: Vec::new() }
    }

    /// How many units are currently loaded.
    pub closed spec fn len_spec(self) -> nat {
        self.entries@.len()
    }

    pub fn len(&self) -> (r: usize)
        ensures
            r == self.len_spec(),
    {
        self.entries.len()
    }

    pub fn is_loaded(&self, u: SpatialUnitCoord) -> (r: bool)
        ensures
            r == self.spec_has(u),
    {
        self.find_key(u).is_some()
    }

    fn find_key(&self, u: SpatialUnitCoord) -> (r: Option<usize>)
        ensures
            match r {
                Some(i) => 0 <= i < self.entries@.len() && self.entries@[i as int].0 == u,
                None => !self.spec_has(u),
            },
    {
        let mut i: usize = 0;
        while i < self.entries.len()
            invariant
                i <= self.entries@.len(),
                forall|j: int| 0 <= j < i ==> (#[trigger] self.entries@[j]).0 != u,
            decreases self.entries@.len() - i,
        {
            if self.entries[i].0 == u {
                return Some(i);
            }
            i = i + 1;
        }
        None
    }

    /// Adds `observer` to the set of `u`, creating the entry when absent;
    /// reports whether the unit went from unloaded to loaded.
    fn register_one(&mut self, u: SpatialUnitCoord, observer: ObserverId) -> (new_key: bool)
        requires
            old(self).wf(),
        ensures
            final(self).wf(),
            new_key == !old(self).spec_has(u),
            final(self).spec_has(u),
            final(self).spec_observers(u) == old(self).spec_observers(u).insert(observer),
            forall|v: SpatialUnitCoord|
                v != u ==> final(self).spec_has(v) == old(self).spec_has(v) && final(self).spec_observers(v) == old(self).spec_observers(v),
    {
        let ghost o = old(self).entries@;
        match self.find_key(u) {
            Some(i) => {
                proof {
                    old(self).lemma_observers_at(i as int);
                }
                let mut pair = self.entries.remove(i);
                let ghost oldvec = pair.1@;
                let present = contains_obs(&pair.1, observer);
                if !present {
                    pair.1.push(observer);
                }
                self.entries.insert(i, pair);
                proof {
                    let n = self.entries@;
                    assert(n =~= o.update(i as int, n[i as int]));
                    assert(n[i as int].0 == u);
                    if present {
                        assert(n[i as int].1@.to_set() =~= oldvec.to_set().insert(observer));
                    } else {
                        broadcast use vstd::prelude::Seq::lemma_push_to_set_commute;

                        assert(n[i as int].1@ == oldvec.push(observer));
                        assert(n[i as int].1@.to_set() =~= oldvec.to_set().insert(observer));
                        lemma_no_dup_push(oldvec, observer);
                    }
                    self.lemma_wf_after_update(*old(self), i as int);
                    self.lemma_observers_at(i as int);
                    assert forall|v: SpatialUnitCoord| v != u implies self.spec_has(v) == old(
                        self,
                    ).spec_has(v) && self.spec_observers(v) == old(self).spec_observers(v) by {
                        self.lemma_same_keys_elsewhere(*old(self), i as int, v);
                    }
                }
                false
            },
            None => {
                let mut obs: Vec<ObserverId> = Vec::new();
                obs.push(observer);
                self.entries.push((u, obs));
                proof {
                    let n = self.entries@;
                    assert(n == o.push(n[o.len() as int]));
                    assert(n[o.len() as int].0 == u);
                    assert(n[o.len() as int].1@ =~= seq![observer]);
                    assert forall|i: int, j: int| 0 <= i < j < n.len() implies (
                    #[trigger] n[i]).0 != (#[trigger] n[j]).0 by {
                        if j < o.len() {
                            assert(o[i].0 != o[j].0);
                        } else {
                            assert(n[j].0 == u);
                            assert(o[i].0 != u);
                        }
                    }
                    assert(self.wf());
                    assert(self.spec_has(u));
                    self.lemma_observers_at(o.len() as int);
                    assert forall|x: ObserverId|
                        n[o.len() as int].1@.to_set().contains(x) <==> Set::<
                            ObserverId,
                        >::empty().insert(observer).contains(x) by {
                        assert(n[o.len() as int].1@[0] == observer);
                    }
                    assert(n[o.len() as int].1@.to_set() =~= Set::<ObserverId>::empty().insert(
                        observer,
                    ));
                    assert(self.spec_observers(u) == old(self).spec_observers(u).insert(observer));
                    assert forall|v: SpatialUnitCoord| v != u implies self.spec_has(v) == old(
                        self,
                    ).spec_has(v) && self.spec_observers(v) == old(self).spec_observers(v) by {
                        if old(self).spec_has(v) {
                            old(self).lemma_key_index(v);
                            let j = old(self).key_index(v);
                            assert(n[j].0 == v);
                            assert(self.spec_has(v));
                        }
                        if self.spec_has(v) {
                            self.lemma_key_index(v);
                            let j = self.key_index(v);
                            assert(j < o.len());
                            assert(o[j].0 == v);
                            assert(old(self).spec_has(v));
                            self.lemma_observers_at(j);
                            old(self).lemma_observers_at(j);
                        }
                    }
                }
                true
            },
        }
    }

    proof fn lemma_wf_after_update(self, prev: ColumnRegistry, i: int)
        requires
            prev.wf(),
            0 <= i < prev.entries@.len(),
            self.entries@.len() == prev.entries@.len(),
            forall|k: int|
                0 <= k < self.entries@.len() && k != i ==> self.entries@[k] == prev.entries@[k],
            self.entries@[i].0 == prev.entries@[i].0,
            self.entries@[i].1@.no_duplicates(),
            self.entries@[i].1@.len() > 0,
        ensures
            self.wf(),
    {
        assert forall|p: int, q: int| 0 <= p < q < self.entries@.len() implies (
        #[trigger] self.entries@[p]).0 != (#[trigger] self.entries@[q]).0 by {
            assert(prev.entries@[p].0 != prev.entries@[q].0);
            assert(self.entries@[p].0 == prev.entries@[p].0);
            assert(self.entries@[q].0 == prev.entries@[q].0);
        }
    }

    proof fn lemma_same_keys_elsewhere(self, prev: ColumnRegistry, i: int, v: SpatialUnitCoord)
        requires
            prev.wf(),
            self.wf(),
            0 <= i < prev.entries@.len(),
            self.entries@.len() == prev.entries@.len(),
            forall|k: int|
                0 <= k < self.entries@.len() && k != i ==> self.entries@[k] == prev.entries@[k],
            self.entries@[i].0 == prev.entries@[i].0,
            v != prev.entries@[i].0,
        ensures
            self.spec_has(v) == prev.spec_has(v),
            self.spec_observers(v) == prev.spec_observers(v),
    {
        if prev.spec_has(v) {
            prev.lemma_key_index(v);
            let j = prev.key_index(v);
            assert(j != i);
            assert(self.entries@[j].0 == v);
            assert(self.spec_has(v));
        }
        if self.spec_has(v) {
            self.lemma_key_index(v);
            let j = self.key_index(v);
            assert(j != i);
            assert(prev.entries@[j].0 == v);
            assert(prev.spec_has(v));
            self.lemma_observers_at(j);
            prev.lemma_observers_at(j);
        }
    }

    /// Removes `observer` from the set of `u`, dropping the entry when the
    /// set empties; reports whether the unit went from loaded to unloaded.
    /// Unregistering a unit the observer never registered is a no-op.
    fn unregister_one(&mut self, u: SpatialUnitCoord, observer: ObserverId) -> (unloaded: bool)
        requires
            old(self).wf(),
        ensures
            final(self).wf(),
            unloaded == (old(self).spec_has(u) && old(self).spec_observers(u).remove(
                observer,
            ).is_empty()),
            final(self).spec_observers(u) == old(self).spec_observers(u).remove(observer),
            final(self).spec_has(u) == (old(self).spec_has(u) && !old(self).spec_observers(u).remove(observer).is_empty()),
            forall|v: SpatialUnitCoord|
                v != u ==> final(self).spec_has(v) == old(self).spec_has(v) && final(self).spec_observers(v) == old(self).spec_observers(v),
    {
        let ghost o = old(self).entries@;
        match self.find_key(u) {
            None => {
                proof {
                    assert(old(self).spec_observers(u).remove(observer) =~= Set::empty());
                }
                false
            },
            Some(i) => {
                proof {
                    old(self).lemma_observers_at(i as int);
                }
                let mut pair = self.entries.remove(i);
                let ghost oldvec = pair.1@;
                match find_obs(&pair.1, observer) {
                    None => {
                        self.entries.insert(i, pair);
                        proof {
                            assert(self.entries@ =~= o);
                            assert(old(self).spec_observers(u).remove(observer) =~= old(
                                self,
                            ).spec_observers(u));
                            assert(oldvec.to_set().contains(oldvec[0]));
                            assert(!old(self).spec_observers(u).is_empty());
                        }
                        false
                    },
                    Some(j) => {
                        pair.1.remove(j);
                        proof {
                            lemma_no_dup_remove_to_set(oldvec, j as int, observer);
                        }
                        if pair.1.len() == 0 {
                            proof {
                                assert(pair.1@.to_set() =~= Set::<ObserverId>::empty());
                                assert(old(self).spec_observers(u).remove(observer).is_empty());
                                let n = self.entries@;
                                assert(n == o.remove(i as int));
                                assert forall|p: int, q: int|
                                    0 <= p < q < n.len() implies (#[trigger] n[p]).0 != (
                                #[trigger] n[q]).0 by {
                                    lemma_remove_index(o, i as int, p);
                                    lemma_remove_index(o, i as int, q);
                                }
                                assert forall|p: int| 0 <= p < n.len() implies (
                                #[trigger] n[p]).1@.no_duplicates() && n[p].1@.len() > 0 by {
                                    lemma_remove_index(o, i as int, p);
                                }
                                assert(self.wf());
                                assert forall|v: SpatialUnitCoord| self.spec_has(v) implies old(
                                    self,
                                ).spec_has(v) && v != u && self.spec_observers(v) == old(
                                    self,
                                ).spec_observers(v) by {
                                    self.lemma_key_index(v);
                                    let k = self.key_index(v);
                                    lemma_remove_index(o, i as int, k);
                                    let k0: int = if k < i { k } else { k + 1 };
                                    assert(o[k0].0 == v);
                                    assert(old(self).spec_has(v));
                                    if v == u {
                                        old(self).lemma_key_index(u);
                                        let j0 = old(self).key_index(u);
                                        if j0 < k0 {
                                            assert(o[j0].0 != o[k0].0);
                                        } else if k0 < j0 {
                                            assert(o[k0].0 != o[j0].0);
                                        }
                                        assert(k0 == i);
                                        assert(false);
                                    }
                                    self.lemma_observers_at(k);
                                    old(self).lemma_observers_at(k0);
                                    old(self).lemma_key_index(v);
                                    let j1 = old(self).key_index(v);
                                    if j1 < k0 {
                                        assert(o[j1].0 != o[k0].0);
                                    } else if k0 < j1 {
                                        assert(o[k0].0 != o[j1].0);
                                    }
                                }
                                assert forall|v: SpatialUnitCoord|
                                    v != u && old(self).spec_has(v) implies self.spec_has(v) by {
                                    old(self).lemma_key_index(v);
                                    let k0 = old(self).key_index(v);
                                    assert(k0 != i);
                                    let k: int = if k0 < i { k0 } else { k0 - 1 };
                                    lemma_remove_index(o, i as int, k);
                                    assert(self.entries@[k].0 == v);
                                }
                                assert(!self.spec_has(u));
                            }
                            true
                        } else {
                            let ghost nv = pair.1@;
                            self.entries.insert(i, pair);
                            proof {
                                let n = self.entries@;
                                assert(n =~= o.update(i as int, n[i as int]));
                                assert(n[i as int].0 == u);
                                assert(n[i as int].1@ == nv);
                                self.lemma_wf_after_update(*old(self), i as int);
                                self.lemma_observers_at(i as int);
                                assert(nv.to_set().contains(nv[0]));
                                assert(!old(self).spec_observers(u).remove(observer).is_empty());
                                assert forall|v: SpatialUnitCoord| v != u implies self.spec_has(v)
                                    == old(self).spec_has(v) && self.spec_observers(v) == old(
                                    self,
                                ).spec_observers(v) by {
                                    self.lemma_same_keys_elsewhere(*old(self), i as int, v);
                                }
                            }
                            false
                        }
                    },
                }
            },
        }
    }
}

impl ColumnRegistry {
    /// Adds `observer` to the set of every unit in `units`, creating
    /// entries as needed, and returns the units that went from unloaded to
    /// loaded: the Load events, each unit at most once. Units already
    /// registered by this observer are left as they are.
    pub fn register(&mut self, units: &Vec<SpatialUnitCoord>, observer: ObserverId) -> (loads: Vec<
        SpatialUnitCoord,
    >)
        requires
            old(self).wf(),
        ensures
            final(self).wf(),
            forall|v: SpatialUnitCoord|
                final(self).spec_has(v) == (old(self).spec_has(v) || units@.contains(v)),
            forall|v: SpatialUnitCoord|
                units@.contains(v) ==> final(self).spec_observers(v) == old(self).spec_observers(
                    v,
                ).insert(observer),
            forall|v: SpatialUnitCoord|
                !units@.contains(v) ==> final(self).spec_observers(v) == old(self).spec_observers(
                    v,
                ),
            final(self).as_map() == spec_register(old(self).as_map(), units@, observer),
            loads@.no_duplicates(),
            forall|v: SpatialUnitCoord|
                loads@.contains(v) == (units@.contains(v) && !old(self).spec_has(v)),
    {
        let mut loads: Vec<SpatialUnitCoord> = Vec::new();
        let mut i: usize = 0;
        while i < units.len()
            invariant
                self.wf(),
                i <= units@.len(),
                forall|v: SpatialUnitCoord|
                    self.spec_has(v) == (old(self).spec_has(v) || units@.take(i as int).contains(
                        v,
                    )),
                forall|v: SpatialUnitCoord|
                    units@.take(i as int).contains(v) ==> self.spec_observers(v) == old(
                        self,
                    ).spec_observers(v).insert(observer),
                forall|v: SpatialUnitCoord|
                    !units@.take(i as int).contains(v) ==> self.spec_observers(v) == old(
                        self,
                    ).spec_observers(v),
                loads@.no_duplicates(),
                forall|v: SpatialUnitCoord|
                    loads@.contains(v) == (units@.take(i as int).contains(v) && !old(
                        self,
                    ).spec_has(v)),
            decreases units@.len() - i,
        {
            let u = units[i];
            let ghost pre_loads = loads@;
            let new_key = self.register_one(u, observer);
            if new_key {
                loads.push(u);
            }
            proof {
                broadcast use lemma_seq_contains_after_push;

                lemma_take_push(units@, i as int);
                if units@.take(i as int).contains(u) {
                    assert(old(self).spec_observers(u).insert(observer).insert(observer) =~= old(
                        self,
                    ).spec_observers(u).insert(observer));
                }
                if new_key {
                    lemma_no_dup_push(pre_loads, u);
                }
                assert forall|v: SpatialUnitCoord|
                    units@.take(i as int + 1).contains(v) implies self.spec_observers(v) == old(
                    self,
                ).spec_observers(v).insert(observer) by {
                    if v != u {
                        assert(units@.take(i as int).contains(v));
                    }
                }
            }
            i = i + 1;
        }
        proof {
            assert(units@.take(units@.len() as int) =~= units@);
            assert forall|v: SpatialUnitCoord|
                self.as_map().dom().contains(v) <==> spec_register(
                    old(self).as_map(),
                    units@,
                    observer,
                ).dom().contains(v) by {}
            assert forall|v: SpatialUnitCoord|
                self.as_map().dom().contains(v) implies self.as_map()[v] == spec_register(
                old(self).as_map(),
                units@,
                observer,
            )[v] by {
                if units@.contains(v) {
                    assert(obs_or_empty(old(self).as_map(), v) == old(self).spec_observers(v));
                }
            }
            assert(self.as_map() =~= spec_register(old(self).as_map(), units@, observer));
        }
        loads
    }

    /// Removes `observer` from the set of every unit in `units`, dropping
    /// entries whose set empties, and returns the units that went from
    /// loaded to unloaded: the Unload events, each unit at most once.
    /// Units this observer never registered are left as they are.
    pub fn unregister(&mut self, units: &Vec<SpatialUnitCoord>, observer: ObserverId) -> (unloads:
        Vec<SpatialUnitCoord>)
        requires
            old(self).wf(),
        ensures
            final(self).wf(),
            forall|v: SpatialUnitCoord|
                units@.contains(v) ==> final(self).spec_observers(v) == old(self).spec_observers(
                    v,
                ).remove(observer),
            forall|v: SpatialUnitCoord|
                !units@.contains(v) ==> final(self).spec_observers(v) == old(self).spec_observers(
                    v,
                ),
            forall|v: SpatialUnitCoord|
                final(self).spec_has(v) == (old(self).spec_has(v) && !(units@.contains(v) && old(
                    self,
                ).spec_observers(v).remove(observer).is_empty())),
            final(self).as_map() == spec_unregister(old(self).as_map(), units@, observer),
            unloads@.no_duplicates(),
            forall|v: SpatialUnitCoord|
                unloads@.contains(v) == (units@.contains(v) && old(self).spec_has(v) && old(
                    self,
                ).spec_observers(v).remove(observer).is_empty()),
    {
        let mut unloads: Vec<SpatialUnitCoord> = Vec::new();
        let mut i: usize = 0;
        while i < units.len()
            invariant
                self.wf(),
                i <= units@.len(),
                forall|v: SpatialUnitCoord|
                    units@.take(i as int).contains(v) ==> self.spec_observers(v) == old(
                        self,
                    ).spec_observers(v).remove(observer),
                forall|v: SpatialUnitCoord|
                    !units@.take(i as int).contains(v) ==> self.spec_observers(v) == old(
                        self,
                    ).spec_observers(v),
                forall|v: SpatialUnitCoord|
                    self.spec_has(v) == (old(self).spec_has(v) && !(units@.take(i as int).contains(
                        v,
                    ) && old(self).spec_observers(v).remove(observer).is_empty())),
                unloads@.no_duplicates(),
                forall|v: SpatialUnitCoord|
                    unloads@.contains(v) == (units@.take(i as int).contains(v) && old(
                        self,
                    ).spec_has(v) && old(self).spec_observers(v).remove(observer).is_empty()),
            decreases units@.len() - i,
        {
            let u = units[i];
            let ghost pre_unloads = unloads@;
            let unloaded = self.unregister_one(u, observer);
            if unloaded {
                unloads.push(u);
            }
            proof {
                broadcast use lemma_seq_contains_after_push;

                lemma_take_push(units@, i as int);
                if units@.take(i as int).contains(u) {
                    assert(old(self).spec_observers(u).remove(observer).remove(observer) =~= old(
                        self,
                    ).spec_observers(u).remove(observer));
                }
                if unloaded {
                    lemma_no_dup_push(pre_unloads, u);
                }
                assert forall|v: SpatialUnitCoord|
                    units@.take(i as int + 1).contains(v) implies self.spec_observers(v) == old(
                    self,
                ).spec_observers(v).remove(observer) by {
                    if v != u {
                        assert(units@.take(i as int).contains(v));
                    }
                }
            }
            i = i + 1;
        }
        proof {
            assert(units@.take(units@.len() as int) =~= units@);
            assert forall|v: SpatialUnitCoord|
                self.as_map().dom().contains(v) <==> spec_unregister(
                    old(self).as_map(),
                    units@,
                    observer,
                ).dom().contains(v) by {}
            assert(self.as_map() =~= spec_unregister(old(self).as_map(), units@, observer));
        }
        unloads
    }
}

/// A unit is loaded iff its observer set is non-empty: the registry keeps
/// an entry exactly as long as someone requires the unit.
pub proof fn lemma_loaded_iff_observed(r: ColumnRegistry, u: SpatialUnitCoord)
    requires
        r.wf(),
    ensures
        r.spec_has(u) <==> !r.spec_observers(u).is_empty(),
{
    if r.spec_has(u) {
        r.lemma_key_index(u);
        let i = r.key_index(u);
        assert(r.entries@[i].1@.to_set().contains(r.entries@[i].1@[0]));
    }
}

/// Round trip: registering a batch of units none of which was loaded, for
/// one observer, and then unregistering the same batch restores the
/// registry map; in between each of those units is loaded with exactly
/// that one observer.
pub proof fn lemma_register_unregister_round_trip(
    m: Map<SpatialUnitCoord, Set<ObserverId>>,
    units: Seq<SpatialUnitCoord>,
    observer: ObserverId,
)
    requires
        forall|u: SpatialUnitCoord| #[trigger] units.contains(u) ==> !m.dom().contains(u),
    ensures
        spec_unregister(spec_register(m, units, observer), units, observer) == m,
        forall|u: SpatialUnitCoord| #[trigger]
            units.contains(u) ==> spec_register(m, units, observer)[u] == Set::<
                ObserverId,
            >::empty().insert(observer),
        forall|u: SpatialUnitCoord| #[trigger]
            units.contains(u) ==> !spec_unregister(
                spec_register(m, units, observer),
                units,
                observer,
            ).dom().contains(u),
{
    let m1 = spec_register(m, units, observer);
    let m2 = spec_unregister(m1, units, observer);
    assert forall|u: SpatialUnitCoord| #[trigger] units.contains(u) implies m1[u] == Set::<
        ObserverId,
    >::empty().insert(observer) by {
        assert(obs_or_empty(m, u) =~= Set::<ObserverId>::empty());
        assert(m1[u] =~= Set::<ObserverId>::empty().insert(observer));
    }
    assert forall|u: SpatialUnitCoord| #[trigger] units.contains(u) implies m1[u].remove(
        observer,
    ).is_empty() by {
        assert(m1[u].remove(observer) =~= Set::<ObserverId>::empty());
    }
    assert forall|v: SpatialUnitCoord| m2.dom().contains(v) <==> m.dom().contains(v) by {}
    assert(m2 =~= m);
}

fn contains_obs(v: &Vec<ObserverId>, x: ObserverId) -> (r: bool)
    ensures
        r == v@.contains(x),
{
    let mut i: usize = 0;
    while i < v.len()
        invariant
            i <= v@.len(),
            forall|j: int| 0 <= j < i ==> v@[j] != x,
        decreases v@.len() - i,
    {
        if v[i] == x {
            return true;
        }
        i = i + 1;
    }
    false
}

fn find_obs(v: &Vec<ObserverId>, x: ObserverId) -> (r: Option<usize>)
    ensures
        match r {
            Some(j) => 0 <= j < v@.len() && v@[j as int] == x,
            None => !v@.contains(x),
        },
{
    let mut i: usize = 0;
    while i < v.len()
        invariant
            i <= v@.len(),
            forall|j: int| 0 <= j < i ==> v@[j] != x,
        decreases v@.len() - i,
    {
        if v[i] == x {
            return Some(i);
        }
        i = i + 1;
    }
    None
}

proof fn lemma_take_push<A>(s: Seq<A>, i: int)
    requires
        0 <= i < s.len(),
    ensures
        s.take(i + 1) == s.take(i).push(s[i]),
{
    assert(s.take(i + 1) =~= s.take(i).push(s[i]));
}

proof fn lemma_no_dup_push<A>(s: Seq<A>, x: A)
    requires
        s.no_duplicates(),
        !s.contains(x),
    ensures
        s.push(x).no_duplicates(),
{
    let n = s.push(x);
    assert forall|p: int, q: int| 0 <= p < q < n.len() implies n[p] != n[q] by {
        if q == s.len() {
            assert(s.contains(s[p]));
        }
    }
}

/// Indexing into a sequence with one element removed.
proof fn lemma_remove_index<A>(s: Seq<A>, i: int, k: int)
    requires
        0 <= i < s.len(),
        0 <= k < s.len() - 1,
    ensures
        s.remove(i)[k] == if k < i {
            s[k]
        } else {
            s[k + 1]
        },
{
}

/// Removing one occurrence of `x` from a duplicate-free sequence removes
/// `x` from its element set.
proof fn lemma_no_dup_remove_to_set(s: Seq<ObserverId>, j: int, x: ObserverId)
    requires
        s.no_duplicates(),
        0 <= j < s.len(),
        s[j] == x,
    ensures
        s.remove(j).no_duplicates(),
        s.remove(j).to_set() =~= s.to_set().remove(x),
{
    let n = s.remove(j);
    assert forall|p: int, q: int| 0 <= p < q < n.len() implies n[p] != n[q] by {
        lemma_remove_index(s, j, p);
        lemma_remove_index(s, j, q);
    }
    assert forall|y: ObserverId| n.to_set().contains(y) implies s.to_set().remove(x).contains(
        y,
    ) by {
        let k = choose|k: int| 0 <= k < n.len() && n[k] == y;
        lemma_remove_index(s, j, k);
        let k0: int = if k < j {
            k
        } else {
            k + 1
        };
        assert(s[k0] == y);
        assert(s.to_set().contains(y));
        assert(y != x);
    }
    assert forall|y: ObserverId| s.to_set().remove(x).contains(y) implies n.to_set().contains(
        y,
    ) by {
        let k0 = choose|k0: int| 0 <= k0 < s.len() && s[k0] == y;
        assert(k0 != j);
        let k: int = if k0 < j {
            k0
        } else {
            k0 - 1
        };
        lemma_remove_index(s, j, k);
        assert(n[k] == y);
        assert(n.to_set().contains(y));
    }
}

} // verus!
