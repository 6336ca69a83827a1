use vstd::prelude::*;
use crate::coords::SpatialUnitCoord;

verus! {

/// A set-backed queue of dirty spatial-unit keys: insertion order is kept
/// for fairness, but membership is a set, so marking an already queued key
/// again changes nothing.
pub struct ChangeQueue {
    items: Vec<SpatialUnitCoord>,
}

impl ChangeQueue {
    /// The pending keys, oldest first.
    pub closed spec fn pending(self) -> Seq<SpatialUnitCoord> {
        self.items@
    }

    /// No key is queued twice.
    pub closed spec fn wf(self) -> bool {
        self.items@.no_duplicates()
    }

    pub fn new() -> (r: ChangeQueue)
        ensures
            r.wf(),
            r.pending() == Seq::<SpatialUnitCoord>::empty(),
    {
        let q = ChangeQueue { items: Vec::new() };
        proof {
            assert(q.pending() =~= Seq::<SpatialUnitCoord>::empty());
        }
        q
    }

    pub fn len(&self) -> (r: usize)
        ensures
            r == self.pending().len(),
    {
        self.items.len()
    }

    pub fn contains(&self, u: SpatialUnitCoord) -> (r: bool)
        ensures
            r == self.pending().contains(u),
    {
        let mut i: usize = 0;
        while i < self.items.len()
            invariant
                i <= self.items@.len(),
                forall|j: int| 0 <= j < i ==> self.items@[j] != u,
            decreases self.items@.len() - i,
        {
            if self.items[i] == u {
                return true;
            }
            i = i + 1;
        }
        false
    }

    /// Queues `u` for reconciliation; a no-op when `u` is already pending,
    /// so one mutation burst queues a key once.
    pub fn mark_dirty(&mut self, u: SpatialUnitCoord) -> (added: bool)
        requires
            old(self).wf(),
        ensures
            final(self).wf(),
            added == !old(self).pending().contains(u),
            old(self).pending().contains(u) ==> final(self).pending() == old(self).pending(),
            !old(self).pending().contains(u) ==> final(self).pending() == old(self).pending().push(
                u,
            ),
    {
        if self.contains(u) {
            false
        } else {
            self.items.push(u);
            proof {
                crate::change_queue::lemma_queue_no_dup_push(old(self).pending(), u);
            }
            true
        }
    }

    /// Removes and returns the oldest pending key, if any.
    pub fn pop(&mut self) -> (r: Option<SpatialUnitCoord>)
        requires
            old(self).wf(),
        ensures
            final(self).wf(),
            (r is None) <==> old(self).pending().len() == 0,
            r is None ==> final(self).pending() == old(self).pending(),
            old(self).pending().len() > 0 ==> r == Some(old(self).pending()[0]) && final(self).pending() == old(self).pending().subrange(1, old(self).pending().len() as int),
    {
        if self.items.len() == 0 {
            return None;
        }
        let k = self.items.remove(0);
        proof {
            let o = old(self).pending();
            let n = self.items@;
            assert(n =~= o.subrange(1, o.len() as int));
            assert forall|p: int, q: int| 0 <= p < q < n.len() implies n[p] != n[q] by {
                assert(o[p + 1] != o[q + 1]);
            }
        }
        Some(k)
    }

    /// The oldest pending key, left in place.
    pub fn peek(&self) -> (r: Option<SpatialUnitCoord>)
        ensures
            (r is None) <==> self.pending().len() == 0,
            self.pending().len() > 0 ==> r == Some(self.pending()[0]),
    {
        if self.items.len() == 0 {
            None
        } else {
            Some(self.items[0])
        }
    }
}

/// The front of a well-formed queue does not recur in the remainder.
pub proof fn lemma_front_not_in_rest(q: ChangeQueue)
    requires
        q.wf(),
        q.pending().len() > 0,
    ensures
        !q.pending().subrange(1, q.pending().len() as int).contains(q.pending()[0]),
{
    let rest = q.pending().subrange(1, q.pending().len() as int);
    if rest.contains(q.pending()[0]) {
        let j = choose|j: int| 0 <= j < rest.len() && rest[j] == q.pending()[0];
        assert(q.pending()[j + 1] == q.pending()[0]);
    }
}

proof fn lemma_queue_no_dup_push(s: Seq<SpatialUnitCoord>, x: SpatialUnitCoord)
    requires
        s.no_duplicates(),
        !s.contains(x),
    ensures
        s.push(x).no_duplicates(),
{
    let n = s.push(x);
    assert forall|p: int, q: int| 0 <= p < q < n.len() implies n[p] != n[q] by {
        if q == s.len() {
            assert(s.contains(s[p]));
        }
    }
}

} // verus!
