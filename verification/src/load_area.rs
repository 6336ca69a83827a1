use vstd::prelude::*;
use crate::coords::{chebyshev, ColumnCoord};
use vstd::arithmetic::div_mod::{
    lemma_fundamental_div_mod, lemma_fundamental_div_mod_converse, lemma_mod_bound,
};

verus! {

/// An observer's visibility window: the square of columns whose Chebyshev
/// distance to `center` is at most `radius`, all in the center's realm.
#[derive(Clone, Copy, PartialEq, Eq, Structural, Debug)]
pub struct LoadArea {
    pub center: ColumnCoord,
    pub radius: u32,
}

impl LoadArea {
    /// Width of the window in columns.
    pub open spec fn spec_width(self) -> int {
        2 * (self.radius as int) + 1
    }

    /// A column is inside the window iff it shares the center's realm and
    /// its Chebyshev distance to the center is at most the radius.
    pub open spec fn spec_contains(self, col: ColumnCoord) -> bool {
        col.realm == self.center.realm && chebyshev(self.center, col) <= self.radius as int
    }

    /// Machine bounds: every column of the window has i32 coordinates and
    /// the column count fits in usize.
    pub open spec fn in_bounds(self) -> bool {
        i32::MIN <= self.center.x as int - self.radius as int
        && self.center.x as int + self.radius as int <= i32::MAX
        && i32::MIN <= self.center.z as int - self.radius as int
        && self.center.z as int + self.radius as int <= i32::MAX
        && self.spec_width() * self.spec_width() <= usize::MAX
    }

    /// The window's column at enumeration index `i`, row-major.
    pub open spec fn enum_at(self, i: int) -> ColumnCoord {
        let w = self.spec_width();
        ColumnCoord {
            realm: self.center.realm,
            x: (self.center.x as int - self.radius as int + i / w) as i32,
            z: (self.center.z as int - self.radius as int + i % w) as i32,
        }
    }

    /// Every column of the window, in row-major enumeration order.
    pub open spec fn enum_seq(self) -> Seq<ColumnCoord> {
        Seq::new((self.spec_width() * self.spec_width()) as nat, |i: int| self.enum_at(i))
    }

    /// The columns of this window that `other` does not contain, in
    /// enumeration order.
    pub open spec fn spec_difference(self, other: LoadArea) -> Seq<ColumnCoord> {
        self.enum_seq().filter(|c: ColumnCoord| !other.spec_contains(c))
    }

    pub fn contains(&self, col: ColumnCoord) -> (r: bool)
        ensures
            r == self.spec_contains(col),
    {
        col.realm == self.center.realm && self.center.dist(col) <= self.radius as u64
    }

    /// Every column with `x` in `[center.x - radius, center.x + radius]` and
    /// `z` in `[center.z - radius, center.z + radius]`, row-major.
    pub fn iter(&self) -> (r: Vec<ColumnCoord>)
        requires
            self.in_bounds(),
        ensures
            r@ == self.enum_seq(),
    {
        proof {
            assert(self.spec_width() <= self.spec_width() * self.spec_width())
                by (nonlinear_arith)
                requires self.spec_width() >= 1,
            ;
        }
        let w: usize = 2 * (self.radius as usize) + 1;
        let x0: i64 = self.center.x as i64 - self.radius as i64;
        let z0: i64 = self.center.z as i64 - self.radius as i64;
        let mut out: Vec<ColumnCoord> = Vec::new();
        let mut ix: usize = 0;
        while ix < w
            invariant
                self.in_bounds(),
                w == self.spec_width(),
                x0 == self.center.x as int - self.radius as int,
                z0 == self.center.z as int - self.radius as int,
                ix <= w,
                out@.len() == ix * w,
                forall|k: int| 0 <= k < out@.len() ==> out@[k] == self.enum_at(k),
            decreases w - ix,
        {
            let x: i64 = x0 + ix as i64;
            let mut iz: usize = 0;
            proof {
                assert(ix * w + w <= w * w) by (nonlinear_arith)
                    requires 0 <= ix < w,
                ;
            }
            while iz < w
                invariant
                    self.in_bounds(),
                    w == self.spec_width(),
                    x0 == self.center.x as int - self.radius as int,
                    z0 == self.center.z as int - self.radius as int,
                    ix < w,
                    x == x0 + ix,
                    iz <= w,
                    ix * w + w <= w * w,
                    out@.len() == ix * w + iz,
                    forall|k: int| 0 <= k < out@.len() ==> out@[k] == self.enum_at(k),
                decreases w - iz,
            {
                let z: i64 = z0 + iz as i64;
                let ghost k: int = ix * w + iz;
                out.push(
                    ColumnCoord { realm: self.center.realm, x: x as i32, z: z as i32 },
                );
                proof {
                    lemma_fundamental_div_mod_converse(k, w as int, ix as int, iz as int);
                    assert(out@[k] == self.enum_at(k));
                }
                iz = iz + 1;
            }
            proof {
                assert((ix + 1) * w == ix * w + w) by (nonlinear_arith);
            }
            ix = ix + 1;
        }
        proof {
            assert(out@ =~= self.enum_seq());
        }
        out
    }

    /// The columns of this window that `other` does not contain. Windows in
    /// different realms share nothing, so the whole enumeration is returned.
    pub fn difference(&self, other: &LoadArea) -> (r: Vec<ColumnCoord>)
        requires
            self.in_bounds(),
        ensures
            r@ == self.spec_difference(*other),
    {
        let cols = self.iter();
        if self.center.realm != other.center.realm {
            proof {
                lemma_difference_cross_realm(*self, *other);
            }
            return cols;
        }
        let ghost pred = |c: ColumnCoord| !other.spec_contains(c);
        let mut out: Vec<ColumnCoord> = Vec::new();
        let mut i: usize = 0;
        while i < cols.len()
            invariant
                cols@ == self.enum_seq(),
                i <= cols@.len(),
                out@ == cols@.take(i as int).filter(pred),
                pred == (|c: ColumnCoord| !other.spec_contains(c)),
            decreases cols@.len() - i,
        {
            let c = cols[i];
            proof {
                assert(cols@.take(i as int + 1) =~= cols@.take(i as int).push(c));
                cols@.take(i as int).lemma_filter_push(c, pred);
            }
            if !other.contains(c) {
                out.push(c);
            }
            i = i + 1;
        }
        proof {
            assert(cols@.take(cols@.len() as int) =~= cols@);
        }
        out
    }
}

/// The window as it stood when register and unregister orders were last
/// issued for its observer.
#[derive(Clone, Copy)]
pub struct LoadAreaOld(pub LoadArea);

impl LoadAreaOld {
    pub fn area(&self) -> (r: LoadArea)
        ensures
            r == self.0,
    {
        self.0
    }
}

/// A sequence filtered by a predicate that every element satisfies is the
/// sequence itself.
proof fn lemma_filter_all_true<A>(s: Seq<A>, pred: spec_fn(A) -> bool)
    requires
        forall|i: int| 0 <= i < s.len() ==> pred(#[trigger] s[i]),
    ensures
        s.filter(pred) == s,
    decreases s.len(),
{
    reveal(Seq::filter);
    if s.len() != 0 {
        lemma_filter_all_true(s.drop_last(), pred);
        assert(s.drop_last().push(s.last()) =~= s);
        assert(s.filter(pred) =~= s);
    }
}

/// No column in a window's difference against another window is contained
/// in that other window: what is reported as newly needed is not already
/// satisfied.
pub proof fn lemma_difference_disjoint(a: LoadArea, b: LoadArea)
    ensures
        forall|i: int|
            0 <= i < a.spec_difference(b).len() ==> !b.spec_contains(
                #[trigger] a.spec_difference(b)[i],
            ),
{
    broadcast use vstd::seq_lib::group_filter_ensures;

}

/// Between windows of different realms no overlap is possible: the
/// difference is the first window's whole enumeration.
pub proof fn lemma_difference_cross_realm(a: LoadArea, b: LoadArea)
    requires
        a.center.realm != b.center.realm,
    ensures
        a.spec_difference(b) == a.enum_seq(),
{
    let pred = |c: ColumnCoord| !b.spec_contains(c);
    assert forall|i: int| 0 <= i < a.enum_seq().len() implies pred(#[trigger] a.enum_seq()[i]) by {
        assert(a.enum_seq()[i].realm == a.center.realm);
    }
    lemma_filter_all_true(a.enum_seq(), pred);
}

/// A column is in a window's enumeration iff the window contains it.
pub proof fn lemma_enum_contains(a: LoadArea, c: ColumnCoord)
    requires
        a.in_bounds(),
    ensures
        a.enum_seq().contains(c) <==> a.spec_contains(c),
{
    let w = a.spec_width();
    let n = w * w;
    assert(w >= 1);
    if a.spec_contains(c) {
        let ix = c.x as int - (a.center.x as int - a.radius as int);
        let iz = c.z as int - (a.center.z as int - a.radius as int);
        assert(0 <= ix < w);
        assert(0 <= iz < w);
        let k = ix * w + iz;
        assert(0 <= k && k < n) by (nonlinear_arith)
            requires k == ix * w + iz, 0 <= ix < w, 0 <= iz < w, n == w * w,
        ;
        lemma_fundamental_div_mod_converse(k, w, ix, iz);
        assert(a.enum_seq()[k] == c);
        assert(a.enum_seq().contains(c));
    }
    if a.enum_seq().contains(c) {
        let k = choose|k: int| 0 <= k < a.enum_seq().len() && a.enum_seq()[k] == c;
        lemma_fundamental_div_mod(k, w);
        lemma_mod_bound(k, w);
        assert(k / w < w) by (nonlinear_arith)
            requires k < w * w, w >= 1, k == w * (k / w) + k % w, 0 <= k % w < w,
        ;
        assert(k / w >= 0) by (nonlinear_arith)
            requires k >= 0, w >= 1, k == w * (k / w) + k % w, 0 <= k % w < w,
        ;
        assert(a.spec_contains(c));
    }
}

/// A window of radius zero contains exactly its center column, and its
/// enumeration holds that one column alone.
pub proof fn lemma_radius_zero(a: LoadArea)
    requires
        a.radius == 0,
    ensures
        forall|c: ColumnCoord| a.spec_contains(c) <==> c == a.center,
        a.enum_seq() =~= seq![a.center],
{
    assert forall|c: ColumnCoord| a.spec_contains(c) <==> c == a.center by {
        if a.spec_contains(c) {
            assert(c.x == a.center.x && c.z == a.center.z && c.realm == a.center.realm);
        }
    }
    assert(a.spec_width() == 1);
    assert(a.enum_seq().len() == (a.spec_width() * a.spec_width()) as nat);
    assert(a.enum_seq().len() == 1);
    assert(a.enum_seq()[0] == a.enum_at(0));
    assert(a.enum_at(0) == a.center);
}

} // verus!
