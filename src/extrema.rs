//! Running minimum and maximum of a reading, where a stored minimum of zero
//! means that no minimum has been taken yet.
use vstd::prelude::*;

verus! {

/// The minimum after a reading `v`: the reading replaces a zero (unset) minimum
/// or a larger one.
pub open spec fn next_min(min: int, v: int) -> int {
    if min == 0 || v < min {
        v
    } else {
        min
    }
}

/// The maximum after a reading `v`.
pub open spec fn next_max(max: int, v: int) -> int {
    if v > max {
        v
    } else {
        max
    }
}

/// Running extrema of one quantity.
#[derive(Clone, Copy, Debug, PartialEq, Eq)]
pub struct Extrema {
    pub min: i64,
    pub max: i64,
}

impl Extrema {
    /// The extrema after observing `v`.
    pub open spec fn observed(self, v: int) -> Extrema {
        Extrema { min: next_min(self.min as int, v) as i64, max: next_max(self.max as int, v) as i64 }
    }

    /// No reading taken yet.
    pub fn unset() -> (r: Extrema)
        ensures
            r.min == 0,
            r.max == 0,
    {
        Extrema { min: 0, max: 0 }
    }

    /// Extrema seeded with a first reading.
    pub fn seeded(v: i64) -> (r: Extrema)
        ensures
            r.min == v,
            r.max == v,
    {
        Extrema { min: v, max: v }
    }

    /// Takes a reading into account.
    pub fn observe(&mut self, v: i64)
        ensures
            *final(self) == old(self).observed(v as int),
    {
        if self.min == 0 || v < self.min {
            self.min = v;
        }
        if v > self.max {
            self.max = v;
        }
    }
}

/// After a reading, the minimum is at most the reading and the maximum at least.
pub proof fn lemma_reading_within(min: int, max: int, v: int)
    ensures
        next_min(min, v) <= v <= next_max(max, v),
{
}

/// The first positive reading after nothing was taken sets both extrema to it.
pub proof fn lemma_first_reading(v: int)
    requires
        v > 0,
    ensures
        next_min(0, v) == v,
        next_max(0, v) == v,
{
}

/// Taking the same reading again changes neither extremum.
pub proof fn lemma_same_reading(min: int, max: int, v: int)
    ensures
        next_min(next_min(min, v), v) == next_min(min, v),
        next_max(next_max(max, v), v) == next_max(max, v),
{
}

/// The minimum after a run of readings.
pub open spec fn fold_min(m: int, vs: Seq<int>) -> int
    decreases vs.len(),
{
    if vs.len() == 0 {
        m
    } else {
        next_min(fold_min(m, vs.drop_last()), vs.last())
    }
}

/// The maximum after a run of readings.
pub open spec fn fold_max(m: int, vs: Seq<int>) -> int
    decreases vs.len(),
{
    if vs.len() == 0 {
        m
    } else {
        next_max(fold_max(m, vs.drop_last()), vs.last())
    }
}

/// `x` is at most `y` in the order where zero (an unset minimum) is above
/// every other value.
spec fn unset_above(x: int, y: int) -> bool {
    y == 0 || (x != 0 && x <= y)
}

/// The lesser of `a` and `b` in that order.
spec fn least_set(a: int, b: int) -> int {
    if a == 0 {
        b
    } else if b == 0 {
        a
    } else if a <= b {
        a
    } else {
        b
    }
}

/// Starting a run of readings from `v` instead of `x` ends at least as high,
/// in that order, as the lesser of `v` and where `x` ends.
proof fn lemma_min_track(x: int, v: int, vs: Seq<int>)
    ensures
        unset_above(least_set(fold_min(x, vs), v), fold_min(v, vs)),
    decreases vs.len(),
{
    if vs.len() > 0 {
        lemma_min_track(x, v, vs.drop_last());
    }
}

/// Running the same readings again leaves the minimum where the first run left it.
pub proof fn lemma_fold_min_stable(x: int, vs: Seq<int>)
    ensures
        fold_min(fold_min(x, vs), vs) == fold_min(x, vs),
    decreases vs.len(),
{
    if vs.len() > 0 {
        let p = vs.drop_last();
        let v = vs.last();
        let a = fold_min(x, p);
        let y = next_min(a, v);
        if y == a {
            lemma_fold_min_stable(x, p);
            lemma_fold_min_shift(a, p, v);
        } else {
            lemma_min_track(x, v, p);
            lemma_fold_min_shift(y, p, v);
        }
    }
}

proof fn lemma_fold_min_shift(y: int, p: Seq<int>, v: int)
    ensures
        fold_min(y, p.push(v)) == next_min(fold_min(y, p), v),
{
    assert(p.push(v).drop_last() =~= p);
}

/// The maximum after a run of readings is at least the start and every reading.
pub proof fn lemma_fold_max_bounds(x: int, vs: Seq<int>)
    ensures
        fold_max(x, vs) >= x,
        forall|i: int| 0 <= i < vs.len() ==> fold_max(x, vs) >= #[trigger] vs[i],
    decreases vs.len(),
{
    if vs.len() > 0 {
        lemma_fold_max_bounds(x, vs.drop_last());
        assert forall|i: int| 0 <= i < vs.len() implies fold_max(x, vs) >= #[trigger] vs[i] by {
            if i < vs.len() - 1 {
                assert(vs[i] == vs.drop_last()[i]);
            }
        }
    }
}

proof fn lemma_fold_max_top(z: int, vs: Seq<int>)
    requires
        forall|i: int| 0 <= i < vs.len() ==> z >= #[trigger] vs[i],
    ensures
        fold_max(z, vs) == z,
    decreases vs.len(),
{
    if vs.len() > 0 {
        assert forall|i: int| 0 <= i < vs.drop_last().len() implies z >= #[trigger] vs.drop_last()[i] by {
            assert(vs.drop_last()[i] == vs[i]);
        }
        lemma_fold_max_top(z, vs.drop_last());
        assert(z >= vs[vs.len() - 1]);
    }
}

/// Running the same readings again leaves the maximum where the first run left it.
pub proof fn lemma_fold_max_stable(x: int, vs: Seq<int>)
    ensures
        fold_max(fold_max(x, vs), vs) == fold_max(x, vs),
{
    lemma_fold_max_bounds(x, vs);
    lemma_fold_max_top(fold_max(x, vs), vs);
}

} // verus!
