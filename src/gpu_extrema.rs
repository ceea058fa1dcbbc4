//! The running extrema of each GPU identity: how one poll updates them, and
//! what holds of them from poll to poll.
use vstd::prelude::*;
use crate::extrema::{fold_max, fold_min, lemma_fold_max_bounds, lemma_fold_max_stable, lemma_fold_min_stable, Extrema};
use crate::gpu::{identity, GpuInfo};

verus! {

/// Running extrema of the five tracked quantities of one GPU identity.
#[derive(Clone, Copy, Debug, PartialEq, Eq)]
pub struct GpuExtrema {
    pub usage_percent: Extrema,
    pub memory_percent: Extrema,
    pub edge_temp: Extrema,
    pub junction_temp: Extrema,
    pub memory_temp: Extrema,
}

/// Extrema seeded with every quantity of a first reading.
pub open spec fn seed(g: GpuInfo) -> GpuExtrema {
    GpuExtrema {
        usage_percent: Extrema { min: g.usage_percent, max: g.usage_percent },
        memory_percent: Extrema { min: g.memory_percent, max: g.memory_percent },
        edge_temp: Extrema { min: g.edge_temp, max: g.edge_temp },
        junction_temp: Extrema { min: g.junction_temp, max: g.junction_temp },
        memory_temp: Extrema { min: g.memory_temp, max: g.memory_temp },
    }
}

/// Extrema after a further reading.
pub open spec fn observe_gpu(e: GpuExtrema, g: GpuInfo) -> GpuExtrema {
    GpuExtrema {
        usage_percent: e.usage_percent.observed(g.usage_percent as int),
        memory_percent: e.memory_percent.observed(g.memory_percent as int),
        edge_temp: e.edge_temp.observed(g.edge_temp as int),
        junction_temp: e.junction_temp.observed(g.junction_temp as int),
        memory_temp: e.memory_temp.observed(g.memory_temp as int),
    }
}

/// The table after one reading: its identity's extrema are updated, or seeded
/// when the identity is new.
pub open spec fn step(m: Map<Seq<char>, GpuExtrema>, g: GpuInfo) -> Map<Seq<char>, GpuExtrema> {
    let k = identity(g);
    m.insert(k, if m.contains_key(k) { observe_gpu(m[k], g) } else { seed(g) })
}

/// The table after the readings of one poll, in order.
pub open spec fn fold_readings(m: Map<Seq<char>, GpuExtrema>, gs: Seq<GpuInfo>) -> Map<
    Seq<char>,
    GpuExtrema,
>
    decreases gs.len(),
{
    if gs.len() == 0 {
        m
    } else {
        step(fold_readings(m, gs.drop_last()), gs.last())
    }
}

/// The identities present in an inventory.
pub open spec fn identities(gs: Seq<GpuInfo>) -> Set<Seq<char>> {
    Set::new(|k: Seq<char>| exists|i: int| 0 <= i < gs.len() && identity(gs[i]) == k)
}

/// The table after a poll: every reading taken in, then every identity that the
/// poll did not see removed.
pub open spec fn reconcile(m: Map<Seq<char>, GpuExtrema>, gs: Seq<GpuInfo>) -> Map<
    Seq<char>,
    GpuExtrema,
> {
    fold_readings(m, gs).restrict(identities(gs))
}

/// Every tracked quantity of `g` lies within its extrema in `e`.
pub open spec fn within(e: GpuExtrema, g: GpuInfo) -> bool {
    &&& e.usage_percent.min <= g.usage_percent <= e.usage_percent.max
    &&& e.memory_percent.min <= g.memory_percent <= e.memory_percent.max
    &&& e.edge_temp.min <= g.edge_temp <= e.edge_temp.max
    &&& e.junction_temp.min <= g.junction_temp <= e.junction_temp.max
    &&& e.memory_temp.min <= g.memory_temp <= e.memory_temp.max
}

/// No GPU after position `i` shares the identity of GPU `i`.
pub open spec fn last_of_identity(gs: Seq<GpuInfo>, i: int) -> bool {
    forall|j: int| i < j < gs.len() ==> identity(#[trigger] gs[j]) != identity(gs[i])
}

/// No other GPU shares the identity of GPU `i`.
pub open spec fn sole_of_identity(gs: Seq<GpuInfo>, i: int) -> bool {
    forall|j: int| 0 <= j < gs.len() && j != i ==> identity(#[trigger] gs[j]) != identity(gs[i])
}

proof fn lemma_fold_append(m: Map<Seq<char>, GpuExtrema>, a: Seq<GpuInfo>, b: Seq<GpuInfo>)
    ensures
        fold_readings(m, a + b) == fold_readings(fold_readings(m, a), b),
    decreases b.len(),
{
    if b.len() == 0 {
        assert(a + b =~= a);
    } else {
        assert((a + b).drop_last() =~= a + b.drop_last());
        assert((a + b).last() == b.last());
        lemma_fold_append(m, a, b.drop_last());
    }
}

proof fn lemma_fold_untouched(m: Map<Seq<char>, GpuExtrema>, gs: Seq<GpuInfo>, k: Seq<char>)
    requires
        forall|j: int| 0 <= j < gs.len() ==> identity(#[trigger] gs[j]) != k,
    ensures
        fold_readings(m, gs).contains_key(k) == m.contains_key(k),
        m.contains_key(k) ==> fold_readings(m, gs)[k] == m[k],
    decreases gs.len(),
{
    if gs.len() > 0 {
        assert(identity(gs[gs.len() - 1]) != k);
        lemma_fold_untouched(m, gs.drop_last(), k);
    }
}

proof fn lemma_fold_domain(m: Map<Seq<char>, GpuExtrema>, gs: Seq<GpuInfo>)
    ensures
        forall|k: Seq<char>| #[trigger] fold_readings(m, gs).contains_key(k) <==> (m.contains_key(k) || identities(gs).contains(k)),
    decreases gs.len(),
{
    if gs.len() > 0 {
        let p = gs.drop_last();
        lemma_fold_domain(m, p);
        let f = fold_readings(m, gs);
        assert(f == step(fold_readings(m, p), gs.last()));
        assert forall|k: Seq<char>| #[trigger] f.contains_key(k) <==> (m.contains_key(k) || identities(gs).contains(k)) by {
            assert(f.contains_key(k) <==> (fold_readings(m, p).contains_key(k) || k == identity(gs.last())));
            if identities(p).contains(k) {
                let j = choose|j: int| 0 <= j < p.len() && identity(p[j]) == k;
                assert(identity(gs[j]) == k);
                assert(identities(gs).contains(k));
            }
            if k == identity(gs.last()) {
                assert(identity(gs[gs.len() - 1]) == k);
                assert(identities(gs).contains(k));
            }
            if identities(gs).contains(k) {
                let j = choose|j: int| 0 <= j < gs.len() && identity(gs[j]) == k;
                if j < gs.len() - 1 {
                    assert(identity(p[j]) == k);
                    assert(identities(p).contains(k));
                }
            }
        }
    }
}

/// The extrema of the last reading of an identity in a poll.
proof fn lemma_fold_at_last(m: Map<Seq<char>, GpuExtrema>, gs: Seq<GpuInfo>, i: int)
    requires
        0 <= i < gs.len(),
        last_of_identity(gs, i),
    ensures
        ({
            let before = fold_readings(m, gs.subrange(0, i));
            let k = identity(gs[i]);
            &&& fold_readings(m, gs).contains_key(k)
            &&& fold_readings(m, gs)[k] == if before.contains_key(k) {
                observe_gpu(before[k], gs[i])
            } else {
                seed(gs[i])
            }
        }),
{
    let k = identity(gs[i]);
    let head = gs.subrange(0, i + 1);
    let tail = gs.subrange(i + 1, gs.len() as int);
    assert(gs =~= head + tail);
    lemma_fold_append(m, head, tail);
    assert(head.drop_last() =~= gs.subrange(0, i));
    assert(head.last() == gs[i]);
    assert forall|j: int| 0 <= j < tail.len() implies identity(#[trigger] tail[j]) != k by {
        assert(tail[j] == gs[i + 1 + j]);
    }
    lemma_fold_untouched(fold_readings(m, head), tail, k);
}

proof fn lemma_observe_within(e: GpuExtrema, g: GpuInfo)
    ensures
        within(observe_gpu(e, g), g),
        within(seed(g), g),
{
}

/// Once a poll is taken in, every GPU's readings lie within the extrema of its
/// identity (for the last GPU of each identity, whose reading is taken last).
pub proof fn lemma_readings_within_extrema(m: Map<Seq<char>, GpuExtrema>, gs: Seq<GpuInfo>, i: int)
    requires
        0 <= i < gs.len(),
        last_of_identity(gs, i),
    ensures
        reconcile(m, gs).contains_key(identity(gs[i])),
        within(reconcile(m, gs)[identity(gs[i])], gs[i]),
{
    lemma_fold_at_last(m, gs, i);
    let before = fold_readings(m, gs.subrange(0, i));
    if before.contains_key(identity(gs[i])) {
        lemma_observe_within(before[identity(gs[i])], gs[i]);
    } else {
        lemma_observe_within(seed(gs[i]), gs[i]);
    }
    assert(identities(gs).contains(identity(gs[i])));
}

/// An identity that a poll does not see has no extrema after it.
pub proof fn lemma_absent_identity_evicted(m: Map<Seq<char>, GpuExtrema>, gs: Seq<GpuInfo>, k: Seq<char>)
    requires
        forall|j: int| 0 <= j < gs.len() ==> identity(#[trigger] gs[j]) != k,
    ensures
        !reconcile(m, gs).contains_key(k),
{
    if identities(gs).contains(k) {
        let j = choose|j: int| 0 <= j < gs.len() && identity(gs[j]) == k;
        assert(identity(gs[j]) != k);
    }
}

/// An identity that first appears in a poll gets extrema seeded with its
/// reading: minimum and maximum both equal to it.
pub proof fn lemma_new_identity_seeded(m: Map<Seq<char>, GpuExtrema>, gs: Seq<GpuInfo>, i: int)
    requires
        0 <= i < gs.len(),
        !m.contains_key(identity(gs[i])),
        sole_of_identity(gs, i),
    ensures
        reconcile(m, gs).contains_key(identity(gs[i])),
        reconcile(m, gs)[identity(gs[i])] == seed(gs[i]),
{
    let k = identity(gs[i]);
    lemma_fold_at_last(m, gs, i);
    assert forall|j: int| 0 <= j < gs.subrange(0, i).len() implies identity(#[trigger] gs.subrange(0, i)[j]) != k by {
        assert(gs.subrange(0, i)[j] == gs[j]);
    }
    lemma_fold_untouched(m, gs.subrange(0, i), k);
    assert(identities(gs).contains(k));
}

/// The readings of identity `k` in a poll, in order.
pub open spec fn readings_of(gs: Seq<GpuInfo>, k: Seq<char>) -> Seq<GpuInfo>
    decreases gs.len(),
{
    if gs.len() == 0 {
        Seq::empty()
    } else if identity(gs.last()) == k {
        readings_of(gs.drop_last(), k).push(gs.last())
    } else {
        readings_of(gs.drop_last(), k)
    }
}

/// The extrema recorded for `k`, if any.
pub open spec fn entry(m: Map<Seq<char>, GpuExtrema>, k: Seq<char>) -> Option<GpuExtrema> {
    if m.contains_key(k) {
        Some(m[k])
    } else {
        None
    }
}

/// The record of one identity after its readings: seeded by the first when there
/// was none, updated by the others.
pub open spec fn fold_key(o: Option<GpuExtrema>, rs: Seq<GpuInfo>) -> Option<GpuExtrema>
    decreases rs.len(),
{
    if rs.len() == 0 {
        o
    } else {
        match fold_key(o, rs.drop_last()) {
            Some(e) => Some(observe_gpu(e, rs.last())),
            None => Some(seed(rs.last())),
        }
    }
}

/// Extrema after a run of readings.
pub open spec fn fold_record(e: GpuExtrema, rs: Seq<GpuInfo>) -> GpuExtrema
    decreases rs.len(),
{
    if rs.len() == 0 {
        e
    } else {
        observe_gpu(fold_record(e, rs.drop_last()), rs.last())
    }
}

proof fn lemma_fold_by_key(m: Map<Seq<char>, GpuExtrema>, gs: Seq<GpuInfo>, k: Seq<char>)
    ensures
        entry(fold_readings(m, gs), k) == fold_key(entry(m, k), readings_of(gs, k)),
    decreases gs.len(),
{
    if gs.len() > 0 {
        lemma_fold_by_key(m, gs.drop_last(), k);
        if identity(gs.last()) == k {
            assert(readings_of(gs, k).drop_last() =~= readings_of(gs.drop_last(), k));
        }
    }
}

proof fn lemma_readings_present(gs: Seq<GpuInfo>, k: Seq<char>)
    requires
        identities(gs).contains(k),
    ensures
        readings_of(gs, k).len() > 0,
    decreases gs.len(),
{
    let j = choose|j: int| 0 <= j < gs.len() && identity(gs[j]) == k;
    if identity(gs.last()) != k {
        assert(identity(gs.drop_last()[j]) == k);
        lemma_readings_present(gs.drop_last(), k);
    }
}

proof fn lemma_fold_key_some(e: GpuExtrema, rs: Seq<GpuInfo>)
    ensures
        fold_key(Some(e), rs) == Some(fold_record(e, rs)),
    decreases rs.len(),
{
    if rs.len() > 0 {
        lemma_fold_key_some(e, rs.drop_last());
    }
}

proof fn lemma_fold_key_none(rs: Seq<GpuInfo>)
    requires
        rs.len() > 0,
    ensures
        fold_key(None, rs) == Some(fold_record(seed(rs[0]), rs)),
    decreases rs.len(),
{
    if rs.len() == 1 {
        let g = rs[0];
        assert(rs.drop_last() =~= Seq::<GpuInfo>::empty());
        assert(rs.last() == g);
        assert(fold_record(seed(g), rs.drop_last()) == seed(g));
        assert(fold_key(None, rs.drop_last()) is None);
        let o = observe_gpu(seed(g), g);
        assert(o.usage_percent == seed(g).usage_percent);
        assert(o.memory_percent == seed(g).memory_percent);
        assert(o.edge_temp == seed(g).edge_temp);
        assert(o.junction_temp == seed(g).junction_temp);
        assert(o.memory_temp == seed(g).memory_temp);
        assert(o == seed(g));
    } else {
        lemma_fold_key_none(rs.drop_last());
        assert(rs.drop_last()[0] == rs[0]);
    }
}

pub open spec fn usage_run(rs: Seq<GpuInfo>) -> Seq<int> {
    rs.map_values(|g: GpuInfo| g.usage_percent as int)
}

pub open spec fn memory_percent_run(rs: Seq<GpuInfo>) -> Seq<int> {
    rs.map_values(|g: GpuInfo| g.memory_percent as int)
}

pub open spec fn edge_run(rs: Seq<GpuInfo>) -> Seq<int> {
    rs.map_values(|g: GpuInfo| g.edge_temp as int)
}

pub open spec fn junction_run(rs: Seq<GpuInfo>) -> Seq<int> {
    rs.map_values(|g: GpuInfo| g.junction_temp as int)
}

pub open spec fn memory_temp_run(rs: Seq<GpuInfo>) -> Seq<int> {
    rs.map_values(|g: GpuInfo| g.memory_temp as int)
}

/// Each quantity of a record runs through its own readings.
proof fn lemma_fold_record_split(e: GpuExtrema, rs: Seq<GpuInfo>)
    ensures
        fold_record(e, rs).usage_percent.min == fold_min(e.usage_percent.min as int, usage_run(rs)),
        fold_record(e, rs).usage_percent.max == fold_max(e.usage_percent.max as int, usage_run(rs)),
        fold_record(e, rs).memory_percent.min == fold_min(e.memory_percent.min as int, memory_percent_run(rs)),
        fold_record(e, rs).memory_percent.max == fold_max(e.memory_percent.max as int, memory_percent_run(rs)),
        fold_record(e, rs).edge_temp.min == fold_min(e.edge_temp.min as int, edge_run(rs)),
        fold_record(e, rs).edge_temp.max == fold_max(e.edge_temp.max as int, edge_run(rs)),
        fold_record(e, rs).junction_temp.min == fold_min(e.junction_temp.min as int, junction_run(rs)),
        fold_record(e, rs).junction_temp.max == fold_max(e.junction_temp.max as int, junction_run(rs)),
        fold_record(e, rs).memory_temp.min == fold_min(e.memory_temp.min as int, memory_temp_run(rs)),
        fold_record(e, rs).memory_temp.max == fold_max(e.memory_temp.max as int, memory_temp_run(rs)),
    decreases rs.len(),
{
    if rs.len() > 0 {
        let p = rs.drop_last();
        lemma_fold_record_split(e, p);
        assert(usage_run(rs).drop_last() =~= usage_run(p));
        assert(memory_percent_run(rs).drop_last() =~= memory_percent_run(p));
        assert(edge_run(rs).drop_last() =~= edge_run(p));
        assert(junction_run(rs).drop_last() =~= junction_run(p));
        assert(memory_temp_run(rs).drop_last() =~= memory_temp_run(p));
    }
}

proof fn lemma_fold_record_stable(e: GpuExtrema, rs: Seq<GpuInfo>)
    ensures
        fold_record(fold_record(e, rs), rs) == fold_record(e, rs),
{
    let e1 = fold_record(e, rs);
    lemma_fold_record_split(e, rs);
    lemma_fold_record_split(e1, rs);
    lemma_fold_min_stable(e.usage_percent.min as int, usage_run(rs));
    lemma_fold_max_stable(e.usage_percent.max as int, usage_run(rs));
    lemma_fold_min_stable(e.memory_percent.min as int, memory_percent_run(rs));
    lemma_fold_max_stable(e.memory_percent.max as int, memory_percent_run(rs));
    lemma_fold_min_stable(e.edge_temp.min as int, edge_run(rs));
    lemma_fold_max_stable(e.edge_temp.max as int, edge_run(rs));
    lemma_fold_min_stable(e.junction_temp.min as int, junction_run(rs));
    lemma_fold_max_stable(e.junction_temp.max as int, junction_run(rs));
    lemma_fold_min_stable(e.memory_temp.min as int, memory_temp_run(rs));
    lemma_fold_max_stable(e.memory_temp.max as int, memory_temp_run(rs));
}

proof fn lemma_reading_listed(gs: Seq<GpuInfo>, i: int)
    requires
        0 <= i < gs.len(),
    ensures
        exists|p: int| 0 <= p < readings_of(gs, identity(gs[i])).len() && #[trigger] readings_of(gs, identity(gs[i]))[p] == gs[i],
    decreases gs.len(),
{
    let k = identity(gs[i]);
    if i == gs.len() - 1 {
        let r = readings_of(gs, k);
        assert(r[r.len() - 1] == gs[i]);
    } else {
        lemma_reading_listed(gs.drop_last(), i);
        assert(gs.drop_last()[i] == gs[i]);
        let p = choose|p: int| 0 <= p < readings_of(gs.drop_last(), k).len() && #[trigger] readings_of(gs.drop_last(), k)[p] == gs[i];
        assert(readings_of(gs, k)[p] == gs[i]);
    }
}

/// Every quantity of a reading is at most the maximum of `e` after a run of
/// readings that holds it.
proof fn lemma_run_below_maxima(e: GpuExtrema, rs: Seq<GpuInfo>, p: int)
    requires
        0 <= p < rs.len(),
    ensures
        rs[p].usage_percent <= fold_record(e, rs).usage_percent.max,
        rs[p].memory_percent <= fold_record(e, rs).memory_percent.max,
        rs[p].edge_temp <= fold_record(e, rs).edge_temp.max,
        rs[p].junction_temp <= fold_record(e, rs).junction_temp.max,
        rs[p].memory_temp <= fold_record(e, rs).memory_temp.max,
{
    lemma_fold_record_split(e, rs);
    lemma_fold_max_bounds(e.usage_percent.max as int, usage_run(rs));
    lemma_fold_max_bounds(e.memory_percent.max as int, memory_percent_run(rs));
    lemma_fold_max_bounds(e.edge_temp.max as int, edge_run(rs));
    lemma_fold_max_bounds(e.junction_temp.max as int, junction_run(rs));
    lemma_fold_max_bounds(e.memory_temp.max as int, memory_temp_run(rs));
    assert(usage_run(rs)[p] == rs[p].usage_percent);
    assert(memory_percent_run(rs)[p] == rs[p].memory_percent);
    assert(edge_run(rs)[p] == rs[p].edge_temp);
    assert(junction_run(rs)[p] == rs[p].junction_temp);
    assert(memory_temp_run(rs)[p] == rs[p].memory_temp);
}

/// Once a poll is taken in, every quantity of every GPU of the poll is at most
/// the maximum recorded for its identity.
pub proof fn lemma_readings_below_maxima(m: Map<Seq<char>, GpuExtrema>, gs: Seq<GpuInfo>, i: int)
    requires
        0 <= i < gs.len(),
    ensures
        reconcile(m, gs).contains_key(identity(gs[i])),
        ({
            let e = reconcile(m, gs)[identity(gs[i])];
            &&& gs[i].usage_percent <= e.usage_percent.max
            &&& gs[i].memory_percent <= e.memory_percent.max
            &&& gs[i].edge_temp <= e.edge_temp.max
            &&& gs[i].junction_temp <= e.junction_temp.max
            &&& gs[i].memory_temp <= e.memory_temp.max
        }),
{
    let k = identity(gs[i]);
    assert(identities(gs).contains(k));
    lemma_fold_domain(m, gs);
    lemma_fold_by_key(m, gs, k);
    lemma_reading_listed(gs, i);
    let rk = readings_of(gs, k);
    let p = choose|p: int| 0 <= p < rk.len() && #[trigger] rk[p] == gs[i];
    if m.contains_key(k) {
        lemma_fold_key_some(m[k], rk);
        lemma_run_below_maxima(m[k], rk, p);
    } else {
        lemma_fold_key_none(rk);
        lemma_run_below_maxima(seed(rk[0]), rk, p);
    }
}

/// Taking in the same poll twice leaves the extrema as the first time did.
pub proof fn lemma_repeat_poll_stable(m: Map<Seq<char>, GpuExtrema>, gs: Seq<GpuInfo>)
    ensures
        reconcile(reconcile(m, gs), gs) == reconcile(m, gs),
{
    let r1 = reconcile(m, gs);
    let r2 = reconcile(r1, gs);
    lemma_fold_domain(m, gs);
    lemma_fold_domain(r1, gs);
    assert forall|k: Seq<char>| #[trigger] r2.contains_key(k) implies r1.contains_key(k) && r2[k] == r1[k] by {
        lemma_readings_present(gs, k);
        let rk = readings_of(gs, k);
        lemma_fold_by_key(m, gs, k);
        lemma_fold_by_key(r1, gs, k);
        let e1 = r1[k];
        lemma_fold_key_some(e1, rk);
        if m.contains_key(k) {
            lemma_fold_key_some(m[k], rk);
            lemma_fold_record_stable(m[k], rk);
        } else {
            lemma_fold_key_none(rk);
            lemma_fold_record_stable(seed(rk[0]), rk);
        }
    }
    assert(r2 =~= r1);
}

} // verus!
