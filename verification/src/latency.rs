//! The latency samples kept for the metrics panel: a bounded record of the
//! most recent measurements, in microseconds.

use vstd::prelude::*;

verus! {

/// More samples than this are never kept.
pub const MAX_LATENCY_SAMPLES: usize = 10000;

/// When the record grows past its bound, this many of the oldest samples
/// are dropped at once.
pub const LATENCY_SAMPLES_DROPPED: usize = 5000;

/// The samples after `us` is recorded: it goes last, and when that makes
/// the record longer than its bound, the oldest samples are dropped.
pub open spec fn recorded(s: Seq<u64>, us: u64) -> Seq<u64> {
    let t = s.push(us);
    if t.len() > MAX_LATENCY_SAMPLES {
        t.skip(LATENCY_SAMPLES_DROPPED as int)
    } else {
        t
    }
}

/// Records a measurement of `us` microseconds.
pub fn record_sample(samples: &mut Vec<u64>, us: u64)
    requires
        old(samples)@.len() <= MAX_LATENCY_SAMPLES,
    ensures
        final(samples)@ == recorded(old(samples)@, us),
{
    samples.push(us);
    if samples.len() > MAX_LATENCY_SAMPLES {
        let ghost t = samples@;
        let mut kept: Vec<u64> = Vec::new();
        let n = samples.len();
        let mut i: usize = LATENCY_SAMPLES_DROPPED;
        while i < n
            invariant
                n == t.len(),
                samples@ == t,
                LATENCY_SAMPLES_DROPPED <= i <= n,
                kept@ == t.subrange(LATENCY_SAMPLES_DROPPED as int, i as int),
            decreases n - i,
        {
            kept.push(samples[i]);
            i = i + 1;
            assert(t.subrange(LATENCY_SAMPLES_DROPPED as int, i as int)
                =~= t.subrange(LATENCY_SAMPLES_DROPPED as int, i - 1).push(t[i - 1]));
        }
        assert(kept@ =~= t.skip(LATENCY_SAMPLES_DROPPED as int));
        *samples = kept;
    }
}

/// However many samples are recorded, starting from a record within its
/// bound, the record stays within its bound and keeps the latest sample
/// last.
pub proof fn law_samples_bounded(s: Seq<u64>, us: u64)
    requires
        s.len() <= MAX_LATENCY_SAMPLES,
    ensures
        recorded(s, us).len() <= MAX_LATENCY_SAMPLES,
        recorded(s, us).len() > 0,
        recorded(s, us).last() == us,
{
}


/// How many of the samples are below `x`.
pub open spec fn count_below(s: Seq<u64>, x: u64) -> nat
    decreases s.len(),
{
    if s.len() == 0 {
        0
    } else {
        count_below(s.drop_last(), x) + if s.last() < x { 1nat } else { 0nat }
    }
}

/// How many of the samples are at most `x`.
pub open spec fn count_at_most(s: Seq<u64>, x: u64) -> nat
    decreases s.len(),
{
    if s.len() == 0 {
        0
    } else {
        count_at_most(s.drop_last(), x) + if s.last() <= x { 1nat } else { 0nat }
    }
}

/// Counting splits over concatenation.
proof fn lemma_counts_append(a: Seq<u64>, b: Seq<u64>, x: u64)
    ensures
        count_below(a + b, x) == count_below(a, x) + count_below(b, x),
        count_at_most(a + b, x) == count_at_most(a, x) + count_at_most(b, x),
    decreases b.len(),
{
    if b.len() == 0 {
        assert(a + b =~= a);
    } else {
        lemma_counts_append(a, b.drop_last(), x);
        assert((a + b).drop_last() =~= a + b.drop_last());
        assert((a + b).last() == b.last());
    }
}

/// Inserting a sample anywhere counts it once.
proof fn lemma_counts_insert(s: Seq<u64>, p: int, v: u64, x: u64)
    requires
        0 <= p <= s.len(),
    ensures
        count_below(s.insert(p, v), x) == count_below(s, x) + if v < x { 1nat } else { 0nat },
        count_at_most(s.insert(p, v), x) == count_at_most(s, x) + if v <= x { 1nat } else { 0nat },
{
    let a = s.take(p);
    let b = s.skip(p);
    assert(s.insert(p, v) =~= a + seq![v] + b);
    assert(s =~= a + b);
    lemma_counts_append(a + seq![v], b, x);
    lemma_counts_append(a, seq![v], x);
    lemma_counts_append(a, b, x);
    let one = seq![v];
    assert(one.drop_last() =~= Seq::<u64>::empty());
    assert(one.last() == v);
    assert(one.drop_last().len() == 0);
    assert(count_below(one.drop_last(), x) == 0);
    assert(count_at_most(one.drop_last(), x) == 0);
    assert(count_below(one, x) == if v < x { 1nat } else { 0nat });
    assert(count_at_most(one, x) == if v <= x { 1nat } else { 0nat });
}

/// At most as many samples are counted as there are.
proof fn lemma_counts_bounded(s: Seq<u64>, x: u64)
    ensures
        count_below(s, x) <= s.len(),
        count_at_most(s, x) <= s.len(),
    decreases s.len(),
{
    if s.len() > 0 {
        lemma_counts_bounded(s.drop_last(), x);
    }
}

/// Samples all at least `x` count none below it; samples all at most `x`
/// all count as at most `x`.
proof fn lemma_counts_uniform(s: Seq<u64>, x: u64)
    ensures
        (forall|i: int| 0 <= i < s.len() ==> s[i] >= x) ==> count_below(s, x) == 0,
        (forall|i: int| 0 <= i < s.len() ==> s[i] <= x) ==> count_at_most(s, x) == s.len(),
    decreases s.len(),
{
    if s.len() > 0 {
        lemma_counts_uniform(s.drop_last(), x);
        if forall|i: int| 0 <= i < s.len() ==> s[i] >= x {
            assert forall|i: int| 0 <= i < s.drop_last().len() implies s.drop_last()[i] >= x by {
                assert(s.drop_last()[i] == s[i]);
            }
        }
        if forall|i: int| 0 <= i < s.len() ==> s[i] <= x {
            assert forall|i: int| 0 <= i < s.drop_last().len() implies s.drop_last()[i] <= x by {
                assert(s.drop_last()[i] == s[i]);
            }
        }
    }
}

/// A value with more samples at most it than below it is one of them.
pub proof fn lemma_counted_value_present(s: Seq<u64>, x: u64)
    requires
        count_below(s, x) < count_at_most(s, x),
    ensures
        s.contains(x),
    decreases s.len(),
{
    if s.last() != x {
        lemma_counted_value_present(s.drop_last(), x);
        let i = choose|i: int| 0 <= i < s.drop_last().len() && s.drop_last()[i] == x;
        assert(s[i] == x);
    } else {
        assert(s[s.len() - 1] == x);
    }
}

/// The samples in non-decreasing order.
pub open spec fn ascending(s: Seq<u64>) -> bool {
    forall|i: int, j: int| 0 <= i <= j < s.len() ==> s[i] <= s[j]
}

/// A copy of the samples in non-decreasing order: every value is counted
/// alike in both.
fn sorted_copy(values: &Vec<u64>) -> (t: Vec<u64>)
    ensures
        ascending(t@),
        t@.len() == values@.len(),
        forall|x: u64| count_below(#[trigger] t@, x) == count_below(values@, x)
            && count_at_most(t@, x) == count_at_most(values@, x),
{
    let n = values.len();
    let mut t: Vec<u64> = Vec::new();
    let mut i: usize = 0;
    proof {
        assert(values@.take(0) =~= Seq::<u64>::empty());
    }
    while i < n
        invariant
            n == values@.len(),
            i <= n,
            ascending(t@),
            t@.len() == i,
            forall|x: u64| count_below(#[trigger] t@, x) == count_below(values@.take(i as int), x)
                && count_at_most(t@, x) == count_at_most(values@.take(i as int), x),
        decreases n - i,
    {
        let v = values[i];
        let m = t.len();
        let mut p: usize = 0;
        while p < m && t[p] <= v
            invariant
                m == t@.len(),
                p <= m,
                forall|j: int| 0 <= j < p ==> t@[j] <= v,
            decreases m - p,
        {
            p = p + 1;
        }
        let ghost before = t@;
        t.insert(p, v);
        proof {
            assert forall|a: int, b: int| 0 <= a <= b < t@.len() implies t@[a] <= t@[b] by {
                if b < p {
                    assert(t@[a] == before[a] && t@[b] == before[b]);
                } else if b == p {
                    if a < p {
                        assert(t@[a] == before[a]);
                    }
                } else if a < p {
                    assert(t@[a] == before[a] && t@[b] == before[b - 1]);
                } else if a == p {
                    assert(t@[b] == before[b - 1]);
                    assert(before[p as int] > v);
                } else {
                    assert(t@[a] == before[a - 1] && t@[b] == before[b - 1]);
                }
            }
            let w = values@.take(i + 1);
            assert(w.drop_last() =~= values@.take(i as int));
            assert(w.last() == v);
            assert forall|x: u64| count_below(#[trigger] t@, x) == count_below(w, x)
                && count_at_most(t@, x) == count_at_most(w, x) by {
                lemma_counts_insert(before, p as int, v, x);
            }
        }
        i = i + 1;
    }
    proof {
        assert(values@.take(n as int) =~= values@);
    }
    t
}

/// The sample of rank `rank` (counted from zero) in non-decreasing order:
/// at most `rank` samples are below it, and more than `rank` are at most
/// it.
pub fn nth_smallest(values: &Vec<u64>, rank: usize) -> (r: u64)
    requires
        rank < values@.len(),
    ensures
        values@.contains(r),
        count_below(values@, r) <= rank < count_at_most(values@, r),
{
    let t = sorted_copy(values);
    let r = t[rank];
    proof {
        let s = t@;
        let lo = s.take(rank as int);
        let hi = s.skip(rank as int);
        assert(s =~= lo + hi);
        lemma_counts_append(lo, hi, r);
        assert forall|i: int| 0 <= i < hi.len() implies hi[i] >= r by {
            assert(hi[i] == s[rank + i]);
        }
        lemma_counts_uniform(hi, r);
        lemma_counts_bounded(lo, r);
        let lo1 = s.take(rank + 1);
        let hi1 = s.skip(rank + 1);
        assert(s =~= lo1 + hi1);
        lemma_counts_append(lo1, hi1, r);
        assert forall|i: int| 0 <= i < lo1.len() implies lo1[i] <= r by {
            assert(lo1[i] == s[i]);
        }
        lemma_counts_uniform(lo1, r);
        assert(count_below(s, r) == count_below(values@, r));
        lemma_counted_value_present(values@, r);
    }
    r
}

} // verus!
