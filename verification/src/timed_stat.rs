//! Sliding-window statistics of timestamped values.
//!
//! Values are kept for `window` nanoseconds behind the latest timestamp;
//! the window's sum and sum of squares are maintained exactly, from which a
//! mean rate and its variance follow.

use vstd::prelude::*;

verus! {

/// Sum of the values of `s`.
pub open spec fn sum_values(s: Seq<(i64, u32)>) -> int
    decreases s.len(),
{
    if s.len() == 0 {
        0
    } else {
        s[0].1 + sum_values(s.drop_first())
    }
}

/// Sum of the squared values of `s`.
pub open spec fn sum_squares(s: Seq<(i64, u32)>) -> int
    decreases s.len(),
{
    if s.len() == 0 {
        0
    } else {
        s[0].1 * s[0].1 + sum_squares(s.drop_first())
    }
}

/// Timestamps never decrease along `s`.
pub open spec fn time_sorted(s: Seq<(i64, u32)>) -> bool {
    forall|i: int, j: int| 0 <= i <= j < s.len() ==> #[trigger] s[i].0 <= #[trigger] s[j].0
}

/// The number of leading entries with a timestamp at most `t`.
pub open spec fn count_le(s: Seq<(i64, u32)>, t: int) -> nat
    decreases s.len(),
{
    if s.len() == 0 || s[0].0 > t {
        0
    } else {
        1 + count_le(s.drop_first(), t)
    }
}

/// The number of leading entries with a timestamp below `t`.
pub open spec fn count_lt(s: Seq<(i64, u32)>, t: int) -> nat
    decreases s.len(),
{
    if s.len() == 0 || s[0].0 >= t {
        0
    } else {
        1 + count_lt(s.drop_first(), t)
    }
}

/// `s` with `e` placed after every entry that is not later than it.
pub open spec fn insert_by_time(s: Seq<(i64, u32)>, e: (i64, u32)) -> Seq<(i64, u32)> {
    let j = count_le(s, e.0 as int) as int;
    s.take(j) + seq![e] + s.skip(j)
}

/// The largest value squared.
pub open spec fn max_square() -> int {
    4294967295int * 4294967295int
}

proof fn lemma_sums_append(s: Seq<(i64, u32)>, t: Seq<(i64, u32)>)
    ensures
        sum_values(s + t) == sum_values(s) + sum_values(t),
        sum_squares(s + t) == sum_squares(s) + sum_squares(t),
    decreases s.len(),
{
    if s.len() == 0 {
        assert(s + t =~= t);
    } else {
        assert((s + t).drop_first() =~= s.drop_first() + t);
        lemma_sums_append(s.drop_first(), t);
    }
}

proof fn lemma_sums_single(e: (i64, u32))
    ensures
        sum_values(seq![e]) == e.1,
        sum_squares(seq![e]) == e.1 * e.1,
{
    reveal_with_fuel(sum_values, 2);
    reveal_with_fuel(sum_squares, 2);
    assert(seq![e].drop_first() =~= Seq::<(i64, u32)>::empty());
}

proof fn lemma_sums_bound(s: Seq<(i64, u32)>)
    ensures
        0 <= sum_values(s) <= s.len() * 4294967295,
        0 <= sum_squares(s) <= s.len() * max_square(),
    decreases s.len(),
{
    if s.len() > 0 {
        lemma_sums_bound(s.drop_first());
        let v = s[0].1;
        let m = max_square();
        let l = s.drop_first().len();
        assert(0 <= v * v <= m) by (nonlinear_arith)
            requires
                0 <= v <= 4294967295,
                m == 4294967295int * 4294967295int,
        ;
        assert((l + 1) * m == l * m + m) by (nonlinear_arith);
        assert((l + 1) * 4294967295 == l * 4294967295 + 4294967295) by (nonlinear_arith);
    }
}

proof fn lemma_count_le_bounds(s: Seq<(i64, u32)>, t: int)
    requires
        time_sorted(s),
    ensures
        count_le(s, t) <= s.len(),
        forall|i: int| 0 <= i < count_le(s, t) ==> #[trigger] s[i].0 <= t,
        count_le(s, t) < s.len() ==> s[count_le(s, t) as int].0 > t,
    decreases s.len(),
{
    if s.len() > 0 && s[0].0 <= t {
        let d = s.drop_first();
        assert(time_sorted(d)) by {
            assert forall|i: int, j: int| 0 <= i <= j < d.len() implies #[trigger] d[i].0 <= #[trigger] d[j].0 by {
                assert(s[i + 1].0 <= s[j + 1].0);
            }
        }
        lemma_count_le_bounds(d, t);
        assert forall|i: int| 0 <= i < count_le(s, t) implies #[trigger] s[i].0 <= t by {
            if i > 0 {
                assert(s[i] == d[i - 1]);
            }
        }
    }
}

proof fn lemma_count_lt_bounds(s: Seq<(i64, u32)>, t: int)
    requires
        time_sorted(s),
    ensures
        count_lt(s, t) <= s.len(),
        forall|i: int| 0 <= i < count_lt(s, t) ==> #[trigger] s[i].0 < t,
        count_lt(s, t) < s.len() ==> s[count_lt(s, t) as int].0 >= t,
    decreases s.len(),
{
    if s.len() > 0 && s[0].0 < t {
        let d = s.drop_first();
        assert(time_sorted(d)) by {
            assert forall|i: int, j: int| 0 <= i <= j < d.len() implies #[trigger] d[i].0 <= #[trigger] d[j].0 by {
                assert(s[i + 1].0 <= s[j + 1].0);
            }
        }
        lemma_count_lt_bounds(d, t);
        assert forall|i: int| 0 <= i < count_lt(s, t) implies #[trigger] s[i].0 < t by {
            if i > 0 {
                assert(s[i] == d[i - 1]);
            }
        }
    }
}

/// In a sorted sequence, the count of leading entries below `t` is the
/// first position whose timestamp reaches `t`.
proof fn lemma_count_lt_at(s: Seq<(i64, u32)>, t: int, j: int)
    requires
        time_sorted(s),
        0 <= j <= s.len(),
        forall|i: int| 0 <= i < j ==> #[trigger] s[i].0 < t,
        j < s.len() ==> s[j].0 >= t,
    ensures
        count_lt(s, t) == j,
    decreases j,
{
    if j > 0 {
        let d = s.drop_first();
        assert(time_sorted(d)) by {
            assert forall|a: int, b: int| 0 <= a <= b < d.len() implies #[trigger] d[a].0 <= #[trigger] d[b].0 by {
                assert(s[a + 1].0 <= s[b + 1].0);
            }
        }
        assert forall|i: int| 0 <= i < j - 1 implies #[trigger] d[i].0 < t by {
            assert(d[i] == s[i + 1]);
        }
        lemma_count_lt_at(d, t, j - 1);
        assert(s[0].0 < t);
    }
}

/// The window of timestamped values and its running sums.
#[derive(Debug, Clone)]
pub struct TimedStat {
    values: Vec<(i64, u32)>,
    last_ts: Option<i64>,
    sum: u128,
    sum_squares: u128,
    window: i64,
}

/// The mathematical content of a [`TimedStat`].
pub struct TimedStatView {
    pub entries: Seq<(i64, u32)>,
    pub last_ts: Option<i64>,
    pub window: i64,
}

impl View for TimedStat {
    type V = TimedStatView;

    closed spec fn view(&self) -> TimedStatView {
        TimedStatView { entries: self.values@, last_ts: self.last_ts, window: self.window }
    }
}

/// The entries of `s` after the window is moved to end at `ts`.
pub open spec fn after_set_last_ts(s: Seq<(i64, u32)>, ts: int, window: int) -> Seq<(i64, u32)> {
    s.skip(count_lt(s, ts - window) as int)
}

/// The entries of `s` that leave the window when it is moved to end at `ts`.
pub open spec fn discarded_by(s: Seq<(i64, u32)>, ts: int, window: int) -> Seq<(i64, u32)> {
    s.take(count_lt(s, ts - window) as int)
}

/// Moving the window to end at `ts` splits the entries without losing
/// any: those that leave come first and are all older than `ts - window`;
/// those that stay are all at least that recent.
pub proof fn law_window_split(s: Seq<(i64, u32)>, ts: int, window: int)
    requires
        time_sorted(s),
    ensures
        discarded_by(s, ts, window) + after_set_last_ts(s, ts, window) == s,
        forall|i: int| 0 <= i < discarded_by(s, ts, window).len()
            ==> (#[trigger] discarded_by(s, ts, window)[i]).0 < ts - window,
        forall|i: int| 0 <= i < after_set_last_ts(s, ts, window).len()
            ==> (#[trigger] after_set_last_ts(s, ts, window)[i]).0 >= ts - window,
{
    lemma_count_lt_bounds(s, ts - window);
    let k = count_lt(s, ts - window) as int;
    assert(s.take(k) + s.skip(k) =~= s);
    assert forall|i: int| 0 <= i < after_set_last_ts(s, ts, window).len()
        implies (#[trigger] after_set_last_ts(s, ts, window)[i]).0 >= ts - window by {
        assert(after_set_last_ts(s, ts, window)[i] == s[k + i]);
        assert(s[k].0 >= ts - window);
        assert(s[k].0 <= s[k + i].0);
    }
}

/// Moving the window keeps the order of what leaves, and the sums split
/// with the entries: the sum (and the sum of squares) of the entries that
/// stay is that of all entries less that of the entries that leave.
pub proof fn law_window_sums(s: Seq<(i64, u32)>, ts: int, window: int)
    requires
        time_sorted(s),
    ensures
        time_sorted(discarded_by(s, ts, window)),
        time_sorted(after_set_last_ts(s, ts, window)),
        sum_values(after_set_last_ts(s, ts, window))
            == sum_values(s) - sum_values(discarded_by(s, ts, window)),
        sum_squares(after_set_last_ts(s, ts, window))
            == sum_squares(s) - sum_squares(discarded_by(s, ts, window)),
{
    lemma_count_lt_bounds(s, ts - window);
    let k = count_lt(s, ts - window) as int;
    let d = discarded_by(s, ts, window);
    let a = after_set_last_ts(s, ts, window);
    assert(d + a =~= s);
    lemma_sums_append(d, a);
    assert forall|i: int, j: int| 0 <= i <= j < d.len() implies #[trigger] d[i].0 <= #[trigger] d[j].0 by {
        assert(d[i] == s[i] && d[j] == s[j]);
    }
    assert forall|i: int, j: int| 0 <= i <= j < a.len() implies #[trigger] a[i].0 <= #[trigger] a[j].0 by {
        assert(a[i] == s[k + i] && a[j] == s[k + j]);
    }
}

impl TimedStat {
    /// Entries are sorted by time, the window is positive and the running
    /// sums match the entries.
    pub closed spec fn wf(&self) -> bool {
        &&& time_sorted(self.values@)
        &&& self.window > 0
        &&& self.sum == sum_values(self.values@)
        &&& self.sum_squares == sum_squares(self.values@)
    }

    /// A statistic over a window of `window` nanoseconds.
    pub fn new(window: i64) -> (r: Self)
        requires
            window > 0,
        ensures
            r.wf(),
            r@.entries == Seq::<(i64, u32)>::empty(),
            r@.last_ts is None,
            r@.window == window,
    {
        TimedStat { values: Vec::new(), last_ts: None, sum: 0, sum_squares: 0, window }
    }

    /// The window length in nanoseconds.
    pub fn window(&self) -> (r: i64)
        ensures
            r == self@.window,
    {
        self.window
    }

    /// The sum of the values in the window.
    pub fn sum(&self) -> (r: u128)
        requires
            self.wf(),
        ensures
            r == sum_values(self@.entries),
    {
        self.sum
    }

    /// The sum of the squared values in the window.
    pub fn sum_squares(&self) -> (r: u128)
        requires
            self.wf(),
        ensures
            r == sum_squares(self@.entries),
    {
        self.sum_squares
    }

    /// The latest timestamp seen.
    pub fn last_ts(&self) -> (r: Option<i64>)
        ensures
            r == self@.last_ts,
    {
        self.last_ts
    }

    /// The values in the window, oldest first.
    pub fn entries(&self) -> (r: &Vec<(i64, u32)>)
        ensures
            r@ == self@.entries,
    {
        &self.values
    }

    /// Moves the end of the window to `last_ts` and returns the entries that
    /// fell out of it (those older than `last_ts - window`), oldest first.
    pub fn set_last_ts(&mut self, last_ts: i64) -> (r: Vec<(i64, u32)>)
        requires
            old(self).wf(),
        ensures
            final(self).wf(),
            final(self)@.window == old(self)@.window,
            final(self)@.last_ts == Some(last_ts),
            final(self)@.entries == after_set_last_ts(old(self)@.entries, last_ts as int, old(self)@.window as int),
            r@ == discarded_by(old(self)@.entries, last_ts as int, old(self)@.window as int),
            r@ + final(self)@.entries == old(self)@.entries,
            time_sorted(r@),
            forall|i: int| 0 <= i < r@.len() ==> (#[trigger] r@[i]).0 < last_ts - old(self)@.window,
            forall|i: int| 0 <= i < final(self)@.entries.len()
                ==> (#[trigger] final(self)@.entries[i]).0 >= last_ts - old(self)@.window,
            sum_values(final(self)@.entries) == sum_values(old(self)@.entries) - sum_values(r@),
            sum_squares(final(self)@.entries) == sum_squares(old(self)@.entries) - sum_squares(r@),
    {
        proof {
            law_window_split(old(self)@.entries, last_ts as int, old(self)@.window as int);
            law_window_sums(old(self)@.entries, last_ts as int, old(self)@.window as int);
        }
        self.last_ts = Some(last_ts);
        let lower: i128 = last_ts as i128 - self.window as i128;
        let ghost s = self.values@;
        let n = self.values.len();
        let mut k: usize = 0;
        while k < n && (self.values[k].0 as i128) < lower
            invariant
                n == self.values@.len(),
                s == self.values@,
                k <= n,
                forall|i: int| 0 <= i < k ==> #[trigger] s[i].0 < lower,
            decreases n - k,
        {
            k = k + 1;
        }
        proof {
            lemma_count_lt_at(s, lower as int, k as int);
        }
        let mut discarded: Vec<(i64, u32)> = Vec::new();
        let mut kept: Vec<(i64, u32)> = Vec::new();
        let mut i: usize = 0;
        while i < n
            invariant
                n == self.values@.len(),
                s == self.values@,
                k <= n,
                i <= n,
                i <= k ==> discarded@ == s.take(i as int) && kept@.len() == 0,
                i > k ==> discarded@ == s.take(k as int) && kept@ == s.subrange(k as int, i as int),
            decreases n - i,
        {
            if i < k {
                discarded.push(self.values[i]);
                assert(s.take(i + 1) =~= s.take(i as int).push(s[i as int]));
            } else {
                kept.push(self.values[i]);
                assert(s.subrange(k as int, i + 1) =~= s.subrange(k as int, i as int).push(s[i as int]));
            }
            i = i + 1;
        }
        proof {
            if n <= k {
                assert(s.take(n as int) =~= s.take(k as int));
            }
            assert(kept@ =~= s.skip(k as int));
            assert(s =~= s.take(k as int) + s.skip(k as int));
            lemma_sums_append(s.take(k as int), s.skip(k as int));
            lemma_sums_bound(s.take(k as int));
            lemma_sums_bound(s.skip(k as int));
            assert forall|a: int, b: int| 0 <= a <= b < kept@.len() implies #[trigger] kept@[a].0 <= #[trigger] kept@[b].0 by {
                assert(s[a + k].0 <= s[b + k].0);
            }
        }
        let ghost dropped = s.take(k as int);
        let removed_sum = self.sum_of(&discarded);
        let removed_sq = self.squares_of(&discarded);
        self.sum = self.sum - removed_sum;
        self.sum_squares = self.sum_squares - removed_sq;
        self.values = kept;
        discarded
    }

    /// The sum of the values of `v`.
    fn sum_of(&self, v: &Vec<(i64, u32)>) -> (r: u128)
        ensures
            r == sum_values(v@),
    {
        let n = v.len();
        let mut acc: u128 = 0;
        let mut i: usize = n;
        proof {
            lemma_sums_bound(v@);
            assert(v@.skip(n as int) =~= Seq::<(i64, u32)>::empty());
        }
        while i > 0
            invariant
                n == v@.len(),
                i <= n,
                acc == sum_values(v@.skip(i as int)),
                sum_values(v@.skip(i as int)) <= (n - i) * 4294967295,
            decreases i,
        {
            i = i - 1;
            proof {
                assert(v@.skip(i as int).drop_first() =~= v@.skip(i + 1));
                lemma_sums_bound(v@.skip(i as int));
            }
            acc = acc + v[i].1 as u128;
        }
        assert(v@.skip(0) =~= v@);
        acc
    }

    /// The sum of the squared values of `v`.
    fn squares_of(&self, v: &Vec<(i64, u32)>) -> (r: u128)
        ensures
            r == sum_squares(v@),
    {
        let n = v.len();
        let mut acc: u128 = 0;
        let mut i: usize = n;
        proof {
            assert(v@.skip(n as int) =~= Seq::<(i64, u32)>::empty());
        }
        while i > 0
            invariant
                n == v@.len(),
                i <= n,
                acc == sum_squares(v@.skip(i as int)),
                sum_squares(v@.skip(i as int)) <= (n - i) * max_square(),
            decreases i,
        {
            i = i - 1;
            proof {
                assert(v@.skip(i as int).drop_first() =~= v@.skip(i + 1));
                lemma_sums_bound(v@.skip(i as int));
            }
            let x = v[i].1 as u128;
            assert(x * x <= max_square()) by (nonlinear_arith)
                requires
                    x <= 4294967295,
            ;
            assert((n - i) * max_square() <= 18446744073709551616 * max_square()) by (nonlinear_arith)
                requires
                    n - i <= 18446744073709551616,
                    max_square() >= 0,
            ;
            acc = acc + x * x;
        }
        assert(v@.skip(0) =~= v@);
        acc
    }

    /// Adds `value` at time `ts`, moves the end of the window to `ts`, and
    /// returns the entries that fell out of the window, oldest first.
    pub fn push(&mut self, ts: i64, value: u32) -> (r: Vec<(i64, u32)>)
        requires
            old(self).wf(),
        ensures
            final(self).wf(),
            final(self)@.window == old(self)@.window,
            final(self)@.last_ts == Some(ts),
            final(self)@.entries == after_set_last_ts(
                insert_by_time(old(self)@.entries, (ts, value)),
                ts as int,
                old(self)@.window as int,
            ),
            r@ == discarded_by(insert_by_time(old(self)@.entries, (ts, value)), ts as int, old(self)@.window as int),
    {
        let ghost s = self.values@;
        let n = self.values.len();
        let mut j: usize = 0;
        while j < n && self.values[j].0 <= ts
            invariant
                n == self.values@.len(),
                s == self.values@,
                j <= n,
                forall|i: int| 0 <= i < j ==> #[trigger] s[i].0 <= ts,
            decreases n - j,
        {
            j = j + 1;
        }
        proof {
            lemma_count_le_bounds(s, ts as int);
            // the first position later than `ts` is the count of entries not later than it
            if (j as int) < count_le(s, ts as int) {
                assert(s[j as int].0 <= ts);
            }
            if (j as int) > count_le(s, ts as int) {
                assert(s[count_le(s, ts as int) as int].0 <= ts);
            }
        }
        self.values.insert(j, (ts, value));
        let new_len = self.values.len();
        proof {
            let e = seq![(ts, value)];
            assert(self.values@ =~= s.take(j as int) + e + s.skip(j as int));
            assert(s =~= s.take(j as int) + s.skip(j as int));
            lemma_sums_append(s.take(j as int), s.skip(j as int));
            lemma_sums_append(s.take(j as int) + e, s.skip(j as int));
            lemma_sums_append(s.take(j as int), e);
            lemma_sums_single((ts, value));
            lemma_sums_bound(self.values@);
            let t = self.values@;
            assert forall|a: int, b: int| 0 <= a <= b < t.len() implies #[trigger] t[a].0 <= #[trigger] t[b].0 by {
                if a < j && b > j {
                    assert(t[b] == s[b - 1]);
                } else if a > j {
                    assert(t[a] == s[a - 1]);
                    assert(t[b] == s[b - 1]);
                } else if a == j && b > j {
                    assert(t[b] == s[b - 1]);
                }
            }
            assert(t.len() == new_len);
            assert(t.len() * max_square() <= 18446744073709551616 * max_square()) by (nonlinear_arith)
                requires
                    t.len() <= 18446744073709551616,
                    max_square() >= 0,
            ;
        }
        let v = value as u128;
        self.sum = self.sum + v;
        self.sum_squares = self.sum_squares + v * v;
        self.set_last_ts(ts)
    }
}

} // verus!
