//! Tracking which parts of a fragmented message have arrived.
//!
//! A `DefragBuf` covers the positions `0..len`. Initially every position is
//! free; inserting a range marks it as received. A range can only be inserted
//! when all of its positions are still free, so overlapping or repeated
//! fragments are refused.

use vstd::prelude::*;
use core::ops::Range;

verus! {

/// Why an insertion into a [`DefragBuf`] was refused.
#[derive(Debug, Clone, Copy, PartialEq, Eq)]
pub enum DefragError {
    /// The range is empty or reversed.
    InvalidRange,
    /// The range ends past the size limit.
    ExceedsLimit,
    /// Some position of the range was already received.
    NotFree,
}

/// The free (not yet received) parts of `0..len`, kept as a sorted list of
/// maximal half-open intervals.
#[derive(Debug)]
pub struct DefragBuf {
    len: usize,
    free: Vec<(usize, usize)>,
}

/// The intervals `s` are non-empty, lie in `0..len`, are sorted, and are
/// separated by at least one received position.
pub open spec fn intervals_wf(s: Seq<(usize, usize)>, len: nat) -> bool {
    &&& forall|i: int| 0 <= i < s.len() ==> #[trigger] s[i].0 < s[i].1 <= len
    &&& forall|i: int, j: int| 0 <= i < j < s.len() ==> #[trigger] s[i].1 < #[trigger] s[j].0
}

/// Position `p` lies in one of the intervals `s`.
pub open spec fn in_intervals(s: Seq<(usize, usize)>, p: int) -> bool {
    exists|i: int| 0 <= i < s.len() && #[trigger] s[i].0 <= p && p < s[i].1
}

/// Interval `i` of `s` contains the whole range `start..end`.
pub open spec fn fits(s: Seq<(usize, usize)>, i: int, start: int, end: int) -> bool {
    0 <= i < s.len() && s[i].0 <= start && end <= s[i].1
}

/// The intervals after `start..end` is cut out of interval `i`: what remains
/// of that interval on its left and on its right takes its place.
pub open spec fn carve(s: Seq<(usize, usize)>, i: int, start: usize, end: usize) -> Seq<(usize, usize)> {
    let a = s[i].0;
    let b = s[i].1;
    let left: Seq<(usize, usize)> = if a < start { seq![(a, start)] } else { seq![] };
    let right: Seq<(usize, usize)> = if end < b { seq![(end, b)] } else { seq![] };
    s.take(i) + left + right + s.skip(i + 1)
}

/// The number of positions covered by the intervals `s`.
pub open spec fn free_count(s: Seq<(usize, usize)>) -> int
    decreases s.len(),
{
    if s.len() == 0 {
        0
    } else {
        (s[0].1 - s[0].0) + free_count(s.drop_first())
    }
}

proof fn lemma_free_count_append(s: Seq<(usize, usize)>, t: Seq<(usize, usize)>)
    ensures
        free_count(s + t) == free_count(s) + free_count(t),
    decreases s.len(),
{
    if s.len() == 0 {
        assert(s + t =~= t);
    } else {
        assert((s + t).drop_first() =~= s.drop_first() + t);
        lemma_free_count_append(s.drop_first(), t);
    }
}

proof fn lemma_free_count_split(s: Seq<(usize, usize)>, i: int)
    requires
        0 <= i < s.len(),
    ensures
        free_count(s) == free_count(s.take(i)) + (s[i].1 - s[i].0) + free_count(s.skip(i + 1)),
{
    reveal_with_fuel(free_count, 2);
    assert(s =~= s.take(i) + (seq![s[i]] + s.skip(i + 1)));
    lemma_free_count_append(s.take(i), seq![s[i]] + s.skip(i + 1));
    lemma_free_count_append(seq![s[i]], s.skip(i + 1));
    assert((seq![s[i]]).drop_first() =~= Seq::<(usize, usize)>::empty());
}

/// Cutting `start..end` out of the interval that holds it removes exactly
/// those positions and `end - start` from the free count.
pub proof fn lemma_carve(s: Seq<(usize, usize)>, len: nat, i: int, start: usize, end: usize)
    requires
        intervals_wf(s, len),
        start < end,
        fits(s, i, start as int, end as int),
    ensures
        forall|p: int| #[trigger] in_intervals(carve(s, i, start, end), p)
            == (in_intervals(s, p) && !(start <= p < end)),
        free_count(carve(s, i, start, end)) == free_count(s) - (end - start),
{
    let c = carve(s, i, start, end);
    let a = s[i].0;
    let b = s[i].1;
    let left: Seq<(usize, usize)> = if a < start { seq![(a, start)] } else { seq![] };
    let right: Seq<(usize, usize)> = if end < b { seq![(end, b)] } else { seq![] };
    let l = left.len() as int;
    let r = right.len() as int;
    assert(c == s.take(i) + left + right + s.skip(i + 1));
    assert(c.len() == s.len() - 1 + l + r);
    assert forall|k: int| 0 <= k < i implies #[trigger] c[k] == s[k] by {}
    assert forall|k: int| i < k < s.len() implies c[k - 1 + l + r] == #[trigger] s[k] by {}
    if a < start {
        assert(c[i] == (a, start));
    }
    if end < b {
        assert(c[i + l] == (end, b));
    }
    assert forall|p: int| #[trigger] in_intervals(c, p) == (in_intervals(s, p) && !(start <= p < end)) by {
        if in_intervals(c, p) {
            let k = choose|k: int| 0 <= k < c.len() && #[trigger] c[k].0 <= p && p < c[k].1;
            if k < i {
                assert(c[k] == s[k]);
                assert(s[k].1 < s[i].0);
                assert(in_intervals(s, p));
            } else if k >= i + l + r {
                let j = k + 1 - l - r;
                assert(c[j - 1 + l + r] == s[j]);
                assert(s[i].1 < s[j].0);
                assert(in_intervals(s, p));
            } else if l == 1 && k == i {
                assert(in_intervals(s, p));
            } else {
                assert(c[k] == (end, b));
                assert(in_intervals(s, p));
            }
        }
        if in_intervals(s, p) && !(start <= p < end) {
            let k = choose|k: int| 0 <= k < s.len() && #[trigger] s[k].0 <= p && p < s[k].1;
            if k < i {
                assert(c[k] == s[k]);
                assert(c[k].0 <= p && p < c[k].1);
            } else if k > i {
                assert(c[k - 1 + l + r] == s[k]);
                assert(c[k - 1 + l + r].0 <= p && p < c[k - 1 + l + r].1);
            } else if p < start {
                assert(c[i] == (a, start));
                assert(c[i].0 <= p && p < c[i].1);
            } else {
                assert(c[i + l] == (end, b));
                assert(c[i + l].0 <= p && p < c[i + l].1);
            }
            assert(in_intervals(c, p));
        }
    }
    reveal_with_fuel(free_count, 2);
    assert(free_count(left) == if a < start { start - a } else { 0 }) by {
        if a < start {
            assert(left.drop_first() =~= Seq::<(usize, usize)>::empty());
        }
    }
    assert(free_count(right) == if end < b { b - end } else { 0 }) by {
        if end < b {
            assert(right.drop_first() =~= Seq::<(usize, usize)>::empty());
        }
    }
    lemma_free_count_split(s, i);
    lemma_free_count_append(s.take(i) + left + right, s.skip(i + 1));
    lemma_free_count_append(s.take(i) + left, right);
    lemma_free_count_append(s.take(i), left);
}

/// With well-formed intervals, a non-empty range lies inside one interval
/// exactly when all of its positions are free.
proof fn lemma_fits_iff_free(buf: &DefragBuf, start: int, end: int)
    requires
        buf.wf(),
        start < end,
    ensures
        (exists|i: int| fits(buf.intervals(), i, start, end))
            == (forall|p: int| start <= p < end ==> #[trigger] buf.is_free(p)),
{
    let s = buf.intervals();
    if forall|p: int| start <= p < end ==> #[trigger] buf.is_free(p) {
        assert(buf.is_free(start));
        let i = choose|i: int| 0 <= i < s.len() && #[trigger] s[i].0 <= start && start < s[i].1;
        if !(end <= s[i].1) {
            let q = s[i].1 as int;
            assert(buf.is_free(q));
            let j = choose|j: int| 0 <= j < s.len() && #[trigger] s[j].0 <= q && q < s[j].1;
            if j < i {
                assert(s[j].1 < s[i].0);
            } else if j > i {
                assert(s[i].1 < s[j].0);
            }
        }
        assert(fits(s, i, start, end));
    }
    if exists|i: int| fits(s, i, start, end) {
        let i = choose|i: int| fits(s, i, start, end);
        assert forall|p: int| start <= p < end implies #[trigger] buf.is_free(p) by {
            assert(s[i].0 <= p && p < s[i].1);
        }
    }
}

/// The free intervals after inserting `start..end` into a buffer with view
/// `v`, or `None` when the insertion is refused.
pub open spec fn insert_spec(v: (nat, Seq<(usize, usize)>), start: usize, end: usize) -> Option<Seq<(usize, usize)>> {
    if start < end && end <= v.0 && exists|i: int| fits(v.1, i, start as int, end as int) {
        Some(carve(v.1, choose|i: int| fits(v.1, i, start as int, end as int), start, end))
    } else {
        None
    }
}

/// In well-formed intervals at most one interval holds a non-empty range,
/// so the interval that a successful insertion cuts is determined by the
/// range.
pub proof fn lemma_fits_unique(s: Seq<(usize, usize)>, len: nat, i: int, j: int, start: int, end: int)
    requires
        intervals_wf(s, len),
        start < end,
        fits(s, i, start, end),
        fits(s, j, start, end),
    ensures
        i == j,
{
    if i < j {
        assert(s[i].1 < s[j].0);
    } else if j < i {
        assert(s[j].1 < s[i].0);
    }
}

/// Inserting a range that interval `i` holds cuts it out of interval `i`.
pub proof fn lemma_insert_spec(v: (nat, Seq<(usize, usize)>), i: int, start: usize, end: usize)
    requires
        intervals_wf(v.1, v.0),
        start < end,
        end <= v.0,
        fits(v.1, i, start as int, end as int),
    ensures
        insert_spec(v, start, end) == Some(carve(v.1, i, start, end)),
{
    let c = choose|k: int| fits(v.1, k, start as int, end as int);
    lemma_fits_unique(v.1, v.0, i, c, start as int, end as int);
}

/// No position is received twice: once a range is recorded, no range that
/// shares a position with it can be recorded.
pub proof fn law_no_position_recorded_twice(
    v: (nat, Seq<(usize, usize)>),
    s1: usize,
    e1: usize,
    s2: usize,
    e2: usize,
)
    requires
        intervals_wf(v.1, v.0),
        insert_spec(v, s1, e1) is Some,
        s2 < e2,
        s1 < e2,
        s2 < e1,
    ensures
        insert_spec((v.0, insert_spec(v, s1, e1)->0), s2, e2) is None,
{
    let i = choose|i: int| fits(v.1, i, s1 as int, e1 as int);
    lemma_insert_spec(v, i, s1, e1);
    lemma_carve(v.1, v.0, i, s1, e1);
    let c = carve(v.1, i, s1, e1);
    let p: int = if s1 >= s2 { s1 as int } else { s2 as int };
    if exists|j: int| fits(c, j, s2 as int, e2 as int) {
        let j = choose|j: int| fits(c, j, s2 as int, e2 as int);
        assert(c[j].0 <= p && p < c[j].1);
        assert(in_intervals(c, p));
        assert(!(s1 <= p && p < e1));
    }
}

impl View for DefragBuf {
    type V = (nat, Seq<(usize, usize)>);

    open spec fn view(&self) -> (nat, Seq<(usize, usize)>) {
        (self.spec_len(), self.intervals())
    }
}

impl DefragBuf {
    /// The size limit: positions range over `0..len`.
    pub closed spec fn spec_len(&self) -> nat {
        self.len as nat
    }

    /// The free intervals, in increasing order.
    pub closed spec fn intervals(&self) -> Seq<(usize, usize)> {
        self.free@
    }

    /// Position `p` has not been received yet.
    pub open spec fn is_free(&self, p: int) -> bool {
        in_intervals(self.intervals(), p)
    }

    /// The well-formedness invariant of the buffer.
    pub open spec fn wf(&self) -> bool {
        intervals_wf(self.intervals(), self.spec_len())
    }

    /// Creates a buffer over `0..len` in which every position is free.
    pub fn new(len: usize) -> (r: Self)
        ensures
            r.wf(),
            r.spec_len() == len,
            len == 0 ==> r.intervals() =~= Seq::<(usize, usize)>::empty(),
            len > 0 ==> r.intervals() =~= seq![(0usize, len)],
    {
        let mut free: Vec<(usize, usize)> = Vec::new();
        if len > 0 {
            free.push((0, len));
        }
        DefragBuf { len, free }
    }

    /// The size limit of the buffer.
    pub fn len(&self) -> (r: usize)
        ensures
            r == self.spec_len(),
    {
        self.len
    }

    /// Marks `range` as received.
    ///
    /// Succeeds exactly when the range is non-empty, ends within the size
    /// limit and lies inside one free interval; otherwise the buffer is left
    /// unchanged and the error says which condition failed first.
    pub fn insert(&mut self, range: Range<usize>) -> (r: Result<(), DefragError>)
        requires
            old(self).wf(),
        ensures
            final(self).wf(),
            final(self).spec_len() == old(self).spec_len(),
            r == Err::<(), DefragError>(DefragError::InvalidRange) <==> range.start >= range.end,
            r == Err::<(), DefragError>(DefragError::ExceedsLimit) <==> (range.start < range.end
                && range.end > old(self).spec_len()),
            r == Err::<(), DefragError>(DefragError::NotFree) <==> (range.start < range.end
                && range.end <= old(self).spec_len()
                && !exists|i: int| fits(old(self).intervals(), i, range.start as int, range.end as int)),
            r is Err ==> final(self).intervals() == old(self).intervals(),
            r is Ok ==> exists|i: int|
                fits(old(self).intervals(), i, range.start as int, range.end as int)
                && final(self).intervals() == carve(old(self).intervals(), i, range.start, range.end),
            range.start < range.end ==> (r is Ok <==> (range.end <= old(self).spec_len()
                && forall|p: int| range.start <= p < range.end ==> #[trigger] old(self).is_free(p))),
            r is Ok ==> forall|p: int| #[trigger] final(self).is_free(p)
                == (old(self).is_free(p) && !(range.start <= p < range.end)),
            r is Ok ==> free_count(final(self).intervals())
                == free_count(old(self).intervals()) - (range.end - range.start),
            r is Ok <==> insert_spec(old(self)@, range.start, range.end) is Some,
            r is Ok ==> final(self)@.1 == insert_spec(old(self)@, range.start, range.end)->0,
    {
        let start = range.start;
        let end = range.end;
        if start >= end {
            return Err(DefragError::InvalidRange);
        }
        proof {
            lemma_fits_iff_free(self, start as int, end as int);
        }
        if end > self.len {
            return Err(DefragError::ExceedsLimit);
        }
        let n = self.free.len();
        let mut i: usize = 0;
        while i < n && self.free[i].1 <= start
            invariant
                n == self.free@.len(),
                i <= n,
                self.wf(),
                forall|k: int| 0 <= k < i ==> #[trigger] self.free@[k].1 <= start,
            decreases n - i,
        {
            i = i + 1;
        }
        if i == n || self.free[i].0 > start || end > self.free[i].1 {
            proof {
                assert forall|k: int| !fits(self.intervals(), k, start as int, end as int) by {
                    if fits(self.intervals(), k, start as int, end as int) {
                        if k < i {
                            assert(self.free@[k].1 <= start);
                        } else if k > i {
                            assert(self.free@[i as int].1 < self.free@[k].0);
                        }
                    }
                }
            }
            return Err(DefragError::NotFree);
        }
        let a = self.free[i].0;
        let b = self.free[i].1;
        let ghost old_free = self.free@;
        assert(fits(old_free, i as int, start as int, end as int));
        if a == start && end == b {
            self.free.remove(i);
        } else if a == start {
            self.free.set(i, (end, b));
        } else if end == b {
            self.free.set(i, (a, start));
        } else {
            self.free.set(i, (a, start));
            self.free.insert(i + 1, (end, b));
        }
        proof {
            assert(self.free@ =~= carve(old_free, i as int, start, end));
            lemma_carve(old_free, self.len as nat, i as int, start, end);
            lemma_insert_spec((self.len as nat, old_free), i as int, start, end);
        }
        Ok(())
    }

    /// True when every position has been received.
    pub fn is_full(&self) -> (r: bool)
        requires
            self.wf(),
        ensures
            r == (self.intervals().len() == 0),
            r == (forall|p: int| !self.is_free(p)),
    {
        if self.free.len() == 0 {
            true
        } else {
            assert(self.is_free(self.free@[0].0 as int));
            false
        }
    }

    /// The free intervals, in increasing order.
    pub fn free_intervals(&self) -> (r: Vec<Range<usize>>)
        ensures
            r@.len() == self.intervals().len(),
            forall|k: int| 0 <= k < r@.len() ==> #[trigger] r@[k].start == self.intervals()[k].0
                && r@[k].end == self.intervals()[k].1,
    {
        let mut out: Vec<Range<usize>> = Vec::new();
        let n = self.free.len();
        let mut i: usize = 0;
        while i < n
            invariant
                n == self.free@.len(),
                i <= n,
                out@.len() == i,
                forall|k: int| 0 <= k < i ==> #[trigger] out@[k].start == self.free@[k].0
                    && out@[k].end == self.free@[k].1,
            decreases n - i,
        {
            let (a, b) = self.free[i];
            out.push(Range { start: a, end: b });
            i = i + 1;
        }
        out
    }
}

} // verus!
