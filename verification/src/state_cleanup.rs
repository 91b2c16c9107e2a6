//! Periodic clean-up of the traffic state: old abnormality reports go, and
//! so do participants and topics that no endpoint belongs to any more.

use vstd::prelude::*;
use std::time::Instant;
use crate::reassembly::{duration_as_nanos, instant_elapsed, instant_now};
use crate::state::{
    Abnormality, AbnormalityView, ParticipantState, ParticipantView, State, StateView, TopicState,
    TopicView, abnormalities_view, topics_known,
};
use crate::vecmap::{Unused, unused_keys};
use crate::guid::GuidPrefix;

verus! {

/// Abnormality reports older than this (in microseconds) are dropped.
pub const ABNORMALITY_RETENTION_MICROS: i64 = 300_000_000;

/// At most this many abnormality reports are kept.
pub const MAX_ABNORMALITIES: usize = 1000;

impl Unused for ParticipantState {
    open spec fn unused_spec(v: ParticipantView) -> bool {
        v.writers == Map::<(Seq<u8>, u8), crate::state::WriterView>::empty()
            && v.readers == Map::<(Seq<u8>, u8), crate::state::ReaderView>::empty()
    }

    fn is_unused(&self) -> (r: bool) {
        self.writers.is_empty() && self.readers.is_empty()
    }
}

impl Unused for TopicState {
    open spec fn unused_spec(v: TopicView) -> bool {
        v.writers == Set::<(Seq<u8>, (Seq<u8>, u8))>::empty()
            && v.readers == Set::<(Seq<u8>, (Seq<u8>, u8))>::empty()
    }

    fn is_unused(&self) -> (r: bool) {
        let w = self.writers.is_empty();
        let r = self.readers.is_empty();
        proof {
            if self.writers@ == Map::<(Seq<u8>, (Seq<u8>, u8)), ()>::empty() {
                assert(self@.writers =~= Set::<(Seq<u8>, (Seq<u8>, u8))>::empty());
            } else {
                let k = self.writers@.dom().choose();
                if self@.writers == Set::<(Seq<u8>, (Seq<u8>, u8))>::empty() {
                    assert(self.writers@ =~= Map::<(Seq<u8>, (Seq<u8>, u8)), ()>::empty());
                }
            }
            if self.readers@ == Map::<(Seq<u8>, (Seq<u8>, u8)), ()>::empty() {
                assert(self@.readers =~= Set::<(Seq<u8>, (Seq<u8>, u8))>::empty());
            } else {
                if self@.readers == Set::<(Seq<u8>, (Seq<u8>, u8))>::empty() {
                    assert(self.readers@ =~= Map::<(Seq<u8>, (Seq<u8>, u8)), ()>::empty());
                }
            }
        }
        w && r
    }
}

/// Reports in order of time, newest first: `a` goes after every report of
/// `s` at least as new as it (so reports of the same time keep their
/// order).
pub open spec fn insert_desc(s: Seq<AbnormalityView>, a: AbnormalityView) -> Seq<AbnormalityView>
    decreases s.len(),
{
    if s.len() == 0 {
        seq![a]
    } else if s.last().when >= a.when {
        s.push(a)
    } else {
        insert_desc(s.drop_last(), a).push(s.last())
    }
}

/// The reports sorted newest first; reports of the same time keep their
/// order.
pub open spec fn sort_desc(s: Seq<AbnormalityView>) -> Seq<AbnormalityView>
    decreases s.len(),
{
    if s.len() == 0 {
        Seq::empty()
    } else {
        insert_desc(sort_desc(s.drop_last()), s.last())
    }
}

/// Reports in order newest first.
pub open spec fn sorted_desc(s: Seq<AbnormalityView>) -> bool {
    forall|i: int, j: int| 0 <= i < j < s.len() ==> (#[trigger] s[i]).when >= (#[trigger] s[j]).when
}

/// The reports kept at wall time `now` (microseconds): when there are more
/// than the limit, the newest ones up to the limit, newest first; otherwise
/// those younger than the retention period, in their order.
pub open spec fn trim_abnormalities(s: Seq<AbnormalityView>, now: i64) -> Seq<AbnormalityView> {
    if s.len() > MAX_ABNORMALITIES {
        sort_desc(s).take(MAX_ABNORMALITIES as int)
    } else {
        s.filter(|a: AbnormalityView| a.when > now - ABNORMALITY_RETENTION_MICROS)
    }
}

/// The state after a clean-up at wall time `now`: abnormality reports are
/// trimmed, and participants without writers and readers, and topics
/// without writers and readers, are dropped.
pub open spec fn cleanup_spec(s: StateView, now: i64) -> StateView {
    StateView {
        abnormalities: trim_abnormalities(s.abnormalities, now),
        participants: s.participants.remove_keys(unused_keys::<Seq<u8>, ParticipantState>(s.participants)),
        topics: s.topics.remove_keys(unused_keys::<Seq<char>, TopicState>(s.topics)),
        ..s
    }
}

/// Inserting into reports sorted newest first puts the report after every
/// report at least as new.
proof fn lemma_insert_desc(s: Seq<AbnormalityView>, a: AbnormalityView, p: int)
    requires
        sorted_desc(s),
        0 <= p <= s.len(),
        forall|i: int| 0 <= i < p ==> (#[trigger] s[i]).when >= a.when,
        forall|i: int| p <= i < s.len() ==> (#[trigger] s[i]).when < a.when,
    ensures
        insert_desc(s, a) == s.insert(p, a),
    decreases s.len(),
{
    if s.len() == 0 {
        assert(s.insert(p, a) =~= seq![a]);
    } else if s.last().when >= a.when {
        assert(p == s.len());
        assert(s.insert(p, a) =~= s.push(a));
    } else {
        let t = s.drop_last();
        assert(p < s.len());
        assert forall|i: int, j: int| 0 <= i < j < t.len() implies (#[trigger] t[i]).when >= (#[trigger] t[j]).when by {
            assert(s[i].when >= s[j].when);
        }
        lemma_insert_desc(t, a, p);
        assert(t.insert(p, a).push(s.last()) =~= s.insert(p, a));
    }
}

/// Sorts reports newest first, keeping the order of reports of the same
/// time.
pub(crate) fn sort_newest_first(v: Vec<Abnormality>) -> (r: Vec<Abnormality>)
    ensures
        abnormalities_view(r@) == sort_desc(abnormalities_view(v@)),
        sorted_desc(abnormalities_view(r@)),
        r@.len() == v@.len(),
{
    let ghost orig = abnormalities_view(v@);
    let mut src = v;
    let mut out: Vec<Abnormality> = Vec::new();
    let ghost k: int = 0;
    proof {
        assert(orig.take(0) =~= Seq::<AbnormalityView>::empty());
        assert(abnormalities_view(out@) =~= Seq::<AbnormalityView>::empty());
        assert(abnormalities_view(src@) =~= orig.skip(0));
    }
    while src.len() > 0
        invariant
            0 <= k <= orig.len(),
            abnormalities_view(src@) == orig.skip(k),
            abnormalities_view(out@) == sort_desc(orig.take(k)),
            sorted_desc(abnormalities_view(out@)),
            out@.len() == k,
            orig.len() == v@.len(),
        decreases src.len(),
    {
        let ghost old_src = src@;
        assert(abnormalities_view(old_src).len() == old_src.len());
        assert(k < orig.len());
        let a = src.remove(0);
        let ghost av = a@;
        proof {
            assert(abnormalities_view(old_src)[0] == av);
            assert(orig.skip(k)[0] == av);
            assert forall|i: int| 0 <= i < src@.len() implies #[trigger] abnormalities_view(src@)[i] == orig.skip(k + 1)[i] by {
                assert(src@[i] == old_src[i + 1]);
                assert(abnormalities_view(old_src)[i + 1] == orig.skip(k)[i + 1]);
            }
            assert(abnormalities_view(src@) =~= orig.skip(k + 1));
        }
        let mut p: usize = 0;
        while p < out.len() && out[p].when >= a.when
            invariant
                p <= out@.len(),
                forall|i: int| 0 <= i < p ==> (#[trigger] out@[i]).when >= a.when,
            decreases out@.len() - p,
        {
            p = p + 1;
        }
        let ghost before = abnormalities_view(out@);
        proof {
            assert forall|i: int| p <= i < before.len() implies (#[trigger] before[i]).when < av.when by {
                assert(before[p as int].when < av.when);
                if i > p {
                    assert(before[p as int].when >= before[i].when);
                }
            }
            lemma_insert_desc(before, av, p as int);
            assert(orig.take(k + 1).drop_last() =~= orig.take(k));
            assert(orig.take(k + 1).last() == av);
        }
        out.insert(p, a);
        proof {
            assert(abnormalities_view(out@) =~= before.insert(p as int, av));
            k = k + 1;
            let o = abnormalities_view(out@);
            assert forall|i: int, j: int| 0 <= i < j < o.len() implies (#[trigger] o[i]).when >= (#[trigger] o[j]).when by {
                if i < p && j < p {
                    assert(o[i] == before[i] && o[j] == before[j]);
                } else if i < p && j == p {
                } else if i < p {
                    assert(o[i] == before[i] && o[j] == before[j - 1]);
                } else if i == p {
                    assert(o[j] == before[j - 1]);
                } else {
                    assert(o[i] == before[i - 1] && o[j] == before[j - 1]);
                }
            }
        }
    }
    proof {
        assert(orig.take(k) =~= orig);
    }
    out
}

/// Keeps the reports younger than the retention period at wall time `now`.
fn keep_recent(v: Vec<Abnormality>, now: i64) -> (r: Vec<Abnormality>)
    requires
        now >= i64::MIN + ABNORMALITY_RETENTION_MICROS,
    ensures
        abnormalities_view(r@) == abnormalities_view(v@).filter(
            |a: AbnormalityView| a.when > now - ABNORMALITY_RETENTION_MICROS,
        ),
{
    let cutoff = now - ABNORMALITY_RETENTION_MICROS;
    let ghost orig = abnormalities_view(v@);
    let ghost pred = |a: AbnormalityView| a.when > now - ABNORMALITY_RETENTION_MICROS;
    let mut src = v;
    let mut out: Vec<Abnormality> = Vec::new();
    let ghost k: int = 0;
    proof {
        assert(orig.take(0) =~= Seq::<AbnormalityView>::empty());
        assert(abnormalities_view(out@) =~= Seq::<AbnormalityView>::empty());
        assert(abnormalities_view(src@) =~= orig.skip(0));
    }
    while src.len() > 0
        invariant
            cutoff == now - ABNORMALITY_RETENTION_MICROS,
            pred == |a: AbnormalityView| a.when > now - ABNORMALITY_RETENTION_MICROS,
            0 <= k <= orig.len(),
            abnormalities_view(src@) == orig.skip(k),
            abnormalities_view(out@) == orig.take(k).filter(pred),
        decreases src.len(),
    {
        let ghost old_src = src@;
        assert(abnormalities_view(old_src).len() == old_src.len());
        assert(k < orig.len());
        let a = src.remove(0);
        let ghost av = a@;
        let ghost before = abnormalities_view(out@);
        proof {
            assert(abnormalities_view(old_src)[0] == av);
            assert(orig.skip(k)[0] == av);
            assert forall|i: int| 0 <= i < src@.len() implies #[trigger] abnormalities_view(src@)[i] == orig.skip(k + 1)[i] by {
                assert(src@[i] == old_src[i + 1]);
                assert(abnormalities_view(old_src)[i + 1] == orig.skip(k)[i + 1]);
            }
            assert(abnormalities_view(src@) =~= orig.skip(k + 1));
            assert(orig.take(k + 1).drop_last() =~= orig.take(k));
            assert(orig.take(k + 1).last() == av);
        }
        proof {
            reveal(Seq::filter);
            assert(orig.take(k + 1).filter(pred) == if pred(av) {
                orig.take(k).filter(pred).push(av)
            } else {
                orig.take(k).filter(pred)
            });
        }
        if a.when > cutoff {
            out.push(a);
            proof {
                assert(abnormalities_view(out@) =~= before.push(av));
            }
        }
        proof {
            k = k + 1;
        }
    }
    proof {
        assert(orig.take(k) =~= orig);
    }
    out
}

/// Trims the abnormality reports at wall time `now`.
pub fn trim_abnormality_list(v: Vec<Abnormality>, now: i64) -> (r: Vec<Abnormality>)
    requires
        now >= i64::MIN + ABNORMALITY_RETENTION_MICROS,
    ensures
        abnormalities_view(r@) == trim_abnormalities(abnormalities_view(v@), now),
{
    if v.len() > MAX_ABNORMALITIES {
        let mut sorted = sort_newest_first(v);
        let ghost before = abnormalities_view(sorted@);
        let ghost raw = sorted@;
        assert(before.len() == sorted@.len());
        sorted.truncate(MAX_ABNORMALITIES);
        assert forall|i: int| 0 <= i < sorted@.len() implies #[trigger] abnormalities_view(sorted@)[i] == before.take(MAX_ABNORMALITIES as int)[i] by {
            assert(sorted@[i] == raw[i]);
        }
        assert(abnormalities_view(sorted@) =~= before.take(MAX_ABNORMALITIES as int));
        sorted
    } else {
        keep_recent(v, now)
    }
}

/// When the state was last cleaned up, and how often it is.
pub struct StateCleanup {
    last_cleanup: Instant,
    cleanup_interval: u64,
}

impl StateCleanup {
    /// The time between clean-ups, in nanoseconds.
    pub closed spec fn interval(&self) -> u64 {
        self.cleanup_interval
    }

    /// A clean-up is due `elapsed` nanoseconds after the last one.
    pub open spec fn due_after(&self, elapsed: u64) -> bool {
        elapsed > self.interval()
    }

    /// Clean-ups every `cleanup_interval` nanoseconds, counted from now.
    pub fn new(cleanup_interval: u64) -> (r: Self)
        ensures
            r.interval() == cleanup_interval,
    {
        StateCleanup { last_cleanup: instant_now(), cleanup_interval }
    }

    /// The time between clean-ups, in nanoseconds.
    pub fn cleanup_interval(&self) -> (r: u64)
        ensures
            r == self.interval(),
    {
        self.cleanup_interval
    }

    /// A clean-up is due when more than the interval has passed since the
    /// last one; `elapsed` is that time in nanoseconds.
    pub fn should_cleanup_after(&self, elapsed: u64) -> (r: bool)
        ensures
            r == self.due_after(elapsed),
    {
        elapsed > self.cleanup_interval
    }

    /// Whether a clean-up is due; the time since the last one is read from
    /// the clock.
    pub fn should_cleanup(&self) -> (r: bool)
        ensures
            exists|elapsed: u64| r == #[trigger] self.due_after(elapsed),
    {
        let d = instant_elapsed(&self.last_cleanup);
        let n = duration_as_nanos(&d);
        let elapsed: u64 = if n > u64::MAX as u128 { u64::MAX } else { n as u64 };
        self.should_cleanup_after(elapsed)
    }

    /// Cleans up the state at wall time `now` (microseconds since the Unix
    /// epoch) and restarts the interval.
    pub fn cleanup(&mut self, state: &mut State, now: i64)
        requires
            old(state).wf(),
            now >= i64::MIN + ABNORMALITY_RETENTION_MICROS,
        ensures
            final(state).wf(),
            final(state)@ == cleanup_spec(old(state)@, now),
            final(self).interval() == old(self).interval(),
    {
        let ghost s = state@;
        let mut list: Vec<Abnormality> = Vec::new();
        std::mem::swap(&mut list, &mut state.abnormalities);
        state.abnormalities = trim_abnormality_list(list, now);
        state.participants.drop_unused();
        state.topics.drop_unused();
        proof {
            let t = state@;
            let spec = cleanup_spec(s, now);
            assert(t.participants == spec.participants);
            assert(t.topics == spec.topics);
            lemma_cleanup_keeps_topics_known(s, t, now);
        }
        self.last_cleanup = instant_now();
    }
}

/// Dropping participants without endpoints and topics without endpoints
/// keeps every discovered topic tracked.
proof fn lemma_cleanup_keeps_topics_known(s: StateView, t: StateView, now: i64)
    requires
        topics_known(s),
        t.participants == s.participants.remove_keys(unused_keys::<Seq<u8>, ParticipantState>(s.participants)),
        t.topics == s.topics.remove_keys(unused_keys::<Seq<char>, TopicState>(s.topics)),
    ensures
        topics_known(t),
{
    assert forall|p: Seq<u8>, e: (Seq<u8>, u8)|
        t.participants.contains_key(p) && t.participants[p].writers.contains_key(e)
            && t.participants[p].writers[e].data is Some
            implies t.topics.contains_key(#[trigger] t.participants[p].writers[e].data->0.topic_name)
                && t.topics[t.participants[p].writers[e].data->0.topic_name].writers.contains((p, e)) by {
        assert(t.participants[p] == s.participants[p]);
        let tn = s.participants[p].writers[e].data->0.topic_name;
        assert(s.topics.contains_key(tn));
        assert(s.topics[tn].writers.contains((p, e)));
        assert(!unused_keys::<Seq<char>, TopicState>(s.topics).contains(tn));
    }
    assert forall|p: Seq<u8>, e: (Seq<u8>, u8)|
        t.participants.contains_key(p) && t.participants[p].readers.contains_key(e)
            && t.participants[p].readers[e].data is Some
            implies t.topics.contains_key(#[trigger] t.participants[p].readers[e].data->0.topic_name)
                && t.topics[t.participants[p].readers[e].data->0.topic_name].readers.contains((p, e)) by {
        assert(t.participants[p] == s.participants[p]);
        let tn = s.participants[p].readers[e].data->0.topic_name;
        assert(s.topics.contains_key(tn));
        assert(s.topics[tn].readers.contains((p, e)));
        assert(!unused_keys::<Seq<char>, TopicState>(s.topics).contains(tn));
    }
}

/// Inserting into reports sorted newest first keeps them sorted and adds
/// one report.
proof fn lemma_insert_desc_sorted(s: Seq<AbnormalityView>, a: AbnormalityView)
    requires
        sorted_desc(s),
    ensures
        sorted_desc(insert_desc(s, a)),
        insert_desc(s, a).len() == s.len() + 1,
{
    let p = choose_split(s, a);
    lemma_count_newer(s, a);
    lemma_insert_desc(s, a, p);
    let t = s.insert(p, a);
    assert forall|i: int, j: int| 0 <= i < j < t.len() implies (#[trigger] t[i]).when >= (#[trigger] t[j]).when by {
        if i < p && j < p {
            assert(t[i] == s[i] && t[j] == s[j]);
        } else if i < p && j == p {
        } else if i < p {
            assert(t[i] == s[i] && t[j] == s[j - 1]);
        } else if i == p {
            assert(t[j] == s[j - 1]);
        } else {
            assert(t[i] == s[i - 1] && t[j] == s[j - 1]);
        }
    }
}

/// The number of leading reports at least as new as `a`.
spec fn count_newer(s: Seq<AbnormalityView>, a: AbnormalityView) -> nat
    decreases s.len(),
{
    if s.len() == 0 || s[0].when < a.when {
        0
    } else {
        1 + count_newer(s.drop_first(), a)
    }
}

/// Where `a` goes in reports sorted newest first.
spec fn choose_split(s: Seq<AbnormalityView>, a: AbnormalityView) -> int {
    count_newer(s, a) as int
}

proof fn lemma_count_newer(s: Seq<AbnormalityView>, a: AbnormalityView)
    requires
        sorted_desc(s),
    ensures
        count_newer(s, a) <= s.len(),
        forall|i: int| 0 <= i < count_newer(s, a) ==> (#[trigger] s[i]).when >= a.when,
        forall|i: int| count_newer(s, a) <= i < s.len() ==> (#[trigger] s[i]).when < a.when,
    decreases s.len(),
{
    if s.len() > 0 && s[0].when >= a.when {
        let d = s.drop_first();
        assert forall|i: int, j: int| 0 <= i < j < d.len() implies (#[trigger] d[i]).when >= (#[trigger] d[j]).when by {
            assert(s[i + 1].when >= s[j + 1].when);
        }
        lemma_count_newer(d, a);
        assert forall|i: int| 0 <= i < count_newer(s, a) implies (#[trigger] s[i]).when >= a.when by {
            if i > 0 {
                assert(s[i] == d[i - 1]);
            }
        }
        assert forall|i: int| count_newer(s, a) <= i < s.len() implies (#[trigger] s[i]).when < a.when by {
            assert(s[i] == d[i - 1]);
        }
    } else if s.len() > 0 {
        assert forall|i: int| 0 <= i < s.len() implies (#[trigger] s[i]).when < a.when by {
            if i > 0 {
                assert(s[0].when >= s[i].when);
            }
        }
    }
}

/// Sorting keeps the number of reports and sorts them newest first.
proof fn lemma_sort_desc(s: Seq<AbnormalityView>)
    ensures
        sorted_desc(sort_desc(s)),
        sort_desc(s).len() == s.len(),
    decreases s.len(),
{
    if s.len() > 0 {
        lemma_sort_desc(s.drop_last());
        lemma_count_newer(sort_desc(s.drop_last()), s.last());
        lemma_insert_desc_sorted(sort_desc(s.drop_last()), s.last());
    }
}

/// A clean-up keeps at most `MAX_ABNORMALITIES` reports; when there were
/// more, it keeps that many, newest first.
pub proof fn law_abnormalities_bounded(s: Seq<AbnormalityView>, now: i64)
    ensures
        trim_abnormalities(s, now).len() <= MAX_ABNORMALITIES,
        s.len() > MAX_ABNORMALITIES ==> trim_abnormalities(s, now).len() == MAX_ABNORMALITIES,
        s.len() > MAX_ABNORMALITIES ==> sorted_desc(trim_abnormalities(s, now)),
{
    lemma_sort_desc(s);
    s.lemma_filter_len(|a: AbnormalityView| a.when > now - ABNORMALITY_RETENTION_MICROS);
    if s.len() > MAX_ABNORMALITIES {
        let t = sort_desc(s).take(MAX_ABNORMALITIES as int);
        assert forall|i: int, j: int| 0 <= i < j < t.len() implies (#[trigger] t[i]).when >= (#[trigger] t[j]).when by {
            assert(t[i] == sort_desc(s)[i] && t[j] == sort_desc(s)[j]);
        }
    }
}

/// After a clean-up, every participant has a writer or a reader, and every
/// topic has a writer or a reader.
pub proof fn law_cleanup_leaves_no_unused(s: StateView, now: i64)
    ensures
        forall|k: Seq<u8>| #[trigger] cleanup_spec(s, now).participants.contains_key(k)
            ==> !ParticipantState::unused_spec(cleanup_spec(s, now).participants[k]),
        forall|k: Seq<char>| #[trigger] cleanup_spec(s, now).topics.contains_key(k)
            ==> !TopicState::unused_spec(cleanup_spec(s, now).topics[k]),
{
}

/// A clean-up keeps, unchanged, every participant that has a writer or a
/// reader and every topic that has a writer or a reader; it drops every
/// participant and every topic that has neither; it keeps no participant
/// or topic that was not there; and it leaves the counters alone.
pub proof fn law_cleanup_keeps_what_has_endpoints(s: StateView, now: i64)
    ensures
        forall|k: Seq<u8>, e: (Seq<u8>, u8)|
            s.participants.contains_key(k) && #[trigger] s.participants[k].writers.contains_key(e)
            ==> cleanup_spec(s, now).participants.contains_key(k)
                && cleanup_spec(s, now).participants[k] == s.participants[k],
        forall|k: Seq<u8>, e: (Seq<u8>, u8)|
            s.participants.contains_key(k) && #[trigger] s.participants[k].readers.contains_key(e)
            ==> cleanup_spec(s, now).participants.contains_key(k)
                && cleanup_spec(s, now).participants[k] == s.participants[k],
        forall|k: Seq<u8>| #[trigger] s.participants.contains_key(k)
            && s.participants[k].writers.dom().is_empty() && s.participants[k].readers.dom().is_empty()
            ==> !cleanup_spec(s, now).participants.contains_key(k),
        forall|k: Seq<u8>| #[trigger] cleanup_spec(s, now).participants.contains_key(k)
            ==> s.participants.contains_key(k) && cleanup_spec(s, now).participants[k] == s.participants[k],
        forall|k: Seq<char>, e: (Seq<u8>, (Seq<u8>, u8))|
            s.topics.contains_key(k) && #[trigger] s.topics[k].writers.contains(e)
            ==> cleanup_spec(s, now).topics.contains_key(k) && cleanup_spec(s, now).topics[k] == s.topics[k],
        forall|k: Seq<char>, e: (Seq<u8>, (Seq<u8>, u8))|
            s.topics.contains_key(k) && #[trigger] s.topics[k].readers.contains(e)
            ==> cleanup_spec(s, now).topics.contains_key(k) && cleanup_spec(s, now).topics[k] == s.topics[k],
        forall|k: Seq<char>| #[trigger] s.topics.contains_key(k)
            && s.topics[k].writers.is_empty() && s.topics[k].readers.is_empty()
            ==> !cleanup_spec(s, now).topics.contains_key(k),
        forall|k: Seq<char>| #[trigger] cleanup_spec(s, now).topics.contains_key(k)
            ==> s.topics.contains_key(k) && cleanup_spec(s, now).topics[k] == s.topics[k],
        cleanup_spec(s, now).stat == s.stat,
        cleanup_spec(s, now).window == s.window,
{
    let t = cleanup_spec(s, now);
    assert forall|k: Seq<u8>, e: (Seq<u8>, u8)|
        s.participants.contains_key(k) && #[trigger] s.participants[k].writers.contains_key(e)
        implies t.participants.contains_key(k) && t.participants[k] == s.participants[k] by {
        assert(!Map::<(Seq<u8>, u8), crate::state::WriterView>::empty().contains_key(e));
    }
    assert forall|k: Seq<u8>, e: (Seq<u8>, u8)|
        s.participants.contains_key(k) && #[trigger] s.participants[k].readers.contains_key(e)
        implies t.participants.contains_key(k) && t.participants[k] == s.participants[k] by {
        assert(!Map::<(Seq<u8>, u8), crate::state::ReaderView>::empty().contains_key(e));
    }
    assert forall|k: Seq<u8>| #[trigger] s.participants.contains_key(k)
        && s.participants[k].writers.dom().is_empty() && s.participants[k].readers.dom().is_empty()
        implies !t.participants.contains_key(k) by {
        assert(s.participants[k].writers =~= Map::<(Seq<u8>, u8), crate::state::WriterView>::empty());
        assert(s.participants[k].readers =~= Map::<(Seq<u8>, u8), crate::state::ReaderView>::empty());
        assert(unused_keys::<Seq<u8>, ParticipantState>(s.participants).contains(k));
    }
    assert forall|k: Seq<char>| #[trigger] s.topics.contains_key(k)
        && s.topics[k].writers.is_empty() && s.topics[k].readers.is_empty()
        implies !t.topics.contains_key(k) by {
        assert(s.topics[k].writers =~= Set::<(Seq<u8>, (Seq<u8>, u8))>::empty());
        assert(s.topics[k].readers =~= Set::<(Seq<u8>, (Seq<u8>, u8))>::empty());
        assert(unused_keys::<Seq<char>, TopicState>(s.topics).contains(k));
    }
}

} // verus!
