//! Moving the end of every rate window forward on a clock tick.

use vstd::prelude::*;
use crate::state::{
    ParticipantState, ParticipantView, ReaderState, ReaderView, State, StateView, TopicState,
    TopicView, WriterState, WriterView,
};
use crate::message::TickEvent;
use crate::updater::stat_set_last;
use crate::vecmap::{Inv, MapKey, VecMap};

verus! {

/// A part of the state whose rate windows follow the clock.
pub trait WindowClock: View + Inv + Sized {
    /// The content after the windows are moved to end at `ts`.
    spec fn at_tick(v: Self::V, ts: i64) -> Self::V;

    /// Moves every window to end at capture time `ts`.
    fn tick(&mut self, ts: i64)
        requires
            old(self).inv(),
        ensures
            final(self).inv(),
            final(self)@ == Self::at_tick(old(self)@, ts);
}

/// Moves the windows of every value of `m` to end at `ts`.
pub fn tick_all<K: MapKey, V: WindowClock>(m: &mut VecMap<K, V>, ts: i64)
    requires
        old(m).wf(),
    ensures
        final(m).wf(),
        final(m)@ == old(m)@.map_values(|v: V::V| V::at_tick(v, ts)),
{
    let ghost m0 = *m;
    let n = m.len();
    let mut i: usize = 0;
    while i < n
        invariant
            i <= n,
            n == m.entries().len(),
            m.wf(),
            m0.wf(),
            m0.entries().len() == n,
            forall|j: int| 0 <= j < n ==> (#[trigger] m.entries()[j]).0.model() == m0.entries()[j].0.model(),
            forall|j: int| 0 <= j < i ==> (#[trigger] m.entries()[j]).1@ == V::at_tick(m0.entries()[j].1@, ts),
            forall|j: int| i <= j < n ==> (#[trigger] m.entries()[j]).1 == m0.entries()[j].1,
        decreases n - i,
    {
        proof {
            m.lemma_values_inv();
        }
        let v = m.value_at_mut(i);
        v.tick(ts);
        i = i + 1;
    }
    proof {
        m0.lemma_entrywise(&*m, |v: V::V| V::at_tick(v, ts));
    }
}

impl WindowClock for WriterState {
    open spec fn at_tick(v: WriterView, ts: i64) -> WriterView {
        WriterView {
            bit_rate_stat: stat_set_last(v.bit_rate_stat, ts),
            msg_rate_stat: stat_set_last(v.msg_rate_stat, ts),
            ..v
        }
    }

    fn tick(&mut self, ts: i64) {
        self.bit_rate_stat.set_last_ts(ts);
        self.msg_rate_stat.set_last_ts(ts);
    }
}

impl WindowClock for ReaderState {
    open spec fn at_tick(v: ReaderView, ts: i64) -> ReaderView {
        ReaderView { acknack_rate_stat: stat_set_last(v.acknack_rate_stat, ts), ..v }
    }

    fn tick(&mut self, ts: i64) {
        self.acknack_rate_stat.set_last_ts(ts);
    }
}

impl WindowClock for ParticipantState {
    open spec fn at_tick(v: ParticipantView, ts: i64) -> ParticipantView {
        ParticipantView {
            bit_rate_stat: stat_set_last(v.bit_rate_stat, ts),
            msg_rate_stat: stat_set_last(v.msg_rate_stat, ts),
            acknack_rate_stat: stat_set_last(v.acknack_rate_stat, ts),
            writers: v.writers.map_values(|w: WriterView| WriterState::at_tick(w, ts)),
            readers: v.readers.map_values(|r: ReaderView| ReaderState::at_tick(r, ts)),
            ..v
        }
    }

    fn tick(&mut self, ts: i64) {
        self.bit_rate_stat.set_last_ts(ts);
        self.msg_rate_stat.set_last_ts(ts);
        self.acknack_rate_stat.set_last_ts(ts);
        tick_all(&mut self.writers, ts);
        tick_all(&mut self.readers, ts);
    }
}

impl WindowClock for TopicState {
    open spec fn at_tick(v: TopicView, ts: i64) -> TopicView {
        TopicView {
            msg_rate_stat: stat_set_last(v.msg_rate_stat, ts),
            bit_rate_stat: stat_set_last(v.bit_rate_stat, ts),
            acknack_rate_stat: stat_set_last(v.acknack_rate_stat, ts),
            ..v
        }
    }

    fn tick(&mut self, ts: i64) {
        self.msg_rate_stat.set_last_ts(ts);
        self.bit_rate_stat.set_last_ts(ts);
        self.acknack_rate_stat.set_last_ts(ts);
    }
}

/// The state after a clock tick: the tick time is recorded and every rate
/// window ends at the tick's capture time.
pub open spec fn tick_spec(s: StateView, ev: TickEvent) -> StateView {
    StateView {
        tick_since: ev.when,
        participants: s.participants.map_values(|p: ParticipantView| ParticipantState::at_tick(p, ev.recv_time)),
        topics: s.topics.map_values(|t: TopicView| TopicState::at_tick(t, ev.recv_time)),
        ..s
    }
}

/// Applies a clock tick.
pub fn handle_tick(state: &mut State, ev: &TickEvent)
    requires
        old(state).wf(),
    ensures
        final(state).wf(),
        final(state)@ == tick_spec(old(state)@, *ev),
{
    let ghost s = state@;
    state.tick_since = ev.when;
    tick_all(&mut state.participants, ev.recv_time);
    tick_all(&mut state.topics, ev.recv_time);
    proof {
        let t = state@;
        assert(t.participants == tick_spec(s, *ev).participants);
        assert(t.topics == tick_spec(s, *ev).topics);
        assert forall|p: Seq<u8>, e: (Seq<u8>, u8)|
            t.participants.contains_key(p) && t.participants[p].writers.contains_key(e)
                && t.participants[p].writers[e].data is Some
                implies t.topics.contains_key(#[trigger] t.participants[p].writers[e].data->0.topic_name) by {
            assert(t.participants[p].writers[e].data == s.participants[p].writers[e].data);
        }
        assert forall|p: Seq<u8>, e: (Seq<u8>, u8)|
            t.participants.contains_key(p) && t.participants[p].readers.contains_key(e)
                && t.participants[p].readers[e].data is Some
                implies t.topics.contains_key(#[trigger] t.participants[p].readers[e].data->0.topic_name) by {
            assert(t.participants[p].readers[e].data == s.participants[p].readers[e].data);
        }
    }
}

} // verus!
