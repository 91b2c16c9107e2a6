//! The rules by which received events update the traffic state.

use vstd::prelude::*;
use crate::text::{dec_string, push_decimal, push_str, to_owned_string};
use crate::defrag_buf::insert_spec;
use crate::state::{FragmentedView, div_ceil, string_view};
use crate::message::{
    MAX_PAYLOAD_SIZE, WriterDiscovery, ReaderDiscovery,
    AckNackEvent, DataEvent, DataFragEvent, DataPayload, GapEvent, HeartbeatEvent,
    HeartbeatFragEvent, NackFragEvent, ParticipantInfo, RtpsSubmsgEvent, RtpsSubmsgEventKind,
    TickEvent, UpdateEvent,
};
use crate::state::{
    Abnormality, AbnormalityView, AckNackState, AckNackView, FragmentedMessage, HeartbeatState, ParticipantState,
    ParticipantView, ReaderState, ReaderView, State, StateView, Statistics, TopicState,
    TopicView, WriterState, WriterView, add_wrapping, default_participant, default_reader,
    default_topic, default_writer, topics_known, wrap_add,
};
use crate::timed_stat::{TimedStatView, after_set_last_ts, insert_by_time};
use crate::vecmap::{Inv, VecMap};
use crate::guid::{Guid, Locator};

verus! {

/// The participant with prefix `p`, or a fresh one if none is known.
pub open spec fn participant_or_default(s: StateView, p: Seq<u8>) -> ParticipantView {
    if s.participants.contains_key(p) { s.participants[p] } else { default_participant(s.window) }
}

/// Writer `e` of a participant, or a fresh one if none is known.
pub open spec fn writer_or_default(pv: ParticipantView, e: (Seq<u8>, u8), window: i64) -> WriterView {
    if pv.writers.contains_key(e) { pv.writers[e] } else { default_writer(window) }
}

/// Reader `e` of a participant, or a fresh one if none is known.
pub open spec fn reader_or_default(pv: ParticipantView, e: (Seq<u8>, u8), window: i64) -> ReaderView {
    if pv.readers.contains_key(e) { pv.readers[e] } else { default_reader(window) }
}

/// Topic `t`, or a fresh one if none is known.
pub open spec fn topic_or_default(s: StateView, t: Seq<char>) -> TopicView {
    if s.topics.contains_key(t) { s.topics[t] } else { default_topic(s.window) }
}

/// A statistic after `value` is pushed at time `ts`.
pub open spec fn stat_push(v: TimedStatView, ts: i64, value: u32) -> TimedStatView {
    TimedStatView {
        entries: after_set_last_ts(insert_by_time(v.entries, (ts, value)), ts as int, v.window as int),
        last_ts: Some(ts),
        window: v.window,
    }
}

/// A statistic after its window is moved to end at `ts`.
pub open spec fn stat_set_last(v: TimedStatView, ts: i64) -> TimedStatView {
    TimedStatView {
        entries: after_set_last_ts(v.entries, ts as int, v.window as int),
        last_ts: Some(ts),
        window: v.window,
    }
}

/// The heartbeat a writer keeps after a HEARTBEAT: a first heartbeat is
/// recorded with both its first and its last sequence number set to the
/// heartbeat's first sequence number; a later one replaces it, with both
/// numbers as sent, only when its count is higher.
pub open spec fn next_heartbeat(hb: Option<HeartbeatState>, ev: HeartbeatEvent, now: u64) -> Option<HeartbeatState> {
    match hb {
        Some(h) => if h.count < ev.count {
            Some(HeartbeatState { first_sn: ev.first_sn, last_sn: ev.last_sn, count: ev.count, since: now })
        } else {
            Some(h)
        },
        None => Some(HeartbeatState { first_sn: ev.first_sn, last_sn: ev.first_sn, count: ev.count, since: now }),
    }
}

/// The state after a HEARTBEAT submessage.
pub open spec fn heartbeat_spec(s: StateView, ev: HeartbeatEvent, now: u64) -> StateView {
    let pk = ev.writer_guid.prefix@;
    let ek = ev.writer_guid.entity_id@;
    let p = participant_or_default(s, pk);
    let w = writer_or_default(p, ek, s.window);
    let w2 = WriterView { heartbeat: next_heartbeat(w.heartbeat, ev, now), ..w };
    StateView {
        participants: s.participants.insert(pk, ParticipantView { writers: p.writers.insert(ek, w2), ..p }),
        stat: Statistics {
            packet_count: wrap_add(s.stat.packet_count, 1),
            heartbeat_submsg_count: wrap_add(s.stat.heartbeat_submsg_count, 1),
            ..s.stat
        },
        ..s
    }
}

/// Updating an entity's state without touching discovery data or the
/// endpoint lists of topics keeps every discovered topic tracked.
pub proof fn lemma_topics_known_kept(s: StateView, t: StateView)
    requires
        topics_known(s),
        forall|k: Seq<char>| s.topics.contains_key(k) ==> #[trigger] t.topics.contains_key(k)
            && t.topics[k].writers == s.topics[k].writers && t.topics[k].readers == s.topics[k].readers,
        forall|p: Seq<u8>, e: (Seq<u8>, u8)|
            #![trigger t.participants[p].writers[e]]
            t.participants.contains_key(p) && t.participants[p].writers.contains_key(e)
                && t.participants[p].writers[e].data is Some
                ==> s.participants.contains_key(p) && s.participants[p].writers.contains_key(e)
                    && s.participants[p].writers[e].data == t.participants[p].writers[e].data,
        forall|p: Seq<u8>, e: (Seq<u8>, u8)|
            #![trigger t.participants[p].readers[e]]
            t.participants.contains_key(p) && t.participants[p].readers.contains_key(e)
                && t.participants[p].readers[e].data is Some
                ==> s.participants.contains_key(p) && s.participants[p].readers.contains_key(e)
                    && s.participants[p].readers[e].data == t.participants[p].readers[e].data,
    ensures
        topics_known(t),
{
    assert forall|p: Seq<u8>, e: (Seq<u8>, u8)|
        t.participants.contains_key(p) && t.participants[p].writers.contains_key(e)
            && t.participants[p].writers[e].data is Some
            implies t.topics.contains_key(#[trigger] t.participants[p].writers[e].data->0.topic_name)
                && t.topics[t.participants[p].writers[e].data->0.topic_name].writers.contains((p, e)) by {
        assert(s.participants[p].writers[e].data == t.participants[p].writers[e].data);
        let tn = t.participants[p].writers[e].data->0.topic_name;
        assert(s.topics.contains_key(tn));
        assert(t.topics.contains_key(tn));
    }
    assert forall|p: Seq<u8>, e: (Seq<u8>, u8)|
        t.participants.contains_key(p) && t.participants[p].readers.contains_key(e)
            && t.participants[p].readers[e].data is Some
            implies t.topics.contains_key(#[trigger] t.participants[p].readers[e].data->0.topic_name)
                && t.topics[t.participants[p].readers[e].data->0.topic_name].readers.contains((p, e)) by {
        assert(s.participants[p].readers[e].data == t.participants[p].readers[e].data);
        let tn = t.participants[p].readers[e].data->0.topic_name;
        assert(s.topics.contains_key(tn));
        assert(t.topics.contains_key(tn));
    }
}

/// Applies a HEARTBEAT submessage received at monotonic time `now`.
pub fn handle_heartbeat_event(state: &mut State, event: &HeartbeatEvent, now: u64)
    requires
        old(state).wf(),
    ensures
        final(state).wf(),
        final(state)@ == heartbeat_spec(old(state)@, *event, now),
{
    state.stat.packet_count = add_wrapping(state.stat.packet_count, 1);
    state.stat.heartbeat_submsg_count = add_wrapping(state.stat.heartbeat_submsg_count, 1);
    let window = state.window;
    let participant = state.participants.entry_or_insert(event.writer_guid.prefix, ParticipantState::new(window));
    let writer = participant.writers.entry_or_insert(event.writer_guid.entity_id, WriterState::new(window));
    let next = match writer.heartbeat {
        Some(h) => if h.count < event.count {
            HeartbeatState { first_sn: event.first_sn, last_sn: event.last_sn, count: event.count, since: now }
        } else {
            h
        },
        None => HeartbeatState { first_sn: event.first_sn, last_sn: event.first_sn, count: event.count, since: now },
    };
    writer.heartbeat = Some(next);
    proof {
        let s = old(state)@;
        let t = state@;
        assert(t.participants =~= heartbeat_spec(s, *event, now).participants);
        lemma_topics_known_kept(s, t);
    }
}


/// The state after a GAP submessage: only the packet count moves.
pub open spec fn gap_spec(s: StateView) -> StateView {
    StateView { stat: Statistics { packet_count: wrap_add(s.stat.packet_count, 1), ..s.stat }, ..s }
}

/// The state after a NACK_FRAG submessage.
pub open spec fn nackfrag_spec(s: StateView) -> StateView {
    StateView {
        stat: Statistics {
            packet_count: wrap_add(s.stat.packet_count, 1),
            ackfrag_submsg_count: wrap_add(s.stat.ackfrag_submsg_count, 1),
            ..s.stat
        },
        ..s
    }
}

/// The state after a HEARTBEAT_FRAG submessage.
pub open spec fn heartbeatfrag_spec(s: StateView) -> StateView {
    StateView {
        stat: Statistics {
            packet_count: wrap_add(s.stat.packet_count, 1),
            heartbeat_frag_submsg_count: wrap_add(s.stat.heartbeat_frag_submsg_count, 1),
            ..s.stat
        },
        ..s
    }
}

/// Applies a GAP submessage.
pub fn handle_gap_event(state: &mut State, event: &GapEvent)
    requires
        old(state).wf(),
    ensures
        final(state).wf(),
        final(state)@ == gap_spec(old(state)@),
{
    state.stat.packet_count = add_wrapping(state.stat.packet_count, 1);
}

/// Applies a NACK_FRAG submessage.
pub fn handle_nackfrag_event(state: &mut State, event: &NackFragEvent)
    requires
        old(state).wf(),
    ensures
        final(state).wf(),
        final(state)@ == nackfrag_spec(old(state)@),
{
    state.stat.packet_count = add_wrapping(state.stat.packet_count, 1);
    state.stat.ackfrag_submsg_count = add_wrapping(state.stat.ackfrag_submsg_count, 1);
}

/// Applies a HEARTBEAT_FRAG submessage.
pub fn handle_heartbeatfrag_event(state: &mut State, event: &HeartbeatFragEvent)
    requires
        old(state).wf(),
    ensures
        final(state).wf(),
        final(state)@ == heartbeatfrag_spec(old(state)@),
{
    state.stat.packet_count = add_wrapping(state.stat.packet_count, 1);
    state.stat.heartbeat_frag_submsg_count = add_wrapping(state.stat.heartbeat_frag_submsg_count, 1);
}

/// A copy of a locator list.
pub fn copy_locators(v: &Vec<Locator>) -> (r: Vec<Locator>)
    ensures
        r@ == v@,
{
    let n = v.len();
    let mut out: Vec<Locator> = Vec::new();
    let mut i: usize = 0;
    while i < n
        invariant
            n == v@.len(),
            i <= n,
            out@ == v@.take(i as int),
        decreases n - i,
    {
        out.push(v[i]);
        i = i + 1;
        assert(v@.take(i as int) =~= v@.take(i - 1).push(v@[i - 1]));
    }
    assert(v@.take(n as int) =~= v@);
    out
}

/// The state after a participant is observed with its locators.
pub open spec fn participant_info_spec(s: StateView, info: ParticipantInfo) -> StateView {
    let pk = info.guid_prefix@;
    let p = participant_or_default(s, pk);
    let p2 = ParticipantView {
        unicast_locator_list: Some(info.unicast_locator_list@),
        multicast_locator_list: match info.multicast_locator_list {
            Some(l) => Some(l@),
            None => None,
        },
        ..p
    };
    StateView { participants: s.participants.insert(pk, p2), ..s }
}

/// Records the locators of an observed participant.
pub fn handle_participant_info(state: &mut State, info: &ParticipantInfo)
    requires
        old(state).wf(),
    ensures
        final(state).wf(),
        final(state)@ == participant_info_spec(old(state)@, *info),
{
    let window = state.window;
    let participant = state.participants.entry_or_insert(info.guid_prefix, ParticipantState::new(window));
    participant.unicast_locator_list = Some(copy_locators(&info.unicast_locator_list));
    participant.multicast_locator_list = match &info.multicast_locator_list {
        Some(l) => Some(copy_locators(l)),
        None => None,
    };
    proof {
        let s = old(state)@;
        let t = state@;
        assert(t.participants =~= participant_info_spec(s, *info).participants);
        lemma_topics_known_kept(s, t);
    }
}

/// The state after an ACKNACK submessage received at capture time `recv`
/// and monotonic time `now`: the reader's acknowledgement counts and rate
/// move; a newer ACKNACK (higher count) replaces the recorded one and the
/// reader's last sequence number, and counts towards its topic.
pub open spec fn acknack_spec(s: StateView, recv: i64, ev: AckNackEvent, now: u64) -> StateView {
    let pk = ev.reader_guid.prefix@;
    let ek = ev.reader_guid.entity_id@;
    let p = participant_or_default(s, pk);
    let r = reader_or_default(p, ek, s.window);
    let p1 = ParticipantView {
        total_acknack_count: wrap_add(p.total_acknack_count, 1),
        acknack_rate_stat: stat_push(p.acknack_rate_stat, recv, 1),
        ..p
    };
    let r1 = ReaderView {
        total_acknack_count: wrap_add(r.total_acknack_count, 1),
        acknack_rate_stat: stat_push(r.acknack_rate_stat, recv, 1),
        ..r
    };
    let stale = r.acknack is Some && r.acknack->0.count >= ev.count;
    let r2 = if stale {
        r1
    } else {
        ReaderView {
            acknack: Some(AckNackView { missing_sn: ev.missing_sn@, count: ev.count, since: now }),
            last_sn: Some(ev.base_sn),
            ..r1
        }
    };
    let stat = Statistics {
        packet_count: wrap_add(s.stat.packet_count, 1),
        acknack_submsg_count: wrap_add(s.stat.acknack_submsg_count, 1),
        ..s.stat
    };
    let participants = s.participants.insert(pk, ParticipantView { readers: p1.readers.insert(ek, r2), ..p1 });
    let topics = if !stale && r.data is Some {
        let tn = r.data->0.topic_name;
        let t = s.topics[tn];
        s.topics.insert(tn, TopicView {
            total_acknack_count: wrap_add(t.total_acknack_count, 1),
            acknack_rate_stat: stat_push(t.acknack_rate_stat, recv, 1),
            ..t
        })
    } else {
        s.topics
    };
    StateView { participants, topics, stat, ..s }
}

/// A copy of a list of sequence numbers.
fn copy_sns(v: &Vec<i64>) -> (r: Vec<i64>)
    ensures
        r@ == v@,
{
    let n = v.len();
    let mut out: Vec<i64> = Vec::new();
    let mut i: usize = 0;
    while i < n
        invariant
            n == v@.len(),
            i <= n,
            out@ == v@.take(i as int),
        decreases n - i,
    {
        out.push(v[i]);
        i = i + 1;
        assert(v@.take(i as int) =~= v@.take(i - 1).push(v@[i - 1]));
    }
    assert(v@.take(n as int) =~= v@);
    out
}

/// Applies an ACKNACK submessage received at capture time `recv`
/// (nanoseconds) and monotonic time `now`.
pub fn handle_acknack_event(state: &mut State, recv: i64, event: &AckNackEvent, now: u64)
    requires
        old(state).wf(),
    ensures
        final(state).wf(),
        final(state)@ == acknack_spec(old(state)@, recv, *event, now),
{
    let ghost s = state@;
    state.stat.packet_count = add_wrapping(state.stat.packet_count, 1);
    state.stat.acknack_submsg_count = add_wrapping(state.stat.acknack_submsg_count, 1);
    let window = state.window;
    let participant = state.participants.entry_or_insert(event.reader_guid.prefix, ParticipantState::new(window));
    participant.total_acknack_count = add_wrapping(participant.total_acknack_count, 1);
    participant.acknack_rate_stat.push(recv, 1);
    let reader = participant.readers.entry_or_insert(event.reader_guid.entity_id, ReaderState::new(window));
    reader.total_acknack_count = add_wrapping(reader.total_acknack_count, 1);
    reader.acknack_rate_stat.push(recv, 1);
    let stale = match &reader.acknack {
        Some(a) => a.count >= event.count,
        None => false,
    };
    if stale {
        proof {
            let t = state@;
            assert(t.participants =~= acknack_spec(s, recv, *event, now).participants);
            lemma_topics_known_kept(s, t);
        }
        return;
    }
    reader.acknack = Some(AckNackState { missing_sn: copy_sns(&event.missing_sn), count: event.count, since: now });
    reader.last_sn = Some(event.base_sn);
    match reader.topic_name() {
        Some(name) => {
            let idx = state.topics.find(name);
            proof {
                assert(s.participants[event.reader_guid.prefix@].readers.contains_key(event.reader_guid.entity_id@));
            }
            let i = idx.unwrap();
            proof {
                state.topics.lemma_values_inv();
                state.topics.lemma_view();
            }
            let topic = state.topics.value_at_mut(i);
            topic.total_acknack_count = add_wrapping(topic.total_acknack_count, 1);
            topic.acknack_rate_stat.push(recv, 1);
        },
        None => {},
    }
    proof {
        let t = state@;
        assert(t.participants =~= acknack_spec(s, recv, *event, now).participants);
        assert(t.topics =~= acknack_spec(s, recv, *event, now).topics);
        lemma_topics_known_kept(s, t);
    }
}


/// The description reported when discovery data changes an entity's topic.
pub open spec fn topic_changed_desc() -> Seq<char> {
    "topic name changed in DiscoveredWriterData"@
}

/// The state after writer discovery data `d` arrives from `sender` at wall
/// time `wall`: the writer records the data (a changed topic name is
/// reported), and the topic records the writer.
pub open spec fn writer_discovery_spec(s: StateView, sender: Guid, d: WriterDiscovery, wall: i64) -> StateView {
    let g = d.remote_writer_guid;
    let pk = g.prefix@;
    let ek = g.entity_id@;
    let p = participant_or_default(s, pk);
    let w = writer_or_default(p, ek, s.window);
    let changed = w.data is Some && w.data->0.topic_name != d.topic_name@;
    let abnormalities = if changed {
        s.abnormalities.push(AbnormalityView {
            when: wall,
            writer_guid: Some(sender@),
            reader_guid: None,
            topic_name: None,
            desc: topic_changed_desc(),
        })
    } else {
        s.abnormalities
    };
    let w2 = WriterView { data: Some(d@), ..w };
    let t = topic_or_default(s, d.topic_name@);
    StateView {
        participants: s.participants.insert(pk, ParticipantView { writers: p.writers.insert(ek, w2), ..p }),
        topics: s.topics.insert(d.topic_name@, TopicView { writers: t.writers.insert(g@), ..t }),
        abnormalities,
        ..s
    }
}

/// The state after reader discovery data `d` arrives from `sender` at wall
/// time `wall`: the reader records the data (a changed topic name is
/// reported, with the same description and sender as for writers), and the
/// topic records the reader.
pub open spec fn reader_discovery_spec(s: StateView, sender: Guid, d: ReaderDiscovery, wall: i64) -> StateView {
    let g = d.remote_reader_guid;
    let pk = g.prefix@;
    let ek = g.entity_id@;
    let p = participant_or_default(s, pk);
    let r = reader_or_default(p, ek, s.window);
    let changed = r.data is Some && r.data->0.topic_name != d.topic_name@;
    let abnormalities = if changed {
        s.abnormalities.push(AbnormalityView {
            when: wall,
            writer_guid: Some(sender@),
            reader_guid: None,
            topic_name: None,
            desc: topic_changed_desc(),
        })
    } else {
        s.abnormalities
    };
    let r2 = ReaderView { data: Some(d@), ..r };
    let t = topic_or_default(s, d.topic_name@);
    StateView {
        participants: s.participants.insert(pk, ParticipantView { readers: p.readers.insert(ek, r2), ..p }),
        topics: s.topics.insert(d.topic_name@, TopicView { readers: t.readers.insert(g@), ..t }),
        abnormalities,
        ..s
    }
}

/// The state after the discovery payload of a DATA submessage.
pub open spec fn data_discovery_spec(s: StateView, ev: DataEvent, wall: i64) -> StateView {
    match ev.payload {
        Some(DataPayload::Writer(d)) => writer_discovery_spec(s, ev.writer_guid, d, wall),
        Some(DataPayload::Reader(d)) => reader_discovery_spec(s, ev.writer_guid, d, wall),
        _ => s,
    }
}

/// The state after one complete message of `size` bytes from writer `g`
/// at capture time `recv`: message and byte counts and rates move on the
/// participant, the writer (whose last sequence number becomes `sn`) and the
/// writer's topic.
pub open spec fn data_traffic_spec(s: StateView, recv: i64, g: Guid, sn: i64, size: usize) -> StateView {
    let pk = g.prefix@;
    let ek = g.entity_id@;
    let p = participant_or_default(s, pk);
    let w = writer_or_default(p, ek, s.window);
    let bits = (size * 8) as u32;
    let p1 = ParticipantView {
        total_msg_count: wrap_add(p.total_msg_count, 1),
        msg_rate_stat: stat_push(p.msg_rate_stat, recv, 1),
        total_byte_count: wrap_add(p.total_byte_count, size),
        bit_rate_stat: stat_push(p.bit_rate_stat, recv, bits),
        ..p
    };
    let w1 = WriterView {
        last_sn: Some(sn),
        total_msg_count: wrap_add(w.total_msg_count, 1),
        msg_rate_stat: stat_push(w.msg_rate_stat, recv, 1),
        total_byte_count: wrap_add(w.total_byte_count, size),
        bit_rate_stat: stat_push(w.bit_rate_stat, recv, bits),
        ..w
    };
    let topics = if w.data is Some {
        let tn = w.data->0.topic_name;
        let t = s.topics[tn];
        s.topics.insert(tn, TopicView {
            total_msg_count: wrap_add(t.total_msg_count, 1),
            msg_rate_stat: stat_push(t.msg_rate_stat, recv, 1),
            total_byte_count: wrap_add(t.total_byte_count, size),
            bit_rate_stat: stat_push(t.bit_rate_stat, recv, bits),
            ..t
        })
    } else {
        s.topics
    };
    StateView {
        participants: s.participants.insert(pk, ParticipantView { writers: p1.writers.insert(ek, w1), ..p1 }),
        topics,
        ..s
    }
}

/// The state after a DATA submessage: its discovery payload is applied,
/// the packet and DATA counts move, and the message counts as traffic.
pub open spec fn data_spec(s: StateView, recv: i64, ev: DataEvent, wall: i64) -> StateView {
    let s1 = data_discovery_spec(s, ev, wall);
    let s2 = StateView {
        stat: Statistics {
            packet_count: wrap_add(s1.stat.packet_count, 1),
            data_submsg_count: wrap_add(s1.stat.data_submsg_count, 1),
            ..s1.stat
        },
        ..s1
    };
    data_traffic_spec(s2, recv, ev.writer_guid, ev.writer_sn, ev.payload_size)
}

/// Discovery data is only taken from the participant that describes its
/// own endpoints.
pub open spec fn data_payload_consistent(ev: DataEvent) -> bool {
    match ev.payload {
        Some(DataPayload::Writer(d)) => d.remote_writer_guid.prefix@ == ev.writer_guid.prefix@,
        Some(DataPayload::Reader(d)) => d.remote_reader_guid.prefix@ == ev.writer_guid.prefix@,
        _ => true,
    }
}

/// Records writer discovery data.
fn apply_writer_discovery(state: &mut State, sender: Guid, d: &WriterDiscovery, wall: i64)
    requires
        old(state).wf(),
    ensures
        final(state).wf(),
        final(state)@ == writer_discovery_spec(old(state)@, sender, *d, wall),
{
    let ghost s = state@;
    let window = state.window;
    let g = d.remote_writer_guid;
    let participant = state.participants.entry_or_insert(g.prefix, ParticipantState::new(window));
    let writer = participant.writers.entry_or_insert(g.entity_id, WriterState::new(window));
    let changed = match &writer.data {
        Some(orig) => orig.topic_name != d.topic_name,
        None => false,
    };
    if changed {
        let a = Abnormality {
            when: wall,
            writer_guid: Some(sender),
            reader_guid: None,
            topic_name: None,
            desc: to_owned_string("topic name changed in DiscoveredWriterData"),
        };
        state.abnormalities.push(a);
    }
    writer.data = Some(d.copy());
    let topic = state.topics.entry_or_insert(d.topic_name.clone(), TopicState::new(window));
    topic.writers.insert(g, ());
    proof {
        let t = state@;
        let spec = writer_discovery_spec(s, sender, *d, wall);
        assert(t.participants =~= spec.participants);
        assert(t.topics =~= spec.topics);
        assert(t.abnormalities =~= spec.abnormalities);
        assert(topics_known(t)) by {
            assert forall|p: Seq<u8>, e: (Seq<u8>, u8)|
                t.participants.contains_key(p) && t.participants[p].writers.contains_key(e)
                    && t.participants[p].writers[e].data is Some
                    implies t.topics.contains_key(#[trigger] t.participants[p].writers[e].data->0.topic_name) by {
                if !(p == g.prefix@ && e == g.entity_id@) {
                    if p == g.prefix@ {
                        assert(t.participants[p].writers[e] == s.participants[p].writers[e]);
                    }
                }
            }
            assert forall|p: Seq<u8>, e: (Seq<u8>, u8)|
                t.participants.contains_key(p) && t.participants[p].readers.contains_key(e)
                    && t.participants[p].readers[e].data is Some
                    implies t.topics.contains_key(#[trigger] t.participants[p].readers[e].data->0.topic_name) by {
                assert(t.participants[p].readers[e] == s.participants[p].readers[e]);
            }
        }
    }
}

/// Records reader discovery data.
fn apply_reader_discovery(state: &mut State, sender: Guid, d: &ReaderDiscovery, wall: i64)
    requires
        old(state).wf(),
    ensures
        final(state).wf(),
        final(state)@ == reader_discovery_spec(old(state)@, sender, *d, wall),
{
    let ghost s = state@;
    let window = state.window;
    let g = d.remote_reader_guid;
    let participant = state.participants.entry_or_insert(g.prefix, ParticipantState::new(window));
    let reader = participant.readers.entry_or_insert(g.entity_id, ReaderState::new(window));
    let changed = match &reader.data {
        Some(orig) => orig.topic_name != d.topic_name,
        None => false,
    };
    if changed {
        let a = Abnormality {
            when: wall,
            writer_guid: Some(sender),
            reader_guid: None,
            topic_name: None,
            desc: to_owned_string("topic name changed in DiscoveredWriterData"),
        };
        state.abnormalities.push(a);
    }
    reader.data = Some(d.copy());
    let topic = state.topics.entry_or_insert(d.topic_name.clone(), TopicState::new(window));
    topic.readers.insert(g, ());
    proof {
        let t = state@;
        let spec = reader_discovery_spec(s, sender, *d, wall);
        assert(t.participants =~= spec.participants);
        assert(t.topics =~= spec.topics);
        assert(t.abnormalities =~= spec.abnormalities);
        assert(topics_known(t)) by {
            assert forall|p: Seq<u8>, e: (Seq<u8>, u8)|
                t.participants.contains_key(p) && t.participants[p].readers.contains_key(e)
                    && t.participants[p].readers[e].data is Some
                    implies t.topics.contains_key(#[trigger] t.participants[p].readers[e].data->0.topic_name) by {
                if !(p == g.prefix@ && e == g.entity_id@) {
                    if p == g.prefix@ {
                        assert(t.participants[p].readers[e] == s.participants[p].readers[e]);
                    }
                }
            }
            assert forall|p: Seq<u8>, e: (Seq<u8>, u8)|
                t.participants.contains_key(p) && t.participants[p].writers.contains_key(e)
                    && t.participants[p].writers[e].data is Some
                    implies t.topics.contains_key(#[trigger] t.participants[p].writers[e].data->0.topic_name) by {
                assert(t.participants[p].writers[e] == s.participants[p].writers[e]);
            }
        }
    }
}

/// Counts one complete message of `size` bytes from writer `g`.
fn apply_data_traffic(state: &mut State, recv: i64, g: Guid, sn: i64, size: usize)
    requires
        old(state).wf(),
        size <= MAX_PAYLOAD_SIZE,
    ensures
        final(state).wf(),
        final(state)@ == data_traffic_spec(old(state)@, recv, g, sn, size),
{
    let ghost s = state@;
    let window = state.window;
    let bits = (size * 8) as u32;
    let participant = state.participants.entry_or_insert(g.prefix, ParticipantState::new(window));
    participant.total_msg_count = add_wrapping(participant.total_msg_count, 1);
    participant.msg_rate_stat.push(recv, 1);
    participant.total_byte_count = add_wrapping(participant.total_byte_count, size);
    participant.bit_rate_stat.push(recv, bits);
    let writer = participant.writers.entry_or_insert(g.entity_id, WriterState::new(window));
    writer.last_sn = Some(sn);
    writer.total_msg_count = add_wrapping(writer.total_msg_count, 1);
    writer.msg_rate_stat.push(recv, 1);
    writer.total_byte_count = add_wrapping(writer.total_byte_count, size);
    writer.bit_rate_stat.push(recv, bits);
    match writer.topic_name() {
        Some(name) => {
            let idx = state.topics.find(name);
            proof {
                assert(s.participants[g.prefix@].writers.contains_key(g.entity_id@));
            }
            let i = idx.unwrap();
            proof {
                state.topics.lemma_values_inv();
                state.topics.lemma_view();
            }
            let topic = state.topics.value_at_mut(i);
            topic.total_msg_count = add_wrapping(topic.total_msg_count, 1);
            topic.msg_rate_stat.push(recv, 1);
            topic.total_byte_count = add_wrapping(topic.total_byte_count, size);
            topic.bit_rate_stat.push(recv, bits);
        },
        None => {},
    }
    proof {
        let t = state@;
        assert(t.participants =~= data_traffic_spec(s, recv, g, sn, size).participants);
        assert(t.topics =~= data_traffic_spec(s, recv, g, sn, size).topics);
        lemma_topics_known_kept(s, t);
    }
}

/// Applies a DATA submessage received at capture time `recv` (nanoseconds)
/// and wall time `wall` (microseconds since the Unix epoch).
pub fn handle_data_event(state: &mut State, recv: i64, event: &DataEvent, wall: i64)
    requires
        old(state).wf(),
        event.payload_size <= MAX_PAYLOAD_SIZE,
        data_payload_consistent(*event),
    ensures
        final(state).wf(),
        final(state)@ == data_spec(old(state)@, recv, *event, wall),
{
    match &event.payload {
        Some(DataPayload::Writer(d)) => apply_writer_discovery(state, event.writer_guid, d, wall),
        Some(DataPayload::Reader(d)) => apply_reader_discovery(state, event.writer_guid, d, wall),
        _ => {},
    }
    state.stat.packet_count = add_wrapping(state.stat.packet_count, 1);
    state.stat.data_submsg_count = add_wrapping(state.stat.data_submsg_count, 1);
    apply_data_traffic(state, recv, event.writer_guid, event.writer_sn, event.payload_size);
}


/// The description reported when a DATA_FRAG changes a message's size.
pub open spec fn data_size_desc(old_size: usize, new_size: u32) -> Seq<char> {
    "data_size changes from "@ + dec_string(old_size as nat) + " to "@ + dec_string(new_size as nat)
        + " in DataFrag submsg"@
}

/// The description reported when a fragment range cannot be recorded.
pub open spec fn fragment_refused_desc(start: usize, end: usize) -> Seq<char> {
    "unable to insert fragment "@ + dec_string(start as nat) + ".."@ + dec_string(end as nat)
        + " into defrag buffer"@
}

/// The record of a fragmented message none of whose fragments has arrived.
pub open spec fn new_fragmented(data_size: usize, fragment_size: usize) -> FragmentedView {
    let n = div_ceil(data_size as nat, fragment_size as nat) as usize;
    FragmentedView {
        data_size,
        num_fragments: n,
        recvd_fragments: 0,
        intervals: Map::empty(),
        defrag_buf: (n as nat, if n == 0 { Seq::empty() } else { seq![(0usize, n)] }),
    }
}

/// The fragment numbers a DATA_FRAG carries, counted from zero.
pub open spec fn frag_range(ev: DataFragEvent) -> (usize, usize) {
    let start = (ev.fragment_starting_num - 1) as usize;
    (start, (start + ev.fragments_in_submessage) as usize)
}


/// What a DATA_FRAG did to the record of its message.
#[derive(Debug, Clone, Copy)]
pub enum FragOutcome {
    /// The event names another data size than the record: nothing changed.
    SizeChanged,
    /// The fragment range had been seen: only its payload hash was replaced.
    Duplicate,
    /// The range overlaps received fragments or lies outside the message.
    Refused,
    /// The range was recorded and fragments are still missing.
    Partial,
    /// The range was recorded and the message is complete.
    Complete,
}

/// The record of a fragmented message after a DATA_FRAG, and what happened.
pub open spec fn frag_step(fm: FragmentedView, ev: DataFragEvent) -> (FragmentedView, FragOutcome) {
    if ev.data_size as usize != fm.data_size {
        (fm, FragOutcome::SizeChanged)
    } else {
        let range = frag_range(ev);
        let fm1 = FragmentedView { intervals: fm.intervals.insert(range, ev.payload_hash), ..fm };
        if fm.intervals.contains_key(range) {
            (fm1, FragOutcome::Duplicate)
        } else {
            match insert_spec(fm.defrag_buf, range.0, range.1) {
                None => (fm1, FragOutcome::Refused),
                Some(free) => {
                    let fm2 = FragmentedView {
                        defrag_buf: (fm.defrag_buf.0, free),
                        recvd_fragments: wrap_add(fm.recvd_fragments, ev.fragments_in_submessage as usize),
                        ..fm1
                    };
                    (fm2, if free.len() == 0 { FragOutcome::Complete } else { FragOutcome::Partial })
                },
            }
        }
    }
}

/// Applies one DATA_FRAG to the record of its message.
pub fn apply_fragment(fm: &mut FragmentedMessage, ev: &DataFragEvent) -> (r: FragOutcome)
    requires
        old(fm).inv(),
        ev.fragment_starting_num >= 1,
        ev.fragment_starting_num - 1 + ev.fragments_in_submessage <= usize::MAX,
    ensures
        final(fm).inv(),
        final(fm)@ == frag_step(old(fm)@, *ev).0,
        r == frag_step(old(fm)@, *ev).1,
{
    if ev.data_size as usize != fm.data_size {
        return FragOutcome::SizeChanged;
    }
    let start = (ev.fragment_starting_num - 1) as usize;
    let end = start + ev.fragments_in_submessage as usize;
    let prev = fm.intervals.insert((start, end), ev.payload_hash);
    if prev.is_some() {
        return FragOutcome::Duplicate;
    }
    match fm.defrag_buf.insert(start..end) {
        Err(_) => FragOutcome::Refused,
        Ok(()) => {
            fm.recvd_fragments = add_wrapping(fm.recvd_fragments, ev.fragments_in_submessage as usize);
            if fm.defrag_buf.is_full() {
                FragOutcome::Complete
            } else {
                FragOutcome::Partial
            }
        },
    }
}

/// The topic a writer publishes on, once discovered.
pub open spec fn writer_topic(w: WriterView) -> Option<Seq<char>> {
    match w.data {
        Some(d) => Some(d.topic_name),
        None => None,
    }
}

/// The record that a DATA_FRAG applies to: the writer's record of the
/// message, or a fresh one made from the event's sizes.
pub open spec fn frag_record(w: WriterView, ev: DataFragEvent) -> FragmentedView {
    if w.frag_messages.contains_key(ev.writer_sn) {
        w.frag_messages[ev.writer_sn]
    } else {
        new_fragmented(ev.data_size as usize, ev.fragment_size as usize)
    }
}

/// The state in which writer `g` keeps `f` as its record of message `sn`.
pub open spec fn with_frag_record(s: StateView, g: Guid, sn: i64, f: FragmentedView) -> StateView {
    let p = participant_or_default(s, g.prefix@);
    let w = writer_or_default(p, g.entity_id@, s.window);
    StateView {
        participants: s.participants.insert(g.prefix@, ParticipantView {
            writers: p.writers.insert(g.entity_id@, WriterView { frag_messages: w.frag_messages.insert(sn, f), ..w }),
            ..p
        }),
        ..s
    }
}

/// The state with one more abnormality about writer `g`.
pub open spec fn report_writer(s: StateView, wall: i64, g: Guid, topic: Option<Seq<char>>, desc: Seq<char>) -> StateView {
    StateView {
        abnormalities: s.abnormalities.push(AbnormalityView {
            when: wall,
            writer_guid: Some(g@),
            reader_guid: None,
            topic_name: topic,
            desc,
        }),
        ..s
    }
}

/// The state after the last fragment of message `sn` of `size` bytes from
/// writer `g` arrived at capture time `recv`: the record is dropped, the
/// message counts on the participant and on the writer (whose last sequence
/// number becomes `sn`), and its bytes count on the writer's topic; a writer
/// with a known topic counts the message a second time on the writer, and
/// the topic's message count does not move.
pub open spec fn frag_complete_spec(s: StateView, recv: i64, g: Guid, sn: i64, size: usize) -> StateView {
    let pk = g.prefix@;
    let ek = g.entity_id@;
    let p = participant_or_default(s, pk);
    let w = writer_or_default(p, ek, s.window);
    let bits = (size * 8) as u32;
    let p1 = ParticipantView {
        total_msg_count: wrap_add(p.total_msg_count, 1),
        msg_rate_stat: stat_push(p.msg_rate_stat, recv, 1),
        total_byte_count: wrap_add(p.total_byte_count, size),
        bit_rate_stat: stat_push(p.bit_rate_stat, recv, bits),
        ..p
    };
    let w1 = WriterView {
        frag_messages: w.frag_messages.remove(sn),
        last_sn: Some(sn),
        total_msg_count: wrap_add(w.total_msg_count, 1),
        msg_rate_stat: stat_push(w.msg_rate_stat, recv, 1),
        total_byte_count: wrap_add(w.total_byte_count, size),
        bit_rate_stat: stat_push(w.bit_rate_stat, recv, bits),
        ..w
    };
    let w2 = if w.data is Some {
        WriterView {
            total_msg_count: wrap_add(w1.total_msg_count, 1),
            msg_rate_stat: stat_push(w1.msg_rate_stat, recv, 1),
            ..w1
        }
    } else {
        w1
    };
    let topics = if w.data is Some {
        let tn = w.data->0.topic_name;
        let t = s.topics[tn];
        s.topics.insert(tn, TopicView {
            total_byte_count: wrap_add(t.total_byte_count, size),
            bit_rate_stat: stat_push(t.bit_rate_stat, recv, bits),
            ..t
        })
    } else {
        s.topics
    };
    StateView {
        participants: s.participants.insert(pk, ParticipantView { writers: p1.writers.insert(ek, w2), ..p1 }),
        topics,
        ..s
    }
}

/// The state after a DATA_FRAG submessage received at capture time `recv`
/// and wall time `wall`.
///
/// The packet and DATA_FRAG counts move, then the fragment is applied to
/// the writer's record of its message (see [`frag_step`]): a changed data
/// size and a refused range are reported, and a message whose last fragment
/// arrived counts as traffic (see [`frag_complete_spec`]).
pub open spec fn datafrag_spec(s: StateView, recv: i64, ev: DataFragEvent, wall: i64) -> StateView {
    let s1 = StateView {
        stat: Statistics {
            packet_count: wrap_add(s.stat.packet_count, 1),
            datafrag_submsg_count: wrap_add(s.stat.datafrag_submsg_count, 1),
            ..s.stat
        },
        ..s
    };
    let g = ev.writer_guid;
    let w = writer_or_default(participant_or_default(s1, g.prefix@), g.entity_id@, s1.window);
    let fm = frag_record(w, ev);
    let step = frag_step(fm, ev);
    let kept = with_frag_record(s1, g, ev.writer_sn, step.0);
    match step.1 {
        FragOutcome::SizeChanged => report_writer(kept, wall, g, writer_topic(w), data_size_desc(fm.data_size, ev.data_size)),
        FragOutcome::Refused => {
            let range = frag_range(ev);
            report_writer(kept, wall, g, writer_topic(w), fragment_refused_desc(range.0, range.1))
        },
        FragOutcome::Duplicate => kept,
        FragOutcome::Partial => kept,
        FragOutcome::Complete => frag_complete_spec(s1, recv, g, ev.writer_sn, ev.payload_size),
    }
}

/// The writer has no record yet of the message a DATA_FRAG belongs to, so
/// one would be created from the event's sizes.
pub open spec fn creates_fragmented(s: StateView, ev: DataFragEvent) -> bool {
    let p = participant_or_default(s, ev.writer_guid.prefix@);
    let w = writer_or_default(p, ev.writer_guid.entity_id@, s.window);
    !w.frag_messages.contains_key(ev.writer_sn)
}

/// Whether handling `ev` would create a record of a new fragmented message.
pub fn needs_new_fragmented(state: &State, ev: &DataFragEvent) -> (r: bool)
    requires
        state.wf(),
    ensures
        r == creates_fragmented(state@, *ev),
{
    match state.participants.get(&ev.writer_guid.prefix) {
        Some(p) => match p.writers.get(&ev.writer_guid.entity_id) {
            Some(w) => w.frag_messages.find(&ev.writer_sn).is_none(),
            None => true,
        },
        None => true,
    }
}

/// The topic name of writer `g`, once discovered.
fn writer_topic_name(state: &State, g: &Guid) -> (r: Option<String>)
    requires
        state.wf(),
    ensures
        string_view(r) == writer_topic(writer_or_default(participant_or_default(state@, g.prefix@), g.entity_id@, state.window)),
{
    match state.participants.get(&g.prefix) {
        Some(p) => match p.writers.get(&g.entity_id) {
            Some(w) => match &w.data {
                Some(d) => Some(d.topic_name.clone()),
                None => None,
            },
            None => None,
        },
        None => None,
    }
}

/// Completing a message after its record was replaced is completing it
/// from the state before.
proof fn lemma_complete_after_record(s: StateView, recv: i64, g: Guid, sn: i64, size: usize, k: StateView)
    requires
        exists|f: FragmentedView| k == #[trigger] with_frag_record(s, g, sn, f),
    ensures
        frag_complete_spec(k, recv, g, sn, size) == frag_complete_spec(s, recv, g, sn, size),
{
    let f = choose|f: FragmentedView| k == #[trigger] with_frag_record(s, g, sn, f);
    let p = participant_or_default(s, g.prefix@);
    let w = writer_or_default(p, g.entity_id@, s.window);
    let pk = participant_or_default(k, g.prefix@);
    let wk = writer_or_default(pk, g.entity_id@, k.window);
    assert(pk == ParticipantView {
        writers: p.writers.insert(g.entity_id@, WriterView { frag_messages: w.frag_messages.insert(sn, f), ..w }),
        ..p
    });
    assert(wk == WriterView { frag_messages: w.frag_messages.insert(sn, f), ..w });
    assert(wk.frag_messages.remove(sn) =~= w.frag_messages.remove(sn));
    let a = frag_complete_spec(k, recv, g, sn, size);
    let b = frag_complete_spec(s, recv, g, sn, size);
    let ap = a.participants[g.prefix@];
    let bp = b.participants[g.prefix@];
    assert(ap.writers =~= bp.writers);
    assert(ap == bp);
    assert(a.participants =~= b.participants);
}

/// Applies a DATA_FRAG to the writer's record of its message and returns
/// what happened, with the data size the record had.
fn record_fragment(state: &mut State, ev: &DataFragEvent) -> (r: (FragOutcome, usize))
    requires
        old(state).wf(),
        ev.fragment_starting_num >= 1,
        ev.fragment_starting_num - 1 + ev.fragments_in_submessage <= usize::MAX,
        creates_fragmented(old(state)@, *ev) ==> ev.fragment_size > 0,
    ensures
        final(state).wf(),
        ({
            let g = ev.writer_guid;
            let w = writer_or_default(participant_or_default(old(state)@, g.prefix@), g.entity_id@, old(state).window);
            let fm = frag_record(w, *ev);
            &&& final(state)@ == with_frag_record(old(state)@, g, ev.writer_sn, frag_step(fm, *ev).0)
            &&& r.0 == frag_step(fm, *ev).1
            &&& r.1 == fm.data_size
        }),
{
    let ghost s = state@;
    let created = needs_new_fragmented(state, ev);
    let window = state.window;
    let g = ev.writer_guid;
    let participant = state.participants.entry_or_insert(g.prefix, ParticipantState::new(window));
    let ghost p0 = participant@;
    let writer = participant.writers.entry_or_insert(g.entity_id, WriterState::new(window));
    let ghost w0 = writer@;
    assert(p0 == participant_or_default(s, g.prefix@));
    assert(w0 == writer_or_default(p0, g.entity_id@, window));
    if created {
        let fresh = FragmentedMessage::new(ev.data_size as usize, ev.fragment_size as usize);
        assert(fresh@ == new_fragmented(ev.data_size as usize, ev.fragment_size as usize));
        writer.frag_messages.insert(ev.writer_sn, fresh);
    }
    assert(writer.frag_messages@ == w0.frag_messages.insert(ev.writer_sn, frag_record(w0, *ev)));
    let i = writer.frag_messages.find(&ev.writer_sn).unwrap();
    proof {
        writer.frag_messages.lemma_view();
        writer.frag_messages.lemma_values_inv();
    }
    let fm = writer.frag_messages.value_at_mut(i);
    let old_size = fm.data_size;
    let outcome = apply_fragment(fm, ev);
    let ghost fmv = fm@;
    assert(writer.frag_messages@ =~= w0.frag_messages.insert(ev.writer_sn, fmv));
    assert(writer@ == WriterView { frag_messages: w0.frag_messages.insert(ev.writer_sn, fmv), ..w0 });
    assert(participant@ == ParticipantView { writers: p0.writers.insert(g.entity_id@, writer@), ..p0 });
    proof {
        let t = state@;
        let spec = with_frag_record(s, g, ev.writer_sn, frag_step(frag_record(w0, *ev), *ev).0);
        assert(t.participants =~= spec.participants);
        lemma_topics_known_kept(s, t);
    }
    (outcome, old_size)
}

/// Counts the message that the last fragment completed.
fn apply_frag_complete(state: &mut State, recv: i64, g: Guid, sn: i64, size: usize)
    requires
        old(state).wf(),
        size <= MAX_PAYLOAD_SIZE,
    ensures
        final(state).wf(),
        final(state)@ == frag_complete_spec(old(state)@, recv, g, sn, size),
{
    let ghost s = state@;
    let window = state.window;
    let bits = (size * 8) as u32;
    let participant = state.participants.entry_or_insert(g.prefix, ParticipantState::new(window));
    participant.total_msg_count = add_wrapping(participant.total_msg_count, 1);
    participant.msg_rate_stat.push(recv, 1);
    participant.total_byte_count = add_wrapping(participant.total_byte_count, size);
    participant.bit_rate_stat.push(recv, bits);
    let writer = participant.writers.entry_or_insert(g.entity_id, WriterState::new(window));
    writer.frag_messages.remove(&sn);
    writer.last_sn = Some(sn);
    writer.total_msg_count = add_wrapping(writer.total_msg_count, 1);
    writer.msg_rate_stat.push(recv, 1);
    writer.total_byte_count = add_wrapping(writer.total_byte_count, size);
    writer.bit_rate_stat.push(recv, bits);
    match writer.topic_name() {
        Some(name) => {
            let idx = state.topics.find(name);
            proof {
                assert(s.participants[g.prefix@].writers.contains_key(g.entity_id@));
            }
            let i = idx.unwrap();
            proof {
                state.topics.lemma_values_inv();
                state.topics.lemma_view();
            }
            let topic = state.topics.value_at_mut(i);
            writer.total_msg_count = add_wrapping(writer.total_msg_count, 1);
            writer.msg_rate_stat.push(recv, 1);
            topic.total_byte_count = add_wrapping(topic.total_byte_count, size);
            topic.bit_rate_stat.push(recv, bits);
        },
        None => {},
    }
    proof {
        let t = state@;
        assert(t.participants =~= frag_complete_spec(s, recv, g, sn, size).participants);
        assert(t.topics =~= frag_complete_spec(s, recv, g, sn, size).topics);
        lemma_topics_known_kept(s, t);
    }
}

/// Applies a DATA_FRAG submessage received at capture time `recv`
/// (nanoseconds) and wall time `wall` (microseconds since the Unix epoch). The fragment numbers must fit in `usize`, and a fragment
/// that opens the record of a new message must name a fragment size.
pub fn handle_data_frag_event(state: &mut State, recv: i64, event: &DataFragEvent, wall: i64)
    requires
        old(state).wf(),
        event.payload_size <= MAX_PAYLOAD_SIZE,
        event.fragment_starting_num >= 1,
        event.fragment_starting_num - 1 + event.fragments_in_submessage <= usize::MAX,
        creates_fragmented(old(state)@, *event) ==> event.fragment_size > 0,
    ensures
        final(state).wf(),
        final(state)@ == datafrag_spec(old(state)@, recv, *event, wall),
{
    let ghost s = state@;
    state.stat.packet_count = add_wrapping(state.stat.packet_count, 1);
    state.stat.datafrag_submsg_count = add_wrapping(state.stat.datafrag_submsg_count, 1);
    let ghost s1 = state@;
    assert(creates_fragmented(s1, *event) == creates_fragmented(s, *event));
    let g = event.writer_guid;
    let topic_name = writer_topic_name(state, &g);
    let (outcome, old_size) = record_fragment(state, event);
    match outcome {
        FragOutcome::SizeChanged => {
            let mut desc = to_owned_string("data_size changes from ");
            push_decimal(&mut desc, old_size as u64);
            push_str(&mut desc, " to ");
            push_decimal(&mut desc, event.data_size as u64);
            push_str(&mut desc, " in DataFrag submsg");
            proof {
                reveal_strlit("data_size changes from ");
                reveal_strlit(" to ");
                reveal_strlit(" in DataFrag submsg");
            }
            state.abnormalities.push(Abnormality {
                when: wall,
                writer_guid: Some(g),
                reader_guid: None,
                topic_name,
                desc,
            });
        },
        FragOutcome::Refused => {
            let start = (event.fragment_starting_num - 1) as usize;
            let end = start + event.fragments_in_submessage as usize;
            let mut desc = to_owned_string("unable to insert fragment ");
            push_decimal(&mut desc, start as u64);
            push_str(&mut desc, "..");
            push_decimal(&mut desc, end as u64);
            push_str(&mut desc, " into defrag buffer");
            proof {
                reveal_strlit("unable to insert fragment ");
                reveal_strlit("..");
                reveal_strlit(" into defrag buffer");
            }
            state.abnormalities.push(Abnormality {
                when: wall,
                writer_guid: Some(g),
                reader_guid: None,
                topic_name,
                desc,
            });
        },
        FragOutcome::Complete => {
            let ghost k = state@;
            apply_frag_complete(state, recv, g, event.writer_sn, event.payload_size);
            proof {
                lemma_complete_after_record(s1, recv, g, event.writer_sn, event.payload_size, k);
            }
        },
        _ => {},
    }
    proof {
        let t = state@;
        let spec = datafrag_spec(s, recv, *event, wall);
        assert(t.abnormalities =~= spec.abnormalities);
        assert(t.participants =~= spec.participants);
        assert(t.topics =~= spec.topics);
    }
}

/// An ACKNACK always counts on its reader. When the reader has no recorded
/// ACKNACK, or only one with a lower count, the event's ACKNACK (its count
/// and missing sequence numbers) replaces it, the reader's last sequence
/// number becomes the event's base, and the reader's topic counts one more
/// ACKNACK. When the recorded ACKNACK has a count at least as high, the
/// recorded ACKNACK, the last sequence number and every topic stay as they
/// were.
pub proof fn law_acknack_newer_replaces(s: StateView, recv: i64, ev: AckNackEvent, now: u64)
    ensures
        ({
            let pk = ev.reader_guid.prefix@;
            let ek = ev.reader_guid.entity_id@;
            let t = acknack_spec(s, recv, ev, now);
            let known = s.participants.contains_key(pk) && s.participants[pk].readers.contains_key(ek);
            let old_r = s.participants[pk].readers[ek];
            let new_r = t.participants[pk].readers[ek];
            let stale = known && old_r.acknack is Some && old_r.acknack->0.count >= ev.count;
            &&& t.participants.contains_key(pk) && t.participants[pk].readers.contains_key(ek)
            &&& known ==> new_r.total_acknack_count == wrap_add(old_r.total_acknack_count, 1)
            &&& known ==> new_r.data == old_r.data
            &&& !known ==> new_r.total_acknack_count == 1 && new_r.data is None
            &&& !stale ==> new_r.acknack == Some(AckNackView { missing_sn: ev.missing_sn@, count: ev.count, since: now })
            &&& !stale ==> new_r.last_sn == Some(ev.base_sn)
            &&& stale ==> new_r.acknack == old_r.acknack && new_r.last_sn == old_r.last_sn
            &&& stale ==> t.topics == s.topics
            &&& (!stale && known && old_r.data is Some) ==> t.topics[old_r.data->0.topic_name].total_acknack_count
                == wrap_add(s.topics[old_r.data->0.topic_name].total_acknack_count, 1)
            &&& t.stat.acknack_submsg_count == wrap_add(s.stat.acknack_submsg_count, 1)
        }),
{
}

/// A message of `size` bytes from writer `g` counts one message and `size`
/// bytes (wrapping) on the writer, on its participant and, when the writer
/// is on a known topic, on that topic; no other topic changes.
pub proof fn law_data_traffic_counts(s: StateView, recv: i64, g: Guid, sn: i64, size: usize)
    ensures
        ({
            let pk = g.prefix@;
            let ek = g.entity_id@;
            let t = data_traffic_spec(s, recv, g, sn, size);
            let known_p = s.participants.contains_key(pk);
            let known = known_p && s.participants[pk].writers.contains_key(ek);
            let old_w = s.participants[pk].writers[ek];
            let new_w = t.participants[pk].writers[ek];
            &&& t.participants.contains_key(pk) && t.participants[pk].writers.contains_key(ek)
            &&& new_w.last_sn == Some(sn)
            &&& known ==> new_w.total_byte_count == wrap_add(old_w.total_byte_count, size)
                && new_w.total_msg_count == wrap_add(old_w.total_msg_count, 1)
                && new_w.data == old_w.data
            &&& !known ==> new_w.total_byte_count == size && new_w.total_msg_count == 1
            &&& known_p ==> t.participants[pk].total_byte_count == wrap_add(s.participants[pk].total_byte_count, size)
                && t.participants[pk].total_msg_count == wrap_add(s.participants[pk].total_msg_count, 1)
            &&& !known_p ==> t.participants[pk].total_byte_count == size && t.participants[pk].total_msg_count == 1
            &&& (known && old_w.data is Some) ==> ({
                let tn = old_w.data->0.topic_name;
                &&& t.topics.contains_key(tn)
                &&& t.topics[tn].total_byte_count == wrap_add(s.topics[tn].total_byte_count, size)
                &&& t.topics[tn].total_msg_count == wrap_add(s.topics[tn].total_msg_count, 1)
                &&& t.topics[tn].writers == s.topics[tn].writers
                &&& t.topics[tn].readers == s.topics[tn].readers
                &&& forall|k: Seq<char>| k != tn ==> #[trigger] t.topics.contains_key(k) == s.topics.contains_key(k)
                    && (s.topics.contains_key(k) ==> t.topics[k] == s.topics[k])
            })
            &&& !(known && old_w.data is Some) ==> t.topics == s.topics
        }),
{
}

/// An ordinary DATA (one that carries no discovery data) of a writer on a
/// known topic counts its payload size (wrapping) and one message on that
/// topic, as on the writer and its participant.
pub proof fn law_data_counts_on_topic(s: StateView, recv: i64, ev: DataEvent, wall: i64)
    requires
        ev.payload is None,
        s.participants.contains_key(ev.writer_guid.prefix@),
        s.participants[ev.writer_guid.prefix@].writers.contains_key(ev.writer_guid.entity_id@),
        s.participants[ev.writer_guid.prefix@].writers[ev.writer_guid.entity_id@].data is Some,
    ensures
        ({
            let w = s.participants[ev.writer_guid.prefix@].writers[ev.writer_guid.entity_id@];
            let tn = w.data->0.topic_name;
            let t = data_spec(s, recv, ev, wall);
            &&& t.topics[tn].total_byte_count == wrap_add(s.topics[tn].total_byte_count, ev.payload_size)
            &&& t.topics[tn].total_msg_count == wrap_add(s.topics[tn].total_msg_count, 1)
            &&& t.participants[ev.writer_guid.prefix@].writers[ev.writer_guid.entity_id@].total_byte_count
                == wrap_add(w.total_byte_count, ev.payload_size)
            &&& t.participants[ev.writer_guid.prefix@].total_byte_count
                == wrap_add(s.participants[ev.writer_guid.prefix@].total_byte_count, ev.payload_size)
        }),
{
    let s2 = StateView {
        stat: Statistics {
            packet_count: wrap_add(s.stat.packet_count, 1),
            data_submsg_count: wrap_add(s.stat.data_submsg_count, 1),
            ..s.stat
        },
        ..s
    };
    assert(data_discovery_spec(s, ev, wall) == s);
    law_data_traffic_counts(s2, recv, ev.writer_guid, ev.writer_sn, ev.payload_size);
}

/// A HEARTBEAT keeps the writer's other records and every topic as they
/// were. The writer's first heartbeat is recorded with its count (and the
/// first sequence number in both places); a later one with a higher count
/// replaces the recorded heartbeat with the sent first and last sequence
/// numbers, in that order; one with a count no higher changes nothing.
pub proof fn law_heartbeat_replaces(s: StateView, ev: HeartbeatEvent, now: u64)
    ensures
        ({
            let pk = ev.writer_guid.prefix@;
            let ek = ev.writer_guid.entity_id@;
            let t = heartbeat_spec(s, ev, now);
            let known = s.participants.contains_key(pk) && s.participants[pk].writers.contains_key(ek);
            let old_w = s.participants[pk].writers[ek];
            let new_w = t.participants[pk].writers[ek];
            &&& t.participants.contains_key(pk) && t.participants[pk].writers.contains_key(ek)
            &&& t.topics == s.topics
            &&& known ==> new_w.data == old_w.data && new_w.total_msg_count == old_w.total_msg_count
                && new_w.total_byte_count == old_w.total_byte_count && new_w.last_sn == old_w.last_sn
            &&& (known && old_w.heartbeat is Some && old_w.heartbeat->0.count < ev.count)
                ==> new_w.heartbeat == Some(HeartbeatState {
                    first_sn: ev.first_sn, last_sn: ev.last_sn, count: ev.count, since: now,
                })
            &&& (known && old_w.heartbeat is Some && old_w.heartbeat->0.count >= ev.count)
                ==> new_w.heartbeat == old_w.heartbeat
            &&& (!known || old_w.heartbeat is None) ==> new_w.heartbeat == Some(HeartbeatState {
                    first_sn: ev.first_sn, last_sn: ev.first_sn, count: ev.count, since: now,
                })
            &&& t.stat.heartbeat_submsg_count == wrap_add(s.stat.heartbeat_submsg_count, 1)
        }),
{
}

/// Writer discovery data records the data on the writer and adds the
/// writer to the data's topic, whose other writers and readers stay; a
/// report is added exactly when the writer was already on another topic.
pub proof fn law_writer_discovery_records(s: StateView, sender: Guid, d: WriterDiscovery, wall: i64)
    ensures
        ({
            let g = d.remote_writer_guid;
            let pk = g.prefix@;
            let ek = g.entity_id@;
            let t = writer_discovery_spec(s, sender, d, wall);
            let known = s.participants.contains_key(pk) && s.participants[pk].writers.contains_key(ek);
            let old_w = s.participants[pk].writers[ek];
            let changed = known && old_w.data is Some && old_w.data->0.topic_name != d.topic_name@;
            &&& t.participants.contains_key(pk) && t.participants[pk].writers.contains_key(ek)
            &&& t.participants[pk].writers[ek].data == Some(d@)
            &&& known ==> t.participants[pk].writers[ek].total_msg_count == old_w.total_msg_count
            &&& t.topics.contains_key(d.topic_name@)
            &&& t.topics[d.topic_name@].writers.contains(g@)
            &&& s.topics.contains_key(d.topic_name@) ==>
                t.topics[d.topic_name@].writers == s.topics[d.topic_name@].writers.insert(g@)
                && t.topics[d.topic_name@].readers == s.topics[d.topic_name@].readers
            &&& changed ==> t.abnormalities.len() == s.abnormalities.len() + 1
                && t.abnormalities.last().when == wall
            &&& !changed ==> t.abnormalities == s.abnormalities
        }),
{
}

/// Reader discovery data records the data on the reader and adds the
/// reader to the data's topic, whose other writers and readers stay; a
/// report is added exactly when the reader was already on another topic.
pub proof fn law_reader_discovery_records(s: StateView, sender: Guid, d: ReaderDiscovery, wall: i64)
    ensures
        ({
            let g = d.remote_reader_guid;
            let pk = g.prefix@;
            let ek = g.entity_id@;
            let t = reader_discovery_spec(s, sender, d, wall);
            let known = s.participants.contains_key(pk) && s.participants[pk].readers.contains_key(ek);
            let old_r = s.participants[pk].readers[ek];
            let changed = known && old_r.data is Some && old_r.data->0.topic_name != d.topic_name@;
            &&& t.participants.contains_key(pk) && t.participants[pk].readers.contains_key(ek)
            &&& t.participants[pk].readers[ek].data == Some(d@)
            &&& known ==> t.participants[pk].readers[ek].total_acknack_count == old_r.total_acknack_count
            &&& t.topics.contains_key(d.topic_name@)
            &&& t.topics[d.topic_name@].readers.contains(g@)
            &&& s.topics.contains_key(d.topic_name@) ==>
                t.topics[d.topic_name@].readers == s.topics[d.topic_name@].readers.insert(g@)
                && t.topics[d.topic_name@].writers == s.topics[d.topic_name@].writers
            &&& changed ==> t.abnormalities.len() == s.abnormalities.len() + 1
                && t.abnormalities.last().when == wall
            &&& !changed ==> t.abnormalities == s.abnormalities
        }),
{
}

/// When the last fragment of message `sn` of `size` bytes arrives, the
/// writer's record of that message is dropped (the other records stay), its
/// last sequence number becomes `sn`, and `size` bytes (wrapping) count on
/// the writer, on its participant and on the writer's topic; the
/// participant counts one message. No topic but the writer's changes.
pub proof fn law_frag_complete_counts(s: StateView, recv: i64, g: Guid, sn: i64, size: usize)
    ensures
        ({
            let pk = g.prefix@;
            let ek = g.entity_id@;
            let t = frag_complete_spec(s, recv, g, sn, size);
            let known_p = s.participants.contains_key(pk);
            let known = known_p && s.participants[pk].writers.contains_key(ek);
            let old_w = s.participants[pk].writers[ek];
            let new_w = t.participants[pk].writers[ek];
            &&& t.participants.contains_key(pk) && t.participants[pk].writers.contains_key(ek)
            &&& new_w.last_sn == Some(sn)
            &&& !new_w.frag_messages.contains_key(sn)
            &&& known ==> new_w.frag_messages == old_w.frag_messages.remove(sn)
            &&& known ==> new_w.total_byte_count == wrap_add(old_w.total_byte_count, size)
                && new_w.data == old_w.data
            &&& known_p ==> t.participants[pk].total_byte_count == wrap_add(s.participants[pk].total_byte_count, size)
                && t.participants[pk].total_msg_count == wrap_add(s.participants[pk].total_msg_count, 1)
            &&& (known && old_w.data is Some) ==> ({
                let tn = old_w.data->0.topic_name;
                &&& t.topics[tn].total_byte_count == wrap_add(s.topics[tn].total_byte_count, size)
                &&& t.topics[tn].writers == s.topics[tn].writers
                &&& forall|k: Seq<char>| k != tn ==> #[trigger] t.topics.contains_key(k) == s.topics.contains_key(k)
                    && (s.topics.contains_key(k) ==> t.topics[k] == s.topics[k])
            })
            &&& !(known && old_w.data is Some) ==> t.topics == s.topics
        }),
{
}

/// A GAP, a NACK_FRAG or a HEARTBEAT_FRAG changes no participant, writer,
/// reader or topic; each counts one packet, and the latter two their own
/// kind too.
pub proof fn law_counted_only_submessages(s: StateView)
    ensures
        gap_spec(s).participants == s.participants && gap_spec(s).topics == s.topics,
        gap_spec(s).stat.packet_count == wrap_add(s.stat.packet_count, 1),
        nackfrag_spec(s).participants == s.participants && nackfrag_spec(s).topics == s.topics,
        nackfrag_spec(s).stat.packet_count == wrap_add(s.stat.packet_count, 1),
        nackfrag_spec(s).stat.ackfrag_submsg_count == wrap_add(s.stat.ackfrag_submsg_count, 1),
        heartbeatfrag_spec(s).participants == s.participants && heartbeatfrag_spec(s).topics == s.topics,
        heartbeatfrag_spec(s).stat.packet_count == wrap_add(s.stat.packet_count, 1),
        heartbeatfrag_spec(s).stat.heartbeat_frag_submsg_count == wrap_add(s.stat.heartbeat_frag_submsg_count, 1),
{
}

} // verus!
