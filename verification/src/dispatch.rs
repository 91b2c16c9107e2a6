//! Routing update events to their rules, and the updater's clock.

use vstd::prelude::*;
use crate::message::{
    DataEvent, DataFragEvent, MAX_PAYLOAD_SIZE, RtpsSubmsgEventKind, TickEvent, UpdateEvent,
};
use crate::state::{State, StateView};
use crate::tick::{handle_tick, tick_spec};
use crate::updater::{
    acknack_spec, creates_fragmented, data_payload_consistent, data_spec, datafrag_spec, gap_spec,
    handle_acknack_event, handle_data_event, handle_data_frag_event, handle_gap_event,
    handle_heartbeat_event, handle_heartbeatfrag_event, handle_nackfrag_event,
    handle_participant_info, heartbeat_spec, heartbeatfrag_spec, nackfrag_spec,
    needs_new_fragmented, participant_info_spec,
};
use crate::guid::{Guid, GuidPrefix};

verus! {

/// What the caller does once an event was applied to the state.
#[derive(Debug, Clone, Copy, PartialEq, Eq, Structural)]
pub enum UpdaterAction {
    Nothing,
    /// Write the state to the log, when logging is on.
    SaveLog,
    /// Start logging, or stop it when it is on.
    ToggleLogging,
}

/// A DATA submessage the rules can apply: its payload fits in a datagram
/// and its discovery data, if any, describes an endpoint of the sender.
pub open spec fn data_acceptable(ev: DataEvent) -> bool {
    ev.payload_size <= MAX_PAYLOAD_SIZE && data_payload_consistent(ev)
}

/// A DATA_FRAG submessage the rules can apply to state `s`: fragment
/// numbers start at one and fit in `usize`, the payload fits in a datagram,
/// and a fragment that opens a new message names a fragment size.
pub open spec fn datafrag_acceptable(s: StateView, ev: DataFragEvent) -> bool {
    &&& ev.payload_size <= MAX_PAYLOAD_SIZE
    &&& ev.fragment_starting_num >= 1
    &&& ev.fragment_starting_num - 1 + ev.fragments_in_submessage <= usize::MAX
    &&& creates_fragmented(s, ev) ==> ev.fragment_size > 0
}

/// An event the rules can apply to state `s`.
pub open spec fn event_acceptable(s: StateView, m: UpdateEvent) -> bool {
    match m {
        UpdateEvent::RtpsSubmsg(msg) => match msg.kind {
            RtpsSubmsgEventKind::Data(ev) => data_acceptable(ev),
            RtpsSubmsgEventKind::DataFrag(ev) => datafrag_acceptable(s, ev),
            _ => true,
        },
        _ => true,
    }
}

/// The state after event `m`, applied at monotonic time `now` (nanoseconds)
/// and wall time `wall` (microseconds since the Unix epoch).
pub open spec fn update_spec(s: StateView, m: UpdateEvent, now: u64, wall: i64) -> StateView {
    match m {
        UpdateEvent::RtpsSubmsg(msg) => match msg.kind {
            RtpsSubmsgEventKind::Data(ev) => data_spec(s, msg.recv_time, ev, wall),
            RtpsSubmsgEventKind::DataFrag(ev) => datafrag_spec(s, msg.recv_time, ev, wall),
            RtpsSubmsgEventKind::Gap(_) => gap_spec(s),
            RtpsSubmsgEventKind::AckNack(ev) => acknack_spec(s, msg.recv_time, ev, now),
            RtpsSubmsgEventKind::NackFrag(_) => nackfrag_spec(s),
            RtpsSubmsgEventKind::Heartbeat(ev) => heartbeat_spec(s, ev, now),
            RtpsSubmsgEventKind::HeartbeatFrag(_) => heartbeatfrag_spec(s),
        },
        UpdateEvent::ParticipantInfo(info) => participant_info_spec(s, info),
        UpdateEvent::Tick(t) => tick_spec(s, t),
        UpdateEvent::ToggleLogging => s,
    }
}

/// What the caller does after event `m`: a tick saves the log, a toggle
/// switches logging.
pub open spec fn action_for(m: UpdateEvent) -> UpdaterAction {
    match m {
        UpdateEvent::Tick(_) => UpdaterAction::SaveLog,
        UpdateEvent::ToggleLogging => UpdaterAction::ToggleLogging,
        _ => UpdaterAction::Nothing,
    }
}

/// Whether the rules can apply `m` to `state`.
pub fn is_event_acceptable(state: &State, m: &UpdateEvent) -> (r: bool)
    requires
        state.wf(),
    ensures
        r == event_acceptable(state@, *m),
{
    match m {
        UpdateEvent::RtpsSubmsg(msg) => {
            match &msg.kind {
                RtpsSubmsgEventKind::Data(ev) => {
                    if ev.payload_size > MAX_PAYLOAD_SIZE {
                        return false;
                    }
                    match &ev.payload {
                        Some(crate::message::DataPayload::Writer(d)) => same_prefix(&d.remote_writer_guid, &ev.writer_guid),
                        Some(crate::message::DataPayload::Reader(d)) => same_prefix(&d.remote_reader_guid, &ev.writer_guid),
                        _ => true,
                    }
                },
                RtpsSubmsgEventKind::DataFrag(ev) => {
                    if ev.payload_size > MAX_PAYLOAD_SIZE || ev.fragment_starting_num < 1 {
                        return false;
                    }
                    let start = (ev.fragment_starting_num - 1) as usize;
                    if start > usize::MAX - ev.fragments_in_submessage as usize {
                        return false;
                    }
                    !needs_new_fragmented(state, ev) || ev.fragment_size > 0
                },
                _ => true,
            }
        },
        _ => true,
    }
}

/// Whether two GUIDs share their prefix.
fn same_prefix(a: &Guid, b: &Guid) -> (r: bool)
    ensures
        r == (a.prefix@ == b.prefix@),
{
    a.prefix.equals(&b.prefix)
}

/// Applies event `m` at monotonic time `now` (nanoseconds) and wall time
/// `wall` (microseconds since the Unix epoch), and says what the caller
/// does next.
pub fn handle_message(state: &mut State, m: &UpdateEvent, now: u64, wall: i64) -> (r: UpdaterAction)
    requires
        old(state).wf(),
        event_acceptable(old(state)@, *m),
    ensures
        final(state).wf(),
        final(state)@ == update_spec(old(state)@, *m, now, wall),
        r == action_for(*m),
{
    match m {
        UpdateEvent::RtpsSubmsg(msg) => {
            match &msg.kind {
                RtpsSubmsgEventKind::Data(ev) => handle_data_event(state, msg.recv_time, ev, wall),
                RtpsSubmsgEventKind::DataFrag(ev) => handle_data_frag_event(state, msg.recv_time, ev, wall),
                RtpsSubmsgEventKind::Gap(ev) => handle_gap_event(state, ev),
                RtpsSubmsgEventKind::AckNack(ev) => handle_acknack_event(state, msg.recv_time, ev, now),
                RtpsSubmsgEventKind::NackFrag(ev) => handle_nackfrag_event(state, ev),
                RtpsSubmsgEventKind::Heartbeat(ev) => handle_heartbeat_event(state, ev, now),
                RtpsSubmsgEventKind::HeartbeatFrag(ev) => handle_heartbeatfrag_event(state, ev),
            }
            UpdaterAction::Nothing
        },
        UpdateEvent::ParticipantInfo(info) => {
            handle_participant_info(state, info);
            UpdaterAction::Nothing
        },
        UpdateEvent::Tick(t) => {
            handle_tick(state, t);
            UpdaterAction::SaveLog
        },
        UpdateEvent::ToggleLogging => UpdaterAction::ToggleLogging,
    }
}

/// The capture time of an event that starts the updater's clock: the first
/// submessage or participant report. Toggling logging and ticks start
/// nothing.
pub open spec fn start_time(m: UpdateEvent) -> Option<i64> {
    match m {
        UpdateEvent::RtpsSubmsg(msg) => Some(msg.recv_time),
        UpdateEvent::ParticipantInfo(info) => Some(info.recv_time),
        _ => None,
    }
}

/// The capture time of an event that starts the updater's clock.
pub fn event_start_time(m: &UpdateEvent) -> (r: Option<i64>)
    ensures
        r == start_time(*m),
{
    match m {
        UpdateEvent::RtpsSubmsg(msg) => Some(msg.recv_time),
        UpdateEvent::ParticipantInfo(info) => Some(info.recv_time),
        _ => None,
    }
}

/// The tick at monotonic time `now`, for a clock started at monotonic time
/// `first_instant` by an event captured at `first_recv`: its capture time
/// runs on from `first_recv` by the time elapsed since (none when `now` is
/// earlier).
pub open spec fn tick_at_spec(first_instant: u64, first_recv: i64, now: u64) -> TickEvent {
    let elapsed: int = if now >= first_instant { now - first_instant } else { 0 };
    TickEvent { when: now, recv_time: (first_recv + elapsed) as i64 }
}

/// The tick at monotonic time `now`; the capture time it reaches must fit
/// in `i64`.
pub fn tick_at(first_instant: u64, first_recv: i64, now: u64) -> (r: TickEvent)
    requires
        first_recv + (if now >= first_instant { now - first_instant } else { 0 }) <= i64::MAX,
    ensures
        r == tick_at_spec(first_instant, first_recv, now),
{
    let elapsed: u64 = if now >= first_instant { now - first_instant } else { 0 };
    let recv_time: i64 = if first_recv >= 0 {
        (first_recv as u64 + elapsed) as i64
    } else if elapsed >= (-(first_recv + 1)) as u64 + 1 {
        (elapsed - ((-(first_recv + 1)) as u64 + 1)) as i64
    } else {
        first_recv + elapsed as i64
    };
    TickEvent { when: now, recv_time }
}

/// The updater's clock: not started until the first submessage or
/// participant report, then anchored at the monotonic time that event was
/// handled and its capture time.
#[derive(Debug, Clone, Copy)]
pub struct UpdaterClock {
    start: Option<(u64, i64)>,
}

impl UpdaterClock {
    /// Where the clock is anchored, if it has started.
    pub closed spec fn anchor(&self) -> Option<(u64, i64)> {
        self.start
    }

    /// A clock that has not started.
    pub fn new() -> (r: Self)
        ensures
            r.anchor() is None,
    {
        UpdaterClock { start: None }
    }

    /// The monotonic and capture times the clock is anchored at.
    pub fn start(&self) -> (r: Option<(u64, i64)>)
        ensures
            r == self.anchor(),
    {
        self.start
    }

    /// Whether the clock has started.
    pub fn started(&self) -> (r: bool)
        ensures
            r == self.anchor() is Some,
    {
        self.start.is_some()
    }

    /// Notes that event `m` was handled at monotonic time `now`: the first
    /// event with a capture time starts the clock, and later events leave
    /// it alone.
    pub fn observe(&mut self, m: &UpdateEvent, now: u64)
        ensures
            final(self).anchor() == match old(self).anchor() {
                Some(a) => Some(a),
                None => match start_time(*m) {
                    Some(t) => Some((now, t)),
                    None => None,
                },
            },
    {
        if self.start.is_none() {
            if let Some(t) = event_start_time(m) {
                self.start = Some((now, t));
            }
        }
    }

    /// The tick at monotonic time `now`, once the clock has started; the
    /// capture time it reaches must fit in `i64`.
    pub fn tick(&self, now: u64) -> (r: Option<TickEvent>)
        requires
            self.anchor() matches Some((i, t)) ==> t + (if now >= i { now - i } else { 0 }) <= i64::MAX,
        ensures
            match self.anchor() {
                Some((i, t)) => r == Some(tick_at_spec(i, t, now)),
                None => r is None,
            },
    {
        match self.start {
            Some((i, t)) => Some(tick_at(i, t, now)),
            None => None,
        }
    }
}

/// Every submessage counts as one more packet, and only submessages do:
/// participant reports, ticks and toggling the log leave the count alone,
/// and toggling the log changes nothing at all.
pub proof fn law_packet_count(s: StateView, m: UpdateEvent, now: u64, wall: i64)
    ensures
        m is RtpsSubmsg ==> update_spec(s, m, now, wall).stat.packet_count == crate::state::wrap_add(s.stat.packet_count, 1),
        !(m is RtpsSubmsg) ==> update_spec(s, m, now, wall).stat.packet_count == s.stat.packet_count,
        m is ToggleLogging ==> update_spec(s, m, now, wall) == s,
{
}

} // verus!
