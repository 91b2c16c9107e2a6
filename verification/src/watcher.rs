//! Turning the submessages of a captured RTPS message into update events.
//!
//! An interpreter follows the message: INFO_SRC, INFO_DST, INFO_REPLY and
//! INFO_TS change the source, destination, reply locators and timestamp
//! that apply to the submessages after them; each entity submessage becomes
//! one event about the entities it names.

use vstd::prelude::*;
use crate::guid::{EntityId, Guid, GuidPrefix, Locator, LocatorView, locator_seq_view};
use crate::message::{
    AckNackEvent, DataEvent, DataFragEvent, DataPayload, GapEvent, HeartbeatEvent,
    HeartbeatFragEvent, NackFragEvent, ParticipantInfo, PayloadView, RtpsSubmsgEvent,
    RtpsSubmsgEventKind, SubmsgKindView, UpdateEvent, UpdateEventView, events_view,
};
use crate::rtps::{RtpsMessage, SerializedData, Submessage, SubmessageView, opt_locators_view, submessages_view};
use crate::discovery::{
    decode_participant_data, decode_reader_data, decode_topic_data, decode_writer_data,
    endpoint_decoding, participant_decoding, topic_decoding,
};
use crate::updater::copy_locators;
use std::hash::BuildHasher;

verus! {

/// The context that interpreter submessages set for the submessages after
/// them.
#[derive(Debug)]
pub struct Interpreter {
    pub src_version: [u8; 2],
    pub src_vendor_id: [u8; 2],
    pub src_guid_prefix: GuidPrefix,
    pub dst_guid_prefix: Option<GuidPrefix>,
    pub timestamp: Option<(i32, u32)>,
    pub unicast_locator_list: Option<Vec<Locator>>,
    pub multicast_locator_list: Option<Vec<Locator>>,
}

/// The content of an [`Interpreter`].
pub struct InterpreterView {
    pub src_version: Seq<u8>,
    pub src_vendor_id: Seq<u8>,
    pub src_guid_prefix: Seq<u8>,
    pub dst_guid_prefix: Option<Seq<u8>>,
    pub timestamp: Option<(i32, u32)>,
    pub unicast_locator_list: Option<Seq<LocatorView>>,
    pub multicast_locator_list: Option<Seq<LocatorView>>,
}

impl View for Interpreter {
    type V = InterpreterView;

    open spec fn view(&self) -> InterpreterView {
        InterpreterView {
            src_version: self.src_version@,
            src_vendor_id: self.src_vendor_id@,
            src_guid_prefix: self.src_guid_prefix@,
            dst_guid_prefix: match self.dst_guid_prefix {
                Some(p) => Some(p@),
                None => None,
            },
            timestamp: self.timestamp,
            unicast_locator_list: opt_locators_view(self.unicast_locator_list),
            multicast_locator_list: opt_locators_view(self.multicast_locator_list),
        }
    }
}

/// The all-zero GUID prefix, which names no participant.
pub open spec fn unknown_prefix() -> Seq<u8> {
    Seq::new(12, |i: int| 0u8)
}

/// The interpreter after submessage `m`: INFO_SRC starts a new source
/// (keeping the destination, dropping timestamp and reply locators),
/// INFO_DST sets a known destination, INFO_REPLY sets the reply locators and
/// INFO_TS a valid timestamp; other submessages change nothing.
pub open spec fn step(iv: InterpreterView, m: SubmessageView) -> InterpreterView {
    match m {
        SubmessageView::InfoSource { protocol_version, vendor_id, guid_prefix } => InterpreterView {
            src_version: protocol_version,
            src_vendor_id: vendor_id,
            src_guid_prefix: guid_prefix,
            dst_guid_prefix: iv.dst_guid_prefix,
            timestamp: None,
            unicast_locator_list: None,
            multicast_locator_list: None,
        },
        SubmessageView::InfoDestination { guid_prefix } => if guid_prefix != unknown_prefix() {
            InterpreterView { dst_guid_prefix: Some(guid_prefix), ..iv }
        } else {
            iv
        },
        SubmessageView::InfoReply { unicast_locator_list, multicast_locator_list } => InterpreterView {
            unicast_locator_list: Some(unicast_locator_list),
            multicast_locator_list,
            ..iv
        },
        SubmessageView::InfoTimestamp { timestamp } => match timestamp {
            Some(t) => InterpreterView { timestamp: Some(t), ..iv },
            None => iv,
        },
        _ => iv,
    }
}

/// Submessage `m` can be interpreted: an INFO_SRC names a known source, and
/// a submessage that names a destination entity (ACKNACK, GAP, NACK_FRAG)
/// comes after a destination was set.
pub open spec fn step_ok(iv: InterpreterView, m: SubmessageView) -> bool {
    match m {
        SubmessageView::InfoSource { guid_prefix, .. } => guid_prefix != unknown_prefix(),
        SubmessageView::AckNack { .. } => iv.dst_guid_prefix is Some,
        SubmessageView::Gap { .. } => iv.dst_guid_prefix is Some,
        SubmessageView::NackFrag { .. } => iv.dst_guid_prefix is Some,
        _ => true,
    }
}

/// Which discovery data an entity id of the built-in endpoints carries.
pub enum BuiltinData {
    Topics,
    Publications,
    Subscriptions,
    Participants,
    Other,
}

/// The discovery data that DATA from entity `w` carries: the SEDP topic,
/// publication and subscription endpoints and the SPDP participant
/// endpoints (writer or reader kind) each carry their own.
pub open spec fn builtin_data(w: (Seq<u8>, u8)) -> BuiltinData {
    if w.1 != 0xc2 && w.1 != 0xc7 {
        BuiltinData::Other
    } else if w.0 == seq![0u8, 0u8, 2u8] {
        BuiltinData::Topics
    } else if w.0 == seq![0u8, 0u8, 3u8] {
        BuiltinData::Publications
    } else if w.0 == seq![0u8, 0u8, 4u8] {
        BuiltinData::Subscriptions
    } else if w.0 == seq![0u8, 1u8, 0u8] {
        BuiltinData::Participants
    } else {
        BuiltinData::Other
    }
}

/// The decoded payload of DATA from entity `w`: discovery data decodes by
/// its kind; a missing or undecodable payload, and data of other entities,
/// give none.
pub open spec fn payload_for(w: (Seq<u8>, u8), p: Option<(Seq<u8>, Seq<u8>)>) -> Option<PayloadView> {
    match p {
        None => None,
        Some(d) => match builtin_data(w) {
            BuiltinData::Topics => match topic_decoding(d.0, d.1) {
                Some(t) => Some(PayloadView::Topic(t.0, t.1)),
                None => None,
            },
            BuiltinData::Publications => match endpoint_decoding(d.0, d.1) {
                Some(e) => Some(PayloadView::Writer(e)),
                None => None,
            },
            BuiltinData::Subscriptions => match endpoint_decoding(d.0, d.1) {
                Some(e) => Some(PayloadView::Reader(e)),
                None => None,
            },
            BuiltinData::Participants => match participant_decoding(d.0, d.1) {
                Some(g) => Some(PayloadView::Participant(g)),
                None => None,
            },
            BuiltinData::Other => None,
        },
    }
}

/// A fingerprint of a DATA_FRAG payload, used to tell a retransmitted
/// fragment with other content from an identical one.
pub uninterp spec fn payload_fingerprint(bytes: Seq<u8>) -> u64;

/// `BuildHasher::hash_one` with the default hasher of `std`, whose keys
/// are fixed: the fingerprint of the bytes.
#[verifier::external_body]
fn fingerprint(bytes: &[u8]) -> (r: u64)
    ensures
        r == payload_fingerprint(bytes@),
{
    std::hash::BuildHasherDefault::<std::collections::hash_map::DefaultHasher>::default().hash_one(bytes)
}

/// The event that entity submessage `m` describes: the source prefix
/// completes the ids of the entities that sent it, the destination prefix
/// those that it is sent to.
pub open spec fn submsg_kind(iv: InterpreterView, m: SubmessageView) -> Option<SubmsgKindView> {
    let src = iv.src_guid_prefix;
    let dst = iv.dst_guid_prefix->0;
    match m {
        SubmessageView::Data { writer_id, writer_sn, payload, .. } => Some(SubmsgKindView::Data {
            writer_guid: (src, writer_id),
            writer_sn,
            payload_size: match payload {
                Some(p) => p.1.len() as usize,
                None => 0,
            },
            payload: payload_for(writer_id, payload),
        }),
        SubmessageView::DataFrag {
            writer_id,
            writer_sn,
            fragment_starting_num,
            fragments_in_submessage,
            fragment_size,
            data_size,
            payload,
            ..
        } => Some(SubmsgKindView::DataFrag {
            writer_guid: (src, writer_id),
            writer_sn,
            fragment_starting_num,
            fragments_in_submessage,
            data_size,
            fragment_size,
            payload_size: payload.len() as usize,
            payload_hash: payload_fingerprint(payload),
        }),
        SubmessageView::Gap { reader_id, writer_id, gap_start, gap_list } => Some(SubmsgKindView::Gap {
            writer_guid: (src, writer_id),
            reader_guid: (dst, reader_id),
            gap_start,
            gap_list,
        }),
        SubmessageView::NackFrag { reader_id, writer_id, writer_sn, count } => Some(SubmsgKindView::NackFrag {
            writer_guid: (dst, writer_id),
            reader_guid: (src, reader_id),
            writer_sn,
            count,
        }),
        SubmessageView::Heartbeat { writer_id, first_sn, last_sn, count, .. } => Some(SubmsgKindView::Heartbeat {
            writer_guid: (src, writer_id),
            first_sn,
            last_sn,
            count,
        }),
        SubmessageView::HeartbeatFrag { writer_id, writer_sn, last_fragment_num, count, .. } =>
            Some(SubmsgKindView::HeartbeatFrag { writer_guid: (src, writer_id), writer_sn, last_fragment_num, count }),
        SubmessageView::AckNack { reader_id, writer_id, base_sn, missing_sn, count } => Some(SubmsgKindView::AckNack {
            writer_guid: (dst, writer_id),
            reader_guid: (src, reader_id),
            count,
            base_sn,
            missing_sn,
        }),
        _ => None,
    }
}

/// The events of submessage `m` captured at `recv`: one per entity
/// submessage, stamped with the current timestamp, and a report of the
/// source participant's reply locators for INFO_REPLY.
pub open spec fn submsg_events(iv: InterpreterView, m: SubmessageView, recv: i64) -> Seq<UpdateEventView> {
    match submsg_kind(iv, m) {
        Some(kind) => seq![UpdateEventView::RtpsSubmsg { recv_time: recv, rtps_time: iv.timestamp, kind }],
        None => match m {
            SubmessageView::InfoReply { unicast_locator_list, multicast_locator_list } =>
                seq![UpdateEventView::ParticipantInfo {
                    recv_time: recv,
                    guid_prefix: iv.src_guid_prefix,
                    unicast_locator_list,
                    multicast_locator_list,
                }],
            _ => Seq::empty(),
        },
    }
}

/// The events of the submessages `subs`, interpreted in order from `iv`.
pub open spec fn run_events(iv: InterpreterView, subs: Seq<SubmessageView>, recv: i64) -> Seq<UpdateEventView>
    decreases subs.len(),
{
    if subs.len() == 0 {
        Seq::empty()
    } else {
        submsg_events(iv, subs[0], recv) + run_events(step(iv, subs[0]), subs.drop_first(), recv)
    }
}

/// Every submessage of `subs` can be interpreted in order from `iv`.
pub open spec fn run_ok(iv: InterpreterView, subs: Seq<SubmessageView>) -> bool
    decreases subs.len(),
{
    subs.len() == 0 || (step_ok(iv, subs[0]) && run_ok(step(iv, subs[0]), subs.drop_first()))
}

/// The decoded payload of a DATA submessage.
fn decode_payload(writer_id: &EntityId, payload: &Option<SerializedData>) -> (r: Option<DataPayload>)
    ensures
        match r {
            Some(d) => payload_for(writer_id@, crate::rtps::payload_view(*payload)) == Some(d@),
            None => payload_for(writer_id@, crate::rtps::payload_view(*payload)) is None,
        },
{
    let p = match payload {
        Some(p) => p,
        None => return None,
    };
    let k = writer_id.entity_key;
    let kind = writer_id.entity_kind;
    proof {
        assert(k@ == seq![0u8, 0u8, 2u8] <==> (k[0] == 0 && k[1] == 0 && k[2] == 2)) by {
            if k[0] == 0 && k[1] == 0 && k[2] == 2 {
                assert(k@ =~= seq![0u8, 0u8, 2u8]);
            }
        }
        assert(k@ == seq![0u8, 0u8, 3u8] <==> (k[0] == 0 && k[1] == 0 && k[2] == 3)) by {
            if k[0] == 0 && k[1] == 0 && k[2] == 3 {
                assert(k@ =~= seq![0u8, 0u8, 3u8]);
            }
        }
        assert(k@ == seq![0u8, 0u8, 4u8] <==> (k[0] == 0 && k[1] == 0 && k[2] == 4)) by {
            if k[0] == 0 && k[1] == 0 && k[2] == 4 {
                assert(k@ =~= seq![0u8, 0u8, 4u8]);
            }
        }
        assert(k@ == seq![0u8, 1u8, 0u8] <==> (k[0] == 0 && k[1] == 1 && k[2] == 0)) by {
            if k[0] == 0 && k[1] == 1 && k[2] == 0 {
                assert(k@ =~= seq![0u8, 1u8, 0u8]);
            }
        }
    }
    if kind != 0xc2 && kind != 0xc7 {
        None
    } else if k[0] == 0 && k[1] == 0 && k[2] == 2 {
        match decode_topic_data(p) {
            Some(t) => Some(DataPayload::Topic(t)),
            None => None,
        }
    } else if k[0] == 0 && k[1] == 0 && k[2] == 3 {
        match decode_writer_data(p) {
            Some(w) => Some(DataPayload::Writer(w)),
            None => None,
        }
    } else if k[0] == 0 && k[1] == 0 && k[2] == 4 {
        match decode_reader_data(p) {
            Some(d) => Some(DataPayload::Reader(d)),
            None => None,
        }
    } else if k[0] == 0 && k[1] == 1 && k[2] == 0 {
        match decode_participant_data(p) {
            Some(d) => Some(DataPayload::Participant(d)),
            None => None,
        }
    } else {
        None
    }
}

/// A copy of a list of sequence numbers.
fn copy_i64s(v: &Vec<i64>) -> (r: Vec<i64>)
    ensures
        r@ == v@,
{
    let n = v.len();
    let mut out: Vec<i64> = Vec::new();
    let mut i: usize = 0;
    while i < n
        invariant
            n == v@.len(),
            i <= n,
            out@ == v@.take(i as int),
        decreases n - i,
    {
        out.push(v[i]);
        i = i + 1;
        assert(v@.take(i as int) =~= v@.take(i - 1).push(v@[i - 1]));
    }
    assert(v@.take(n as int) =~= v@);
    out
}

impl Interpreter {
    /// The interpreter at the start of a message from `guid_prefix`, sent
    /// from IPv4 address `src_addr` (its port is not known: zero stands for
    /// it).
    pub fn for_message(msg: &RtpsMessage, src_addr: [u8; 4]) -> (r: Self)
        ensures
            r@ == initial_interpreter(msg@, src_addr@),
    {
        let r = Interpreter {
            src_version: msg.protocol_version,
            src_vendor_id: msg.vendor_id,
            src_guid_prefix: msg.guid_prefix,
            dst_guid_prefix: None,
            timestamp: None,
            unicast_locator_list: Some(vec![Locator::UdpV4 { addr: src_addr, port: 0 }]),
            multicast_locator_list: None,
        };
        assert(locator_seq_view(r.unicast_locator_list->0@) =~= seq![LocatorView::UdpV4 { addr: src_addr@, port: 0 }]);
        r
    }

    /// Whether submessage `m` can be interpreted now.
    pub fn accepts(&self, m: &Submessage) -> (r: bool)
        ensures
            r == step_ok(self@, m@),
    {
        match m {
            Submessage::InfoSource { guid_prefix, .. } => !guid_prefix.is_unknown(),
            Submessage::AckNack { .. } => self.dst_guid_prefix.is_some(),
            Submessage::Gap { .. } => self.dst_guid_prefix.is_some(),
            Submessage::NackFrag { .. } => self.dst_guid_prefix.is_some(),
            _ => true,
        }
    }

    /// Applies interpreter submessage `m`.
    pub fn advance(&mut self, m: &Submessage)
        ensures
            final(self)@ == step(old(self)@, m@),
    {
        match m {
            Submessage::InfoSource { protocol_version, vendor_id, guid_prefix } => {
                self.src_version = *protocol_version;
                self.src_vendor_id = *vendor_id;
                self.src_guid_prefix = *guid_prefix;
                self.timestamp = None;
                self.unicast_locator_list = None;
                self.multicast_locator_list = None;
            },
            Submessage::InfoDestination { guid_prefix } => {
                if !guid_prefix.is_unknown() {
                    self.dst_guid_prefix = Some(*guid_prefix);
                }
            },
            Submessage::InfoReply { unicast_locator_list, multicast_locator_list } => {
                self.unicast_locator_list = Some(copy_locators(unicast_locator_list));
                self.multicast_locator_list = match multicast_locator_list {
                    Some(l) => Some(copy_locators(l)),
                    None => None,
                };
            },
            Submessage::InfoTimestamp { timestamp } => {
                if let Some(t) = timestamp {
                    self.timestamp = Some(*t);
                }
            },
            _ => {},
        }
    }

    /// The event kind of entity submessage `m`, if it is one.
    fn entity_event(&self, m: &Submessage) -> (r: Option<RtpsSubmsgEventKind>)
        requires
            step_ok(self@, m@),
        ensures
            match r {
                Some(k) => submsg_kind(self@, m@) == Some(k@),
                None => submsg_kind(self@, m@) is None,
            },
    {
        let src = self.src_guid_prefix;
        match m {
            Submessage::Data { writer_id, writer_sn, payload, .. } => {
                let payload_size = match payload {
                    Some(p) => p.value.len(),
                    None => 0,
                };
                Some(RtpsSubmsgEventKind::Data(DataEvent {
                    writer_guid: Guid { prefix: src, entity_id: *writer_id },
                    writer_sn: *writer_sn,
                    payload_size,
                    payload: decode_payload(writer_id, payload),
                }))
            },
            Submessage::DataFrag {
                writer_id,
                writer_sn,
                fragment_starting_num,
                fragments_in_submessage,
                fragment_size,
                data_size,
                payload,
                ..
            } => Some(RtpsSubmsgEventKind::DataFrag(DataFragEvent {
                writer_guid: Guid { prefix: src, entity_id: *writer_id },
                writer_sn: *writer_sn,
                fragment_starting_num: *fragment_starting_num,
                fragments_in_submessage: *fragments_in_submessage,
                data_size: *data_size,
                fragment_size: *fragment_size,
                payload_size: payload.len(),
                payload_hash: fingerprint(payload.as_slice()),
            })),
            Submessage::Gap { reader_id, writer_id, gap_start, gap_list } => {
                let dst = self.dst_guid_prefix.unwrap();
                Some(RtpsSubmsgEventKind::Gap(GapEvent {
                    writer_guid: Guid { prefix: src, entity_id: *writer_id },
                    reader_guid: Guid { prefix: dst, entity_id: *reader_id },
                    gap_start: *gap_start,
                    gap_list: copy_i64s(gap_list),
                }))
            },
            Submessage::NackFrag { reader_id, writer_id, writer_sn, count } => {
                let dst = self.dst_guid_prefix.unwrap();
                Some(RtpsSubmsgEventKind::NackFrag(NackFragEvent {
                    writer_guid: Guid { prefix: dst, entity_id: *writer_id },
                    reader_guid: Guid { prefix: src, entity_id: *reader_id },
                    writer_sn: *writer_sn,
                    count: *count,
                }))
            },
            Submessage::Heartbeat { writer_id, first_sn, last_sn, count, .. } =>
                Some(RtpsSubmsgEventKind::Heartbeat(HeartbeatEvent {
                    writer_guid: Guid { prefix: src, entity_id: *writer_id },
                    first_sn: *first_sn,
                    last_sn: *last_sn,
                    count: *count,
                })),
            Submessage::HeartbeatFrag { writer_id, writer_sn, last_fragment_num, count, .. } =>
                Some(RtpsSubmsgEventKind::HeartbeatFrag(HeartbeatFragEvent {
                    writer_guid: Guid { prefix: src, entity_id: *writer_id },
                    writer_sn: *writer_sn,
                    last_fragment_num: *last_fragment_num,
                    count: *count,
                })),
            Submessage::AckNack { reader_id, writer_id, base_sn, missing_sn, count } => {
                let dst = self.dst_guid_prefix.unwrap();
                Some(RtpsSubmsgEventKind::AckNack(AckNackEvent {
                    writer_guid: Guid { prefix: dst, entity_id: *writer_id },
                    reader_guid: Guid { prefix: src, entity_id: *reader_id },
                    count: *count,
                    base_sn: *base_sn,
                    missing_sn: copy_i64s(missing_sn),
                }))
            },
            _ => None,
        }
    }
}

/// The interpreter at the start of message `msg` sent from `src_addr`.
pub open spec fn initial_interpreter(msg: crate::rtps::MessageView, src_addr: Seq<u8>) -> InterpreterView {
    InterpreterView {
        src_version: msg.protocol_version,
        src_vendor_id: msg.vendor_id,
        src_guid_prefix: msg.guid_prefix,
        dst_guid_prefix: None,
        timestamp: None,
        unicast_locator_list: Some(seq![LocatorView::UdpV4 { addr: src_addr, port: 0 }]),
        multicast_locator_list: None,
    }
}

/// Interprets submessage `m` captured at `recv` and returns its events.
pub fn handle_submsg(interpreter: &mut Interpreter, m: &Submessage, recv: i64) -> (r: Vec<UpdateEvent>)
    requires
        step_ok(old(interpreter)@, m@),
    ensures
        final(interpreter)@ == step(old(interpreter)@, m@),
        events_view(r@) == submsg_events(old(interpreter)@, m@, recv),
{
    let mut out: Vec<UpdateEvent> = Vec::new();
    match interpreter.entity_event(m) {
        Some(kind) => {
            out.push(UpdateEvent::RtpsSubmsg(RtpsSubmsgEvent { recv_time: recv, rtps_time: interpreter.timestamp, kind }));
        },
        None => {
            if let Submessage::InfoReply { unicast_locator_list, multicast_locator_list } = m {
                out.push(UpdateEvent::ParticipantInfo(ParticipantInfo {
                    recv_time: recv,
                    guid_prefix: interpreter.src_guid_prefix,
                    unicast_locator_list: copy_locators(unicast_locator_list),
                    multicast_locator_list: match multicast_locator_list {
                        Some(l) => Some(copy_locators(l)),
                        None => None,
                    },
                }));
            }
        },
    }
    interpreter.advance(m);
    assert(events_view(out@) =~= submsg_events(old(interpreter)@, m@, recv));
    out
}

/// The events of message `msg` sent from `src_addr` and captured at `recv`:
/// first a report of the sender with the address it was sent from, then the
/// events of its submessages in order.
pub open spec fn message_events_spec(msg: crate::rtps::MessageView, src_addr: Seq<u8>, recv: i64) -> Seq<UpdateEventView> {
    let iv = initial_interpreter(msg, src_addr);
    seq![UpdateEventView::ParticipantInfo {
        recv_time: recv,
        guid_prefix: msg.guid_prefix,
        unicast_locator_list: seq![LocatorView::UdpV4 { addr: src_addr, port: 0 }],
        multicast_locator_list: None,
    }] + run_events(iv, msg.submessages, recv)
}

/// Message `msg` can be interpreted: its sender is known and every
/// submessage can be interpreted in order.
pub open spec fn message_ok(msg: crate::rtps::MessageView, src_addr: Seq<u8>) -> bool {
    msg.guid_prefix != unknown_prefix() && run_ok(initial_interpreter(msg, src_addr), msg.submessages)
}

/// Whether message `msg` sent from `src_addr` can be interpreted.
pub fn message_acceptable(msg: &RtpsMessage, src_addr: [u8; 4]) -> (r: bool)
    ensures
        r == message_ok(msg@, src_addr@),
{
    if msg.guid_prefix.is_unknown() {
        return false;
    }
    let mut interp = Interpreter::for_message(msg, src_addr);
    let n = msg.submessages.len();
    let ghost subs = msg@.submessages;
    proof {
        assert(subs.skip(0) =~= subs);
    }
    let mut k: usize = 0;
    while k < n
        invariant
            n == msg.submessages@.len(),
            subs == submessages_view(msg.submessages@),
            k <= n,
            run_ok(interp@, subs.skip(k as int)) == run_ok(initial_interpreter(msg@, src_addr@), subs),
        decreases n - k,
    {
        proof {
            assert(subs.skip(k as int).drop_first() =~= subs.skip(k + 1));
            assert(subs.skip(k as int)[0] == msg.submessages@[k as int]@);
        }
        if !interp.accepts(&msg.submessages[k]) {
            return false;
        }
        interp.advance(&msg.submessages[k]);
        k = k + 1;
    }
    proof {
        assert(subs.skip(n as int) =~= Seq::<SubmessageView>::empty());
        assert(subs.skip(0) =~= subs);
    }
    true
}

/// The events of message `msg` sent from `src_addr` and captured at
/// `recv`.
pub fn message_events(msg: &RtpsMessage, src_addr: [u8; 4], recv: i64) -> (r: Vec<UpdateEvent>)
    requires
        message_ok(msg@, src_addr@),
    ensures
        events_view(r@) == message_events_spec(msg@, src_addr@, recv),
{
    let mut interp = Interpreter::for_message(msg, src_addr);
    let unicast = vec![Locator::UdpV4 { addr: src_addr, port: 0 }];
    assert(locator_seq_view(unicast@) =~= seq![LocatorView::UdpV4 { addr: src_addr@, port: 0 }]);
    let first = UpdateEvent::ParticipantInfo(ParticipantInfo {
        recv_time: recv,
        guid_prefix: msg.guid_prefix,
        unicast_locator_list: unicast,
        multicast_locator_list: None,
    });
    let mut out: Vec<UpdateEvent> = vec![first];
    let n = msg.submessages.len();
    let ghost subs = msg@.submessages;
    let ghost total = message_events_spec(msg@, src_addr@, recv);
    proof {
        assert(subs.skip(0) =~= subs);
        assert(events_view(out@) =~= seq![UpdateEventView::ParticipantInfo {
            recv_time: recv,
            guid_prefix: msg@.guid_prefix,
            unicast_locator_list: seq![LocatorView::UdpV4 { addr: src_addr@, port: 0 }],
            multicast_locator_list: None,
        }]);
    }
    let mut k: usize = 0;
    while k < n
        invariant
            n == msg.submessages@.len(),
            subs == submessages_view(msg.submessages@),
            k <= n,
            run_ok(interp@, subs.skip(k as int)),
            events_view(out@) + run_events(interp@, subs.skip(k as int), recv) == total,
        decreases n - k,
    {
        proof {
            assert(subs.skip(k as int).drop_first() =~= subs.skip(k + 1));
            assert(subs.skip(k as int)[0] == msg.submessages@[k as int]@);
        }
        let ghost before = out@;
        let ghost iv = interp@;
        let mut evs = handle_submsg(&mut interp, &msg.submessages[k], recv);
        let ghost added = evs@;
        out.append(&mut evs);
        proof {
            assert(events_view(out@) =~= events_view(before) + events_view(added));
            assert(events_view(before) + run_events(iv, subs.skip(k as int), recv)
                =~= events_view(out@) + run_events(interp@, subs.skip(k + 1), recv));
        }
        k = k + 1;
    }
    proof {
        assert(subs.skip(n as int) =~= Seq::<SubmessageView>::empty());
        assert(events_view(out@) + Seq::<UpdateEventView>::empty() =~= events_view(out@));
    }
    out
}

/// An entity submessage gives exactly one event, stamped with the capture
/// time and the current RTPS timestamp, that carries the submessage's own
/// numbers unchanged: a HEARTBEAT its first and last available sequence
/// numbers (in that order) and its count; an ACKNACK its base, missing
/// sequence numbers and count; a GAP its first irrelevant number and list; a
/// NACK_FRAG and a HEARTBEAT_FRAG their sequence number and count; a DATA
/// its sequence number and payload length; a DATA_FRAG its sequence number
/// and fragment numbering. Entities that send the submessage (the writer of
/// a HEARTBEAT, DATA, GAP; the reader of an ACKNACK, NACK_FRAG) belong to
/// the source participant, the others to the destination.
pub proof fn law_entity_event_fields(iv: InterpreterView, m: SubmessageView, recv: i64)
    ensures
        m matches SubmessageView::Heartbeat { writer_id, first_sn, last_sn, count, .. }
            ==> submsg_events(iv, m, recv) == seq![UpdateEventView::RtpsSubmsg {
                recv_time: recv,
                rtps_time: iv.timestamp,
                kind: SubmsgKindView::Heartbeat {
                    writer_guid: (iv.src_guid_prefix, writer_id),
                    first_sn: first_sn,
                    last_sn: last_sn,
                    count: count,
                },
            }],
        m matches SubmessageView::AckNack { reader_id, writer_id, base_sn, missing_sn, count }
            ==> submsg_events(iv, m, recv) == seq![UpdateEventView::RtpsSubmsg {
                recv_time: recv,
                rtps_time: iv.timestamp,
                kind: SubmsgKindView::AckNack {
                    writer_guid: (iv.dst_guid_prefix->0, writer_id),
                    reader_guid: (iv.src_guid_prefix, reader_id),
                    count: count,
                    base_sn: base_sn,
                    missing_sn: missing_sn,
                },
            }],
        m matches SubmessageView::Gap { reader_id, writer_id, gap_start, gap_list }
            ==> submsg_events(iv, m, recv) == seq![UpdateEventView::RtpsSubmsg {
                recv_time: recv,
                rtps_time: iv.timestamp,
                kind: SubmsgKindView::Gap {
                    writer_guid: (iv.src_guid_prefix, writer_id),
                    reader_guid: (iv.dst_guid_prefix->0, reader_id),
                    gap_start: gap_start,
                    gap_list: gap_list,
                },
            }],
        m matches SubmessageView::NackFrag { reader_id, writer_id, writer_sn, count }
            ==> submsg_events(iv, m, recv) == seq![UpdateEventView::RtpsSubmsg {
                recv_time: recv,
                rtps_time: iv.timestamp,
                kind: SubmsgKindView::NackFrag {
                    writer_guid: (iv.dst_guid_prefix->0, writer_id),
                    reader_guid: (iv.src_guid_prefix, reader_id),
                    writer_sn: writer_sn,
                    count: count,
                },
            }],
        m matches SubmessageView::HeartbeatFrag { writer_id, writer_sn, last_fragment_num, count, .. }
            ==> submsg_events(iv, m, recv) == seq![UpdateEventView::RtpsSubmsg {
                recv_time: recv,
                rtps_time: iv.timestamp,
                kind: SubmsgKindView::HeartbeatFrag {
                    writer_guid: (iv.src_guid_prefix, writer_id),
                    writer_sn: writer_sn,
                    last_fragment_num: last_fragment_num,
                    count: count,
                },
            }],
        m matches SubmessageView::Data { writer_id, writer_sn, payload, .. }
            ==> submsg_events(iv, m, recv) == seq![UpdateEventView::RtpsSubmsg {
                recv_time: recv,
                rtps_time: iv.timestamp,
                kind: SubmsgKindView::Data {
                    writer_guid: (iv.src_guid_prefix, writer_id),
                    writer_sn: writer_sn,
                    payload_size: match payload {
                        Some(p) => p.1.len() as usize,
                        None => 0usize,
                    },
                    payload: payload_for(writer_id, payload),
                },
            }],
        m matches SubmessageView::DataFrag {
            writer_id, writer_sn, fragment_starting_num, fragments_in_submessage, fragment_size, data_size, payload, ..
        } ==> submsg_events(iv, m, recv) == seq![UpdateEventView::RtpsSubmsg {
                recv_time: recv,
                rtps_time: iv.timestamp,
                kind: SubmsgKindView::DataFrag {
                    writer_guid: (iv.src_guid_prefix, writer_id),
                    writer_sn: writer_sn,
                    fragment_starting_num: fragment_starting_num,
                    fragments_in_submessage: fragments_in_submessage,
                    data_size: data_size,
                    fragment_size: fragment_size,
                    payload_size: payload.len() as usize,
                    payload_hash: payload_fingerprint(payload),
                },
            }],
{
}

} // verus!
