//! The RTPS message format: a 20-byte header followed by submessages, each
//! with a 4-byte header giving its kind, its flags (the lowest flag bit
//! selects little-endian fields) and its length.

use vstd::prelude::*;
use vstd::slice::slice_subrange;
use crate::guid::{EntityId, GuidPrefix, Locator, LocatorView, locator_seq_view};
use crate::wire::{
    bitmap_len, bytes_between, entity_id_at, frag_set_len, frag_set_ok, i32_at, locator_list_at,
    locator_list_len, locator_list_ok, param_list_end, prefix_at, read_entity_id, read_i32,
    read_locator_list, read_prefix, read_sn, read_sn_set, read_u16, read_u32, skip_param_list,
    sn_at, sn_set_len, sn_set_members, sn_set_ok, u16_at, u32_at, check_sn_set, check_frag_set,
    frag_set_size, check_locator_list,
};

verus! {

/// A serialized payload: its representation identifier and the data that
/// follows the 4-byte encapsulation header.
#[derive(Debug, Clone)]
pub struct SerializedData {
    pub representation: [u8; 2],
    pub value: Vec<u8>,
}

/// One submessage, as far as the monitor reads it.
#[derive(Debug, Clone)]
pub enum Submessage {
    AckNack { reader_id: EntityId, writer_id: EntityId, base_sn: i64, missing_sn: Vec<i64>, count: i32 },
    Data { reader_id: EntityId, writer_id: EntityId, writer_sn: i64, payload: Option<SerializedData> },
    DataFrag {
        reader_id: EntityId,
        writer_id: EntityId,
        writer_sn: i64,
        fragment_starting_num: u32,
        fragments_in_submessage: u16,
        fragment_size: u16,
        data_size: u32,
        payload: Vec<u8>,
    },
    Gap { reader_id: EntityId, writer_id: EntityId, gap_start: i64, gap_list: Vec<i64> },
    Heartbeat { reader_id: EntityId, writer_id: EntityId, first_sn: i64, last_sn: i64, count: i32 },
    HeartbeatFrag { reader_id: EntityId, writer_id: EntityId, writer_sn: i64, last_fragment_num: u32, count: i32 },
    NackFrag { reader_id: EntityId, writer_id: EntityId, writer_sn: i64, count: i32 },
    InfoSource { protocol_version: [u8; 2], vendor_id: [u8; 2], guid_prefix: GuidPrefix },
    InfoDestination { guid_prefix: GuidPrefix },
    InfoReply { unicast_locator_list: Vec<Locator>, multicast_locator_list: Option<Vec<Locator>> },
    InfoTimestamp { timestamp: Option<(i32, u32)> },
}

/// The content of a [`Submessage`].
pub enum SubmessageView {
    AckNack { reader_id: (Seq<u8>, u8), writer_id: (Seq<u8>, u8), base_sn: i64, missing_sn: Seq<i64>, count: i32 },
    Data { reader_id: (Seq<u8>, u8), writer_id: (Seq<u8>, u8), writer_sn: i64, payload: Option<(Seq<u8>, Seq<u8>)> },
    DataFrag {
        reader_id: (Seq<u8>, u8),
        writer_id: (Seq<u8>, u8),
        writer_sn: i64,
        fragment_starting_num: u32,
        fragments_in_submessage: u16,
        fragment_size: u16,
        data_size: u32,
        payload: Seq<u8>,
    },
    Gap { reader_id: (Seq<u8>, u8), writer_id: (Seq<u8>, u8), gap_start: i64, gap_list: Seq<i64> },
    Heartbeat { reader_id: (Seq<u8>, u8), writer_id: (Seq<u8>, u8), first_sn: i64, last_sn: i64, count: i32 },
    HeartbeatFrag { reader_id: (Seq<u8>, u8), writer_id: (Seq<u8>, u8), writer_sn: i64, last_fragment_num: u32, count: i32 },
    NackFrag { reader_id: (Seq<u8>, u8), writer_id: (Seq<u8>, u8), writer_sn: i64, count: i32 },
    InfoSource { protocol_version: Seq<u8>, vendor_id: Seq<u8>, guid_prefix: Seq<u8> },
    InfoDestination { guid_prefix: Seq<u8> },
    InfoReply { unicast_locator_list: Seq<LocatorView>, multicast_locator_list: Option<Seq<LocatorView>> },
    InfoTimestamp { timestamp: Option<(i32, u32)> },
}

/// The content of an optional serialized payload.
pub open spec fn payload_view(p: Option<SerializedData>) -> Option<(Seq<u8>, Seq<u8>)> {
    match p {
        Some(d) => Some((d.representation@, d.value@)),
        None => None,
    }
}

/// The content of an optional locator list.
pub open spec fn opt_locators_view(l: Option<Vec<Locator>>) -> Option<Seq<LocatorView>> {
    match l {
        Some(v) => Some(locator_seq_view(v@)),
        None => None,
    }
}

impl View for Submessage {
    type V = SubmessageView;

    open spec fn view(&self) -> SubmessageView {
        match self {
            Submessage::AckNack { reader_id, writer_id, base_sn, missing_sn, count } => SubmessageView::AckNack {
                reader_id: reader_id@,
                writer_id: writer_id@,
                base_sn: *base_sn,
                missing_sn: missing_sn@,
                count: *count,
            },
            Submessage::Data { reader_id, writer_id, writer_sn, payload } => SubmessageView::Data {
                reader_id: reader_id@,
                writer_id: writer_id@,
                writer_sn: *writer_sn,
                payload: payload_view(*payload),
            },
            Submessage::DataFrag {
                reader_id,
                writer_id,
                writer_sn,
                fragment_starting_num,
                fragments_in_submessage,
                fragment_size,
                data_size,
                payload,
            } => SubmessageView::DataFrag {
                reader_id: reader_id@,
                writer_id: writer_id@,
                writer_sn: *writer_sn,
                fragment_starting_num: *fragment_starting_num,
                fragments_in_submessage: *fragments_in_submessage,
                fragment_size: *fragment_size,
                data_size: *data_size,
                payload: payload@,
            },
            Submessage::Gap { reader_id, writer_id, gap_start, gap_list } => SubmessageView::Gap {
                reader_id: reader_id@,
                writer_id: writer_id@,
                gap_start: *gap_start,
                gap_list: gap_list@,
            },
            Submessage::Heartbeat { reader_id, writer_id, first_sn, last_sn, count } => SubmessageView::Heartbeat {
                reader_id: reader_id@,
                writer_id: writer_id@,
                first_sn: *first_sn,
                last_sn: *last_sn,
                count: *count,
            },
            Submessage::HeartbeatFrag { reader_id, writer_id, writer_sn, last_fragment_num, count } =>
                SubmessageView::HeartbeatFrag {
                    reader_id: reader_id@,
                    writer_id: writer_id@,
                    writer_sn: *writer_sn,
                    last_fragment_num: *last_fragment_num,
                    count: *count,
                },
            Submessage::NackFrag { reader_id, writer_id, writer_sn, count } => SubmessageView::NackFrag {
                reader_id: reader_id@,
                writer_id: writer_id@,
                writer_sn: *writer_sn,
                count: *count,
            },
            Submessage::InfoSource { protocol_version, vendor_id, guid_prefix } => SubmessageView::InfoSource {
                protocol_version: protocol_version@,
                vendor_id: vendor_id@,
                guid_prefix: guid_prefix@,
            },
            Submessage::InfoDestination { guid_prefix } => SubmessageView::InfoDestination { guid_prefix: guid_prefix@ },
            Submessage::InfoReply { unicast_locator_list, multicast_locator_list } => SubmessageView::InfoReply {
                unicast_locator_list: locator_seq_view(unicast_locator_list@),
                multicast_locator_list: opt_locators_view(*multicast_locator_list),
            },
            Submessage::InfoTimestamp { timestamp } => SubmessageView::InfoTimestamp { timestamp: *timestamp },
        }
    }
}

/// Submessage kinds.
pub const PAD: u8 = 0x01;
pub const ACKNACK: u8 = 0x06;
pub const HEARTBEAT: u8 = 0x07;
pub const GAP: u8 = 0x08;
pub const INFO_TS: u8 = 0x09;
pub const INFO_SRC: u8 = 0x0c;
pub const INFO_DST: u8 = 0x0e;
pub const INFO_REPLY: u8 = 0x0f;
pub const NACK_FRAG: u8 = 0x12;
pub const HEARTBEAT_FRAG: u8 = 0x13;
pub const DATA: u8 = 0x15;
pub const DATA_FRAG: u8 = 0x16;

/// Flag bit `k` of a submessage header.
pub open spec fn flag(flags: u8, k: nat) -> bool {
    (flags / (pow2_u8(k))) % 2 == 1
}

/// `2^k` for the bit positions of a flags octet.
pub open spec fn pow2_u8(k: nat) -> u8 {
    if k == 0 { 1 } else if k == 1 { 2 } else if k == 2 { 4 } else { 8 }
}

/// An ACKNACK body: reader and writer ids, the set of missing sequence
/// numbers, and a count.
pub open spec fn acknack_body(b: Seq<u8>, le: bool) -> Option<SubmessageView> {
    if sn_set_ok(b, 8, le) && 8 + sn_set_len(b, 8, le) + 4 <= b.len() {
        Some(SubmessageView::AckNack {
            reader_id: entity_id_at(b, 0),
            writer_id: entity_id_at(b, 4),
            base_sn: sn_at(b, 8, le),
            missing_sn: sn_set_members(b, 8, le),
            count: i32_at(b, 8 + sn_set_len(b, 8, le), le),
        })
    } else {
        None
    }
}

/// A HEARTBEAT body: reader and writer ids, first and last available
/// sequence numbers, and a count.
pub open spec fn heartbeat_body(b: Seq<u8>, le: bool) -> Option<SubmessageView> {
    if b.len() >= 28 {
        Some(SubmessageView::Heartbeat {
            reader_id: entity_id_at(b, 0),
            writer_id: entity_id_at(b, 4),
            first_sn: sn_at(b, 8, le),
            last_sn: sn_at(b, 16, le),
            count: i32_at(b, 24, le),
        })
    } else {
        None
    }
}

/// A GAP body: reader and writer ids, the first irrelevant sequence number
/// and a set of further ones.
pub open spec fn gap_body(b: Seq<u8>, le: bool) -> Option<SubmessageView> {
    if b.len() >= 16 && sn_set_ok(b, 16, le) {
        Some(SubmessageView::Gap {
            reader_id: entity_id_at(b, 0),
            writer_id: entity_id_at(b, 4),
            gap_start: sn_at(b, 8, le),
            gap_list: sn_set_members(b, 16, le),
        })
    } else {
        None
    }
}

/// A HEARTBEAT_FRAG body: reader and writer ids, a sequence number, the
/// last fragment number available, and a count.
pub open spec fn heartbeat_frag_body(b: Seq<u8>, le: bool) -> Option<SubmessageView> {
    if b.len() >= 24 {
        Some(SubmessageView::HeartbeatFrag {
            reader_id: entity_id_at(b, 0),
            writer_id: entity_id_at(b, 4),
            writer_sn: sn_at(b, 8, le),
            last_fragment_num: u32_at(b, 16, le),
            count: i32_at(b, 20, le),
        })
    } else {
        None
    }
}

/// A NACK_FRAG body: reader and writer ids, a sequence number, the set of
/// missing fragments, and a count.
pub open spec fn nack_frag_body(b: Seq<u8>, le: bool) -> Option<SubmessageView> {
    if b.len() >= 16 && frag_set_ok(b, 16, le) && 16 + frag_set_len(b, 16, le) + 4 <= b.len() {
        Some(SubmessageView::NackFrag {
            reader_id: entity_id_at(b, 0),
            writer_id: entity_id_at(b, 4),
            writer_sn: sn_at(b, 8, le),
            count: i32_at(b, 16 + frag_set_len(b, 16, le), le),
        })
    } else {
        None
    }
}

/// An INFO_TS body: a timestamp (seconds and fraction), absent when the
/// invalidate flag is set.
pub open spec fn info_ts_body(b: Seq<u8>, flags: u8, le: bool) -> Option<SubmessageView> {
    if flag(flags, 1) {
        Some(SubmessageView::InfoTimestamp { timestamp: None })
    } else if b.len() >= 8 {
        Some(SubmessageView::InfoTimestamp { timestamp: Some((i32_at(b, 0, le), u32_at(b, 4, le))) })
    } else {
        None
    }
}

/// An INFO_SRC body: four unused octets, a protocol version, a vendor id
/// and a GUID prefix.
pub open spec fn info_src_body(b: Seq<u8>) -> Option<SubmessageView> {
    if b.len() >= 20 {
        Some(SubmessageView::InfoSource {
            protocol_version: b.subrange(4, 6),
            vendor_id: b.subrange(6, 8),
            guid_prefix: prefix_at(b, 8),
        })
    } else {
        None
    }
}

/// An INFO_DST body: a GUID prefix.
pub open spec fn info_dst_body(b: Seq<u8>) -> Option<SubmessageView> {
    if b.len() >= 12 {
        Some(SubmessageView::InfoDestination { guid_prefix: prefix_at(b, 0) })
    } else {
        None
    }
}

/// An INFO_REPLY body: a unicast locator list, then a multicast one when
/// the multicast flag is set.
pub open spec fn info_reply_body(b: Seq<u8>, flags: u8, le: bool) -> Option<SubmessageView> {
    if !locator_list_ok(b, 0, le) {
        None
    } else if flag(flags, 1) {
        let m = locator_list_len(b, 0, le);
        if locator_list_ok(b, m, le) {
            Some(SubmessageView::InfoReply {
                unicast_locator_list: locator_list_at(b, 0, le),
                multicast_locator_list: Some(locator_list_at(b, m, le)),
            })
        } else {
            None
        }
    } else {
        Some(SubmessageView::InfoReply { unicast_locator_list: locator_list_at(b, 0, le), multicast_locator_list: None })
    }
}

/// Where the serialized payload of a DATA or DATA_FRAG body starts: after
/// the inline QoS, which starts where the octets-to-inline-QoS field points
/// and is present when the inline QoS flag is set.
pub open spec fn payload_start(b: Seq<u8>, flags: u8, le: bool) -> Option<int> {
    let q = 4 + u16_at(b, 2, le);
    if q > b.len() {
        None
    } else if flag(flags, 1) {
        param_list_end(b, q, le)
    } else {
        Some(q)
    }
}

/// A DATA body: extra flags, the inline QoS offset, reader and writer ids, a
/// sequence number, optional inline QoS and, when the data or key flag is
/// set, a serialized payload (its 4-byte encapsulation header, then data).
pub open spec fn data_body(b: Seq<u8>, flags: u8, le: bool) -> Option<SubmessageView> {
    if b.len() < 20 {
        None
    } else {
        match payload_start(b, flags, le) {
            None => None,
            Some(p) => {
                let head = SubmessageView::Data {
                    reader_id: entity_id_at(b, 4),
                    writer_id: entity_id_at(b, 8),
                    writer_sn: sn_at(b, 12, le),
                    payload: None,
                };
                if !(flag(flags, 2) || flag(flags, 3)) {
                    Some(head)
                } else if p + 4 <= b.len() {
                    Some(SubmessageView::Data {
                        reader_id: entity_id_at(b, 4),
                        writer_id: entity_id_at(b, 8),
                        writer_sn: sn_at(b, 12, le),
                        payload: Some((b.subrange(p, p + 2), b.subrange(p + 4, b.len() as int))),
                    })
                } else {
                    None
                }
            },
        }
    }
}

/// A DATA_FRAG body: extra flags, the inline QoS offset, reader and writer
/// ids, a sequence number, the first fragment number, the number of
/// fragments, the fragment size, the sample size, optional inline QoS and
/// the fragments' bytes.
pub open spec fn data_frag_body(b: Seq<u8>, flags: u8, le: bool) -> Option<SubmessageView> {
    if b.len() < 32 {
        None
    } else {
        match payload_start(b, flags, le) {
            None => None,
            Some(p) => Some(SubmessageView::DataFrag {
                reader_id: entity_id_at(b, 4),
                writer_id: entity_id_at(b, 8),
                writer_sn: sn_at(b, 12, le),
                fragment_starting_num: u32_at(b, 20, le),
                fragments_in_submessage: u16_at(b, 24, le),
                fragment_size: u16_at(b, 26, le),
                data_size: u32_at(b, 28, le),
                payload: b.subrange(p, b.len() as int),
            }),
        }
    }
}

/// A known body that did not parse is an error; an unknown kind (and
/// padding) is skipped.
pub open spec fn lift(o: Option<SubmessageView>) -> Option<Option<SubmessageView>> {
    match o {
        Some(s) => Some(Some(s)),
        None => None,
    }
}

/// A submessage body of kind `id` with flags `flags`: `None` when it is
/// malformed, `Some(None)` when the kind is skipped.
#[verifier::opaque]
pub open spec fn parse_body(id: u8, flags: u8, b: Seq<u8>) -> Option<Option<SubmessageView>> {
    let le = flag(flags, 0);
    if id == ACKNACK {
        lift(acknack_body(b, le))
    } else if id == HEARTBEAT {
        lift(heartbeat_body(b, le))
    } else if id == GAP {
        lift(gap_body(b, le))
    } else if id == INFO_TS {
        lift(info_ts_body(b, flags, le))
    } else if id == INFO_SRC {
        lift(info_src_body(b))
    } else if id == INFO_DST {
        lift(info_dst_body(b))
    } else if id == INFO_REPLY {
        lift(info_reply_body(b, flags, le))
    } else if id == NACK_FRAG {
        lift(nack_frag_body(b, le))
    } else if id == HEARTBEAT_FRAG {
        lift(heartbeat_frag_body(b, le))
    } else if id == DATA {
        lift(data_body(b, flags, le))
    } else if id == DATA_FRAG {
        lift(data_frag_body(b, flags, le))
    } else {
        Some(None)
    }
}

/// The content of an optional submessage.
pub open spec fn opt_view(r: Option<Submessage>) -> Option<SubmessageView> {
    match r {
        Some(m) => Some(m@),
        None => None,
    }
}

/// Flag bit `k` (at most 3) of a submessage header.
pub fn flag_set(flags: u8, k: u8) -> (r: bool)
    requires
        k <= 3,
    ensures
        r == flag(flags, k as nat),
{
    let p: u8 = if k == 0 { 1 } else if k == 1 { 2 } else if k == 2 { 4 } else { 8 };
    (flags / p) % 2 == 1
}

fn parse_acknack(b: &[u8], le: bool) -> (r: Option<Submessage>)
    ensures
        opt_view(r) == acknack_body(b@, le),
{
    let n = b.len();
    if !check_sn_set(b, 8, le) {
        return None;
    }
    let (base_sn, missing_sn, len) = read_sn_set(b, 8, le);
    if n - 8 - len < 4 {
        return None;
    }
    let count = read_i32(b, 8 + len, le);
    Some(Submessage::AckNack { reader_id: read_entity_id(b, 0), writer_id: read_entity_id(b, 4), base_sn, missing_sn, count })
}

fn parse_heartbeat(b: &[u8], le: bool) -> (r: Option<Submessage>)
    ensures
        opt_view(r) == heartbeat_body(b@, le),
{
    if b.len() < 28 {
        return None;
    }
    Some(Submessage::Heartbeat {
        reader_id: read_entity_id(b, 0),
        writer_id: read_entity_id(b, 4),
        first_sn: read_sn(b, 8, le),
        last_sn: read_sn(b, 16, le),
        count: read_i32(b, 24, le),
    })
}

fn parse_gap(b: &[u8], le: bool) -> (r: Option<Submessage>)
    ensures
        opt_view(r) == gap_body(b@, le),
{
    if b.len() < 16 || !check_sn_set(b, 16, le) {
        return None;
    }
    let (_, gap_list, _) = read_sn_set(b, 16, le);
    Some(Submessage::Gap {
        reader_id: read_entity_id(b, 0),
        writer_id: read_entity_id(b, 4),
        gap_start: read_sn(b, 8, le),
        gap_list,
    })
}

fn parse_heartbeat_frag(b: &[u8], le: bool) -> (r: Option<Submessage>)
    ensures
        opt_view(r) == heartbeat_frag_body(b@, le),
{
    if b.len() < 24 {
        return None;
    }
    Some(Submessage::HeartbeatFrag {
        reader_id: read_entity_id(b, 0),
        writer_id: read_entity_id(b, 4),
        writer_sn: read_sn(b, 8, le),
        last_fragment_num: read_u32(b, 16, le),
        count: read_i32(b, 20, le),
    })
}

fn parse_nack_frag(b: &[u8], le: bool) -> (r: Option<Submessage>)
    ensures
        opt_view(r) == nack_frag_body(b@, le),
{
    let n = b.len();
    if n < 16 || !check_frag_set(b, 16, le) {
        return None;
    }
    let len = frag_set_size(b, 16, le);
    if n - 16 - len < 4 {
        return None;
    }
    Some(Submessage::NackFrag {
        reader_id: read_entity_id(b, 0),
        writer_id: read_entity_id(b, 4),
        writer_sn: read_sn(b, 8, le),
        count: read_i32(b, 16 + len, le),
    })
}

fn parse_info_ts(b: &[u8], flags: u8, le: bool) -> (r: Option<Submessage>)
    ensures
        opt_view(r) == info_ts_body(b@, flags, le),
{
    if flag_set(flags, 1) {
        Some(Submessage::InfoTimestamp { timestamp: None })
    } else if b.len() >= 8 {
        Some(Submessage::InfoTimestamp { timestamp: Some((read_i32(b, 0, le), read_u32(b, 4, le))) })
    } else {
        None
    }
}

fn parse_info_src(b: &[u8]) -> (r: Option<Submessage>)
    ensures
        opt_view(r) == info_src_body(b@),
{
    if b.len() < 20 {
        return None;
    }
    let protocol_version = [b[4], b[5]];
    let vendor_id = [b[6], b[7]];
    assert(protocol_version@ =~= b@.subrange(4, 6));
    assert(vendor_id@ =~= b@.subrange(6, 8));
    Some(Submessage::InfoSource { protocol_version, vendor_id, guid_prefix: read_prefix(b, 8) })
}

fn parse_info_dst(b: &[u8]) -> (r: Option<Submessage>)
    ensures
        opt_view(r) == info_dst_body(b@),
{
    if b.len() < 12 {
        return None;
    }
    Some(Submessage::InfoDestination { guid_prefix: read_prefix(b, 0) })
}

fn parse_info_reply(b: &[u8], flags: u8, le: bool) -> (r: Option<Submessage>)
    ensures
        opt_view(r) == info_reply_body(b@, flags, le),
{
    if !check_locator_list(b, 0, le) {
        return None;
    }
    let (unicast_locator_list, m) = read_locator_list(b, 0, le);
    if flag_set(flags, 1) {
        if !check_locator_list(b, m, le) {
            return None;
        }
        let (multicast, _) = read_locator_list(b, m, le);
        Some(Submessage::InfoReply { unicast_locator_list, multicast_locator_list: Some(multicast) })
    } else {
        Some(Submessage::InfoReply { unicast_locator_list, multicast_locator_list: None })
    }
}

/// Finds where the serialized payload of a DATA or DATA_FRAG body starts.
fn find_payload_start(b: &[u8], flags: u8, le: bool) -> (r: Option<usize>)
    requires
        b@.len() >= 4,
    ensures
        r matches Some(p) ==> payload_start(b@, flags, le) == Some(p as int),
        r is None ==> payload_start(b@, flags, le) is None,
{
    let q = 4 + read_u16(b, 2, le) as usize;
    if q > b.len() {
        None
    } else if flag_set(flags, 1) {
        skip_param_list(b, q, le)
    } else {
        Some(q)
    }
}

fn parse_data(b: &[u8], flags: u8, le: bool) -> (r: Option<Submessage>)
    ensures
        opt_view(r) == data_body(b@, flags, le),
{
    let n = b.len();
    if n < 20 {
        return None;
    }
    let p = match find_payload_start(b, flags, le) {
        Some(p) => p,
        None => return None,
    };
    proof {
        if let Some(e) = param_list_end(b@, 4 + u16_at(b@, 2, le), le) {
            lemma_param_list_end_bound(b@, 4 + u16_at(b@, 2, le), le);
        }
    }
    let reader_id = read_entity_id(b, 4);
    let writer_id = read_entity_id(b, 8);
    let writer_sn = read_sn(b, 12, le);
    if !(flag_set(flags, 2) || flag_set(flags, 3)) {
        Some(Submessage::Data { reader_id, writer_id, writer_sn, payload: None })
    } else if p <= n && n - p >= 4 {
        let representation = [b[p], b[p + 1]];
        assert(representation@ =~= b@.subrange(p as int, p + 2));
        let value = bytes_between(b, p + 4, n);
        Some(Submessage::Data { reader_id, writer_id, writer_sn, payload: Some(SerializedData { representation, value }) })
    } else {
        None
    }
}

fn parse_data_frag(b: &[u8], flags: u8, le: bool) -> (r: Option<Submessage>)
    ensures
        opt_view(r) == data_frag_body(b@, flags, le),
{
    let n = b.len();
    if n < 32 {
        return None;
    }
    let p = match find_payload_start(b, flags, le) {
        Some(p) => p,
        None => return None,
    };
    proof {
        if let Some(e) = param_list_end(b@, 4 + u16_at(b@, 2, le), le) {
            lemma_param_list_end_bound(b@, 4 + u16_at(b@, 2, le), le);
        }
    }
    Some(Submessage::DataFrag {
        reader_id: read_entity_id(b, 4),
        writer_id: read_entity_id(b, 8),
        writer_sn: read_sn(b, 12, le),
        fragment_starting_num: read_u32(b, 20, le),
        fragments_in_submessage: read_u16(b, 24, le),
        fragment_size: read_u16(b, 26, le),
        data_size: read_u32(b, 28, le),
        payload: bytes_between(b, p, n),
    })
}

/// A parameter list ends within the bytes it is read from.
proof fn lemma_param_list_end_bound(b: Seq<u8>, i: int, le: bool)
    requires
        param_list_end(b, i, le) is Some,
    ensures
        i < param_list_end(b, i, le)->0 <= b.len(),
    decreases b.len() - i,
{
    if u16_at(b, i, le) != 1 {
        lemma_param_list_end_bound(b, i + 4 + u16_at(b, i + 2, le), le);
    }
}

/// Parses a submessage body of kind `id`: `None` when it is malformed,
/// `Some(None)` when the kind is skipped.
pub fn parse_submessage_body(id: u8, flags: u8, b: &[u8]) -> (r: Option<Option<Submessage>>)
    ensures
        match r {
            None => parse_body(id, flags, b@) is None,
            Some(o) => parse_body(id, flags, b@) == Some(opt_view(o)),
        },
{
    reveal(parse_body);
    let le = flag_set(flags, 0);
    let parsed = if id == ACKNACK {
        parse_acknack(b, le)
    } else if id == HEARTBEAT {
        parse_heartbeat(b, le)
    } else if id == GAP {
        parse_gap(b, le)
    } else if id == INFO_TS {
        parse_info_ts(b, flags, le)
    } else if id == INFO_SRC {
        parse_info_src(b)
    } else if id == INFO_DST {
        parse_info_dst(b)
    } else if id == INFO_REPLY {
        parse_info_reply(b, flags, le)
    } else if id == NACK_FRAG {
        parse_nack_frag(b, le)
    } else if id == HEARTBEAT_FRAG {
        parse_heartbeat_frag(b, le)
    } else if id == DATA {
        parse_data(b, flags, le)
    } else if id == DATA_FRAG {
        parse_data_frag(b, flags, le)
    } else {
        return Some(None);
    };
    match parsed {
        Some(m) => Some(Some(m)),
        None => None,
    }
}

/// An RTPS message: the sender's protocol version, vendor and GUID prefix,
/// and the submessages the monitor reads, in order.
#[derive(Debug, Clone)]
pub struct RtpsMessage {
    pub protocol_version: [u8; 2],
    pub vendor_id: [u8; 2],
    pub guid_prefix: GuidPrefix,
    pub submessages: Vec<Submessage>,
}

/// The content of an [`RtpsMessage`].
pub struct MessageView {
    pub protocol_version: Seq<u8>,
    pub vendor_id: Seq<u8>,
    pub guid_prefix: Seq<u8>,
    pub submessages: Seq<SubmessageView>,
}

/// The content of a list of submessages.
pub open spec fn submessages_view(s: Seq<Submessage>) -> Seq<SubmessageView> {
    s.map_values(|m: Submessage| m@)
}

impl View for RtpsMessage {
    type V = MessageView;

    open spec fn view(&self) -> MessageView {
        MessageView {
            protocol_version: self.protocol_version@,
            vendor_id: self.vendor_id@,
            guid_prefix: self.guid_prefix@,
            submessages: submessages_view(self.submessages@),
        }
    }
}

/// The bytes start with the protocol identifier "RTPS".
pub open spec fn has_rtps_magic(b: Seq<u8>) -> bool {
    b.len() >= 4 && b[0] == 82 && b[1] == 84 && b[2] == 80 && b[3] == 83
}

/// Where the submessage starting at `i` ends: its length field counts the
/// bytes after its header; a zero length means "up to the end of the
/// message", except for padding and timestamps.
pub open spec fn submessage_end(b: Seq<u8>, i: int) -> int {
    let id = b[i];
    let len = u16_at(b, i + 2, flag(b[i + 1], 0));
    if len == 0 && id != PAD && id != INFO_TS {
        b.len() as int
    } else {
        i + 4 + len
    }
}

/// The submessages from position `i` to the end of the message, skipping
/// the kinds the monitor does not read; `None` when one is malformed or
/// runs past the end.
pub open spec fn parse_submessages(b: Seq<u8>, i: int) -> Option<Seq<SubmessageView>>
    decreases b.len() - i,
{
    if i < 0 || i >= b.len() {
        Some(Seq::empty())
    } else if i + 4 > b.len() || submessage_end(b, i) > b.len() {
        None
    } else {
        let end = submessage_end(b, i);
        match parse_body(b[i], b[i + 1], b.subrange(i + 4, end)) {
            None => None,
            Some(first) => match parse_submessages(b, end) {
                None => None,
                Some(rest) => match first {
                    Some(m) => Some(seq![m] + rest),
                    None => Some(rest),
                },
            },
        }
    }
}

/// An RTPS message: the identifier "RTPS", a protocol version, a vendor id,
/// a GUID prefix, then submessages.
pub open spec fn parse_message(b: Seq<u8>) -> Option<MessageView> {
    if b.len() < 20 || !has_rtps_magic(b) {
        None
    } else {
        match parse_submessages(b, 20) {
            None => None,
            Some(subs) => Some(MessageView {
                protocol_version: b.subrange(4, 6),
                vendor_id: b.subrange(6, 8),
                guid_prefix: prefix_at(b, 8),
                submessages: subs,
            }),
        }
    }
}

/// `first` followed by what `rest` parses to, if it parses.
pub open spec fn prepend(first: Seq<SubmessageView>, rest: Option<Seq<SubmessageView>>) -> Option<Seq<SubmessageView>> {
    match rest {
        Some(r) => Some(first + r),
        None => None,
    }
}

/// Whether the bytes start with "RTPS".
pub fn starts_with_rtps(b: &[u8]) -> (r: bool)
    ensures
        r == has_rtps_magic(b@),
{
    b.len() >= 4 && b[0] == 82 && b[1] == 84 && b[2] == 80 && b[3] == 83
}

/// Parses an RTPS message.
pub fn parse_rtps_message(b: &[u8]) -> (r: Option<RtpsMessage>)
    ensures
        match r {
            Some(m) => parse_message(b@) == Some(m@),
            None => parse_message(b@) is None,
        },
{
    let n = b.len();
    if n < 20 || !starts_with_rtps(b) {
        return None;
    }
    let mut out: Vec<Submessage> = Vec::new();
    let mut i: usize = 20;
    while i < n
        invariant
            n == b@.len(),
            20 <= i <= n,
            parse_submessages(b@, 20) == prepend(submessages_view(out@), parse_submessages(b@, i as int)),
        decreases n - i,
    {
        if n - i < 4 {
            return None;
        }
        let id = b[i];
        let flags = b[i + 1];
        let le = flag_set(flags, 0);
        let len = read_u16(b, i + 2, le) as usize;
        let end = if len == 0 && id != PAD && id != INFO_TS {
            n
        } else {
            if n - i - 4 < len {
                return None;
            }
            i + 4 + len
        };
        assert(end == submessage_end(b@, i as int));
        let body = slice_subrange(b, i + 4, end);
        let ghost before = out@;
        match parse_submessage_body(id, flags, body) {
            None => return None,
            Some(None) => {},
            Some(Some(m)) => {
                out.push(m);
                proof {
                    assert(submessages_view(out@) =~= submessages_view(before).push(m@));
                    let rest = parse_submessages(b@, end as int);
                    if let Some(r) = rest {
                        assert(submessages_view(before) + (seq![m@] + r) =~= submessages_view(out@) + r);
                    }
                }
            },
        }
        i = end;
    }
    let r = RtpsMessage {
        protocol_version: [b[4], b[5]],
        vendor_id: [b[6], b[7]],
        guid_prefix: read_prefix(b, 8),
        submessages: out,
    };
    assert(r.protocol_version@ =~= b@.subrange(4, 6));
    assert(r.vendor_id@ =~= b@.subrange(6, 8));
    assert(submessages_view(r.submessages@) + Seq::<SubmessageView>::empty() =~= submessages_view(r.submessages@));
    Some(r)
}

/// Where each field of a HEARTBEAT comes from: the reader id from bytes 0
/// to 4 of the body, the writer id from bytes 4 to 8, the first available
/// sequence number from bytes 8 to 16, the last from bytes 16 to 24 and the
/// count from bytes 24 to 28. Two bodies that agree on a field's bytes
/// parse to the same value of that field, whatever the other bytes hold.
pub proof fn law_heartbeat_fields_located(b1: Seq<u8>, b2: Seq<u8>, le: bool)
    requires
        b1.len() >= 28,
        b2.len() >= 28,
    ensures
        heartbeat_body(b1, le) is Some,
        b1.subrange(0, 4) == b2.subrange(0, 4)
            ==> heartbeat_body(b1, le)->0->Heartbeat_reader_id == heartbeat_body(b2, le)->0->Heartbeat_reader_id,
        b1.subrange(4, 8) == b2.subrange(4, 8)
            ==> heartbeat_body(b1, le)->0->Heartbeat_writer_id == heartbeat_body(b2, le)->0->Heartbeat_writer_id,
        b1.subrange(8, 16) == b2.subrange(8, 16)
            ==> heartbeat_body(b1, le)->0->Heartbeat_first_sn == heartbeat_body(b2, le)->0->Heartbeat_first_sn,
        b1.subrange(16, 24) == b2.subrange(16, 24)
            ==> heartbeat_body(b1, le)->0->Heartbeat_last_sn == heartbeat_body(b2, le)->0->Heartbeat_last_sn,
        b1.subrange(24, 28) == b2.subrange(24, 28)
            ==> heartbeat_body(b1, le)->0->Heartbeat_count == heartbeat_body(b2, le)->0->Heartbeat_count,
{
    if b1.subrange(0, 4) == b2.subrange(0, 4) {
        assert forall|j: int| 0 <= j < 4 implies b1[j] == b2[j] by {
            assert(b1.subrange(0, 4)[j] == b2.subrange(0, 4)[j]);
        }
        assert(b1.subrange(0, 3) =~= b2.subrange(0, 3));
    }
    if b1.subrange(4, 8) == b2.subrange(4, 8) {
        assert forall|j: int| 4 <= j < 8 implies b1[j] == b2[j] by {
            assert(b1.subrange(4, 8)[j - 4] == b2.subrange(4, 8)[j - 4]);
        }
        assert(b1.subrange(4, 7) =~= b2.subrange(4, 7));
    }
    if b1.subrange(8, 16) == b2.subrange(8, 16) {
        assert forall|j: int| 8 <= j < 16 implies b1[j] == b2[j] by {
            assert(b1.subrange(8, 16)[j - 8] == b2.subrange(8, 16)[j - 8]);
        }
    }
    if b1.subrange(16, 24) == b2.subrange(16, 24) {
        assert forall|j: int| 16 <= j < 24 implies b1[j] == b2[j] by {
            assert(b1.subrange(16, 24)[j - 16] == b2.subrange(16, 24)[j - 16]);
        }
    }
    if b1.subrange(24, 28) == b2.subrange(24, 28) {
        assert forall|j: int| 24 <= j < 28 implies b1[j] == b2[j] by {
            assert(b1.subrange(24, 28)[j - 24] == b2.subrange(24, 28)[j - 24]);
        }
    }
}

} // verus!
