//! Events exchanged between the packet watcher and the state updater.

use vstd::prelude::*;
use crate::guid::{Guid, GuidPrefix, Locator, LocatorView, locator_seq_view};

verus! {

/// A submessage payload travels in one IPv4 datagram, so it is never
/// larger than this.
pub const MAX_PAYLOAD_SIZE: usize = 65535;

/// Discovery data announcing a writer and the topic it publishes.
#[derive(Debug, Clone)]
pub struct WriterDiscovery {
    pub remote_writer_guid: Guid,
    pub topic_name: String,
    pub data_type: String,
}

/// Discovery data announcing a reader and the topic it subscribes to.
#[derive(Debug, Clone)]
pub struct ReaderDiscovery {
    pub remote_reader_guid: Guid,
    pub topic_name: String,
    pub data_type: String,
}

/// The content of discovery data for an endpoint: its GUID, topic and type.
pub struct EndpointView {
    pub guid: (Seq<u8>, (Seq<u8>, u8)),
    pub topic_name: Seq<char>,
    pub data_type: Seq<char>,
}

impl View for WriterDiscovery {
    type V = EndpointView;

    open spec fn view(&self) -> EndpointView {
        EndpointView { guid: self.remote_writer_guid@, topic_name: self.topic_name@, data_type: self.data_type@ }
    }
}

impl View for ReaderDiscovery {
    type V = EndpointView;

    open spec fn view(&self) -> EndpointView {
        EndpointView { guid: self.remote_reader_guid@, topic_name: self.topic_name@, data_type: self.data_type@ }
    }
}

impl WriterDiscovery {
    /// A copy of this discovery data.
    pub fn copy(&self) -> (r: Self)
        ensures
            r@ == self@,
    {
        WriterDiscovery {
            remote_writer_guid: self.remote_writer_guid,
            topic_name: self.topic_name.clone(),
            data_type: self.data_type.clone(),
        }
    }
}

impl ReaderDiscovery {
    /// A copy of this discovery data.
    pub fn copy(&self) -> (r: Self)
        ensures
            r@ == self@,
    {
        ReaderDiscovery {
            remote_reader_guid: self.remote_reader_guid,
            topic_name: self.topic_name.clone(),
            data_type: self.data_type.clone(),
        }
    }
}

/// Discovery data announcing a topic.
#[derive(Debug, Clone)]
pub struct TopicDiscovery {
    pub topic_name: String,
    pub data_type: String,
}

/// Discovery data announcing a participant.
#[derive(Debug, Clone)]
pub struct ParticipantDiscovery {
    pub guid_prefix: GuidPrefix,
}

/// The typed data payload decoded from a DATA submessage.
#[derive(Debug, Clone)]
pub enum DataPayload {
    Topic(TopicDiscovery),
    Writer(WriterDiscovery),
    Reader(ReaderDiscovery),
    Participant(ParticipantDiscovery),
}

/// A HEARTBEAT submessage.
#[derive(Debug, Clone)]
pub struct HeartbeatEvent {
    pub writer_guid: Guid,
    pub first_sn: i64,
    pub last_sn: i64,
    pub count: i32,
}

/// An ACKNACK submessage.
#[derive(Debug, Clone)]
pub struct AckNackEvent {
    pub writer_guid: Guid,
    pub reader_guid: Guid,
    pub count: i32,
    pub base_sn: i64,
    pub missing_sn: Vec<i64>,
}

/// A HEARTBEAT_FRAG submessage.
#[derive(Debug, Clone)]
pub struct HeartbeatFragEvent {
    pub writer_guid: Guid,
    pub writer_sn: i64,
    pub last_fragment_num: u32,
    pub count: i32,
}

/// A DATA submessage.
#[derive(Debug, Clone)]
pub struct DataEvent {
    pub writer_guid: Guid,
    pub writer_sn: i64,
    pub payload_size: usize,
    pub payload: Option<DataPayload>,
}

/// A DATA_FRAG submessage.
#[derive(Debug, Clone)]
pub struct DataFragEvent {
    pub writer_guid: Guid,
    pub writer_sn: i64,
    pub fragment_starting_num: u32,
    pub fragments_in_submessage: u16,
    pub data_size: u32,
    pub fragment_size: u16,
    pub payload_size: usize,
    pub payload_hash: u64,
}

/// A GAP submessage.
#[derive(Debug, Clone)]
pub struct GapEvent {
    pub writer_guid: Guid,
    pub reader_guid: Guid,
    pub gap_start: i64,
    pub gap_list: Vec<i64>,
}

/// A NACK_FRAG submessage.
#[derive(Debug, Clone)]
pub struct NackFragEvent {
    pub writer_guid: Guid,
    pub reader_guid: Guid,
    pub writer_sn: i64,
    pub count: i32,
}

/// The submessage carried by an [`RtpsSubmsgEvent`].
#[derive(Debug, Clone)]
pub enum RtpsSubmsgEventKind {
    Data(DataEvent),
    DataFrag(DataFragEvent),
    Gap(GapEvent),
    AckNack(AckNackEvent),
    NackFrag(NackFragEvent),
    Heartbeat(HeartbeatEvent),
    HeartbeatFrag(HeartbeatFragEvent),
}

/// The receipt of one RTPS submessage. Times are in nanoseconds; the RTPS
/// timestamp is the one an INFO_TS submessage set, as (seconds, fraction).
#[derive(Debug, Clone)]
pub struct RtpsSubmsgEvent {
    pub recv_time: i64,
    pub rtps_time: Option<(i32, u32)>,
    pub kind: RtpsSubmsgEventKind,
}

/// The GUID prefix and locators of an observed participant.
#[derive(Debug, Clone)]
pub struct ParticipantInfo {
    pub recv_time: i64,
    pub guid_prefix: GuidPrefix,
    pub unicast_locator_list: Vec<Locator>,
    pub multicast_locator_list: Option<Vec<Locator>>,
}

/// A periodic tick: `when` on the monotonic clock, `recv_time` on the
/// capture's time line, both in nanoseconds.
#[derive(Debug, Clone, Copy)]
pub struct TickEvent {
    pub when: u64,
    pub recv_time: i64,
}

/// A message sent to the state updater.
#[derive(Debug, Clone)]
pub enum UpdateEvent {
    RtpsSubmsg(RtpsSubmsgEvent),
    ParticipantInfo(ParticipantInfo),
    Tick(TickEvent),
    ToggleLogging,
}

/// The content of a [`DataPayload`].
pub enum PayloadView {
    /// Topic name and type name.
    Topic(Seq<char>, Seq<char>),
    Writer(EndpointView),
    Reader(EndpointView),
    /// The participant's GUID prefix.
    Participant(Seq<u8>),
}

impl View for DataPayload {
    type V = PayloadView;

    open spec fn view(&self) -> PayloadView {
        match self {
            DataPayload::Topic(t) => PayloadView::Topic(t.topic_name@, t.data_type@),
            DataPayload::Writer(w) => PayloadView::Writer(w@),
            DataPayload::Reader(r) => PayloadView::Reader(r@),
            DataPayload::Participant(p) => PayloadView::Participant(p.guid_prefix@),
        }
    }
}

/// The content of an optional payload.
pub open spec fn opt_payload_view(p: Option<DataPayload>) -> Option<PayloadView> {
    match p {
        Some(x) => Some(x@),
        None => None,
    }
}

/// The content of an [`RtpsSubmsgEventKind`], GUIDs taken by their view.
pub enum SubmsgKindView {
    Data { writer_guid: (Seq<u8>, (Seq<u8>, u8)), writer_sn: i64, payload_size: usize, payload: Option<PayloadView> },
    DataFrag {
        writer_guid: (Seq<u8>, (Seq<u8>, u8)),
        writer_sn: i64,
        fragment_starting_num: u32,
        fragments_in_submessage: u16,
        data_size: u32,
        fragment_size: u16,
        payload_size: usize,
        payload_hash: u64,
    },
    Gap { writer_guid: (Seq<u8>, (Seq<u8>, u8)), reader_guid: (Seq<u8>, (Seq<u8>, u8)), gap_start: i64, gap_list: Seq<i64> },
    AckNack {
        writer_guid: (Seq<u8>, (Seq<u8>, u8)),
        reader_guid: (Seq<u8>, (Seq<u8>, u8)),
        count: i32,
        base_sn: i64,
        missing_sn: Seq<i64>,
    },
    NackFrag { writer_guid: (Seq<u8>, (Seq<u8>, u8)), reader_guid: (Seq<u8>, (Seq<u8>, u8)), writer_sn: i64, count: i32 },
    Heartbeat { writer_guid: (Seq<u8>, (Seq<u8>, u8)), first_sn: i64, last_sn: i64, count: i32 },
    HeartbeatFrag { writer_guid: (Seq<u8>, (Seq<u8>, u8)), writer_sn: i64, last_fragment_num: u32, count: i32 },
}

impl View for RtpsSubmsgEventKind {
    type V = SubmsgKindView;

    open spec fn view(&self) -> SubmsgKindView {
        match self {
            RtpsSubmsgEventKind::Data(e) => SubmsgKindView::Data {
                writer_guid: e.writer_guid@,
                writer_sn: e.writer_sn,
                payload_size: e.payload_size,
                payload: opt_payload_view(e.payload),
            },
            RtpsSubmsgEventKind::DataFrag(e) => SubmsgKindView::DataFrag {
                writer_guid: e.writer_guid@,
                writer_sn: e.writer_sn,
                fragment_starting_num: e.fragment_starting_num,
                fragments_in_submessage: e.fragments_in_submessage,
                data_size: e.data_size,
                fragment_size: e.fragment_size,
                payload_size: e.payload_size,
                payload_hash: e.payload_hash,
            },
            RtpsSubmsgEventKind::Gap(e) => SubmsgKindView::Gap {
                writer_guid: e.writer_guid@,
                reader_guid: e.reader_guid@,
                gap_start: e.gap_start,
                gap_list: e.gap_list@,
            },
            RtpsSubmsgEventKind::AckNack(e) => SubmsgKindView::AckNack {
                writer_guid: e.writer_guid@,
                reader_guid: e.reader_guid@,
                count: e.count,
                base_sn: e.base_sn,
                missing_sn: e.missing_sn@,
            },
            RtpsSubmsgEventKind::NackFrag(e) => SubmsgKindView::NackFrag {
                writer_guid: e.writer_guid@,
                reader_guid: e.reader_guid@,
                writer_sn: e.writer_sn,
                count: e.count,
            },
            RtpsSubmsgEventKind::Heartbeat(e) => SubmsgKindView::Heartbeat {
                writer_guid: e.writer_guid@,
                first_sn: e.first_sn,
                last_sn: e.last_sn,
                count: e.count,
            },
            RtpsSubmsgEventKind::HeartbeatFrag(e) => SubmsgKindView::HeartbeatFrag {
                writer_guid: e.writer_guid@,
                writer_sn: e.writer_sn,
                last_fragment_num: e.last_fragment_num,
                count: e.count,
            },
        }
    }
}

/// The content of an [`UpdateEvent`].
pub enum UpdateEventView {
    RtpsSubmsg { recv_time: i64, rtps_time: Option<(i32, u32)>, kind: SubmsgKindView },
    ParticipantInfo {
        recv_time: i64,
        guid_prefix: Seq<u8>,
        unicast_locator_list: Seq<LocatorView>,
        multicast_locator_list: Option<Seq<LocatorView>>,
    },
    Tick(TickEvent),
    ToggleLogging,
}

impl View for UpdateEvent {
    type V = UpdateEventView;

    open spec fn view(&self) -> UpdateEventView {
        match self {
            UpdateEvent::RtpsSubmsg(m) => UpdateEventView::RtpsSubmsg {
                recv_time: m.recv_time,
                rtps_time: m.rtps_time,
                kind: m.kind@,
            },
            UpdateEvent::ParticipantInfo(p) => UpdateEventView::ParticipantInfo {
                recv_time: p.recv_time,
                guid_prefix: p.guid_prefix@,
                unicast_locator_list: locator_seq_view(p.unicast_locator_list@),
                multicast_locator_list: match p.multicast_locator_list {
                    Some(l) => Some(locator_seq_view(l@)),
                    None => None,
                },
            },
            UpdateEvent::Tick(t) => UpdateEventView::Tick(*t),
            UpdateEvent::ToggleLogging => UpdateEventView::ToggleLogging,
        }
    }
}

/// The content of a list of events.
pub open spec fn events_view(s: Seq<UpdateEvent>) -> Seq<UpdateEventView> {
    s.map_values(|e: UpdateEvent| e@)
}

} // verus!
