//! The traffic state: every observed participant with its writers and
//! readers, every topic, reported abnormalities and general statistics.

use vstd::prelude::*;
use core::ops::Range;
use crate::defrag_buf::DefragBuf;
use crate::guid::{Guid, GuidPrefix, EntityId, Locator};
use crate::message::{EndpointView, ReaderDiscovery, WriterDiscovery};
use crate::timed_stat::{TimedStat, TimedStatView};
use crate::vecmap::{Inv, VecMap};

verus! {

/// `x + y`, wrapping around at the bound of `usize`.
pub open spec fn wrap_add(x: usize, y: usize) -> usize {
    if x + y > usize::MAX {
        (x + y - usize::MAX - 1) as usize
    } else {
        (x + y) as usize
    }
}

/// `x + y`, wrapping around at the bound of `usize` (counters never stop).
pub fn add_wrapping(x: usize, y: usize) -> (r: usize)
    ensures
        r == wrap_add(x, y),
{
    if x <= usize::MAX - y {
        x + y
    } else {
        y - (usize::MAX - x) - 1
    }
}

/// General traffic statistics.
#[derive(Debug, Clone, Copy)]
pub struct Statistics {
    pub packet_count: usize,
    pub data_submsg_count: usize,
    pub datafrag_submsg_count: usize,
    pub acknack_submsg_count: usize,
    pub ackfrag_submsg_count: usize,
    pub heartbeat_submsg_count: usize,
    pub heartbeat_frag_submsg_count: usize,
}

impl Statistics {
    /// All counts at zero.
    pub fn new() -> (r: Self)
        ensures
            r == Self::spec_zero(),
    {
        Statistics {
            packet_count: 0,
            data_submsg_count: 0,
            datafrag_submsg_count: 0,
            acknack_submsg_count: 0,
            ackfrag_submsg_count: 0,
            heartbeat_submsg_count: 0,
            heartbeat_frag_submsg_count: 0,
        }
    }

    pub open spec fn spec_zero() -> Self {
        Statistics {
            packet_count: 0,
            data_submsg_count: 0,
            datafrag_submsg_count: 0,
            acknack_submsg_count: 0,
            ackfrag_submsg_count: 0,
            heartbeat_submsg_count: 0,
            heartbeat_frag_submsg_count: 0,
        }
    }
}

/// The latest heartbeat of a writer. `since` is on the monotonic clock, in
/// nanoseconds.
#[derive(Debug, Clone, Copy)]
pub struct HeartbeatState {
    pub first_sn: i64,
    pub last_sn: i64,
    pub count: i32,
    pub since: u64,
}

/// The latest ACKNACK of a reader. `since` is on the monotonic clock, in
/// nanoseconds.
#[derive(Debug, Clone)]
pub struct AckNackState {
    pub missing_sn: Vec<i64>,
    pub count: i32,
    pub since: u64,
}

/// The content of an ACKNACK record.
pub struct AckNackView {
    pub missing_sn: Seq<i64>,
    pub count: i32,
    pub since: u64,
}

impl View for AckNackState {
    type V = AckNackView;

    open spec fn view(&self) -> AckNackView {
        AckNackView { missing_sn: self.missing_sn@, count: self.count, since: self.since }
    }
}

/// The content of optional discovery data.
pub open spec fn writer_data_view(d: Option<WriterDiscovery>) -> Option<EndpointView> {
    match d {
        Some(x) => Some(x@),
        None => None,
    }
}

/// The content of optional discovery data.
pub open spec fn reader_data_view(d: Option<ReaderDiscovery>) -> Option<EndpointView> {
    match d {
        Some(x) => Some(x@),
        None => None,
    }
}

/// The content of an optional ACKNACK record.
pub open spec fn acknack_view(a: Option<AckNackState>) -> Option<AckNackView> {
    match a {
        Some(x) => Some(x@),
        None => None,
    }
}

/// The content of an optional locator list.
pub open spec fn locators_view(l: Option<Vec<Locator>>) -> Option<Seq<Locator>> {
    match l {
        Some(x) => Some(x@),
        None => None,
    }
}

/// Records a fraction of a fragmented message.
#[derive(Debug)]
pub struct FragmentInterval {
    pub range: Range<usize>,
    pub payload_hash: u64,
}

/// An abnormal event report. `when` is wall-clock time in microseconds since
/// the Unix epoch.
#[derive(Debug, Clone)]
pub struct Abnormality {
    pub when: i64,
    pub writer_guid: Option<Guid>,
    pub reader_guid: Option<Guid>,
    pub topic_name: Option<String>,
    pub desc: String,
}

/// The content of an abnormality report.
pub struct AbnormalityView {
    pub when: i64,
    pub writer_guid: Option<(Seq<u8>, (Seq<u8>, u8))>,
    pub reader_guid: Option<(Seq<u8>, (Seq<u8>, u8))>,
    pub topic_name: Option<Seq<char>>,
    pub desc: Seq<char>,
}

/// The content of an optional GUID.
pub open spec fn guid_view(g: Option<Guid>) -> Option<(Seq<u8>, (Seq<u8>, u8))> {
    match g {
        Some(x) => Some(x@),
        None => None,
    }
}

/// The content of an optional string.
pub open spec fn string_view(t: Option<String>) -> Option<Seq<char>> {
    match t {
        Some(x) => Some(x@),
        None => None,
    }
}

impl View for Abnormality {
    type V = AbnormalityView;

    open spec fn view(&self) -> AbnormalityView {
        AbnormalityView {
            when: self.when,
            writer_guid: guid_view(self.writer_guid),
            reader_guid: guid_view(self.reader_guid),
            topic_name: string_view(self.topic_name),
            desc: self.desc@,
        }
    }
}

/// The content of a list of abnormality reports.
pub open spec fn abnormalities_view(v: Seq<Abnormality>) -> Seq<AbnormalityView> {
    Seq::new(v.len(), |i: int| v[i]@)
}

/// A message whose fragments are being received.
#[derive(Debug)]
pub struct FragmentedMessage {
    pub data_size: usize,
    pub num_fragments: usize,
    pub recvd_fragments: usize,
    /// Fragment range (as `start, end`) to payload hash.
    pub intervals: VecMap<(usize, usize), u64>,
    pub defrag_buf: DefragBuf,
}

pub struct FragmentedView {
    pub data_size: usize,
    pub num_fragments: usize,
    pub recvd_fragments: usize,
    pub intervals: Map<(usize, usize), u64>,
    pub defrag_buf: (nat, Seq<(usize, usize)>),
}

impl View for FragmentedMessage {
    type V = FragmentedView;

    open spec fn view(&self) -> FragmentedView {
        FragmentedView {
            data_size: self.data_size,
            num_fragments: self.num_fragments,
            recvd_fragments: self.recvd_fragments,
            intervals: self.intervals@,
            defrag_buf: self.defrag_buf@,
        }
    }
}

impl Inv for FragmentedMessage {
    open spec fn inv(&self) -> bool {
        self.intervals.wf() && self.defrag_buf.wf()
    }
}

/// `data_size / fragment_size`, rounded up.
pub open spec fn div_ceil(data_size: nat, fragment_size: nat) -> nat {
    if data_size % fragment_size == 0 {
        data_size / fragment_size
    } else {
        data_size / fragment_size + 1
    }
}

impl FragmentedMessage {
    /// A message of `data_size` bytes sent in fragments of `fragment_size`
    /// bytes, none of which has arrived.
    pub fn new(data_size: usize, fragment_size: usize) -> (r: Self)
        requires
            fragment_size > 0,
        ensures
            r.inv(),
            r.data_size == data_size,
            r.num_fragments == div_ceil(data_size as nat, fragment_size as nat),
            r.recvd_fragments == 0,
            r.intervals@ == Map::<(usize, usize), u64>::empty(),
            r.defrag_buf@.0 == r.num_fragments,
            r.num_fragments == 0 ==> r.defrag_buf@.1 == Seq::<(usize, usize)>::empty(),
            r.num_fragments > 0 ==> r.defrag_buf@.1 == seq![(0usize, r.num_fragments)],
    {
        let q = data_size / fragment_size;
        if data_size % fragment_size != 0 {
            assert(fragment_size >= 2);
            assert(q < usize::MAX) by (nonlinear_arith)
                requires
                    q == data_size / fragment_size,
                    fragment_size >= 2,
                    data_size <= usize::MAX,
            ;
        }
        let num_fragments = if data_size % fragment_size == 0 { q } else { q + 1 };
        FragmentedMessage {
            data_size,
            num_fragments,
            recvd_fragments: 0,
            intervals: VecMap::new(),
            defrag_buf: DefragBuf::new(num_fragments),
        }
    }
}

/// The state for a writer entity.
#[derive(Debug)]
pub struct WriterState {
    pub last_sn: Option<i64>,
    pub frag_messages: VecMap<i64, FragmentedMessage>,
    pub total_msg_count: usize,
    pub total_byte_count: usize,
    pub msg_rate_stat: TimedStat,
    pub bit_rate_stat: TimedStat,
    pub heartbeat: Option<HeartbeatState>,
    pub data: Option<WriterDiscovery>,
}

pub struct WriterView {
    pub last_sn: Option<i64>,
    pub frag_messages: Map<i64, FragmentedView>,
    pub total_msg_count: usize,
    pub total_byte_count: usize,
    pub msg_rate_stat: TimedStatView,
    pub bit_rate_stat: TimedStatView,
    pub heartbeat: Option<HeartbeatState>,
    pub data: Option<EndpointView>,
}

impl View for WriterState {
    type V = WriterView;

    open spec fn view(&self) -> WriterView {
        WriterView {
            last_sn: self.last_sn,
            frag_messages: self.frag_messages@,
            total_msg_count: self.total_msg_count,
            total_byte_count: self.total_byte_count,
            msg_rate_stat: self.msg_rate_stat@,
            bit_rate_stat: self.bit_rate_stat@,
            heartbeat: self.heartbeat,
            data: writer_data_view(self.data),
        }
    }
}

impl Inv for WriterState {
    open spec fn inv(&self) -> bool {
        &&& self.frag_messages.wf()
        &&& self.msg_rate_stat.wf()
        &&& self.bit_rate_stat.wf()
    }
}

/// A fresh statistic over `window`.
pub open spec fn empty_stat(window: i64) -> TimedStatView {
    TimedStatView { entries: Seq::empty(), last_ts: None, window }
}

/// The state of a writer that nothing has been heard of.
pub open spec fn default_writer(window: i64) -> WriterView {
    WriterView {
        last_sn: None,
        frag_messages: Map::empty(),
        total_msg_count: 0,
        total_byte_count: 0,
        msg_rate_stat: empty_stat(window),
        bit_rate_stat: empty_stat(window),
        heartbeat: None,
        data: None,
    }
}

impl WriterState {
    /// A writer that nothing has been heard of.
    pub fn new(window: i64) -> (r: Self)
        requires
            window > 0,
        ensures
            r.inv(),
            r@ == default_writer(window),
    {
        WriterState {
            last_sn: None,
            frag_messages: VecMap::new(),
            total_msg_count: 0,
            total_byte_count: 0,
            msg_rate_stat: TimedStat::new(window),
            bit_rate_stat: TimedStat::new(window),
            heartbeat: None,
            data: None,
        }
    }

    /// The topic named in the writer's discovery data.
    pub fn topic_name(&self) -> (r: Option<&String>)
        ensures
            r is Some <==> self.data is Some,
            r matches Some(t) ==> t@ == self@.data->0.topic_name,
    {
        match &self.data {
            Some(d) => Some(&d.topic_name),
            None => None,
        }
    }

    /// The type named in the writer's discovery data.
    pub fn data_type(&self) -> (r: Option<&String>)
        ensures
            r is Some <==> self.data is Some,
            r matches Some(t) ==> t@ == self@.data->0.data_type,
    {
        match &self.data {
            Some(d) => Some(&d.data_type),
            None => None,
        }
    }
}

/// The state for a reader entity.
#[derive(Debug)]
pub struct ReaderState {
    pub data: Option<ReaderDiscovery>,
    pub acknack: Option<AckNackState>,
    pub last_sn: Option<i64>,
    pub total_acknack_count: usize,
    pub acknack_rate_stat: TimedStat,
}

pub struct ReaderView {
    pub data: Option<EndpointView>,
    pub acknack: Option<AckNackView>,
    pub last_sn: Option<i64>,
    pub total_acknack_count: usize,
    pub acknack_rate_stat: TimedStatView,
}

impl View for ReaderState {
    type V = ReaderView;

    open spec fn view(&self) -> ReaderView {
        ReaderView {
            data: reader_data_view(self.data),
            acknack: acknack_view(self.acknack),
            last_sn: self.last_sn,
            total_acknack_count: self.total_acknack_count,
            acknack_rate_stat: self.acknack_rate_stat@,
        }
    }
}

impl Inv for ReaderState {
    open spec fn inv(&self) -> bool {
        self.acknack_rate_stat.wf()
    }
}

/// The state of a reader that nothing has been heard of.
pub open spec fn default_reader(window: i64) -> ReaderView {
    ReaderView {
        data: None,
        acknack: None,
        last_sn: None,
        total_acknack_count: 0,
        acknack_rate_stat: empty_stat(window),
    }
}

impl ReaderState {
    /// A reader that nothing has been heard of.
    pub fn new(window: i64) -> (r: Self)
        requires
            window > 0,
        ensures
            r.inv(),
            r@ == default_reader(window),
    {
        ReaderState {
            data: None,
            acknack: None,
            last_sn: None,
            total_acknack_count: 0,
            acknack_rate_stat: TimedStat::new(window),
        }
    }

    /// The topic named in the reader's discovery data.
    pub fn topic_name(&self) -> (r: Option<&String>)
        ensures
            r is Some <==> self.data is Some,
            r matches Some(t) ==> t@ == self@.data->0.topic_name,
    {
        match &self.data {
            Some(d) => Some(&d.topic_name),
            None => None,
        }
    }

    /// The type named in the reader's discovery data.
    pub fn data_type(&self) -> (r: Option<&String>)
        ensures
            r is Some <==> self.data is Some,
            r matches Some(t) ==> t@ == self@.data->0.data_type,
    {
        match &self.data {
            Some(d) => Some(&d.data_type),
            None => None,
        }
    }
}

/// The state for a participant.
#[derive(Debug)]
pub struct ParticipantState {
    pub writers: VecMap<EntityId, WriterState>,
    pub readers: VecMap<EntityId, ReaderState>,
    pub unicast_locator_list: Option<Vec<Locator>>,
    pub multicast_locator_list: Option<Vec<Locator>>,
    pub total_msg_count: usize,
    pub total_byte_count: usize,
    pub total_acknack_count: usize,
    pub msg_rate_stat: TimedStat,
    pub bit_rate_stat: TimedStat,
    pub acknack_rate_stat: TimedStat,
}

pub struct ParticipantView {
    pub writers: Map<(Seq<u8>, u8), WriterView>,
    pub readers: Map<(Seq<u8>, u8), ReaderView>,
    pub unicast_locator_list: Option<Seq<Locator>>,
    pub multicast_locator_list: Option<Seq<Locator>>,
    pub total_msg_count: usize,
    pub total_byte_count: usize,
    pub total_acknack_count: usize,
    pub msg_rate_stat: TimedStatView,
    pub bit_rate_stat: TimedStatView,
    pub acknack_rate_stat: TimedStatView,
}

impl View for ParticipantState {
    type V = ParticipantView;

    open spec fn view(&self) -> ParticipantView {
        ParticipantView {
            writers: self.writers@,
            readers: self.readers@,
            unicast_locator_list: locators_view(self.unicast_locator_list),
            multicast_locator_list: locators_view(self.multicast_locator_list),
            total_msg_count: self.total_msg_count,
            total_byte_count: self.total_byte_count,
            total_acknack_count: self.total_acknack_count,
            msg_rate_stat: self.msg_rate_stat@,
            bit_rate_stat: self.bit_rate_stat@,
            acknack_rate_stat: self.acknack_rate_stat@,
        }
    }
}

impl Inv for ParticipantState {
    open spec fn inv(&self) -> bool {
        &&& self.writers.wf()
        &&& self.readers.wf()
        &&& self.msg_rate_stat.wf()
        &&& self.bit_rate_stat.wf()
        &&& self.acknack_rate_stat.wf()
    }
}

/// The state of a participant that nothing has been heard of.
pub open spec fn default_participant(window: i64) -> ParticipantView {
    ParticipantView {
        writers: Map::empty(),
        readers: Map::empty(),
        unicast_locator_list: None,
        multicast_locator_list: None,
        total_msg_count: 0,
        total_byte_count: 0,
        total_acknack_count: 0,
        msg_rate_stat: empty_stat(window),
        bit_rate_stat: empty_stat(window),
        acknack_rate_stat: empty_stat(window),
    }
}

impl ParticipantState {
    /// A participant that nothing has been heard of.
    pub fn new(window: i64) -> (r: Self)
        requires
            window > 0,
        ensures
            r.inv(),
            r@ == default_participant(window),
    {
        ParticipantState {
            writers: VecMap::new(),
            readers: VecMap::new(),
            unicast_locator_list: None,
            multicast_locator_list: None,
            total_msg_count: 0,
            total_byte_count: 0,
            total_acknack_count: 0,
            msg_rate_stat: TimedStat::new(window),
            bit_rate_stat: TimedStat::new(window),
            acknack_rate_stat: TimedStat::new(window),
        }
    }
}

/// The state for a topic.
#[derive(Debug)]
pub struct TopicState {
    pub total_msg_count: usize,
    pub total_byte_count: usize,
    pub msg_rate_stat: TimedStat,
    pub bit_rate_stat: TimedStat,
    pub total_acknack_count: usize,
    pub acknack_rate_stat: TimedStat,
    pub readers: VecMap<Guid, ()>,
    pub writers: VecMap<Guid, ()>,
}

pub struct TopicView {
    pub total_msg_count: usize,
    pub total_byte_count: usize,
    pub msg_rate_stat: TimedStatView,
    pub bit_rate_stat: TimedStatView,
    pub total_acknack_count: usize,
    pub acknack_rate_stat: TimedStatView,
    pub readers: Set<(Seq<u8>, (Seq<u8>, u8))>,
    pub writers: Set<(Seq<u8>, (Seq<u8>, u8))>,
}

impl View for TopicState {
    type V = TopicView;

    open spec fn view(&self) -> TopicView {
        TopicView {
            total_msg_count: self.total_msg_count,
            total_byte_count: self.total_byte_count,
            msg_rate_stat: self.msg_rate_stat@,
            bit_rate_stat: self.bit_rate_stat@,
            total_acknack_count: self.total_acknack_count,
            acknack_rate_stat: self.acknack_rate_stat@,
            readers: self.readers@.dom(),
            writers: self.writers@.dom(),
        }
    }
}

impl Inv for TopicState {
    open spec fn inv(&self) -> bool {
        &&& self.readers.wf()
        &&& self.writers.wf()
        &&& self.msg_rate_stat.wf()
        &&& self.bit_rate_stat.wf()
        &&& self.acknack_rate_stat.wf()
    }
}

/// The state of a topic that nothing has been heard of.
pub open spec fn default_topic(window: i64) -> TopicView {
    TopicView {
        total_msg_count: 0,
        total_byte_count: 0,
        msg_rate_stat: empty_stat(window),
        bit_rate_stat: empty_stat(window),
        total_acknack_count: 0,
        acknack_rate_stat: empty_stat(window),
        readers: Set::empty(),
        writers: Set::empty(),
    }
}

impl TopicState {
    /// A topic that nothing has been heard of.
    pub fn new(window: i64) -> (r: Self)
        requires
            window > 0,
        ensures
            r.inv(),
            r@ == default_topic(window),
    {
        let r = TopicState {
            total_msg_count: 0,
            total_byte_count: 0,
            msg_rate_stat: TimedStat::new(window),
            bit_rate_stat: TimedStat::new(window),
            total_acknack_count: 0,
            acknack_rate_stat: TimedStat::new(window),
            readers: VecMap::new(),
            writers: VecMap::new(),
        };
        assert(r@.readers =~= Set::empty());
        assert(r@.writers =~= Set::empty());
        r
    }
}

/// The global state.
#[derive(Debug)]
pub struct State {
    /// The monotonic time of the latest tick, in nanoseconds.
    pub tick_since: u64,
    pub participants: VecMap<GuidPrefix, ParticipantState>,
    pub topics: VecMap<String, TopicState>,
    pub abnormalities: Vec<Abnormality>,
    pub stat: Statistics,
    /// The window of every rate statistic, in nanoseconds.
    pub window: i64,
}

pub struct StateView {
    pub tick_since: u64,
    pub participants: Map<Seq<u8>, ParticipantView>,
    pub topics: Map<Seq<char>, TopicView>,
    pub abnormalities: Seq<AbnormalityView>,
    pub stat: Statistics,
    pub window: i64,
}

impl View for State {
    type V = StateView;

    open spec fn view(&self) -> StateView {
        StateView {
            tick_since: self.tick_since,
            participants: self.participants@,
            topics: self.topics@,
            abnormalities: abnormalities_view(self.abnormalities@),
            stat: self.stat,
            window: self.window,
        }
    }
}

/// Every topic that a discovered writer or reader names is tracked, and
/// lists that endpoint among its writers or readers.
pub open spec fn topics_known(s: StateView) -> bool {
    &&& forall|p: Seq<u8>, e: (Seq<u8>, u8)|
        #![trigger s.participants[p].writers[e]]
        s.participants.contains_key(p) && s.participants[p].writers.contains_key(e)
            && s.participants[p].writers[e].data is Some
            ==> s.topics.contains_key(s.participants[p].writers[e].data->0.topic_name)
                && s.topics[s.participants[p].writers[e].data->0.topic_name].writers.contains((p, e))
    &&& forall|p: Seq<u8>, e: (Seq<u8>, u8)|
        #![trigger s.participants[p].readers[e]]
        s.participants.contains_key(p) && s.participants[p].readers.contains_key(e)
            && s.participants[p].readers[e].data is Some
            ==> s.topics.contains_key(s.participants[p].readers[e].data->0.topic_name)
                && s.topics[s.participants[p].readers[e].data->0.topic_name].readers.contains((p, e))
}

impl State {
    /// The state is well formed: maps are valid, the window is positive and
    /// every discovered topic is tracked.
    pub open spec fn wf(&self) -> bool {
        &&& self.participants.wf()
        &&& self.topics.wf()
        &&& self.window > 0
        &&& topics_known(self@)
    }

    /// An empty state whose rate statistics use a window of `window`
    /// nanoseconds; `now` is the monotonic time in nanoseconds.
    pub fn new(window: i64, now: u64) -> (r: Self)
        requires
            window > 0,
        ensures
            r.wf(),
            r@.tick_since == now,
            r@.participants == Map::<Seq<u8>, ParticipantView>::empty(),
            r@.topics == Map::<Seq<char>, TopicView>::empty(),
            r@.abnormalities == Seq::<AbnormalityView>::empty(),
            r@.stat == Statistics::spec_zero(),
            r@.window == window,
    {
        let r = State {
            tick_since: now,
            participants: VecMap::new(),
            topics: VecMap::new(),
            abnormalities: Vec::new(),
            stat: Statistics::new(),
            window,
        };
        assert(r@.abnormalities =~= Seq::<AbnormalityView>::empty());
        r
    }
}

} // verus!
