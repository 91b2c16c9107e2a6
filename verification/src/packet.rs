//! From a captured Ethernet frame to the RTPS message it carries: the
//! frame's IPv4 and UDP headers are read, fragmented datagrams are
//! reassembled, and a UDP payload that starts with "RTPS" is parsed.

use vstd::prelude::*;
use crate::reassembly::{
    FragmentHeader, MAX_IPV4_PAYLOAD, PacketDecoder, ReassemblyModel, process_spec,
};
use crate::rtps::{MessageView, RtpsMessage, parse_message, parse_rtps_message};
use crate::wire::bytes_between;

verus! {

/// What the link, network and transport headers of a frame say, as far as
/// the monitor reads them.
pub struct Frame {
    /// The IPv4 header, when the frame carries IPv4.
    pub ipv4: Option<FragmentHeader>,
    /// The UDP source and destination ports, when a UDP header was read.
    pub udp_ports: Option<(u16, u16)>,
    /// The payload of the last header read.
    pub payload: Vec<u8>,
}

/// The content of a [`Frame`].
pub struct FrameView {
    pub ipv4: Option<FragmentHeader>,
    pub udp_ports: Option<(u16, u16)>,
    pub payload: Seq<u8>,
}

/// The content of an optional frame.
pub open spec fn frame_view(f: Option<Frame>) -> Option<FrameView> {
    match f {
        Some(x) => Some(FrameView { ipv4: x.ipv4, udp_ports: x.udp_ports, payload: x.payload@ }),
        None => None,
    }
}

/// The headers that `etherparse` reads from an Ethernet frame.
pub uninterp spec fn ethernet_parse(frame: Seq<u8>) -> Option<FrameView>;

/// `etherparse::PacketHeaders::from_ethernet_slice`: the frame's IPv4
/// header, UDP ports and payload, or nothing when the headers do not parse.
/// An IPv4 payload is cut to the datagram's total length, which is a 16-bit
/// field.
#[verifier::external_body]
fn parse_ethernet(frame: &[u8]) -> (r: Option<Frame>)
    ensures
        frame_view(r) == ethernet_parse(frame@),
        r matches Some(f) ==> (f.ipv4 is Some ==> f.payload@.len() <= MAX_IPV4_PAYLOAD),
{
    let h = etherparse::PacketHeaders::from_ethernet_slice(frame).ok()?;
    let ipv4 = match &h.net {
        Some(etherparse::NetHeaders::Ipv4(ip, _)) => Some(FragmentHeader {
            source: ip.source,
            destination: ip.destination,
            identification: ip.identification,
            fragment_offset: ip.fragment_offset.value(),
            more_fragments: ip.more_fragments,
        }),
        _ => None,
    };
    let udp_ports = match &h.transport {
        Some(etherparse::TransportHeader::Udp(u)) => Some((u.source_port, u.destination_port)),
        _ => None };
    Some(Frame { ipv4, udp_ports, payload: h.payload.slice().to_vec() })
}

/// How a frame was dissected.
pub enum Dissection {
    /// Not an IPv4 datagram, or not UDP.
    NotSupported,
    /// A fragment of a datagram that is not complete yet.
    Ipv4Fragment,
    /// A UDP datagram (reassembled, if it came in fragments) and its
    /// payload.
    UdpPacket { ipv4: FragmentHeader, payload: Vec<u8> },
}

/// The content of a [`Dissection`].
pub enum DissectionView {
    NotSupported,
    Ipv4Fragment,
    UdpPacket { ipv4: FragmentHeader, payload: Seq<u8> },
}

impl View for Dissection {
    type V = DissectionView;

    open spec fn view(&self) -> DissectionView {
        match self {
            Dissection::NotSupported => DissectionView::NotSupported,
            Dissection::Ipv4Fragment => DissectionView::Ipv4Fragment,
            Dissection::UdpPacket { ipv4, payload } => DissectionView::UdpPacket { ipv4: *ipv4, payload: payload@ },
        }
    }
}

/// The datagram is a fragment: more follow, or it does not start at zero.
pub open spec fn is_fragment(h: FragmentHeader) -> bool {
    h.more_fragments || h.fragment_offset != 0
}

/// The length of a UDP header.
pub const UDP_HEADER_LEN: usize = 8;

/// A frame dissected with reassemblies `s` in progress at time `now`, and
/// the reassemblies after it. A fragment goes to reassembly; a reassembled
/// datagram's UDP header is skipped (it must be complete); an unfragmented
/// datagram must have had its UDP header read.
pub open spec fn dissect_spec(s: Seq<ReassemblyModel>, frame: Seq<u8>, now: u64) -> (DissectionView, Seq<ReassemblyModel>) {
    match ethernet_parse(frame) {
        None => (DissectionView::NotSupported, s),
        Some(f) => match f.ipv4 {
            None => (DissectionView::NotSupported, s),
            Some(h) => if is_fragment(h) {
                let (done, s2) = process_spec(s, h, f.payload, now);
                match done {
                    None => (DissectionView::Ipv4Fragment, s2),
                    Some(d) => if d.len() < UDP_HEADER_LEN {
                        (DissectionView::NotSupported, s2)
                    } else {
                        (DissectionView::UdpPacket { ipv4: h, payload: d.subrange(UDP_HEADER_LEN as int, d.len() as int) }, s2)
                    },
                }
            } else {
                match f.udp_ports {
                    None => (DissectionView::NotSupported, s),
                    Some(_) => (DissectionView::UdpPacket { ipv4: h, payload: f.payload }, s),
                }
            },
        },
    }
}

/// The RTPS message that a frame carries, with the IPv4 header of the
/// datagram it came in: the datagram's UDP payload parses as an RTPS
/// message.
pub open spec fn decode_spec(s: Seq<ReassemblyModel>, frame: Seq<u8>, now: u64)
    -> (Option<(FragmentHeader, MessageView)>, Seq<ReassemblyModel>)
{
    let (d, s2) = dissect_spec(s, frame, now);
    match d {
        DissectionView::UdpPacket { ipv4, payload } => match parse_message(payload) {
            Some(m) => (Some((ipv4, m)), s2),
            None => (None, s2),
        },
        _ => (None, s2),
    }
}

/// What the capture recorded of a packet besides its bytes: the capture
/// time in nanoseconds since the Unix epoch, the number of bytes captured,
/// and the length of the packet on the wire.
#[derive(Clone, Copy)]
pub struct CaptureHeader {
    pub ts: i64,
    pub caplen: u32,
    pub len: u32,
}

/// An RTPS message found in a frame, with the IPv4 header of the datagram
/// that carried it and the capture time of the frame.
pub struct RtpsPacket {
    pub ipv4: FragmentHeader,
    pub ts: i64,
    pub message: RtpsMessage,
}

/// A captured frame that carries no RTPS message: its capture time and
/// lengths.
pub struct OtherPacket {
    pub ts: i64,
    pub caplen: u32,
    pub len: u32,
}

/// What a captured frame turned out to be.
pub enum PacketKind {
    Rtps(RtpsPacket),
    Other(OtherPacket),
}

/// The content of a [`PacketKind`].
pub enum PacketKindView {
    Rtps { ipv4: FragmentHeader, ts: i64, message: MessageView },
    Other { ts: i64, caplen: u32, len: u32 },
}

impl View for PacketKind {
    type V = PacketKindView;

    open spec fn view(&self) -> PacketKindView {
        match self {
            PacketKind::Rtps(p) => PacketKindView::Rtps { ipv4: p.ipv4, ts: p.ts, message: p.message@ },
            PacketKind::Other(p) => PacketKindView::Other { ts: p.ts, caplen: p.caplen, len: p.len },
        }
    }
}

/// The capture time of a packet.
pub open spec fn kind_ts(k: PacketKindView) -> i64 {
    match k {
        PacketKindView::Rtps { ts, .. } => ts,
        PacketKindView::Other { ts, .. } => ts,
    }
}

impl PacketKind {
    /// The capture time of the packet.
    pub fn ts(&self) -> (r: i64)
        ensures
            r == kind_ts(self@),
    {
        match self {
            PacketKind::Rtps(p) => p.ts,
            PacketKind::Other(p) => p.ts,
        }
    }
}

/// A captured frame with capture record `hdr`, decoded with reassemblies
/// `s` in progress at time `now`, and the reassemblies after it: the RTPS
/// message it carries, or else the frame's capture time and lengths.
pub open spec fn decode_kind_spec(s: Seq<ReassemblyModel>, hdr: CaptureHeader, frame: Seq<u8>, now: u64)
    -> (PacketKindView, Seq<ReassemblyModel>)
{
    let (p, s2) = decode_spec(s, frame, now);
    match p {
        Some((ipv4, m)) => (PacketKindView::Rtps { ipv4, ts: hdr.ts, message: m }, s2),
        None => (PacketKindView::Other { ts: hdr.ts, caplen: hdr.caplen, len: hdr.len }, s2),
    }
}

impl PacketDecoder {
    /// Dissects one captured frame arriving at time `now` (nanoseconds).
    pub fn dissect_packet_at(&mut self, frame: &[u8], now: u64) -> (r: Dissection)
        requires
            old(self).wf(),
        ensures
            final(self).wf(),
            (r@, final(self).reassemblies()) == dissect_spec(old(self).reassemblies(), frame@, now),
    {
        let f = match parse_ethernet(frame) {
            Some(f) => f,
            None => return Dissection::NotSupported,
        };
        let h = match f.ipv4 {
            Some(h) => h,
            None => return Dissection::NotSupported,
        };
        if h.more_fragments || h.fragment_offset != 0 {
            match self.process_fragments_at(&h, f.payload.as_slice(), now) {
                None => Dissection::Ipv4Fragment,
                Some(d) => {
                    if d.len() < UDP_HEADER_LEN {
                        Dissection::NotSupported
                    } else {
                        let payload = bytes_between(d.as_slice(), UDP_HEADER_LEN, d.len());
                        Dissection::UdpPacket { ipv4: h, payload }
                    }
                },
            }
        } else {
            match f.udp_ports {
                None => Dissection::NotSupported,
                Some(_) => Dissection::UdpPacket { ipv4: h, payload: f.payload },
            }
        }
    }

    /// Decodes one captured frame, with capture record `hdr`, arriving at
    /// time `now` (nanoseconds).
    pub fn decode_at(&mut self, hdr: CaptureHeader, frame: &[u8], now: u64) -> (r: PacketKind)
        requires
            old(self).wf(),
        ensures
            final(self).wf(),
            (r@, final(self).reassemblies()) == decode_kind_spec(old(self).reassemblies(), hdr, frame@, now),
            kind_ts(r@) == hdr.ts,
    {
        let other = PacketKind::Other(OtherPacket { ts: hdr.ts, caplen: hdr.caplen, len: hdr.len });
        match self.dissect_packet_at(frame, now) {
            Dissection::UdpPacket { ipv4, payload } => match parse_rtps_message(payload.as_slice()) {
                Some(message) => PacketKind::Rtps(RtpsPacket { ipv4, ts: hdr.ts, message }),
                None => other,
            },
            _ => other,
        }
    }

    /// Decodes one captured frame with capture record `hdr`; the time of
    /// arrival is read from the clock.
    pub fn decode(&mut self, hdr: CaptureHeader, frame: &[u8]) -> (r: PacketKind)
        requires
            old(self).wf(),
        ensures
            final(self).wf(),
            exists|now: u64|
                (r@, final(self).reassemblies()) == decode_kind_spec(old(self).reassemblies(), hdr, frame@, now),
            kind_ts(r@) == hdr.ts,
    {
        let now = self.now_nanos();
        self.decode_at(hdr, frame, now)
    }
}

} // verus!
