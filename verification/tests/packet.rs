use ddshark::packet::{CaptureHeader, PacketKind, RtpsPacket};
use ddshark::reassembly::PacketDecoder;
use ddshark::rtps::Submessage;

fn hdr(ts: i64, frame: &[u8]) -> CaptureHeader {
    CaptureHeader { ts, caplen: frame.len() as u32, len: frame.len() as u32 + 4 }
}

fn rtps(k: PacketKind) -> RtpsPacket {
    match k {
        PacketKind::Rtps(p) => p,
        PacketKind::Other(_) => panic!("expected an RTPS packet"),
    }
}

/// The capture time and lengths of a frame that carries no RTPS message.
fn other(k: &PacketKind) -> Option<(i64, u32, u32)> {
    match k {
        PacketKind::Rtps(_) => None,
        PacketKind::Other(o) => Some((o.ts, o.caplen, o.len)),
    }
}

fn rtps_heartbeat() -> Vec<u8> {
    let mut b = b"RTPS".to_vec();
    b.extend_from_slice(&[2, 3, 1, 15]);
    b.extend_from_slice(&[9; 12]);
    b.extend_from_slice(&[0x07, 0x01, 28, 0]);
    b.extend_from_slice(&[0, 0, 0, 0, 0, 0, 1, 0x02]);
    b.extend_from_slice(&[0, 0, 0, 0, 1, 0, 0, 0]);
    b.extend_from_slice(&[0, 0, 0, 0, 4, 0, 0, 0]);
    b.extend_from_slice(&7i32.to_le_bytes());
    b
}

fn udp(payload: &[u8]) -> Vec<u8> {
    let mut b = 7400u16.to_be_bytes().to_vec();
    b.extend_from_slice(&7401u16.to_be_bytes());
    b.extend_from_slice(&((8 + payload.len()) as u16).to_be_bytes());
    b.extend_from_slice(&[0, 0]);
    b.extend_from_slice(payload);
    b
}

/// An Ethernet frame holding one IPv4 datagram (or fragment) of UDP.
fn frame(id: u16, offset_units: u16, more: bool, ip_payload: &[u8]) -> Vec<u8> {
    let mut b = vec![0xff; 6];
    b.extend_from_slice(&[2, 0, 0, 0, 0, 1]);
    b.extend_from_slice(&[0x08, 0x00]);
    b.extend_from_slice(&[0x45, 0]);
    b.extend_from_slice(&((20 + ip_payload.len()) as u16).to_be_bytes());
    b.extend_from_slice(&id.to_be_bytes());
    let flags_offset = offset_units | if more { 0x2000 } else { 0 };
    b.extend_from_slice(&flags_offset.to_be_bytes());
    b.extend_from_slice(&[64, 17, 0, 0]);
    b.extend_from_slice(&[10, 0, 0, 1]);
    b.extend_from_slice(&[239, 255, 0, 1]);
    b.extend_from_slice(ip_payload);
    b
}

#[test]
fn decodes_rtps_in_a_udp_frame() {
    let mut d = PacketDecoder::new();
    let f = frame(1, 0, false, &udp(&rtps_heartbeat()));
    let k = d.decode_at(hdr(1_500, &f), &f, 0);
    assert_eq!(k.ts(), 1_500);
    let p = rtps(k);
    assert_eq!(p.ts, 1_500);
    assert_eq!(p.ipv4.source, [10, 0, 0, 1]);
    assert_eq!(p.ipv4.destination, [239, 255, 0, 1]);
    assert_eq!(p.message.guid_prefix.bytes, [9; 12]);
    match &p.message.submessages[0] {
        Submessage::Heartbeat { first_sn, last_sn, count, .. } => assert_eq!((*first_sn, *last_sn, *count), (1, 4, 7)),
        other => panic!("unexpected submessage {:?}", other),
    }
}

#[test]
fn udp_payload_that_is_not_rtps_gives_an_other_packet() {
    let mut d = PacketDecoder::new();
    let f = frame(1, 0, false, &udp(b"hello, world, not rtps"));
    let n = f.len() as u32;
    assert_eq!(other(&d.decode_at(hdr(7, &f), &f, 0)), Some((7, n, n + 4)));
    let k = d.decode(hdr(-3, &f), &f);
    assert_eq!(k.ts(), -3);
    assert_eq!(other(&k), Some((-3, n, n + 4)));
    let short = [0u8; 10];
    assert_eq!(other(&d.decode_at(hdr(9, &short), &short, 0)), Some((9, 10, 14)));
}

#[test]
fn decodes_rtps_in_a_fragmented_datagram() {
    let mut d = PacketDecoder::new();
    let datagram = udp(&rtps_heartbeat());
    assert_eq!(datagram.len(), 60);
    let first = frame(5, 0, true, &datagram[..32]);
    let second = frame(5, 4, false, &datagram[32..]);
    let k = d.decode_at(hdr(10, &first), &first, 0);
    assert_eq!(other(&k), Some((10, first.len() as u32, first.len() as u32 + 4)));
    assert_eq!(d.partial_count(), 1);
    let p = rtps(d.decode_at(hdr(11, &second), &second, 1));
    assert_eq!(p.ts, 11);
    assert_eq!(p.message.guid_prefix.bytes, [9; 12]);
    assert_eq!(p.message.submessages.len(), 1);
    assert_eq!(d.partial_count(), 0);
}
