use ddshark::discovery::{decode_participant_data, decode_topic_data, decode_writer_data};
use ddshark::message::{DataPayload, RtpsSubmsgEventKind, UpdateEvent};
use ddshark::rtps::{parse_rtps_message, starts_with_rtps, SerializedData, Submessage};
use ddshark::watcher::{message_acceptable, message_events};
use ddshark::wire::{read_sn, read_u16, read_u32};

const PREFIX: [u8; 12] = [1, 2, 3, 4, 5, 6, 7, 8, 9, 10, 11, 12];

fn header() -> Vec<u8> {
    let mut b = b"RTPS".to_vec();
    b.extend_from_slice(&[2, 3, 1, 15]);
    b.extend_from_slice(&PREFIX);
    b
}

fn submessage(id: u8, flags: u8, body: &[u8]) -> Vec<u8> {
    let mut b = vec![id, flags];
    b.extend_from_slice(&(body.len() as u16).to_le_bytes());
    b.extend_from_slice(body);
    b
}

fn sn(v: i64) -> Vec<u8> {
    let mut b = ((v >> 32) as i32).to_le_bytes().to_vec();
    b.extend_from_slice(&(v as u32).to_le_bytes());
    b
}

fn heartbeat_body(writer: [u8; 4], first: i64, last: i64, count: i32) -> Vec<u8> {
    let mut b = vec![0, 0, 0, 0];
    b.extend_from_slice(&writer);
    b.extend(sn(first));
    b.extend(sn(last));
    b.extend_from_slice(&count.to_le_bytes());
    b
}

fn param(pid: u16, value: &[u8]) -> Vec<u8> {
    let mut v = value.to_vec();
    while v.len() % 4 != 0 {
        v.push(0);
    }
    let mut b = pid.to_le_bytes().to_vec();
    b.extend_from_slice(&(v.len() as u16).to_le_bytes());
    b.extend(v);
    b
}

fn cdr_string(s: &str) -> Vec<u8> {
    let mut b = ((s.len() + 1) as u32).to_le_bytes().to_vec();
    b.extend_from_slice(s.as_bytes());
    b.push(0);
    b
}

fn sentinel() -> Vec<u8> {
    vec![1, 0, 0, 0]
}

fn publication_params(guid: &[u8; 16], topic: &str, ty: &str) -> Vec<u8> {
    let mut b = param(0x5a, guid);
    b.extend(param(0x05, &cdr_string(topic)));
    b.extend(param(0x07, &cdr_string(ty)));
    b.extend(sentinel());
    b
}

fn data_body(writer: [u8; 4], writer_sn: i64, rep: [u8; 2], params: &[u8]) -> Vec<u8> {
    let mut b = vec![0, 0, 16, 0, 0, 0, 0, 0];
    b.extend_from_slice(&writer);
    b.extend(sn(writer_sn));
    b.extend_from_slice(&[rep[0], rep[1], 0, 0]);
    b.extend_from_slice(params);
    b
}

fn endpoint_guid() -> [u8; 16] {
    let mut g = [0u8; 16];
    g[..12].copy_from_slice(&PREFIX);
    g[12..].copy_from_slice(&[0, 0, 7, 0x02]);
    g
}

#[test]
fn wire_readers_follow_endianness() {
    let b = [0x12, 0x34, 0x56, 0x78];
    assert_eq!(read_u16(&b, 0, true), 0x3412);
    assert_eq!(read_u16(&b, 0, false), 0x1234);
    assert_eq!(read_u32(&b, 0, true), 0x7856_3412);
    assert_eq!(read_u32(&b, 0, false), 0x1234_5678);
    let s = sn(0x1_0000_0005);
    assert_eq!(read_sn(&s, 0, true), 0x1_0000_0005);
}

#[test]
fn rejects_bytes_without_rtps_magic() {
    assert!(!starts_with_rtps(b"RTPX"));
    assert!(starts_with_rtps(b"RTPS"));
    let mut b = header();
    b[0] = b'X';
    assert!(parse_rtps_message(&b).is_none());
    assert!(parse_rtps_message(&header()[..19]).is_none());
}

#[test]
fn parses_a_heartbeat() {
    let mut b = header();
    b.extend(submessage(0x07, 0x01, &heartbeat_body([0, 0, 1, 0x02], 1, 5, 3)));
    let m = parse_rtps_message(&b).unwrap();
    assert_eq!(m.guid_prefix.bytes, PREFIX);
    assert_eq!(m.protocol_version, [2, 3]);
    assert_eq!(m.vendor_id, [1, 15]);
    assert_eq!(m.submessages.len(), 1);
    match &m.submessages[0] {
        Submessage::Heartbeat { writer_id, first_sn, last_sn, count, .. } => {
            assert_eq!(writer_id.entity_key, [0, 0, 1]);
            assert_eq!(writer_id.entity_kind, 0x02);
            assert_eq!((*first_sn, *last_sn, *count), (1, 5, 3));
        }
        other => panic!("unexpected submessage {:?}", other),
    }
}

#[test]
fn truncated_submessage_is_refused_and_pad_is_skipped() {
    let mut b = header();
    b.extend(submessage(0x01, 0x01, &[0, 0, 0, 0]));
    assert_eq!(parse_rtps_message(&b).unwrap().submessages.len(), 0);
    let mut short = header();
    short.extend(submessage(0x07, 0x01, &[0; 12]));
    assert!(parse_rtps_message(&short).is_none());
}

#[test]
fn decodes_publication_data() {
    let params = publication_params(&endpoint_guid(), "chatter", "std_msgs::String");
    let p = SerializedData { representation: [0, 3], value: params.clone() };
    let w = decode_writer_data(&p).unwrap();
    assert_eq!(w.topic_name, "chatter");
    assert_eq!(w.data_type, "std_msgs::String");
    assert_eq!(w.remote_writer_guid.prefix.bytes, PREFIX);
    assert_eq!(w.remote_writer_guid.entity_id.entity_key, [0, 0, 7]);
    let t = decode_topic_data(&p).unwrap();
    assert_eq!(t.topic_name, "chatter");
    // Not PL_CDR.
    assert!(decode_writer_data(&SerializedData { representation: [0, 1], value: params }).is_none());
}

#[test]
fn publication_without_sentinel_or_topic_is_refused() {
    let mut params = param(0x5a, &endpoint_guid());
    params.extend(param(0x07, &cdr_string("T")));
    let mut no_sentinel = params.clone();
    params.extend(sentinel());
    assert!(decode_writer_data(&SerializedData { representation: [0, 3], value: params }).is_none());
    no_sentinel.extend(param(0x05, &cdr_string("t")));
    assert!(decode_writer_data(&SerializedData { representation: [0, 3], value: no_sentinel }).is_none());
}

#[test]
fn decodes_participant_data() {
    let mut g = [0u8; 16];
    g[..12].copy_from_slice(&PREFIX);
    g[12..].copy_from_slice(&[0, 0, 1, 0xc1]);
    let mut params = param(0x50, &g);
    params.extend(sentinel());
    let d = decode_participant_data(&SerializedData { representation: [0, 3], value: params }).unwrap();
    assert_eq!(d.guid_prefix.bytes, PREFIX);
}

#[test]
fn message_events_carry_sender_and_discovery() {
    let params = publication_params(&endpoint_guid(), "chatter", "T");
    let mut b = header();
    b.extend(submessage(0x09, 0x01, &[10, 0, 0, 0, 0, 0, 0, 0]));
    b.extend(submessage(0x15, 0x05, &data_body([0, 0, 3, 0xc2], 2, [0, 3], &params)));
    let m = parse_rtps_message(&b).unwrap();
    assert_eq!(m.submessages.len(), 2);
    assert!(message_acceptable(&m, [10, 0, 0, 1]));
    let evs = message_events(&m, [10, 0, 0, 1], 1234);
    assert_eq!(evs.len(), 2);
    match &evs[0] {
        UpdateEvent::ParticipantInfo(info) => {
            assert_eq!(info.guid_prefix.bytes, PREFIX);
            assert_eq!(info.recv_time, 1234);
            assert_eq!(info.unicast_locator_list.len(), 1);
        }
        other => panic!("unexpected event {:?}", other),
    }
    match &evs[1] {
        UpdateEvent::RtpsSubmsg(ev) => {
            assert_eq!(ev.recv_time, 1234);
            assert_eq!(ev.rtps_time, Some((10, 0)));
            match &ev.kind {
                RtpsSubmsgEventKind::Data(d) => {
                    assert_eq!(d.writer_guid.prefix.bytes, PREFIX);
                    assert_eq!(d.writer_sn, 2);
                    assert_eq!(d.payload_size, params.len());
                    match &d.payload {
                        Some(DataPayload::Writer(w)) => assert_eq!(w.topic_name, "chatter"),
                        other => panic!("unexpected payload {:?}", other),
                    }
                }
                other => panic!("unexpected kind {:?}", other),
            }
        }
        other => panic!("unexpected event {:?}", other),
    }
}

#[test]
fn acknack_without_destination_is_not_acceptable() {
    let mut body = vec![0, 0, 0, 4, 0, 0, 1, 0x02];
    body.extend(sn(1));
    body.extend_from_slice(&0u32.to_le_bytes());
    body.extend_from_slice(&1i32.to_le_bytes());
    let mut b = header();
    b.extend(submessage(0x06, 0x01, &body));
    let m = parse_rtps_message(&b).unwrap();
    assert_eq!(m.submessages.len(), 1);
    assert!(!message_acceptable(&m, [10, 0, 0, 1]));
}

#[test]
fn unknown_sender_is_not_acceptable() {
    let mut b = b"RTPS".to_vec();
    b.extend_from_slice(&[2, 3, 1, 15]);
    b.extend_from_slice(&[0; 12]);
    let m = parse_rtps_message(&b).unwrap();
    assert!(!message_acceptable(&m, [10, 0, 0, 1]));
}

fn data_frag_body(writer_sn: i64, start: u32, payload: &[u8]) -> Vec<u8> {
    let mut b = vec![0, 0, 28, 0, 0, 0, 0, 0, 0, 0, 1, 0x02];
    b.extend(sn(writer_sn));
    b.extend_from_slice(&start.to_le_bytes());
    b.extend_from_slice(&1u16.to_le_bytes());
    b.extend_from_slice(&(payload.len() as u16).to_le_bytes());
    b.extend_from_slice(&(3 * payload.len() as u32).to_le_bytes());
    b.extend_from_slice(payload);
    b
}

fn frag_hashes(payloads: &[&[u8]]) -> Vec<(u32, usize, u64)> {
    let mut b = header();
    for (i, p) in payloads.iter().enumerate() {
        b.extend(submessage(0x16, 0x01, &data_frag_body(7, i as u32 + 1, p)));
    }
    let m = parse_rtps_message(&b).unwrap();
    assert!(message_acceptable(&m, [10, 0, 0, 1]));
    message_events(&m, [10, 0, 0, 1], 0)
        .into_iter()
        .filter_map(|e| match e {
            UpdateEvent::RtpsSubmsg(ev) => match ev.kind {
                RtpsSubmsgEventKind::DataFrag(f) => Some((f.fragment_starting_num, f.payload_size, f.payload_hash)),
                _ => None,
            },
            _ => None,
        })
        .collect()
}

#[test]
fn data_frag_payloads_are_fingerprinted() {
    let h = frag_hashes(&[b"abcd", b"abcd", b"abce"]);
    assert_eq!(h.len(), 3);
    assert_eq!((h[0].0, h[0].1), (1, 4));
    assert_eq!(h[0].2, h[1].2);
    assert_ne!(h[0].2, h[2].2);
}
