use ddshark::guid::{EntityId, Guid, GuidPrefix};
use ddshark::message::{DataEvent, DataFragEvent, DataPayload, GapEvent, HeartbeatEvent, WriterDiscovery};
use ddshark::state::State;
use ddshark::updater::{
    handle_data_event, handle_data_frag_event, handle_gap_event, handle_heartbeat_event,
};

const WINDOW: i64 = 1_000_000_000;

fn prefix(b: u8) -> GuidPrefix {
    GuidPrefix { bytes: [b; 12] }
}

fn writer_guid() -> Guid {
    Guid::new(prefix(7), EntityId { entity_key: [0, 0, 1], entity_kind: 0x02 })
}

fn frag_event(sn: i64, start: u32, count: u16, data_size: u32, fragment_size: u16) -> DataFragEvent {
    DataFragEvent {
        writer_guid: writer_guid(),
        writer_sn: sn,
        fragment_starting_num: start,
        fragments_in_submessage: count,
        data_size,
        fragment_size,
        payload_size: (count as usize) * (fragment_size as usize),
        payload_hash: 42,
    }
}

#[test]
fn heartbeat_creates_writer_and_keeps_first_sn() {
    let mut state = State::new(WINDOW, 0);
    let ev = HeartbeatEvent { writer_guid: writer_guid(), first_sn: 3, last_sn: 9, count: 1 };
    handle_heartbeat_event(&mut state, &ev, 100);
    let p = state.participants.get(&prefix(7)).unwrap();
    let w = p.writers.get(&writer_guid().entity_id).unwrap();
    let hb = w.heartbeat.unwrap();
    assert_eq!(hb.first_sn, 3);
    assert_eq!(hb.last_sn, 3);
    assert_eq!(hb.count, 1);
    assert_eq!(hb.since, 100);
    assert_eq!(state.stat.packet_count, 1);
    assert_eq!(state.stat.heartbeat_submsg_count, 1);
}

#[test]
fn newer_heartbeat_replaces_older_and_stale_one_is_ignored() {
    let mut state = State::new(WINDOW, 0);
    let g = writer_guid();
    handle_heartbeat_event(&mut state, &HeartbeatEvent { writer_guid: g, first_sn: 1, last_sn: 1, count: 1 }, 10);
    handle_heartbeat_event(&mut state, &HeartbeatEvent { writer_guid: g, first_sn: 2, last_sn: 5, count: 2 }, 20);
    handle_heartbeat_event(&mut state, &HeartbeatEvent { writer_guid: g, first_sn: 0, last_sn: 0, count: 2 }, 30);
    let w = state.participants.get(&prefix(7)).unwrap().writers.get(&g.entity_id).unwrap();
    let hb = w.heartbeat.unwrap();
    assert_eq!((hb.first_sn, hb.last_sn, hb.count, hb.since), (2, 5, 2, 20));
}

#[test]
fn gap_counts_only_the_packet() {
    let mut state = State::new(WINDOW, 0);
    let ev = GapEvent { writer_guid: writer_guid(), reader_guid: writer_guid(), gap_start: 1, gap_list: vec![] };
    handle_gap_event(&mut state, &ev);
    assert_eq!(state.stat.packet_count, 1);
    assert_eq!(state.stat.data_submsg_count, 0);
    assert!(state.participants.is_empty());
}

#[test]
fn writer_discovery_registers_topic_and_counts_data() {
    let mut state = State::new(WINDOW, 0);
    let announced = Guid::new(prefix(7), EntityId { entity_key: [0, 0, 9], entity_kind: 0x02 });
    let ev = DataEvent {
        writer_guid: writer_guid(),
        writer_sn: 1,
        payload_size: 100,
        payload: Some(DataPayload::Writer(WriterDiscovery {
            remote_writer_guid: announced,
            topic_name: "chatter".to_string(),
            data_type: "std_msgs::String".to_string(),
        })),
    };
    handle_data_event(&mut state, 5, &ev, 1_000);
    let topic = state.topics.get(&"chatter".to_string()).unwrap();
    assert!(topic.writers.get(&announced).is_some());
    let p = state.participants.get(&prefix(7)).unwrap();
    let w = p.writers.get(&announced.entity_id).unwrap();
    assert_eq!(w.topic_name().map(|s| s.as_str()), Some("chatter"));
    assert_eq!(w.data_type().map(|s| s.as_str()), Some("std_msgs::String"));
    let sender = p.writers.get(&writer_guid().entity_id).unwrap();
    assert_eq!(sender.last_sn, Some(1));
    assert_eq!(sender.total_msg_count, 1);
    assert_eq!(sender.total_byte_count, 100);
    assert_eq!(p.total_msg_count, 1);
    assert_eq!(state.stat.data_submsg_count, 1);
    assert!(state.abnormalities.is_empty());
}

#[test]
fn topic_change_is_reported() {
    let mut state = State::new(WINDOW, 0);
    let announced = Guid::new(prefix(7), EntityId { entity_key: [0, 0, 9], entity_kind: 0x02 });
    for (i, name) in ["a", "b"].iter().enumerate() {
        let ev = DataEvent {
            writer_guid: writer_guid(),
            writer_sn: i as i64 + 1,
            payload_size: 10,
            payload: Some(DataPayload::Writer(WriterDiscovery {
                remote_writer_guid: announced,
                topic_name: name.to_string(),
                data_type: "T".to_string(),
            })),
        };
        handle_data_event(&mut state, 5, &ev, 77);
    }
    assert_eq!(state.abnormalities.len(), 1);
    assert_eq!(state.abnormalities[0].desc, "topic name changed in DiscoveredWriterData");
    assert_eq!(state.abnormalities[0].when, 77);
}

#[test]
fn fragments_complete_a_message() {
    let mut state = State::new(WINDOW, 0);
    handle_data_frag_event(&mut state, 1, &frag_event(4, 1, 2, 300, 100), 0);
    {
        let w = state.participants.get(&prefix(7)).unwrap().writers.get(&writer_guid().entity_id).unwrap();
        let fm = w.frag_messages.get(&4).unwrap();
        assert_eq!(fm.num_fragments, 3);
        assert_eq!(fm.recvd_fragments, 2);
        assert_eq!(w.total_msg_count, 0);
    }
    handle_data_frag_event(&mut state, 2, &frag_event(4, 3, 1, 300, 100), 0);
    let w = state.participants.get(&prefix(7)).unwrap().writers.get(&writer_guid().entity_id).unwrap();
    assert!(w.frag_messages.get(&4).is_none());
    assert_eq!(w.total_msg_count, 1);
    // The bytes counted are those of the fragment that completed the message.
    assert_eq!(w.total_byte_count, 100);
    assert_eq!(w.last_sn, Some(4));
    assert_eq!(state.stat.datafrag_submsg_count, 2);
    assert!(state.abnormalities.is_empty());
}

#[test]
fn fragment_with_another_data_size_is_reported() {
    let mut state = State::new(WINDOW, 0);
    handle_data_frag_event(&mut state, 1, &frag_event(4, 1, 1, 300, 100), 0);
    handle_data_frag_event(&mut state, 2, &frag_event(4, 2, 1, 500, 100), 9);
    assert_eq!(state.abnormalities.len(), 1);
    assert_eq!(state.abnormalities[0].desc, "data_size changes from 300 to 500 in DataFrag submsg");
    assert_eq!(state.abnormalities[0].when, 9);
    assert_eq!(state.abnormalities[0].writer_guid.map(|g| g.prefix.bytes), Some([7; 12]));
}

#[test]
fn overlapping_fragment_is_reported() {
    let mut state = State::new(WINDOW, 0);
    handle_data_frag_event(&mut state, 1, &frag_event(4, 1, 2, 400, 100), 0);
    handle_data_frag_event(&mut state, 2, &frag_event(4, 2, 2, 400, 100), 3);
    assert_eq!(state.abnormalities.len(), 1);
    assert_eq!(state.abnormalities[0].desc, "unable to insert fragment 1..3 into defrag buffer");
}

#[test]
fn repeated_fragment_is_not_counted_twice() {
    let mut state = State::new(WINDOW, 0);
    handle_data_frag_event(&mut state, 1, &frag_event(4, 1, 1, 300, 100), 0);
    handle_data_frag_event(&mut state, 2, &frag_event(4, 1, 1, 300, 100), 0);
    let w = state.participants.get(&prefix(7)).unwrap().writers.get(&writer_guid().entity_id).unwrap();
    assert_eq!(w.frag_messages.get(&4).unwrap().recvd_fragments, 1);
    assert!(state.abnormalities.is_empty());
}
