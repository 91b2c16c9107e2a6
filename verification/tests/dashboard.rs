use ddshark::dashboard::{Dashboard, Focus, Key, KeyOutcome, TAB_COUNT, TAB_IDX_METRICS, TAB_IDX_WRITER};
use ddshark::guid::{EntityId, Guid, GuidPrefix, Locator};
use ddshark::message::{
    DataEvent, DataPayload, HeartbeatEvent, ParticipantInfo, ReaderDiscovery, RtpsSubmsgEvent, RtpsSubmsgEventKind,
    UpdateEvent, WriterDiscovery,
};
use ddshark::dispatch::handle_message;
use ddshark::rows::{
    abnormality_rows, bytes_less, participant_rows, reader_rows, stat_rows, topic_rows, writer_rows,
};
use ddshark::state::{Abnormality, State};
use ddshark::table::{column_widths, header_label, header_labels, visible_cells, Sort, XTableState};

const WINDOW: i64 = 1_000_000_000;

fn submsg(kind: RtpsSubmsgEventKind) -> UpdateEvent {
    UpdateEvent::RtpsSubmsg(RtpsSubmsgEvent { recv_time: 10, rtps_time: None, kind })
}

fn guid(prefix: u8, key: u8, kind: u8) -> Guid {
    Guid::new(GuidPrefix { bytes: [prefix; 12] }, EntityId { entity_key: [0, 0, key], entity_kind: kind })
}

#[test]
fn quit_closes_help_before_exiting() {
    let mut d = Dashboard::new();
    assert_eq!(d.focus(), Focus::Dashboard);
    assert_eq!(d.process_key(Key::Char('h')), KeyOutcome::Continue);
    assert_eq!(d.focus(), Focus::Help);
    assert_eq!(d.process_key(Key::Char('q')), KeyOutcome::Continue);
    assert_eq!(d.focus(), Focus::Dashboard);
    assert_eq!(d.process_key(Key::Char('q')), KeyOutcome::Exit);
    assert_eq!(d.process_key(Key::Char('r')), KeyOutcome::ToggleLogging);
    assert_eq!(d.process_key(Key::Other), KeyOutcome::Continue);
}

#[test]
fn tabs_cycle_both_ways() {
    let mut d = Dashboard::new();
    assert_eq!(d.tab_index(), 0);
    d.process_key(Key::BackTab);
    assert_eq!(d.tab_index(), TAB_COUNT - 1);
    d.process_key(Key::Tab);
    d.process_key(Key::Tab);
    assert_eq!(d.tab_index(), TAB_IDX_WRITER);
    for _ in 0..TAB_COUNT {
        d.process_key(Key::Tab);
    }
    assert_eq!(d.tab_index(), TAB_IDX_WRITER);
}

#[test]
fn keys_move_the_table_on_screen_only() {
    let mut d = Dashboard::new();
    d.record_layout(0, 5, 10, 3, 0);
    d.record_layout(TAB_IDX_WRITER, 5, 10, 3, 0);
    d.process_key(Key::Down);
    d.process_key(Key::Down);
    assert_eq!(d.table(0).unwrap().selected(), Some(2));
    assert_eq!(d.table(TAB_IDX_WRITER).unwrap().selected(), Some(0));
    d.process_key(Key::End);
    assert_eq!(d.table(0).unwrap().selected(), Some(4));
    d.process_key(Key::Right);
    d.process_key(Key::Char('v'));
    assert!(!d.table(0).unwrap().is_shown(0));
    d.process_key(Key::Char('s'));
    let s = d.table(0).unwrap().sort().unwrap();
    assert_eq!((s.column_index, s.ascending), (0, true));
    assert!(d.table(TAB_IDX_METRICS).is_none());
    for _ in 0..TAB_IDX_METRICS {
        d.process_key(Key::Tab);
    }
    assert_eq!(d.process_key(Key::Down), KeyOutcome::Continue);
}

#[test]
fn byte_order() {
    assert!(bytes_less(b"ab", b"abc"));
    assert!(bytes_less(b"abc", b"abd"));
    assert!(!bytes_less(b"abc", b"abc"));
    assert!(!bytes_less(b"b", b"abc"));
    assert!(bytes_less(b"", b"a"));
}

#[test]
fn writer_rows_are_sorted_by_guid() {
    let mut state = State::new(WINDOW, 0);
    for g in [guid(9, 1, 0x02), guid(1, 7, 0x03), guid(1, 2, 0x02)] {
        let hb = HeartbeatEvent { writer_guid: g, first_sn: 1, last_sn: 3, count: 1 };
        handle_message(&mut state, &submsg(RtpsSubmsgEventKind::Heartbeat(hb)), 0, 0);
    }
    let announced = guid(1, 2, 0x02);
    let ev = DataEvent {
        writer_guid: guid(1, 7, 0x03),
        writer_sn: 4,
        payload_size: 8,
        payload: Some(DataPayload::Writer(WriterDiscovery {
            remote_writer_guid: announced,
            topic_name: "t".to_string(),
            data_type: "T".to_string(),
        })),
    };
    handle_message(&mut state, &submsg(RtpsSubmsgEventKind::Data(ev)), 0, 0);
    let rows = writer_rows(&state);
    let keys: Vec<(u8, u8)> = rows.iter().map(|r| (r.guid.prefix.bytes[0], r.guid.entity_id.entity_key[2])).collect();
    assert_eq!(keys, vec![(1, 2), (1, 7), (9, 1)]);
    assert_eq!(rows[0].topic_name.as_deref(), Some("t"));
    assert_eq!(rows[0].data_type.as_deref(), Some("T"));
    assert_eq!(rows[0].heartbeat_range, Some((1, 1)));
    assert_eq!(rows[1].last_sn, Some(4));
    assert_eq!(rows[1].message_count, 1);
    assert_eq!(rows[1].byte_count, 8);
    assert_eq!(rows[1].message_rate, (1, WINDOW));
    assert_eq!(rows[1].bit_rate, (64, WINDOW));
    assert_eq!(rows[1].fragmented_messages, None);
    assert!(rows[2].topic_name.is_none());
}

#[test]
fn reader_participant_and_topic_rows() {
    let mut state = State::new(WINDOW, 0);
    let reader = guid(5, 3, 0x07);
    let ev = DataEvent {
        writer_guid: guid(5, 4, 0xc2),
        writer_sn: 1,
        payload_size: 0,
        payload: Some(DataPayload::Reader(ReaderDiscovery {
            remote_reader_guid: reader,
            topic_name: "zeta".to_string(),
            data_type: "Z".to_string(),
        })),
    };
    handle_message(&mut state, &submsg(RtpsSubmsgEventKind::Data(ev)), 0, 0);
    let ev = DataEvent {
        writer_guid: guid(2, 4, 0xc2),
        writer_sn: 1,
        payload_size: 0,
        payload: Some(DataPayload::Writer(WriterDiscovery {
            remote_writer_guid: guid(2, 8, 0x02),
            topic_name: "alpha".to_string(),
            data_type: "A".to_string(),
        })),
    };
    handle_message(&mut state, &submsg(RtpsSubmsgEventKind::Data(ev)), 0, 0);
    let info = ParticipantInfo {
        recv_time: 0,
        guid_prefix: GuidPrefix { bytes: [5; 12] },
        unicast_locator_list: vec![
            Locator::UdpV4 { addr: [10, 0, 0, 1], port: 7410 },
            Locator::UdpV4 { addr: [10, 0, 0, 2], port: 7411 },
        ],
        multicast_locator_list: Some(vec![Locator::UdpV4 { addr: [239, 255, 0, 1], port: 7400 }]),
    };
    handle_message(&mut state, &UpdateEvent::ParticipantInfo(info), 0, 0);

    let readers = reader_rows(&state);
    assert_eq!(readers.len(), 1);
    assert_eq!(readers[0].guid.entity_id.entity_key, [0, 0, 3]);
    assert_eq!(readers[0].topic_name.as_deref(), Some("zeta"));
    assert_eq!(readers[0].missing_sn, None);

    let parts = participant_rows(&state);
    assert_eq!(parts.len(), 2);
    assert_eq!(parts[0].guid_prefix.bytes, [2; 12]);
    assert_eq!(parts[0].unicast_locators, "-");
    assert_eq!(parts[1].unicast_locators, "[udp/10.0.0.1:7410, udp/10.0.0.2:7411]");
    assert_eq!(parts[1].multicast_locators, "udp/239.255.0.1:7400");

    let topics = topic_rows(&state);
    let names: Vec<&str> = topics.iter().map(|t| t.name.as_str()).collect();
    assert_eq!(names, vec!["alpha", "zeta"]);
    assert_eq!((topics[0].readers, topics[0].writers), (0, 1));
    assert_eq!((topics[1].readers, topics[1].writers), (1, 0));
}

#[test]
fn stat_and_abnormality_rows() {
    let mut state = State::new(WINDOW, 0);
    let hb = HeartbeatEvent { writer_guid: guid(1, 1, 0x02), first_sn: 1, last_sn: 1, count: 1 };
    handle_message(&mut state, &submsg(RtpsSubmsgEventKind::Heartbeat(hb)), 0, 0);
    let rows = stat_rows(&state.stat);
    assert_eq!(rows.len(), 7);
    assert_eq!((rows[0].item.as_str(), rows[0].value.as_str()), ("packets", "1"));
    assert_eq!((rows[5].item.as_str(), rows[5].value.as_str()), ("heartbeat submsg", "1"));
    assert_eq!((rows[6].item.as_str(), rows[6].value.as_str()), ("heartbeat_frag submsg", "0"));

    for (when, desc) in [(5, "b"), (9, "c"), (1, "a"), (9, "d")] {
        state.abnormalities.push(Abnormality {
            when,
            writer_guid: None,
            reader_guid: None,
            topic_name: None,
            desc: desc.to_string(),
        });
    }
    let descs: Vec<String> = abnormality_rows(&state).into_iter().map(|a| a.desc).collect();
    assert_eq!(descs, vec!["c", "d", "b", "a"]);
}

#[test]
fn headers_and_widths() {
    let sort = Some(Sort { column_index: 1, ascending: false });
    assert_eq!(header_label("msgs", 1, true, sort), "msgs\u{2193}");
    assert_eq!(header_label("msgs", 0, true, sort), "msgs");
    assert_eq!(header_label("msgs", 1, false, sort), "m");
    assert_eq!(header_label("", 3, false, None), " ");
    let up = Some(Sort { column_index: 0, ascending: true });
    assert_eq!(header_label("sn", 0, true, up), "sn\u{2191}");

    let titles = vec!["GUID", "sn", "topic"];
    let header = header_labels(&titles, &vec![true, false], None);
    assert_eq!(header, vec!["GUID".to_string(), "s".to_string()]);

    let cells = vec!["a".to_string(), "bb".to_string(), "ccc".to_string()];
    assert_eq!(visible_cells(&cells, &vec![true, false, true]), vec!["a".to_string(), String::new(), "ccc".to_string()]);

    let rows = vec![
        vec!["abcdef".to_string(), "x".to_string()],
        vec!["ab".to_string(), "\u{e9}\u{e9}".to_string()],
    ];
    let header = vec!["id".to_string(), "v".to_string()];
    assert_eq!(column_widths(&rows, &header, &vec![true, true]), vec![6, 4]);
    assert_eq!(column_widths(&rows, &header, &vec![false, true]), vec![1, 4]);
    assert_eq!(column_widths(&vec![], &header, &vec![true, true]), vec![2, 1]);
}

#[test]
fn first_draw_records_layout() {
    let mut t = XTableState::new();
    t.update_layout(3, 2, 2);
    t.next_page();
    assert_eq!(t.selected(), Some(1));
    t.set_offset(1);
    assert_eq!(t.offset(), 1);
}
