use ddshark::digits::{num_base10_digits_i64, num_base10_digits_usize};
use ddshark::dispatch::{event_start_time, handle_message, is_event_acceptable, tick_at, UpdaterAction, UpdaterClock};
use ddshark::display::convert_to_colon_sep_hex;
use ddshark::guid::{EntityId, Guid, GuidPrefix};
use ddshark::latency::{nth_smallest, record_sample, LATENCY_SAMPLES_DROPPED, MAX_LATENCY_SAMPLES};
use ddshark::lockfree::LockFreeStatistics;
use ddshark::replay::replay_wait;
use ddshark::message::{
    DataFragEvent, GapEvent, HeartbeatEvent, ParticipantInfo, RtpsSubmsgEvent, RtpsSubmsgEventKind, TickEvent,
    UpdateEvent,
};
use ddshark::opts::{
    check_network_capture_capability, exits_at_end_of_capture, packet_source_from_opts, timeval_to_nanos, Opts,
    PacketSource, SourceError,
};
use ddshark::ring::{next_send_action, OverflowStrategy, SendAction, SendEvent};
use ddshark::state::{Abnormality, State};
use ddshark::state_cleanup::{trim_abnormality_list, StateCleanup, MAX_ABNORMALITIES};
use ddshark::table::XTableState;
use ddshark::timed_stat::TimedStat;

const WINDOW: i64 = 1_000_000_000;

fn opts(file: Option<&str>, interface: Option<&str>) -> Opts {
    Opts {
        refresh_rate: 4,
        buffer_size: 1024,
        file: file.map(|s| s.to_string()),
        interface: interface.map(|s| s.to_string()),
        otlp: false,
        otlp_endpoint: None,
        no_tui: false,
        log_on_start: false,
        metrics_log: false,
        metrics_log_file: "metrics.csv".to_string(),
        exit_on_eof: false,
    }
}

fn guid(b: u8) -> Guid {
    Guid::new(GuidPrefix { bytes: [b; 12] }, EntityId { entity_key: [0, 0, 1], entity_kind: 0x02 })
}

fn abnormality(when: i64) -> Abnormality {
    Abnormality { when, writer_guid: None, reader_guid: None, topic_name: None, desc: format!("a{}", when) }
}

#[test]
fn digit_counts() {
    assert_eq!(num_base10_digits_usize(0), 1);
    assert_eq!(num_base10_digits_usize(9), 1);
    assert_eq!(num_base10_digits_usize(10), 2);
    assert_eq!(num_base10_digits_usize(12345), 5);
    assert_eq!(num_base10_digits_i64(-5), 1);
    assert_eq!(num_base10_digits_i64(0), 1);
    assert_eq!(num_base10_digits_i64(1000), 4);
    assert_eq!(num_base10_digits_i64(i64::MAX), 19);
}

#[test]
fn packet_source_selection() {
    match packet_source_from_opts(&opts(Some("a.pcap"), None)) {
        Ok(PacketSource::File { path }) => assert_eq!(path, "a.pcap"),
        other => panic!("unexpected {:?}", other),
    }
    match packet_source_from_opts(&opts(None, Some("eth0"))) {
        Ok(PacketSource::Interface(i)) => assert_eq!(i, "eth0"),
        other => panic!("unexpected {:?}", other),
    }
    assert!(matches!(packet_source_from_opts(&opts(None, None)), Ok(PacketSource::Default)));
    let e = packet_source_from_opts(&opts(Some("a.pcap"), Some("eth0"))).unwrap_err();
    assert_eq!(e, SourceError::FileAndInterface);
    assert_eq!(e.message(), "--file and --interface cannot be specified simultaneously");
}

#[test]
fn end_of_capture_and_capability() {
    let mut o = opts(Some("a.pcap"), None);
    assert!(!exits_at_end_of_capture(&o));
    o.no_tui = true;
    assert!(exits_at_end_of_capture(&o));
    let mut o = opts(None, None);
    o.exit_on_eof = true;
    assert!(exits_at_end_of_capture(&o));
    assert!(check_network_capture_capability(0, 0o755));
    assert!(check_network_capture_capability(1000, 0o4755));
    assert!(!check_network_capture_capability(1000, 0o755));
}

#[test]
fn capture_time_in_nanoseconds() {
    assert_eq!(timeval_to_nanos(1, 500_000), 1_500_000_000);
    assert_eq!(timeval_to_nanos(0, 0), 0);
    assert_eq!(timeval_to_nanos(-1, 0), -1_000_000_000);
}

#[test]
fn ring_send_decisions() {
    assert_eq!(
        next_send_action(OverflowStrategy::DropNewest, SendEvent::Pushed),
        SendAction::Finish { delivered: true, count_drop: false }
    );
    assert_eq!(
        next_send_action(OverflowStrategy::DropNewest, SendEvent::Full { elapsed_nanos: 0 }),
        SendAction::Finish { delivered: false, count_drop: true }
    );
    assert_eq!(next_send_action(OverflowStrategy::DropOldest, SendEvent::Full { elapsed_nanos: 0 }), SendAction::PopOldest);
    assert_eq!(
        next_send_action(OverflowStrategy::DropOldest, SendEvent::Popped { removed: true }),
        SendAction::CountDropAndPush
    );
    assert_eq!(
        next_send_action(OverflowStrategy::DropOldest, SendEvent::Popped { removed: false }),
        SendAction::Finish { delivered: false, count_drop: false }
    );
    let block = OverflowStrategy::Block { timeout_nanos: 100 };
    assert_eq!(next_send_action(block, SendEvent::Full { elapsed_nanos: 100 }), SendAction::YieldAndPush);
    assert_eq!(
        next_send_action(block, SendEvent::Full { elapsed_nanos: 101 }),
        SendAction::Finish { delivered: false, count_drop: true }
    );
}

#[test]
fn table_navigation() {
    let mut t = XTableState::new();
    assert_eq!(t.selected(), Some(0));
    t.next_item();
    assert_eq!(t.selected(), Some(0));
    t.update_layout(10, 7, 3);
    t.next_item();
    t.next_item();
    assert_eq!(t.selected(), Some(2));
    t.previous_item();
    assert_eq!(t.selected(), Some(1));
    t.next_page();
    assert_eq!(t.selected(), Some(5));
    t.next_page();
    t.next_page();
    assert_eq!(t.selected(), Some(9));
    t.previous_page();
    assert_eq!(t.selected(), Some(5));
    t.first_item();
    assert_eq!(t.selected(), Some(0));
    t.last_item();
    assert_eq!(t.selected(), Some(9));
}

#[test]
fn table_columns_show_and_sort() {
    let mut t = XTableState::new();
    t.update_layout(2, 10, 3);
    assert_eq!(t.column_index(), None);
    t.next_column();
    assert_eq!(t.column_index(), Some(0));
    t.last_column();
    assert_eq!(t.column_index(), Some(2));
    t.next_column();
    assert_eq!(t.column_index(), Some(2));
    t.previous_column();
    assert_eq!(t.column_index(), Some(1));
    assert!(t.is_shown(1));
    t.toggle_show();
    assert!(!t.is_shown(1));
    t.toggle_show();
    assert!(t.is_shown(1));
    t.toggle_sort();
    let s = t.sort().unwrap();
    assert_eq!((s.column_index, s.ascending), (1, true));
    t.toggle_sort();
    assert!(!t.sort().unwrap().ascending);
    t.first_column();
    t.toggle_sort();
    let s = t.sort().unwrap();
    assert_eq!((s.column_index, s.ascending), (0, true));
    t.update_layout(2, 10, 0);
    assert_eq!(t.column_index(), None);
}

#[test]
fn timed_stat_window() {
    let mut s = TimedStat::new(10);
    assert!(s.push(0, 1).is_empty());
    assert!(s.push(5, 2).is_empty());
    assert_eq!(s.sum(), 3);
    assert_eq!(s.sum_squares(), 5);
    let dropped = s.push(12, 3);
    assert_eq!(dropped, vec![(0, 1)]);
    assert_eq!(s.entries(), &vec![(5, 2), (12, 3)]);
    assert_eq!(s.sum(), 5);
    let dropped = s.set_last_ts(100);
    assert_eq!(dropped, vec![(5, 2), (12, 3)]);
    assert_eq!(s.sum(), 0);
    assert_eq!(s.last_ts(), Some(100));
    assert_eq!(s.window(), 10);
}

#[test]
fn timed_stat_partial_eviction_keeps_sums() {
    let mut s = TimedStat::new(10);
    s.push(1, 2);
    s.push(4, 3);
    s.push(9, 5);
    let dropped = s.set_last_ts(15);
    assert_eq!(dropped, vec![(1, 2), (4, 3)]);
    assert_eq!(s.entries(), &vec![(9, 5)]);
    assert_eq!(s.sum(), 5);
    assert_eq!(s.sum_squares(), 25);
    let dropped = s.set_last_ts(19);
    assert!(dropped.is_empty());
    assert_eq!(s.entries(), &vec![(9, 5)]);
}

#[test]
fn many_abnormalities_keep_the_newest() {
    let v: Vec<Abnormality> = (0..(MAX_ABNORMALITIES as i64 + 1)).map(abnormality).collect();
    let r = trim_abnormality_list(v, 0);
    assert_eq!(r.len(), MAX_ABNORMALITIES);
    assert_eq!(r[0].when, MAX_ABNORMALITIES as i64);
    assert_eq!(r[MAX_ABNORMALITIES - 1].when, 1);
    assert!(r.windows(2).all(|w| w[0].when >= w[1].when));
}

#[test]
fn old_abnormalities_expire() {
    let now: i64 = 1_000_000_000;
    let v = vec![abnormality(now - 400_000_000), abnormality(now - 1), abnormality(now - 300_000_000)];
    let r = trim_abnormality_list(v, now);
    assert_eq!(r.len(), 1);
    assert_eq!(r[0].when, now - 1);
}

#[test]
fn cleanup_drops_idle_participants() {
    let mut state = State::new(WINDOW, 0);
    let info = ParticipantInfo {
        recv_time: 0,
        guid_prefix: GuidPrefix { bytes: [3; 12] },
        unicast_locator_list: vec![],
        multicast_locator_list: None,
    };
    assert_eq!(handle_message(&mut state, &UpdateEvent::ParticipantInfo(info), 0, 0), UpdaterAction::Nothing);
    assert_eq!(state.participants.len(), 1);
    let hb = UpdateEvent::RtpsSubmsg(RtpsSubmsgEvent {
        recv_time: 0,
        rtps_time: None,
        kind: RtpsSubmsgEventKind::Heartbeat(HeartbeatEvent { writer_guid: guid(4), first_sn: 1, last_sn: 1, count: 1 }),
    });
    handle_message(&mut state, &hb, 0, 0);
    assert_eq!(state.participants.len(), 2);
    let mut c = StateCleanup::new(1_000);
    assert_eq!(c.cleanup_interval(), 1_000);
    assert!(!c.should_cleanup_after(1_000));
    assert!(c.should_cleanup_after(1_001));
    c.cleanup(&mut state, 0);
    assert_eq!(state.participants.len(), 1);
    assert!(state.participants.get(&GuidPrefix { bytes: [4; 12] }).is_some());
}

#[test]
fn dispatch_actions_and_packet_count() {
    let mut state = State::new(WINDOW, 0);
    let gap = UpdateEvent::RtpsSubmsg(RtpsSubmsgEvent {
        recv_time: 5,
        rtps_time: None,
        kind: RtpsSubmsgEventKind::Gap(GapEvent { writer_guid: guid(1), reader_guid: guid(2), gap_start: 1, gap_list: vec![] }),
    });
    assert!(is_event_acceptable(&state, &gap));
    assert_eq!(event_start_time(&gap), Some(5));
    assert_eq!(handle_message(&mut state, &gap, 0, 0), UpdaterAction::Nothing);
    assert_eq!(state.stat.packet_count, 1);
    let tick = UpdateEvent::Tick(TickEvent { when: 50, recv_time: 10 });
    assert_eq!(event_start_time(&tick), None);
    assert_eq!(handle_message(&mut state, &tick, 50, 0), UpdaterAction::SaveLog);
    assert_eq!(state.tick_since, 50);
    assert_eq!(handle_message(&mut state, &UpdateEvent::ToggleLogging, 60, 0), UpdaterAction::ToggleLogging);
    assert_eq!(state.stat.packet_count, 1);
    // Captures from before the Unix epoch are handled too.
    let early_tick = UpdateEvent::Tick(TickEvent { when: 70, recv_time: -1 });
    assert!(is_event_acceptable(&state, &early_tick));
    assert_eq!(handle_message(&mut state, &early_tick, 70, 0), UpdaterAction::SaveLog);
}

#[test]
fn fragment_without_size_is_not_acceptable() {
    let state = State::new(WINDOW, 0);
    let ev = |fragment_size: u16, start: u32| {
        UpdateEvent::RtpsSubmsg(RtpsSubmsgEvent {
            recv_time: 0,
            rtps_time: None,
            kind: RtpsSubmsgEventKind::DataFrag(DataFragEvent {
                writer_guid: guid(1),
                writer_sn: 1,
                fragment_starting_num: start,
                fragments_in_submessage: 1,
                data_size: 100,
                fragment_size,
                payload_size: 10,
                payload_hash: 0,
            }),
        })
    };
    assert!(!is_event_acceptable(&state, &ev(0, 1)));
    assert!(!is_event_acceptable(&state, &ev(10, 0)));
    assert!(is_event_acceptable(&state, &ev(10, 1)));
}

#[test]
fn ticks_follow_the_monotonic_clock() {
    let t = tick_at(100, 5_000, 350);
    assert_eq!((t.when, t.recv_time), (350, 5_250));
    let t = tick_at(100, -10, 105);
    assert_eq!(t.recv_time, -5);
    let t = tick_at(100, 7, 50);
    assert_eq!(t.recv_time, 7);
}

#[test]
fn statistics_start_at_zero() {
    let s = LockFreeStatistics::new().snapshot();
    assert_eq!(s.packet_count, 0);
    assert_eq!(s.gap_submsg_count, 0);
}

#[test]
fn replay_waits_for_the_capture_pace() {
    // Started at 1000 with a packet captured at 50; one captured 300 later
    // is due at 1300.
    assert_eq!(replay_wait(1000, 50, 1000, 350), 300);
    assert_eq!(replay_wait(1000, 50, 1200, 350), 100);
    assert_eq!(replay_wait(1000, 50, 1400, 350), 0);
    assert_eq!(replay_wait(0, -10, 0, -10), 0);
}

#[test]
fn latency_samples_stay_bounded() {
    let mut v: Vec<u64> = Vec::new();
    for i in 0..MAX_LATENCY_SAMPLES as u64 {
        record_sample(&mut v, i);
    }
    assert_eq!(v.len(), MAX_LATENCY_SAMPLES);
    record_sample(&mut v, 99_999);
    assert_eq!(v.len(), MAX_LATENCY_SAMPLES + 1 - LATENCY_SAMPLES_DROPPED);
    assert_eq!(v[0], LATENCY_SAMPLES_DROPPED as u64);
    assert_eq!(*v.last().unwrap(), 99_999);
}

#[test]
fn cleanup_not_due_right_after_start() {
    let c = StateCleanup::new(3_600_000_000_000);
    assert!(!c.should_cleanup());
    let d = StateCleanup::new(0);
    assert!(d.should_cleanup_after(1));
}

#[test]
fn updater_clock_starts_with_first_capture() {
    use_clock();
}

fn use_clock() {
    let mut clock = UpdaterClock::new();
    assert!(!clock.started());
    assert!(clock.tick(10).is_none());
    clock.observe(&UpdateEvent::ToggleLogging, 5);
    assert!(!clock.started());
    let gap = UpdateEvent::RtpsSubmsg(RtpsSubmsgEvent {
        recv_time: 1_000,
        rtps_time: None,
        kind: RtpsSubmsgEventKind::Gap(GapEvent { writer_guid: guid(1), reader_guid: guid(2), gap_start: 1, gap_list: vec![] }),
    });
    clock.observe(&gap, 100);
    assert_eq!(clock.start(), Some((100, 1_000)));
    let later = UpdateEvent::RtpsSubmsg(RtpsSubmsgEvent {
        recv_time: 9_999,
        rtps_time: None,
        kind: RtpsSubmsgEventKind::Gap(GapEvent { writer_guid: guid(1), reader_guid: guid(2), gap_start: 1, gap_list: vec![] }),
    });
    clock.observe(&later, 200);
    assert_eq!(clock.start(), Some((100, 1_000)));
    let t = clock.tick(350).unwrap();
    assert_eq!((t.when, t.recv_time), (350, 1_250));
}

#[test]
fn colon_separated_hex() {
    assert_eq!(convert_to_colon_sep_hex(&[0x00, 0x1b, 0xff]), "00:1b:ff");
    assert_eq!(convert_to_colon_sep_hex(&[0xab]), "ab");
    assert_eq!(convert_to_colon_sep_hex(&[]), "");
}

#[test]
fn order_statistics_of_samples() {
    let v = vec![30, 10, 20, 10, 50];
    assert_eq!(nth_smallest(&v, 0), 10);
    assert_eq!(nth_smallest(&v, 1), 10);
    assert_eq!(nth_smallest(&v, 2), 20);
    assert_eq!(nth_smallest(&v, 3), 30);
    assert_eq!(nth_smallest(&v, 4), 50);
    assert_eq!(nth_smallest(&vec![7], 0), 7);
}
