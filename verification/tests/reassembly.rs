use ddshark::reassembly::{FragmentHeader, PacketDecoder, MAX_REASSEMBLIES};

/// A fragment header; `offset_units` is in 8-octet units, as on the wire.
fn frag(id: u16, offset_units: u16, more: bool) -> FragmentHeader {
    FragmentHeader {
        source: [10, 0, 0, 1],
        destination: [10, 0, 0, 2],
        identification: id,
        fragment_offset: offset_units,
        more_fragments: more,
    }
}

#[test]
fn reassembles_two_contiguous_fragments() {
    let mut d = PacketDecoder::new();
    assert_eq!(d.process_fragments(&frag(1, 0, true), &[1, 2, 3, 4, 5, 6, 7, 8]), None);
    assert_eq!(
        d.process_fragments(&frag(1, 1, false), &[9, 10, 11, 12, 13, 14, 15, 16]),
        Some((1u8..=16).collect::<Vec<u8>>())
    );
}

#[test]
fn ignores_duplicate_fragment() {
    let mut d = PacketDecoder::new();
    assert_eq!(d.process_fragments(&frag(2, 0, true), &[1, 2, 3, 4, 5, 6, 7, 8]), None);
    assert_eq!(d.process_fragments(&frag(2, 0, true), &[1, 2, 3, 4, 5, 6, 7, 8]), None);
    assert_eq!(
        d.process_fragments(&frag(2, 1, false), &[9, 10, 11, 12, 13, 14, 15, 16]),
        Some((1u8..=16).collect::<Vec<u8>>())
    );
}

#[test]
fn gap_between_fragments_never_completes() {
    let mut d = PacketDecoder::new();
    assert_eq!(d.process_fragments(&frag(3, 0, true), &[1, 2, 3, 4, 5, 6, 7, 8]), None);
    assert_eq!(d.process_fragments(&frag(3, 2, false), &[9, 10, 11, 12, 13, 14, 15, 16]), None);
}

#[test]
fn repeated_fragment_with_other_bytes_keeps_the_first() {
    let mut d = PacketDecoder::new();
    assert_eq!(d.process_fragments(&frag(4, 0, true), &[1, 1, 1, 1, 1, 1, 1, 1]), None);
    assert_eq!(d.process_fragments(&frag(4, 0, true), &[2, 2, 2, 2, 2, 2, 2, 2]), None);
    assert_eq!(
        d.process_fragments(&frag(4, 1, false), &[3, 3]),
        Some(vec![1, 1, 1, 1, 1, 1, 1, 1, 3, 3])
    );
}

#[test]
fn fragments_in_reverse_order_complete() {
    let mut d = PacketDecoder::new();
    assert_eq!(d.process_fragments_at(&frag(5, 1, false), &[9, 10], 0), None);
    assert_eq!(
        d.process_fragments_at(&frag(5, 0, true), &[1, 2, 3, 4, 5, 6, 7, 8], 1),
        Some(vec![1, 2, 3, 4, 5, 6, 7, 8, 9, 10])
    );
}

#[test]
fn stale_reassembly_is_dropped() {
    let mut d = PacketDecoder::new();
    assert_eq!(d.process_fragments_at(&frag(6, 0, true), &[1, 2, 3, 4, 5, 6, 7, 8], 0), None);
    // An unrelated fragment 31 s later evicts the stale one.
    assert_eq!(d.process_fragments_at(&frag(7, 0, true), &[0; 8], 31_000_000_000), None);
    // The tail of the first datagram now starts a new reassembly that lacks its head.
    assert_eq!(d.process_fragments_at(&frag(6, 1, false), &[9, 10], 31_000_000_001), None);
}

#[test]
fn reassemblies_stay_bounded() {
    let mut d = PacketDecoder::new();
    for id in 0..(MAX_REASSEMBLIES as u32 + 10) {
        let h = FragmentHeader {
            source: [10, 0, (id >> 8) as u8, id as u8],
            destination: [10, 0, 0, 2],
            identification: 1,
            fragment_offset: 0,
            more_fragments: true,
        };
        assert_eq!(d.process_fragments_at(&h, &[0; 8], id as u64), None);
    }
    assert!(d.partial_count() <= MAX_REASSEMBLIES);
}
