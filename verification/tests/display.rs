use ddshark::guid::{EntityId, Guid, GuidPrefix, Locator};

const SPDP_BUILTIN_PARTICIPANT_WRITER: EntityId = EntityId { entity_key: [0x00, 0x01, 0x00], entity_kind: 0xc2 };

#[test]
fn entity_kind_display() {
    // WRITER_NO_KEY_USER_DEFINED and PARTICIPANT_BUILT_IN
    assert_eq!(ddshark::display::entity_kind_display(0x03), "WND");
    assert_eq!(ddshark::display::entity_kind_display(0xc1), "P-B");
}

#[test]
fn guid_prefix_unknown_displays_unknown() {
    assert_eq!(GuidPrefix::unknown().display_string(), "UNKNOWN");
}

#[test]
fn guid_with_unknown_prefix_displays_unknown() {
    let guid = Guid::new(GuidPrefix::unknown(), SPDP_BUILTIN_PARTICIPANT_WRITER);
    assert_eq!(guid.display_string(), "UNKNOWN");
}

#[test]
fn entity_id_builtin_name() {
    assert_eq!(SPDP_BUILTIN_PARTICIPANT_WRITER.display_string(), "SPDP_BUILTIN_PARTICIPANT_WRITER");
}

#[test]
fn locator_display() {
    assert_eq!(Locator::Invalid.display_string(), "invalid/");
    let loc = Locator::UdpV4 { addr: [127, 0, 0, 1], port: 7400 };
    assert_eq!(loc.display_string(), "udp/127.0.0.1:7400");
}

#[test]
fn known_prefix_displays_hex() {
    let p = GuidPrefix { bytes: [1, 2, 3, 4, 5, 6, 7, 8, 9, 10, 0xab, 0xff] };
    assert_eq!(p.display_string(), "0102030405060708090aabff");
    assert_eq!(p.display_string().len(), 24);
}

#[test]
fn user_entity_displays_key_and_kind() {
    let e = EntityId { entity_key: [0x00, 0x00, 0x12], entity_kind: 0x02 };
    assert_eq!(e.display_string(), "000012|WKD");
    let g = Guid::new(GuidPrefix { bytes: [0xaa; 12] }, e);
    assert_eq!(g.display_string(), "aaaaaaaaaaaaaaaaaaaaaaaa|000012|WKD");
    assert!(g.is_writable());
    let odd = EntityId { entity_key: [1, 2, 3], entity_kind: 0x55 };
    assert!(!odd.is_writable());
}

#[test]
fn every_kind_code() {
    let expected = [
        (0x00, "U-D"), (0x02, "WKD"), (0x03, "WND"), (0x04, "RND"), (0x07, "RKD"), (0x08, "WGD"),
        (0x09, "RGD"), (0xc0, "U-B"), (0xc1, "P-B"), (0xc2, "WKB"), (0xc3, "WNB"), (0xc4, "RNB"),
        (0xc7, "RKB"), (0xc8, "WGB"), (0xc9, "RGB"),
    ];
    for (k, code) in expected {
        assert_eq!(ddshark::display::entity_kind_display(k), code);
    }
}

#[test]
fn builtin_names() {
    let names = [
        ([0, 0, 2], 0xc2, "SEDP_BUILTIN_TOPIC_WRITER"),
        ([0, 0, 2], 0xc7, "SEDP_BUILTIN_TOPIC_READER"),
        ([0, 0, 3], 0xc2, "SEDP_BUILTIN_PUBLICATIONS_WRITER"),
        ([0, 0, 3], 0xc7, "SEDP_BUILTIN_PUBLICATIONS_READER"),
        ([0, 0, 4], 0xc2, "SEDP_BUILTIN_SUBSCRIPTIONS_WRITER"),
        ([0, 0, 4], 0xc7, "SEDP_BUILTIN_SUBSCRIPTIONS_READER"),
        ([0, 1, 0], 0xc7, "SPDP_BUILTIN_PARTICIPANT_READER"),
        ([0, 2, 0], 0xc2, "P2P_BUILTIN_PARTICIPANT_MESSAGE_WRITER"),
        ([0, 2, 0], 0xc7, "P2P_BUILTIN_PARTICIPANT_MESSAGE_READER"),
    ];
    for (key, kind, name) in names {
        assert_eq!(EntityId { entity_key: key, entity_kind: kind }.display_string(), name);
    }
}

#[test]
fn other_locators_display() {
    assert_eq!(Locator::Reserved.display_string(), "reserved/");
    let v6 = |addr: [u8; 16], port: u16| Locator::UdpV6 { addr, port }.display_string();
    let mut lo = [0u8; 16];
    lo[15] = 1;
    assert_eq!(v6(lo, 7400), "udp/[::1]:7400");
    assert_eq!(v6([0; 16], 1), "udp/[::]:1");
    let mut mapped = [0u8; 16];
    mapped[10] = 0xff;
    mapped[11] = 0xff;
    mapped[12..].copy_from_slice(&[192, 168, 1, 2]);
    assert_eq!(v6(mapped, 80), "udp/[::ffff:192.168.1.2]:80");
    let a = [0x20, 0x01, 0x0d, 0xb8, 0, 0, 0, 0, 0, 1, 0, 0, 0, 0, 0, 1];
    assert_eq!(v6(a, 5), "udp/[2001:db8::1:0:0:1]:5");
    let b = [0x20, 0x01, 0x0d, 0xb8, 0, 1, 0, 0, 0, 1, 0, 0, 0, 0, 0, 1];
    assert_eq!(v6(b, 5), "udp/[2001:db8:1:0:1::1]:5");
    let c = [0x20, 0x01, 0, 0, 0x12, 0x34, 0, 0, 0, 0, 0xab, 0xcd, 0, 0, 0, 1];
    assert_eq!(v6(c, 5), "udp/[2001:0:1234::abcd:0:1]:5");
    let other = Locator::Other { kind: -100, port: 0x10, address: [0x11; 16] };
    assert_eq!(
        other.display_string(),
        "other/kind=ffffff9c,port=0010,addr=11111111111111111111111111111111"
    );
    let small = Locator::Other { kind: 5, port: 0x12345, address: [0; 16] };
    assert_eq!(
        small.display_string(),
        "other/kind=0005,port=12345,addr=00000000000000000000000000000000"
    );
}

#[test]
fn v6_display_compresses_first_longest_zero_run() {
    let samples: [([u8; 16], &str); 4] = [
        ([0xfe, 0x80, 0, 0, 0, 0, 0, 0, 0x02, 0x1b, 0x21, 0xff, 0xfe, 0x12, 0x34, 0x56], "udp/[fe80::21b:21ff:fe12:3456]:9"),
        ([0, 1, 0, 0, 0, 2, 0, 0, 0, 0, 0, 3, 0, 0, 0, 0], "udp/[1:0:2::3:0:0]:9"),
        ([0, 0, 0, 0, 0, 0, 0, 0, 0, 0, 0, 0, 10, 0, 0, 1], "udp/[::a00:1]:9"),
        ([0xff, 0x02, 0, 0, 0, 0, 0, 0, 0, 0, 0, 0, 0, 0, 0, 0xfb], "udp/[ff02::fb]:9"),
    ];
    for (a, expected) in samples {
        assert_eq!(Locator::UdpV6 { addr: a, port: 9 }.display_string(), expected);
    }
}
