//! Human-readable writings of GUID prefixes, entity ids, GUIDs and
//! locators, as the monitor shows them.

use vstd::prelude::*;
use crate::guid::{EntityId, Guid, GuidPrefix, Locator, LocatorView};
use crate::text::{dec_string, push_char, push_decimal, push_str, to_owned_string};
use crate::watcher::unknown_prefix;

verus! {

/// The lowercase character of hexadecimal digit `d`.
pub open spec fn hex_char(d: nat) -> char {
    if d < 10 {
        ((d + 48) as u8) as char
    } else {
        ((d - 10 + 97) as u8) as char
    }
}

/// The lowercase hexadecimal writing of `n`, without leading zeros.
pub open spec fn hex_min(n: nat) -> Seq<char>
    decreases n,
{
    if n < 16 {
        seq![hex_char(n)]
    } else {
        hex_min(n / 16).push(hex_char(n % 16))
    }
}

/// `n` in lowercase hexadecimal, padded with zeros to at least `w` digits.
pub open spec fn hex_padded(n: nat, w: nat) -> Seq<char> {
    let h = hex_min(n);
    if h.len() >= w {
        h
    } else {
        Seq::new((w - h.len()) as nat, |i: int| '0') + h
    }
}

/// Two lowercase hexadecimal digits for each byte, in order.
pub open spec fn hex_bytes(b: Seq<u8>) -> Seq<char>
    decreases b.len(),
{
    if b.len() == 0 {
        Seq::empty()
    } else {
        hex_bytes(b.drop_last()) + seq![hex_char((b.last() / 16) as nat), hex_char((b.last() % 16) as nat)]
    }
}

/// Each byte is written with exactly two digits, so the writing is twice
/// as long as the bytes.
pub proof fn law_hex_two_digits_per_byte(b: Seq<u8>)
    ensures
        hex_bytes(b).len() == 2 * b.len(),
    decreases b.len(),
{
    if b.len() > 0 {
        law_hex_two_digits_per_byte(b.drop_last());
    }
}

/// `hex::encode`: each byte as two lowercase hexadecimal digits.
#[verifier::external_body]
fn hex_encode(b: &[u8]) -> (r: String)
    ensures
        r@ == hex_bytes(b@),
{
    hex::encode(b)
}

fn hex_digit(d: u64) -> (c: char)
    requires
        d < 16,
    ensures
        c == hex_char(d as nat),
{
    if d < 10 {
        ((d + 48) as u8) as char
    } else {
        ((d - 10 + 97) as u8) as char
    }
}

/// Appends `n` in lowercase hexadecimal, without leading zeros.
pub fn push_hex(s: &mut String, n: u64)
    ensures
        final(s)@ == old(s)@ + hex_min(n as nat),
    decreases n,
{
    if n >= 16 {
        push_hex(s, n / 16);
    }
    push_char(s, hex_digit(n % 16));
    proof {
        if n < 16 {
            assert(old(s)@.push(hex_char(n as nat)) =~= old(s)@ + seq![hex_char(n as nat)]);
        } else {
            assert(old(s)@ + hex_min((n / 16) as nat) + seq![hex_char((n % 16) as nat)]
                =~= old(s)@ + hex_min(n as nat));
        }
    }
}

/// The bytes as two lowercase hexadecimal digits each, separated by
/// colons (as hardware addresses are written).
pub open spec fn colon_hex(b: Seq<u8>) -> Seq<char>
    decreases b.len(),
{
    if b.len() <= 1 {
        hex_bytes(b)
    } else {
        colon_hex(b.drop_last()) + seq![':'] + hex_bytes(seq![b.last()])
    }
}

/// The bytes as two lowercase hexadecimal digits each, separated by
/// colons.
pub fn convert_to_colon_sep_hex(obj: &[u8]) -> (r: String)
    ensures
        r@ == colon_hex(obj@),
{
    let mut s = String::new();
    let n = obj.len();
    let mut i: usize = 0;
    while i < n
        invariant
            n == obj@.len(),
            i <= n,
            s@ == colon_hex(obj@.take(i as int)),
        decreases n - i,
    {
        let ghost before = s@;
        if i > 0 {
            push_char(&mut s, ':');
        }
        let b = obj[i];
        push_char(&mut s, hex_digit((b / 16) as u64));
        push_char(&mut s, hex_digit((b % 16) as u64));
        proof {
            let t = obj@.take(i + 1);
            assert(t.drop_last() =~= obj@.take(i as int));
            assert(t.last() == b);
            let one = seq![b];
            assert(one.drop_last() =~= Seq::<u8>::empty());
            assert(one.last() == b);
            assert(hex_bytes(Seq::<u8>::empty()) =~= Seq::<char>::empty());
            assert(hex_bytes(one) =~= seq![hex_char((b / 16) as nat), hex_char((b % 16) as nat)]);
            if i == 0 {
                assert(obj@.take(0) =~= Seq::<u8>::empty());
                assert(t =~= one);
                assert(s@ =~= hex_bytes(one));
            } else {
                assert(s@ =~= before + seq![':'] + hex_bytes(one));
            }
        }
        i = i + 1;
    }
    assert(obj@.take(n as int) =~= obj@);
    s
}

/// `16^k`.
pub open spec fn pow16(k: nat) -> nat
    decreases k,
{
    if k == 0 { 1 } else { 16 * pow16((k - 1) as nat) }
}

/// A number below `16^k` has at most `k` hexadecimal digits.
proof fn lemma_hex_min_len(n: nat, k: nat)
    requires
        n < pow16(k),
        k >= 1,
    ensures
        1 <= hex_min(n).len() <= k,
    decreases k,
{
    if n >= 16 {
        if k == 1 {
            assert(pow16(1) == 16) by {
                reveal_with_fuel(pow16, 2);
            }
        }
        let p = pow16((k - 1) as nat);
        assert(n / 16 < p) by (nonlinear_arith)
            requires
                n < 16 * p,
        ;
        lemma_hex_min_len(n / 16, (k - 1) as nat);
    }
}

/// A 32-bit number has at most 8 hexadecimal digits.
proof fn lemma_hex_min_len_u32(n: u32)
    ensures
        1 <= hex_min(n as nat).len() <= 8,
{
    assert(pow16(8) == 0x1_0000_0000) by {
        reveal_with_fuel(pow16, 9);
    }
    lemma_hex_min_len(n as nat, 8);
}

/// Appends `n` in lowercase hexadecimal, padded with zeros to `w` digits.
pub fn push_hex_padded(s: &mut String, n: u32, w: usize)
    requires
        w <= 8,
    ensures
        final(s)@ == old(s)@ + hex_padded(n as nat, w as nat),
{
    let mut t = String::new();
    push_hex(&mut t, n as u64);
    proof {
        lemma_hex_min_len_u32(n);
    }
    assert(t@ =~= hex_min(n as nat));
    let len = hex_len(n);
    let mut k = len;
    let ghost start = s@;
    assert(s@ =~= start + Seq::new((k - len) as nat, |i: int| '0'));
    while k < w
        invariant
            len == hex_min(n as nat).len(),
            len <= k,
            k <= w || len > w,
            len >= w ==> k == len,
            s@ == start + Seq::new((k - len) as nat, |i: int| '0'),
        decreases w - k,
    {
        push_char(s, '0');
        k = k + 1;
        assert(s@ =~= start + Seq::new((k - len) as nat, |i: int| '0'));
    }
    push_str(s, t.as_str());
    proof {
        if len >= w {
            assert(s@ =~= start + hex_min(n as nat));
        } else {
            assert(s@ =~= start + (Seq::new((w - len) as nat, |i: int| '0') + hex_min(n as nat)));
        }
    }
}

/// The number of hexadecimal digits of `n`.
fn hex_len(n: u32) -> (r: usize)
    ensures
        r == hex_min(n as nat).len(),
    decreases n,
{
    proof {
        lemma_hex_min_len_u32(n);
    }
    if n < 16 {
        1
    } else {
        hex_len(n / 16) + 1
    }
}

/// The writing of a GUID prefix: "UNKNOWN" for the all-zero prefix, its
/// bytes in hexadecimal otherwise.
pub open spec fn prefix_text(p: Seq<u8>) -> Seq<char> {
    if p == unknown_prefix() {
        "UNKNOWN"@
    } else {
        hex_bytes(p)
    }
}

/// The three-letter code of an entity kind: reader or writer (with or
/// without key) or group, user-defined or built-in; `None` for a kind that
/// has no code.
pub open spec fn kind_code(k: u8) -> Option<Seq<char>> {
    if k == 0x00 { Some("U-D"@) }
    else if k == 0x02 { Some("WKD"@) }
    else if k == 0x03 { Some("WND"@) }
    else if k == 0x04 { Some("RND"@) }
    else if k == 0x07 { Some("RKD"@) }
    else if k == 0x08 { Some("WGD"@) }
    else if k == 0x09 { Some("RGD"@) }
    else if k == 0xc0 { Some("U-B"@) }
    else if k == 0xc1 { Some("P-B"@) }
    else if k == 0xc2 { Some("WKB"@) }
    else if k == 0xc3 { Some("WNB"@) }
    else if k == 0xc4 { Some("RNB"@) }
    else if k == 0xc7 { Some("RKB"@) }
    else if k == 0xc8 { Some("WGB"@) }
    else if k == 0xc9 { Some("RGB"@) }
    else { None }
}

/// The name of a built-in discovery endpoint, if `e` is one.
pub open spec fn builtin_name(e: (Seq<u8>, u8)) -> Option<Seq<char>> {
    let k = e.0;
    let w = e.1 == 0xc2;
    let r = e.1 == 0xc7;
    if k == seq![0u8, 0u8, 2u8] && w { Some("SEDP_BUILTIN_TOPIC_WRITER"@) }
    else if k == seq![0u8, 0u8, 2u8] && r { Some("SEDP_BUILTIN_TOPIC_READER"@) }
    else if k == seq![0u8, 0u8, 3u8] && w { Some("SEDP_BUILTIN_PUBLICATIONS_WRITER"@) }
    else if k == seq![0u8, 0u8, 3u8] && r { Some("SEDP_BUILTIN_PUBLICATIONS_READER"@) }
    else if k == seq![0u8, 0u8, 4u8] && w { Some("SEDP_BUILTIN_SUBSCRIPTIONS_WRITER"@) }
    else if k == seq![0u8, 0u8, 4u8] && r { Some("SEDP_BUILTIN_SUBSCRIPTIONS_READER"@) }
    else if k == seq![0u8, 1u8, 0u8] && w { Some("SPDP_BUILTIN_PARTICIPANT_WRITER"@) }
    else if k == seq![0u8, 1u8, 0u8] && r { Some("SPDP_BUILTIN_PARTICIPANT_READER"@) }
    else if k == seq![0u8, 2u8, 0u8] && w { Some("P2P_BUILTIN_PARTICIPANT_MESSAGE_WRITER"@) }
    else if k == seq![0u8, 2u8, 0u8] && r { Some("P2P_BUILTIN_PARTICIPANT_MESSAGE_READER"@) }
    else { None }
}

/// An entity id can be written: it is a built-in endpoint or its kind has
/// a code.
pub open spec fn entity_id_writable(e: (Seq<u8>, u8)) -> bool {
    builtin_name(e) is Some || kind_code(e.1) is Some
}

/// The writing of an entity id: the name of a built-in endpoint, or its key
/// in hexadecimal, a bar and the code of its kind.
pub open spec fn entity_id_text(e: (Seq<u8>, u8)) -> Seq<char> {
    match builtin_name(e) {
        Some(n) => n,
        None => hex_bytes(e.0) + "|"@ + kind_code(e.1)->0,
    }
}

/// The writing of a GUID: "UNKNOWN" when its prefix is unknown, otherwise
/// the prefix in hexadecimal, a bar and the writing of its entity id.
pub open spec fn guid_text(g: (Seq<u8>, (Seq<u8>, u8))) -> Seq<char> {
    if g.0 == unknown_prefix() {
        "UNKNOWN"@
    } else {
        hex_bytes(g.0) + "|"@ + entity_id_text(g.1)
    }
}

/// The writing of the code of an entity kind that has one.
pub fn entity_kind_display(k: u8) -> (r: String)
    requires
        kind_code(k) is Some,
    ensures
        r@ == kind_code(k)->0,
{
    let t = if k == 0x00 { "U-D" }
        else if k == 0x02 { "WKD" }
        else if k == 0x03 { "WND" }
        else if k == 0x04 { "RND" }
        else if k == 0x07 { "RKD" }
        else if k == 0x08 { "WGD" }
        else if k == 0x09 { "RGD" }
        else if k == 0xc0 { "U-B" }
        else if k == 0xc1 { "P-B" }
        else if k == 0xc2 { "WKB" }
        else if k == 0xc3 { "WNB" }
        else if k == 0xc4 { "RNB" }
        else if k == 0xc7 { "RKB" }
        else if k == 0xc8 { "WGB" }
        else { "RGB" };
    proof {
        reveal_strlit("U-D");
        reveal_strlit("WKD");
        reveal_strlit("WND");
        reveal_strlit("RND");
        reveal_strlit("RKD");
        reveal_strlit("WGD");
        reveal_strlit("RGD");
        reveal_strlit("U-B");
        reveal_strlit("P-B");
        reveal_strlit("WKB");
        reveal_strlit("WNB");
        reveal_strlit("RNB");
        reveal_strlit("RKB");
        reveal_strlit("WGB");
        reveal_strlit("RGB");
    }
    to_owned_string(t)
}

/// The name of a built-in discovery endpoint.
fn builtin_entity_name(e: &EntityId) -> (r: Option<&'static str>)
    ensures
        match r {
            Some(t) => builtin_name(e@) == Some(t@),
            None => builtin_name(e@) is None,
        },
{
    let k = e.entity_key;
    let w = e.entity_kind == 0xc2;
    let r = e.entity_kind == 0xc7;
    proof {
        assert(k@ == seq![0u8, 0u8, 2u8] <==> (k[0] == 0 && k[1] == 0 && k[2] == 2)) by {
            if k[0] == 0 && k[1] == 0 && k[2] == 2 { assert(k@ =~= seq![0u8, 0u8, 2u8]); }
        }
        assert(k@ == seq![0u8, 0u8, 3u8] <==> (k[0] == 0 && k[1] == 0 && k[2] == 3)) by {
            if k[0] == 0 && k[1] == 0 && k[2] == 3 { assert(k@ =~= seq![0u8, 0u8, 3u8]); }
        }
        assert(k@ == seq![0u8, 0u8, 4u8] <==> (k[0] == 0 && k[1] == 0 && k[2] == 4)) by {
            if k[0] == 0 && k[1] == 0 && k[2] == 4 { assert(k@ =~= seq![0u8, 0u8, 4u8]); }
        }
        assert(k@ == seq![0u8, 1u8, 0u8] <==> (k[0] == 0 && k[1] == 1 && k[2] == 0)) by {
            if k[0] == 0 && k[1] == 1 && k[2] == 0 { assert(k@ =~= seq![0u8, 1u8, 0u8]); }
        }
        assert(k@ == seq![0u8, 2u8, 0u8] <==> (k[0] == 0 && k[1] == 2 && k[2] == 0)) by {
            if k[0] == 0 && k[1] == 2 && k[2] == 0 { assert(k@ =~= seq![0u8, 2u8, 0u8]); }
        }
        reveal_strlit("SEDP_BUILTIN_TOPIC_WRITER");
        reveal_strlit("SEDP_BUILTIN_TOPIC_READER");
        reveal_strlit("SEDP_BUILTIN_PUBLICATIONS_WRITER");
        reveal_strlit("SEDP_BUILTIN_PUBLICATIONS_READER");
        reveal_strlit("SEDP_BUILTIN_SUBSCRIPTIONS_WRITER");
        reveal_strlit("SEDP_BUILTIN_SUBSCRIPTIONS_READER");
        reveal_strlit("SPDP_BUILTIN_PARTICIPANT_WRITER");
        reveal_strlit("SPDP_BUILTIN_PARTICIPANT_READER");
        reveal_strlit("P2P_BUILTIN_PARTICIPANT_MESSAGE_WRITER");
        reveal_strlit("P2P_BUILTIN_PARTICIPANT_MESSAGE_READER");
    }
    if k[0] == 0 && k[1] == 0 && k[2] == 2 && w { Some("SEDP_BUILTIN_TOPIC_WRITER") }
    else if k[0] == 0 && k[1] == 0 && k[2] == 2 && r { Some("SEDP_BUILTIN_TOPIC_READER") }
    else if k[0] == 0 && k[1] == 0 && k[2] == 3 && w { Some("SEDP_BUILTIN_PUBLICATIONS_WRITER") }
    else if k[0] == 0 && k[1] == 0 && k[2] == 3 && r { Some("SEDP_BUILTIN_PUBLICATIONS_READER") }
    else if k[0] == 0 && k[1] == 0 && k[2] == 4 && w { Some("SEDP_BUILTIN_SUBSCRIPTIONS_WRITER") }
    else if k[0] == 0 && k[1] == 0 && k[2] == 4 && r { Some("SEDP_BUILTIN_SUBSCRIPTIONS_READER") }
    else if k[0] == 0 && k[1] == 1 && k[2] == 0 && w { Some("SPDP_BUILTIN_PARTICIPANT_WRITER") }
    else if k[0] == 0 && k[1] == 1 && k[2] == 0 && r { Some("SPDP_BUILTIN_PARTICIPANT_READER") }
    else if k[0] == 0 && k[1] == 2 && k[2] == 0 && w { Some("P2P_BUILTIN_PARTICIPANT_MESSAGE_WRITER") }
    else if k[0] == 0 && k[1] == 2 && k[2] == 0 && r { Some("P2P_BUILTIN_PARTICIPANT_MESSAGE_READER") }
    else { None }
}

/// Whether an entity kind has a code.
pub fn kind_has_code(k: u8) -> (r: bool)
    ensures
        r == (kind_code(k) is Some),
{
    k == 0x00 || k == 0x02 || k == 0x03 || k == 0x04 || k == 0x07 || k == 0x08 || k == 0x09
        || k == 0xc0 || k == 0xc1 || k == 0xc2 || k == 0xc3 || k == 0xc4 || k == 0xc7
        || k == 0xc8 || k == 0xc9
}

impl GuidPrefix {
    /// The writing of this prefix.
    pub fn display_string(&self) -> (r: String)
        ensures
            r@ == prefix_text(self@),
    {
        if self.is_unknown() {
            proof {
                reveal_strlit("UNKNOWN");
            }
            to_owned_string("UNKNOWN")
        } else {
            hex_encode(self.bytes.as_slice())
        }
    }
}

impl EntityId {
    /// Whether this id can be written.
    pub fn is_writable(&self) -> (r: bool)
        ensures
            r == entity_id_writable(self@),
    {
        builtin_entity_name(self).is_some() || kind_has_code(self.entity_kind)
    }

    /// The writing of this id.
    pub fn display_string(&self) -> (r: String)
        requires
            entity_id_writable(self@),
        ensures
            r@ == entity_id_text(self@),
    {
        match builtin_entity_name(self) {
            Some(n) => to_owned_string(n),
            None => {
                let mut s = hex_encode(self.entity_key.as_slice());
                push_str(&mut s, "|");
                let code = entity_kind_display(self.entity_kind);
                push_str(&mut s, code.as_str());
                proof {
                    reveal_strlit("|");
                }
                s
            },
        }
    }
}

impl Guid {
    /// Whether this GUID can be written.
    pub fn is_writable(&self) -> (r: bool)
        ensures
            r == (self.prefix@ == unknown_prefix() || entity_id_writable(self.entity_id@)),
    {
        self.prefix.is_unknown() || self.entity_id.is_writable()
    }

    /// The writing of this GUID.
    pub fn display_string(&self) -> (r: String)
        requires
            self.prefix@ == unknown_prefix() || entity_id_writable(self.entity_id@),
        ensures
            r@ == guid_text(self@),
    {
        if self.prefix.is_unknown() {
            proof {
                reveal_strlit("UNKNOWN");
            }
            to_owned_string("UNKNOWN")
        } else {
            let mut s = hex_encode(self.prefix.bytes.as_slice());
            push_str(&mut s, "|");
            let e = self.entity_id.display_string();
            push_str(&mut s, e.as_str());
            proof {
                reveal_strlit("|");
            }
            s
        }
    }
}

/// The dotted writing of an IPv4 address.
pub open spec fn ipv4_text(a: Seq<u8>) -> Seq<char> {
    dec_string(a[0] as nat) + "."@ + dec_string(a[1] as nat) + "."@ + dec_string(a[2] as nat) + "."@
        + dec_string(a[3] as nat)
}

/// The eight 16-bit groups of an IPv6 address.
pub open spec fn ipv6_groups(a: Seq<u8>) -> Seq<u16> {
    Seq::new(8, |i: int| (a[2 * i] * 256 + a[2 * i + 1]) as u16)
}

/// How many zero groups follow from position `i` on.
pub open spec fn run_len(g: Seq<u16>, i: int) -> nat
    decreases g.len() - i,
{
    if 0 <= i < g.len() && g[i] == 0 {
        1 + run_len(g, i + 1)
    } else {
        0
    }
}

/// Position `i` starts the first of the longest runs of zero groups.
pub open spec fn first_longest_run(g: Seq<u16>, i: int) -> bool {
    &&& 0 <= i < g.len()
    &&& forall|j: int| 0 <= j < g.len() ==> run_len(g, j) <= run_len(g, i)
    &&& forall|j: int| 0 <= j < i ==> run_len(g, j) < run_len(g, i)
}

/// Groups in lowercase hexadecimal, separated by colons.
pub open spec fn groups_text(g: Seq<u16>) -> Seq<char>
    decreases g.len(),
{
    if g.len() == 0 {
        Seq::empty()
    } else if g.len() == 1 {
        hex_min(g[0] as nat)
    } else {
        groups_text(g.drop_last()) + ":"@ + hex_min(g.last() as nat)
    }
}

/// The writing of an IPv6 address: an IPv4-mapped address as "::ffff:"
/// and the dotted IPv4 address; otherwise its groups in hexadecimal, with
/// the first of the longest runs of at least two zero groups written "::".
pub open spec fn ipv6_text(a: Seq<u8>) -> Seq<char> {
    let g = ipv6_groups(a);
    if (forall|i: int| 0 <= i < 5 ==> #[trigger] g[i] == 0) && g[5] == 0xffff {
        "::ffff:"@ + ipv4_text(a.subrange(12, 16))
    } else {
        let z = choose|i: int| first_longest_run(g, i);
        let n = run_len(g, z);
        if n > 1 {
            groups_text(g.subrange(0, z)) + "::"@ + groups_text(g.subrange(z + n, 8))
        } else {
            groups_text(g)
        }
    }
}

/// The writing of a locator: its kind, a slash and its address.
pub open spec fn locator_text(l: LocatorView) -> Seq<char> {
    match l {
        LocatorView::Invalid => "invalid/"@,
        LocatorView::Reserved => "reserved/"@,
        LocatorView::UdpV4 { addr, port } => "udp/"@ + ipv4_text(addr) + ":"@ + dec_string(port as nat),
        LocatorView::UdpV6 { addr, port } => "udp/["@ + ipv6_text(addr) + "]:"@ + dec_string(port as nat),
        LocatorView::Other { kind, port, address } => "other/kind="@ + hex_padded((kind as u32) as nat, 4)
            + ",port="@ + hex_padded(port as nat, 4) + ",addr="@ + hex_bytes(address),
    }
}

/// Appends the dotted writing of an IPv4 address.
fn push_ipv4(s: &mut String, a: &[u8])
    requires
        a@.len() == 4,
    ensures
        final(s)@ == old(s)@ + ipv4_text(a@),
{
    push_decimal(s, a[0] as u64);
    push_str(s, ".");
    push_decimal(s, a[1] as u64);
    push_str(s, ".");
    push_decimal(s, a[2] as u64);
    push_str(s, ".");
    push_decimal(s, a[3] as u64);
    proof {
        reveal_strlit(".");
        assert(s@ =~= old(s)@ + ipv4_text(a@));
    }
}

/// Appends groups in hexadecimal separated by colons.
fn push_groups(s: &mut String, g: &[u16], from: usize, to: usize)
    requires
        from <= to <= g@.len(),
    ensures
        final(s)@ == old(s)@ + groups_text(g@.subrange(from as int, to as int)),
{
    let ghost start = s@;
    let mut k = from;
    proof {
        reveal_strlit(":");
        assert(g@.subrange(from as int, from as int) =~= Seq::<u16>::empty());
    }
    while k < to
        invariant
            from <= k <= to <= g@.len(),
            s@ == start + groups_text(g@.subrange(from as int, k as int)),
        decreases to - k,
    {
        let ghost before = s@;
        if k > from {
            push_str(s, ":");
        }
        push_hex(s, g[k] as u64);
        proof {
            let sub = g@.subrange(from as int, k + 1);
            assert(sub.drop_last() =~= g@.subrange(from as int, k as int));
            if k == from {
                assert(sub.len() == 1);
                assert(s@ =~= start + groups_text(sub));
            } else {
                assert(s@ =~= start + groups_text(sub));
            }
        }
        k = k + 1;
    }
}

/// Run lengths are bounded by what is left.
proof fn lemma_run_len_bound(g: Seq<u16>, i: int)
    requires
        0 <= i <= g.len(),
    ensures
        run_len(g, i) <= g.len() - i,
        i < g.len() && g[i] == 0 ==> run_len(g, i) >= 1,
        forall|j: int| i <= j < i + run_len(g, i) ==> g[j] == 0,
    decreases g.len() - i,
{
    if i < g.len() && g[i] == 0 {
        lemma_run_len_bound(g, i + 1);
    }
}

/// The number of zero groups from `i` on.
fn zero_run(g: &[u16], i: usize) -> (r: usize)
    requires
        i <= g@.len(),
    ensures
        r == run_len(g@, i as int),
    decreases g@.len() - i,
{
    if i < g.len() && g[i] == 0 {
        proof {
            lemma_run_len_bound(g@, i + 1);
        }
        1 + zero_run(g, i + 1)
    } else {
        0
    }
}

/// The first of the longest runs of zero groups.
fn find_longest_run(g: &[u16]) -> (r: usize)
    requires
        g@.len() == 8,
    ensures
        first_longest_run(g@, r as int),
{
    let mut best: usize = 0;
    let mut best_len = zero_run(g, 0);
    let mut i: usize = 1;
    while i < 8
        invariant
            g@.len() == 8,
            best < i <= 8,
            best_len == run_len(g@, best as int),
            forall|j: int| 0 <= j < i ==> run_len(g@, j) <= best_len,
            forall|j: int| 0 <= j < best ==> run_len(g@, j) < best_len,
        decreases 8 - i,
    {
        let l = zero_run(g, i);
        if l > best_len {
            best = i;
            best_len = l;
        }
        i = i + 1;
    }
    best
}

/// The first of the longest runs is unique.
proof fn lemma_first_longest_unique(g: Seq<u16>, a: int, b: int)
    requires
        first_longest_run(g, a),
        first_longest_run(g, b),
    ensures
        a == b,
{
    if a < b {
        assert(run_len(g, a) < run_len(g, b));
    } else if b < a {
        assert(run_len(g, b) < run_len(g, a));
    }
}

/// Appends the writing of an IPv6 address.
fn push_ipv6(s: &mut String, a: &[u8])
    requires
        a@.len() == 16,
    ensures
        final(s)@ == old(s)@ + ipv6_text(a@),
{
    let g: [u16; 8] = [
        a[0] as u16 * 256 + a[1] as u16, a[2] as u16 * 256 + a[3] as u16,
        a[4] as u16 * 256 + a[5] as u16, a[6] as u16 * 256 + a[7] as u16,
        a[8] as u16 * 256 + a[9] as u16, a[10] as u16 * 256 + a[11] as u16,
        a[12] as u16 * 256 + a[13] as u16, a[14] as u16 * 256 + a[15] as u16,
    ];
    let ghost gs = ipv6_groups(a@);
    assert(g@ =~= gs);
    proof {
        reveal_strlit("::ffff:");
        reveal_strlit("::");
    }
    if g[0] == 0 && g[1] == 0 && g[2] == 0 && g[3] == 0 && g[4] == 0 && g[5] == 0xffff {
        push_str(s, "::ffff:");
        push_ipv4(s, slice_subrange_u8(a, 12, 16));
        assert(s@ =~= old(s)@ + ipv6_text(a@));
    } else {
        assert(!((forall|i: int| 0 <= i < 5 ==> #[trigger] gs[i] == 0) && gs[5] == 0xffff)) by {
            if g[0] != 0 { assert(gs[0] != 0); }
            else if g[1] != 0 { assert(gs[1] != 0); }
            else if g[2] != 0 { assert(gs[2] != 0); }
            else if g[3] != 0 { assert(gs[3] != 0); }
            else if g[4] != 0 { assert(gs[4] != 0); }
            else { assert(gs[5] != 0xffff); assert(gs[0] == 0); }
        }
        let z = find_longest_run(g.as_slice());
        let n = zero_run(g.as_slice(), z);
        proof {
            let c = choose|i: int| first_longest_run(gs, i);
            lemma_first_longest_unique(gs, c, z as int);
            lemma_run_len_bound(gs, z as int);
        }
        if n > 1 {
            push_groups(s, g.as_slice(), 0, z);
            push_str(s, "::");
            push_groups(s, g.as_slice(), z + n, 8);
        } else {
            push_groups(s, g.as_slice(), 0, 8);
            assert(g@.subrange(0, 8) =~= g@);
        }
        assert(s@ =~= old(s)@ + ipv6_text(a@));
    }
}

/// The bytes `i..j` of a slice.
fn slice_subrange_u8(a: &[u8], i: usize, j: usize) -> (r: &[u8])
    requires
        i <= j <= a@.len(),
    ensures
        r@ == a@.subrange(i as int, j as int),
{
    vstd::slice::slice_subrange(a, i, j)
}

impl Locator {
    /// The writing of this locator.
    pub fn display_string(&self) -> (r: String)
        ensures
            r@ == locator_text(self@),
    {
        proof {
            reveal_strlit("invalid/");
            reveal_strlit("reserved/");
            reveal_strlit("udp/");
            reveal_strlit("udp/[");
            reveal_strlit("]:");
            reveal_strlit(":");
            reveal_strlit("other/kind=");
            reveal_strlit(",port=");
            reveal_strlit(",addr=");
        }
        match self {
            Locator::Invalid => to_owned_string("invalid/"),
            Locator::Reserved => to_owned_string("reserved/"),
            Locator::UdpV4 { addr, port } => {
                let mut s = to_owned_string("udp/");
                push_ipv4(&mut s, addr.as_slice());
                push_str(&mut s, ":");
                push_decimal(&mut s, *port as u64);
                s
            },
            Locator::UdpV6 { addr, port } => {
                let mut s = to_owned_string("udp/[");
                push_ipv6(&mut s, addr.as_slice());
                push_str(&mut s, "]:");
                push_decimal(&mut s, *port as u64);
                s
            },
            Locator::Other { kind, port, address } => {
                let mut s = to_owned_string("other/kind=");
                push_hex_padded(&mut s, *kind as u32, 4);
                push_str(&mut s, ",port=");
                push_hex_padded(&mut s, *port, 4);
                push_str(&mut s, ",addr=");
                let h = hex_encode(address.as_slice());
                push_str(&mut s, h.as_str());
                s
            },
        }
    }
}

} // verus!
