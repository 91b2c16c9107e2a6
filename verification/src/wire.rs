//! Reading the primitive elements of RTPS submessages: integers in either
//! byte order, sequence numbers, sequence number sets, locators and
//! parameter lists.

use vstd::prelude::*;
use vstd::slice::slice_subrange;
use crate::guid::{EntityId, GuidPrefix, Locator, LocatorView, locator_seq_view};

verus! {

/// The 16-bit integer at `i`, little-endian when `le`.
pub open spec fn u16_at(b: Seq<u8>, i: int, le: bool) -> u16 {
    if le {
        (b[i] + b[i + 1] * 256) as u16
    } else {
        (b[i] * 256 + b[i + 1]) as u16
    }
}

/// The 32-bit unsigned integer at `i`, little-endian when `le`.
pub open spec fn u32_at(b: Seq<u8>, i: int, le: bool) -> u32 {
    if le {
        (b[i] + b[i + 1] * 256 + b[i + 2] * 65536 + b[i + 3] * 16777216) as u32
    } else {
        (b[i] * 16777216 + b[i + 1] * 65536 + b[i + 2] * 256 + b[i + 3]) as u32
    }
}

/// The 32-bit two's complement integer at `i`.
pub open spec fn i32_at(b: Seq<u8>, i: int, le: bool) -> i32 {
    let u = u32_at(b, i, le);
    if u >= 0x8000_0000 {
        (u - 0x1_0000_0000) as i32
    } else {
        u as i32
    }
}

/// The sequence number at `i`: a signed high word, then an unsigned low
/// word.
pub open spec fn sn_at(b: Seq<u8>, i: int, le: bool) -> i64 {
    (i32_at(b, i, le) * 0x1_0000_0000 + u32_at(b, i + 4, le)) as i64
}

/// The entity id at `i`: three key bytes and a kind byte.
pub open spec fn entity_id_at(b: Seq<u8>, i: int) -> (Seq<u8>, u8) {
    (b.subrange(i, i + 3), b[i + 3])
}

/// The GUID prefix at `i`.
pub open spec fn prefix_at(b: Seq<u8>, i: int) -> Seq<u8> {
    b.subrange(i, i + 12)
}

pub fn read_u16(b: &[u8], i: usize, le: bool) -> (r: u16)
    requires
        i + 2 <= b@.len(),
    ensures
        r == u16_at(b@, i as int, le),
{
    let x0 = b[i] as u16;
    let x1 = b[i + 1] as u16;
    if le {
        x0 + x1 * 256
    } else {
        x0 * 256 + x1
    }
}

pub fn read_u32(b: &[u8], i: usize, le: bool) -> (r: u32)
    requires
        i + 4 <= b@.len(),
    ensures
        r == u32_at(b@, i as int, le),
{
    let x0 = b[i] as u32;
    let x1 = b[i + 1] as u32;
    let x2 = b[i + 2] as u32;
    let x3 = b[i + 3] as u32;
    if le {
        x0 + x1 * 256 + x2 * 65536 + x3 * 16777216
    } else {
        x0 * 16777216 + x1 * 65536 + x2 * 256 + x3
    }
}

pub fn read_i32(b: &[u8], i: usize, le: bool) -> (r: i32)
    requires
        i + 4 <= b@.len(),
    ensures
        r == i32_at(b@, i as int, le),
{
    let u = read_u32(b, i, le);
    if u >= 0x8000_0000 {
        let v: i32 = (u - 0x8000_0000) as i32;
        v - 0x4000_0000 - 0x4000_0000
    } else {
        u as i32
    }
}

pub fn read_sn(b: &[u8], i: usize, le: bool) -> (r: i64)
    requires
        i + 8 <= b@.len(),
    ensures
        r == sn_at(b@, i as int, le),
{
    let n = b.len();
    assert(i + 8 <= n);
    let high = read_i32(b, i, le) as i64;
    let low = read_u32(b, i + 4, le) as i64;
    high * 0x1_0000_0000 + low
}

pub fn read_entity_id(b: &[u8], i: usize) -> (r: EntityId)
    requires
        i + 4 <= b@.len(),
    ensures
        r@ == entity_id_at(b@, i as int),
{
    let r = EntityId { entity_key: [b[i], b[i + 1], b[i + 2]], entity_kind: b[i + 3] };
    assert(r.entity_key@ =~= b@.subrange(i as int, i + 3));
    r
}

pub fn read_prefix(b: &[u8], i: usize) -> (r: GuidPrefix)
    requires
        i + 12 <= b@.len(),
    ensures
        r@ == prefix_at(b@, i as int),
{
    let r = GuidPrefix {
        bytes: [
            b[i], b[i + 1], b[i + 2], b[i + 3], b[i + 4], b[i + 5],
            b[i + 6], b[i + 7], b[i + 8], b[i + 9], b[i + 10], b[i + 11],
        ],
    };
    assert(r.bytes@ =~= b@.subrange(i as int, i + 12));
    r
}

/// Bit `k` of a set's bitmap, counted from the most significant bit of the
/// first word.
pub open spec fn bit_at(b: Seq<u8>, words: int, k: int, le: bool) -> bool {
    (u32_at(b, words + 4 * (k / 32), le) >> ((31 - k % 32) as u32)) & 1u32 == 1u32
}

/// The size in bytes of a bitmap of `num_bits` bits.
pub open spec fn bitmap_len(num_bits: u32) -> int {
    4 * ((num_bits + 31) / 32)
}

/// The members `base + k`, for `from <= k < num_bits`, whose bit is set.
pub open spec fn set_members(b: Seq<u8>, words: int, base: int, num_bits: int, from: int, le: bool) -> Seq<i64>
    decreases num_bits - from,
{
    if from >= num_bits {
        Seq::empty()
    } else {
        let rest = set_members(b, words, base, num_bits, from + 1, le);
        if bit_at(b, words, from, le) {
            seq![(base + from) as i64] + rest
        } else {
            rest
        }
    }
}

/// A sequence number set starts at `i`: its base, a bit count of at most
/// 256, and a bitmap of that many bits all fit, and so do its members.
pub open spec fn sn_set_ok(b: Seq<u8>, i: int, le: bool) -> bool {
    &&& i + 12 <= b.len()
    &&& u32_at(b, i + 8, le) <= 256
    &&& i + 12 + bitmap_len(u32_at(b, i + 8, le)) <= b.len()
    &&& sn_at(b, i, le) + u32_at(b, i + 8, le) <= i64::MAX + 1
}

/// The size in bytes of the sequence number set at `i`.
pub open spec fn sn_set_len(b: Seq<u8>, i: int, le: bool) -> int {
    12 + bitmap_len(u32_at(b, i + 8, le))
}

/// The members of the sequence number set at `i`, in increasing order.
pub open spec fn sn_set_members(b: Seq<u8>, i: int, le: bool) -> Seq<i64> {
    set_members(b, i + 12, sn_at(b, i, le) as int, u32_at(b, i + 8, le) as int, 0, le)
}

/// A fragment number set starts at `i`: its base, a bit count of at most
/// 256, and a bitmap of that many bits all fit.
pub open spec fn frag_set_ok(b: Seq<u8>, i: int, le: bool) -> bool {
    &&& i + 8 <= b.len()
    &&& u32_at(b, i + 4, le) <= 256
    &&& i + 8 + bitmap_len(u32_at(b, i + 4, le)) <= b.len()
}

/// The size in bytes of the fragment number set at `i`.
pub open spec fn frag_set_len(b: Seq<u8>, i: int, le: bool) -> int {
    8 + bitmap_len(u32_at(b, i + 4, le))
}

/// Reads the members of the sequence number set at `i`.
pub fn read_sn_set(b: &[u8], i: usize, le: bool) -> (r: (i64, Vec<i64>, usize))
    requires
        sn_set_ok(b@, i as int, le),
    ensures
        r.0 == sn_at(b@, i as int, le),
        r.1@ == sn_set_members(b@, i as int, le),
        r.2 == sn_set_len(b@, i as int, le),
{
    let n = b.len();
    assert(i + 12 <= n);
    let base = read_sn(b, i, le);
    let num_bits = read_u32(b, i + 8, le);
    let words = i + 12;
    let ghost all = sn_set_members(b@, i as int, le);
    let mut out: Vec<i64> = Vec::new();
    let mut k: u32 = 0;
    while k < num_bits
        invariant
            sn_set_ok(b@, i as int, le),
            base == sn_at(b@, i as int, le),
            num_bits == u32_at(b@, i + 8, le),
            words == i + 12,
            n == b@.len(),
            k <= num_bits,
            all == sn_set_members(b@, i as int, le),
            out@ + set_members(b@, words as int, base as int, num_bits as int, k as int, le) == all,
        decreases num_bits - k,
    {
        let w = read_u32(b, words + 4 * (k / 32) as usize, le);
        let bit = (w >> (31 - k % 32)) & 1u32 == 1u32;
        proof {
            assert(bit == bit_at(b@, words as int, k as int, le));
        }
        if bit {
            let ghost before = out@;
            out.push((base + k as i64) as i64);
            proof {
                assert(out@ + set_members(b@, words as int, base as int, num_bits as int, k + 1, le)
                    =~= before + set_members(b@, words as int, base as int, num_bits as int, k as int, le));
            }
        }
        k = k + 1;
    }
    assert(out@ =~= all);
    (base, out, 12 + 4 * ((num_bits as usize + 31) / 32))
}

/// The locator at `i`: a kind, a port and a 16-byte address. UDP ports are
/// cut to 16 bits.
pub open spec fn locator_at(b: Seq<u8>, i: int, le: bool) -> LocatorView {
    let kind = i32_at(b, i, le);
    let port = u32_at(b, i + 4, le);
    let address = b.subrange(i + 8, i + 24);
    if kind == -1 {
        LocatorView::Invalid
    } else if kind == 0 {
        LocatorView::Reserved
    } else if kind == 1 {
        LocatorView::UdpV4 { addr: address.subrange(12, 16), port: (port % 65536) as u16 }
    } else if kind == 2 {
        LocatorView::UdpV6 { addr: address, port: (port % 65536) as u16 }
    } else {
        LocatorView::Other { kind, port, address }
    }
}

/// A locator list starts at `i`: a count, then that many locators.
pub open spec fn locator_list_ok(b: Seq<u8>, i: int, le: bool) -> bool {
    i + 4 <= b.len() && i + 4 + 24 * u32_at(b, i, le) <= b.len()
}

/// The size in bytes of the locator list at `i`.
pub open spec fn locator_list_len(b: Seq<u8>, i: int, le: bool) -> int {
    4 + 24 * u32_at(b, i, le)
}

/// The locators of the list at `i`.
pub open spec fn locator_list_at(b: Seq<u8>, i: int, le: bool) -> Seq<LocatorView> {
    Seq::new(u32_at(b, i, le) as nat, |j: int| locator_at(b, i + 4 + 24 * j, le))
}

pub fn read_locator(b: &[u8], i: usize, le: bool) -> (r: Locator)
    requires
        i + 24 <= b@.len(),
    ensures
        r@ == locator_at(b@, i as int, le),
{
    let n = b.len();
    assert(i + 24 <= n);
    let kind = read_i32(b, i, le);
    let port = read_u32(b, i + 4, le);
    let a = i + 8;
    if kind == -1 {
        Locator::Invalid
    } else if kind == 0 {
        Locator::Reserved
    } else if kind == 1 {
        let addr = [b[a + 12], b[a + 13], b[a + 14], b[a + 15]];
        assert(addr@ =~= b@.subrange(i + 8, i + 24).subrange(12, 16));
        Locator::UdpV4 { addr, port: (port % 65536) as u16 }
    } else {
        let address = [
            b[a], b[a + 1], b[a + 2], b[a + 3], b[a + 4], b[a + 5], b[a + 6], b[a + 7],
            b[a + 8], b[a + 9], b[a + 10], b[a + 11], b[a + 12], b[a + 13], b[a + 14], b[a + 15],
        ];
        assert(address@ =~= b@.subrange(i + 8, i + 24));
        if kind == 2 {
            Locator::UdpV6 { addr: address, port: (port % 65536) as u16 }
        } else {
            Locator::Other { kind, port, address }
        }
    }
}

/// Reads the locator list at `i` and its size in bytes.
pub fn read_locator_list(b: &[u8], i: usize, le: bool) -> (r: (Vec<Locator>, usize))
    requires
        locator_list_ok(b@, i as int, le),
    ensures
        locator_seq_view(r.0@) == locator_list_at(b@, i as int, le),
        r.1 == locator_list_len(b@, i as int, le),
{
    let len = b.len();
    let n = read_u32(b, i, le);
    let mut out: Vec<Locator> = Vec::new();
    let mut j: u32 = 0;
    while j < n
        invariant
            len == b@.len(),
            locator_list_ok(b@, i as int, le),
            n == u32_at(b@, i as int, le),
            j <= n,
            out@.len() == j,
            forall|k: int| 0 <= k < j ==> (#[trigger] out@[k])@ == locator_at(b@, i + 4 + 24 * k, le),
        decreases n - j,
    {
        let l = read_locator(b, i + 4 + 24 * j as usize, le);
        out.push(l);
        j = j + 1;
    }
    assert(locator_seq_view(out@) =~= locator_list_at(b@, i as int, le));
    (out, 4 + 24 * n as usize)
}

/// The end of the parameter list at `i`: parameters (an id, a length and
/// that many bytes) up to and including the sentinel parameter.
pub open spec fn param_list_end(b: Seq<u8>, i: int, le: bool) -> Option<int>
    decreases b.len() - i,
{
    if i < 0 || i + 4 > b.len() {
        None
    } else if u16_at(b, i, le) == 1 {
        Some(i + 4)
    } else if i + 4 + u16_at(b, i + 2, le) > b.len() {
        None
    } else {
        param_list_end(b, i + 4 + u16_at(b, i + 2, le), le)
    }
}

/// Finds the end of the parameter list at `i`.
pub fn skip_param_list(b: &[u8], i: usize, le: bool) -> (r: Option<usize>)
    ensures
        r matches Some(e) ==> param_list_end(b@, i as int, le) == Some(e as int),
        r is None ==> param_list_end(b@, i as int, le) is None,
{
    let n = b.len();
    let mut p = i;
    while p <= n && n - p >= 4
        invariant
            n == b@.len(),
            param_list_end(b@, p as int, le) == param_list_end(b@, i as int, le),
        decreases n - p,
    {
        let pid = read_u16(b, p, le);
        if pid == 1 {
            return Some(p + 4);
        }
        let len = read_u16(b, p + 2, le) as usize;
        if n - p - 4 < len {
            return None;
        }
        p = p + 4 + len;
    }
    None
}

/// The bytes from `i` to `j`.
pub fn bytes_between(b: &[u8], i: usize, j: usize) -> (r: Vec<u8>)
    requires
        i <= j <= b@.len(),
    ensures
        r@ == b@.subrange(i as int, j as int),
{
    vstd::slice::slice_to_vec(slice_subrange(b, i, j))
}

/// Whether a sequence number set starts at `i`.
pub fn check_sn_set(b: &[u8], i: usize, le: bool) -> (r: bool)
    ensures
        r == sn_set_ok(b@, i as int, le),
{
    let n = b.len();
    if i > n || n - i < 12 {
        return false;
    }
    let num_bits = read_u32(b, i + 8, le);
    if num_bits > 256 {
        return false;
    }
    let bl = 4 * ((num_bits as usize + 31) / 32);
    if n - i - 12 < bl {
        return false;
    }
    let base = read_sn(b, i, le);
    if num_bits > 0 && base > i64::MAX - (num_bits as i64 - 1) {
        return false;
    }
    true
}

/// Whether a fragment number set starts at `i`.
pub fn check_frag_set(b: &[u8], i: usize, le: bool) -> (r: bool)
    ensures
        r == frag_set_ok(b@, i as int, le),
{
    let n = b.len();
    if i > n || n - i < 8 {
        return false;
    }
    let num_bits = read_u32(b, i + 4, le);
    if num_bits > 256 {
        return false;
    }
    let bl = 4 * ((num_bits as usize + 31) / 32);
    n - i - 8 >= bl
}

/// The size in bytes of the fragment number set at `i`.
pub fn frag_set_size(b: &[u8], i: usize, le: bool) -> (r: usize)
    requires
        frag_set_ok(b@, i as int, le),
    ensures
        r == frag_set_len(b@, i as int, le),
{
    let n = b.len();
    assert(i + 8 <= n);
    let num_bits = read_u32(b, i + 4, le);
    8 + 4 * ((num_bits as usize + 31) / 32)
}

/// Whether a locator list starts at `i`.
pub fn check_locator_list(b: &[u8], i: usize, le: bool) -> (r: bool)
    ensures
        r == locator_list_ok(b@, i as int, le),
{
    let n = b.len();
    if i > n || n - i < 4 {
        return false;
    }
    let count = read_u32(b, i, le) as usize;
    (n - i - 4) / 24 >= count
}

} // verus!
