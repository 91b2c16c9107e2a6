//! Reassembly of fragmented IPv4 datagrams.
//!
//! Fragments of a datagram are collected per (source, destination,
//! identification) until they cover the whole datagram without gaps or
//! overlaps. Partial reassemblies that linger past a time-to-live are dropped,
//! and their number is capped by evicting the oldest.

use vstd::prelude::*;
use std::time::{Duration, Instant};

verus! {

/// A partial reassembly older than this many nanoseconds is dropped.
pub const REASSEMBLY_TTL_NANOS: u64 = 30_000_000_000;

/// At most this many partial reassemblies are kept.
pub const MAX_REASSEMBLIES: usize = 4096;

/// The largest payload an IPv4 datagram can carry.
pub const MAX_IPV4_PAYLOAD: usize = 65535;

/// The fields of an IPv4 header that reassembly reads.
#[derive(Debug, Clone, Copy)]
pub struct FragmentHeader {
    pub source: [u8; 4],
    pub destination: [u8; 4],
    pub identification: u16,
    /// Offset of this fragment in 8-octet units, as carried on the wire.
    pub fragment_offset: u16,
    /// More fragments follow this one.
    pub more_fragments: bool,
}

/// The address as a big-endian number.
pub open spec fn spec_addr_value(a: [u8; 4]) -> u32 {
    (a[0] as int * 16777216 + a[1] as int * 65536 + a[2] as int * 256 + a[3] as int) as u32
}

/// A datagram is identified by its source, destination and identification.
pub open spec fn spec_key_of(h: FragmentHeader) -> (u32, u32, u16) {
    (spec_addr_value(h.source), spec_addr_value(h.destination), h.identification)
}

/// The byte offset of a fragment (the wire offset counts 8-octet units).
pub open spec fn spec_byte_offset(h: FragmentHeader) -> usize {
    (h.fragment_offset as int * 8) as usize
}

/// One received fragment: its byte offset and its bytes.
#[derive(Debug)]
pub struct Fragment {
    pub offset: usize,
    pub data: Vec<u8>,
}

/// A partially received datagram.
#[derive(Debug)]
pub struct Reassembly {
    key: (u32, u32, u16),
    /// Fragments in increasing offset order, one per offset.
    parts: Vec<Fragment>,
    /// Total datagram length; 0 until the last fragment reveals it.
    total_length: usize,
    /// When the first fragment of this datagram was seen, in nanoseconds.
    first_seen: u64,
}

/// The mathematical content of a partial reassembly.
pub struct ReassemblyModel {
    pub key: (u32, u32, u16),
    pub parts: Seq<(usize, Seq<u8>)>,
    pub total_length: usize,
    pub first_seen: u64,
}

pub open spec fn parts_model(v: Seq<Fragment>) -> Seq<(usize, Seq<u8>)> {
    Seq::new(v.len(), |i: int| (v[i].offset, v[i].data@))
}

impl Reassembly {
    pub closed spec fn model(&self) -> ReassemblyModel {
        ReassemblyModel {
            key: self.key,
            parts: parts_model(self.parts@),
            total_length: self.total_length,
            first_seen: self.first_seen,
        }
    }
}

pub open spec fn models(v: Seq<Reassembly>) -> Seq<ReassemblyModel> {
    Seq::new(v.len(), |i: int| v[i].model())
}

/// Offsets strictly increase and every fragment fits an IPv4 payload.
pub open spec fn parts_wf(s: Seq<(usize, Seq<u8>)>) -> bool {
    &&& forall|i: int, j: int| 0 <= i < j < s.len() ==> #[trigger] s[i].0 < #[trigger] s[j].0
    &&& forall|i: int| 0 <= i < s.len() ==> (#[trigger] s[i]).1.len() <= MAX_IPV4_PAYLOAD
    &&& forall|i: int| 0 <= i < s.len() ==> (#[trigger] s[i]).0 <= 65535 * 8
}

/// Storing a fragment in an offset-ordered list: a fragment whose offset is
/// already present is ignored, otherwise it is placed in order.
pub open spec fn insert_sorted(s: Seq<(usize, Seq<u8>)>, off: usize, data: Seq<u8>) -> Seq<(usize, Seq<u8>)>
    decreases s.len(),
{
    if s.len() == 0 {
        seq![(off, data)]
    } else if off < s[0].0 {
        seq![(off, data)] + s
    } else if off == s[0].0 {
        s
    } else {
        seq![s[0]] + insert_sorted(s.drop_first(), off, data)
    }
}

/// Walking the fragments from position `from`: each must start where the
/// previous one ended; the result is where the last one ends.
pub open spec fn chain_end(s: Seq<(usize, Seq<u8>)>, from: int) -> Option<int>
    decreases s.len(),
{
    if s.len() == 0 {
        Some(from)
    } else if s[0].0 == from {
        chain_end(s.drop_first(), from + s[0].1.len())
    } else {
        None
    }
}

/// The fragments cover `0..total_length` with no gap or overlap.
pub open spec fn is_complete(m: ReassemblyModel) -> bool {
    m.total_length != 0 && chain_end(m.parts, 0) == Some(m.total_length as int)
}

/// The fragments' bytes, concatenated in offset order.
pub open spec fn flatten_parts(s: Seq<(usize, Seq<u8>)>) -> Seq<u8>
    decreases s.len(),
{
    if s.len() == 0 {
        Seq::empty()
    } else {
        s[0].1 + flatten_parts(s.drop_first())
    }
}

/// The position of the reassembly for `key`, or -1 if there is none.
pub open spec fn key_pos(s: Seq<ReassemblyModel>, key: (u32, u32, u16)) -> int
    decreases s.len(),
{
    if s.len() == 0 {
        -1
    } else if s.last().key == key {
        s.len() - 1
    } else {
        key_pos(s.drop_last(), key)
    }
}

/// Records one fragment in a reassembly.
pub open spec fn record(m: ReassemblyModel, off: usize, data: Seq<u8>, more: bool) -> ReassemblyModel {
    ReassemblyModel {
        key: m.key,
        parts: insert_sorted(m.parts, off, data),
        total_length: if !more { (off + data.len()) as usize } else { m.total_length },
        first_seen: m.first_seen,
    }
}

/// The reassemblies after a fragment of `h` carrying `data` arrives at `now`.
pub open spec fn stored(s: Seq<ReassemblyModel>, h: FragmentHeader, data: Seq<u8>, now: u64) -> Seq<ReassemblyModel> {
    let key = spec_key_of(h);
    let p = key_pos(s, key);
    let off = spec_byte_offset(h);
    if p >= 0 {
        s.update(p, record(s[p], off, data, h.more_fragments))
    } else {
        s.push(record(
            ReassemblyModel { key, parts: Seq::empty(), total_length: 0, first_seen: now },
            off,
            data,
            h.more_fragments,
        ))
    }
}

/// How long ago `since` was at time `now` (zero if `since` is later).
pub open spec fn age(now: u64, since: u64) -> u64 {
    if now >= since { (now - since) as u64 } else { 0 }
}

/// The reassemblies whose age does not exceed the time-to-live.
pub open spec fn keep_fresh(s: Seq<ReassemblyModel>, now: u64) -> Seq<ReassemblyModel>
    decreases s.len(),
{
    if s.len() == 0 {
        s
    } else {
        let rest = keep_fresh(s.drop_last(), now);
        if age(now, s.last().first_seen) <= REASSEMBLY_TTL_NANOS {
            rest.push(s.last())
        } else {
            rest
        }
    }
}

/// The first position holding the oldest reassembly.
pub open spec fn oldest_index(s: Seq<ReassemblyModel>) -> int
    decreases s.len(),
{
    if s.len() <= 1 {
        0
    } else {
        let j = oldest_index(s.drop_last());
        if s.last().first_seen < s[j].first_seen { s.len() - 1 } else { j }
    }
}

/// Drops the oldest reassemblies until at most `MAX_REASSEMBLIES` remain.
pub open spec fn cap(s: Seq<ReassemblyModel>) -> Seq<ReassemblyModel>
    decreases s.len(),
{
    if s.len() <= MAX_REASSEMBLIES {
        s
    } else {
        proof {
            lemma_oldest_index_bounds(s);
        }
        cap(s.remove(oldest_index(s)))
    }
}

/// Stale reassemblies are dropped, then the count is capped.
pub open spec fn evict(s: Seq<ReassemblyModel>, now: u64) -> Seq<ReassemblyModel> {
    cap(keep_fresh(s, now))
}

pub proof fn lemma_oldest_index_bounds(s: Seq<ReassemblyModel>)
    ensures
        s.len() > 0 ==> 0 <= oldest_index(s) < s.len(),
        s.len() > 0 ==> forall|k: int| 0 <= k < s.len() ==>
            s[oldest_index(s)].first_seen <= #[trigger] s[k].first_seen,
    decreases s.len(),
{
    if s.len() > 1 {
        lemma_oldest_index_bounds(s.drop_last());
        assert forall|k: int| 0 <= k < s.len() implies
            s[oldest_index(s)].first_seen <= #[trigger] s[k].first_seen by {
            if k < s.len() - 1 {
                assert(s[k] == s.drop_last()[k]);
            }
        }
    }
}


/// An offset-ordered list, with every offset before position `j` below
/// `off` and the one at `j` (if any) at least `off`: storing the fragment
/// there gives the ordered insertion.
proof fn lemma_insert_sorted_at(s: Seq<(usize, Seq<u8>)>, off: usize, data: Seq<u8>, j: int)
    requires
        parts_wf(s),
        0 <= j <= s.len(),
        forall|k: int| 0 <= k < j ==> #[trigger] s[k].0 < off,
        j < s.len() ==> s[j].0 >= off,
    ensures
        insert_sorted(s, off, data) == if j < s.len() && s[j].0 == off {
            s
        } else {
            s.take(j) + seq![(off, data)] + s.skip(j)
        },
    decreases j,
{
    if j == 0 {
        if s.len() == 0 {
            assert(s.take(0) + seq![(off, data)] + s.skip(0) =~= seq![(off, data)]);
        } else if off < s[0].0 {
            assert(s.take(0) + seq![(off, data)] + s.skip(0) =~= seq![(off, data)] + s);
        }
    } else {
        let t = s.drop_first();
        assert forall|i: int, k: int| 0 <= i < k < t.len() implies #[trigger] t[i].0 < #[trigger] t[k].0 by {
            assert(s[i + 1].0 < s[k + 1].0);
        }
        assert forall|k: int| 0 <= k < t.len() implies (#[trigger] t[k]).1.len() <= MAX_IPV4_PAYLOAD by {
            assert(t[k] == s[k + 1]);
        }
        assert forall|k: int| 0 <= k < t.len() implies (#[trigger] t[k]).0 <= 65535 * 8 by {
            assert(t[k] == s[k + 1]);
        }
        assert forall|k: int| 0 <= k < j - 1 implies #[trigger] t[k].0 < off by {
            assert(t[k] == s[k + 1]);
        }
        lemma_insert_sorted_at(t, off, data, j - 1);
        assert(s[0].0 < off);
        if j < s.len() && s[j].0 == off {
            assert(seq![s[0]] + t =~= s);
        } else {
            assert(seq![s[0]] + (t.take(j - 1) + seq![(off, data)] + t.skip(j - 1))
                =~= s.take(j) + seq![(off, data)] + s.skip(j));
        }
    }
}

proof fn lemma_chain_step(s: Seq<(usize, Seq<u8>)>, k: int, from: int)
    requires
        0 <= k < s.len(),
        s[k].0 == from,
    ensures
        chain_end(s.skip(k), from) == chain_end(s.skip(k + 1), from + s[k].1.len()),
{
    assert(s.skip(k).drop_first() =~= s.skip(k + 1));
}

proof fn lemma_flatten_step(s: Seq<(usize, Seq<u8>)>, k: int)
    requires
        0 <= k < s.len(),
    ensures
        flatten_parts(s.skip(k)) == s[k].1 + flatten_parts(s.skip(k + 1)),
{
    assert(s.skip(k).drop_first() =~= s.skip(k + 1));
}

proof fn lemma_key_pos_take(s: Seq<ReassemblyModel>, key: (u32, u32, u16), i: int)
    requires
        0 <= i < s.len(),
    ensures
        key_pos(s.take(i + 1), key) == if s[i].key == key { i } else { key_pos(s.take(i), key) },
{
    assert(s.take(i + 1).drop_last() =~= s.take(i));
}

proof fn lemma_key_pos_range(s: Seq<ReassemblyModel>, key: (u32, u32, u16))
    ensures
        -1 <= key_pos(s, key) < s.len(),
        key_pos(s, key) >= 0 ==> s[key_pos(s, key)].key == key,
        key_pos(s, key) >= 0 ==> forall|k: int| key_pos(s, key) < k < s.len() ==> (#[trigger] s[k]).key != key,
        key_pos(s, key) < 0 ==> forall|k: int| 0 <= k < s.len() ==> (#[trigger] s[k]).key != key,
    decreases s.len(),
{
    if s.len() > 0 && s.last().key != key {
        lemma_key_pos_range(s.drop_last(), key);
        assert forall|k: int| key_pos(s, key) < k < s.len() - 1 implies (#[trigger] s[k]).key != key by {
            assert(s[k] == s.drop_last()[k]);
        }
        assert forall|k: int| 0 <= k < s.len() - 1 && key_pos(s, key) < 0 implies (#[trigger] s[k]).key != key by {
            assert(s[k] == s.drop_last()[k]);
        }
    }
}

proof fn lemma_key_pos_last(s: Seq<ReassemblyModel>, key: (u32, u32, u16), p: int)
    requires
        0 <= p < s.len(),
        s[p].key == key,
        forall|k: int| p < k < s.len() ==> (#[trigger] s[k]).key != key,
    ensures
        key_pos(s, key) == p,
    decreases s.len(),
{
    if p < s.len() - 1 {
        assert(s.last().key != key);
        assert forall|k: int| p < k < s.drop_last().len() implies (#[trigger] s.drop_last()[k]).key != key by {
            assert(s.drop_last()[k] == s[k]);
        }
        lemma_key_pos_last(s.drop_last(), key, p);
    }
}

/// The key of `h`, computed.
fn key_of(h: &FragmentHeader) -> (r: (u32, u32, u16))
    ensures
        r == spec_key_of(*h),
{
    (addr_value(h.source), addr_value(h.destination), h.identification)
}

/// The big-endian value of an IPv4 address.
fn addr_value(a: [u8; 4]) -> (r: u32)
    ensures
        r == spec_addr_value(a),
{
    a[0] as u32 * 16777216 + a[1] as u32 * 65536 + a[2] as u32 * 256 + a[3] as u32
}

/// Appends the bytes of `data` to `out`.
fn append_bytes(out: &mut Vec<u8>, data: &Vec<u8>)
    ensures
        final(out)@ == old(out)@ + data@,
{
    let n = data.len();
    let mut i: usize = 0;
    while i < n
        invariant
            n == data@.len(),
            i <= n,
            out@ == old(out)@ + data@.take(i as int),
        decreases n - i,
    {
        out.push(data[i]);
        i = i + 1;
        assert(data@.take(i as int) =~= data@.take(i - 1) + seq![data@[i - 1]]);
    }
    assert(data@.take(n as int) =~= data@);
}

/// Copies a slice into a new vector.
fn bytes_to_vec(data: &[u8]) -> (r: Vec<u8>)
    ensures
        r@ == data@,
{
    let n = data.len();
    let mut out: Vec<u8> = Vec::new();
    let mut i: usize = 0;
    while i < n
        invariant
            n == data@.len(),
            i <= n,
            out@ == data@.take(i as int),
        decreases n - i,
    {
        out.push(data[i]);
        i = i + 1;
        assert(data@.take(i as int) =~= data@.take(i - 1) + seq![data@[i - 1]]);
    }
    assert(data@.take(n as int) =~= data@);
    out
}

impl Reassembly {
    /// Fragments are ordered and bounded, and the total length is one a
    /// last fragment can reveal.
    pub open spec fn wf(&self) -> bool {
        &&& parts_wf(self.model().parts)
        &&& self.model().total_length <= 65535 * 8 + MAX_IPV4_PAYLOAD
    }

    /// Stores one fragment (ignored if its offset is already present) and,
    /// for a last fragment, records the total length.
    fn record(&mut self, off: usize, payload: &[u8], more: bool)
        requires
            old(self).wf(),
            off <= 65535 * 8,
            payload@.len() <= MAX_IPV4_PAYLOAD,
        ensures
            final(self).wf(),
            final(self).model() == record(old(self).model(), off, payload@, more),
    {
        let ghost old_parts = parts_model(self.parts@);
        let n = self.parts.len();
        let mut j: usize = 0;
        while j < n && self.parts[j].offset < off
            invariant
                n == self.parts@.len(),
                j <= n,
                old_parts == parts_model(self.parts@),
                forall|k: int| 0 <= k < j ==> #[trigger] old_parts[k].0 < off,
            decreases n - j,
        {
            j = j + 1;
        }
        proof {
            lemma_insert_sorted_at(old_parts, off, payload@, j as int);
        }
        if j < n && self.parts[j].offset == off {
            // A duplicate or retransmitted fragment: keep the first copy.
        } else {
            let data = bytes_to_vec(payload);
            self.parts.insert(j, Fragment { offset: off, data });
            proof {
                let ins = old_parts.take(j as int) + seq![(off, payload@)] + old_parts.skip(j as int);
                assert(parts_model(self.parts@) =~= ins);
                assert forall|a: int, b: int| 0 <= a < b < ins.len() implies #[trigger] ins[a].0 < #[trigger] ins[b].0 by {
                    if a < j && b > j {
                        assert(ins[b] == old_parts[b - 1]);
                    } else if a > j {
                        assert(ins[a] == old_parts[a - 1]);
                        assert(ins[b] == old_parts[b - 1]);
                    }
                }
                assert forall|a: int| 0 <= a < ins.len() implies (#[trigger] ins[a]).1.len() <= MAX_IPV4_PAYLOAD by {
                    if a > j {
                        assert(ins[a] == old_parts[a - 1]);
                    }
                }
                assert forall|a: int| 0 <= a < ins.len() implies (#[trigger] ins[a]).0 <= 65535 * 8 by {
                    if a > j {
                        assert(ins[a] == old_parts[a - 1]);
                    }
                }
            }
        }
        if !more {
            self.total_length = off + payload.len();
        }
    }

    /// Whether the fragments cover `0..total_length` with no gap or overlap.
    fn is_complete(&self) -> (r: bool)
        requires
            self.wf(),
        ensures
            r == is_complete(self.model()),
    {
        if self.total_length == 0 {
            return false;
        }
        let ghost s = parts_model(self.parts@);
        let n = self.parts.len();
        let mut expected: usize = 0;
        let mut k: usize = 0;
        assert(s.skip(0) =~= s);
        while k < n
            invariant
                n == self.parts@.len(),
                s == parts_model(self.parts@),
                parts_wf(s),
                k <= n,
                expected <= 65535 * 8 + MAX_IPV4_PAYLOAD,
                chain_end(s, 0) == chain_end(s.skip(k as int), expected as int),
            decreases n - k,
        {
            if self.parts[k].offset != expected {
                proof {
                    assert(s.skip(k as int)[0] == s[k as int]);
                }
                return false;
            }
            proof {
                lemma_chain_step(s, k as int, expected as int);
            }
            expected = expected + self.parts[k].data.len();
            k = k + 1;
        }
        proof {
            assert(s.skip(n as int).len() == 0);
        }
        expected == self.total_length
    }

    /// The fragments' bytes concatenated in offset order.
    fn assemble(&self) -> (r: Vec<u8>)
        ensures
            r@ == flatten_parts(self.model().parts),
    {
        let ghost s = parts_model(self.parts@);
        let n = self.parts.len();
        let mut out: Vec<u8> = Vec::new();
        let mut k: usize = 0;
        assert(s.skip(0) =~= s);
        while k < n
            invariant
                n == self.parts@.len(),
                s == parts_model(self.parts@),
                k <= n,
                flatten_parts(s) == out@ + flatten_parts(s.skip(k as int)),
            decreases n - k,
        {
            proof {
                lemma_flatten_step(s, k as int);
            }
            append_bytes(&mut out, &self.parts[k].data);
            k = k + 1;
        }
        proof {
            assert(s.skip(n as int).len() == 0);
            assert(out@ + Seq::<u8>::empty() =~= out@);
        }
        out
    }
}


/// Capping leaves at most `MAX_REASSEMBLIES` reassemblies.
proof fn lemma_cap_len(s: Seq<ReassemblyModel>)
    ensures
        cap(s).len() <= MAX_REASSEMBLIES,
        s.len() <= MAX_REASSEMBLIES ==> cap(s) == s,
    decreases s.len(),
{
    if s.len() > MAX_REASSEMBLIES {
        lemma_oldest_index_bounds(s);
        lemma_cap_len(s.remove(oldest_index(s)));
    }
}

/// Keeping the fresh reassemblies keeps no more than there were.
proof fn lemma_keep_fresh_len(s: Seq<ReassemblyModel>, now: u64)
    ensures
        keep_fresh(s, now).len() <= s.len(),
    decreases s.len(),
{
    if s.len() > 0 {
        lemma_keep_fresh_len(s.drop_last(), now);
    }
}

/// Storing a fragment adds at most one reassembly.
proof fn lemma_stored_len(s: Seq<ReassemblyModel>, h: FragmentHeader, data: Seq<u8>, now: u64)
    ensures
        stored(s, h, data, now).len() <= s.len() + 1,
        key_pos(stored(s, h, data, now), spec_key_of(h)) >= 0,
        key_pos(stored(s, h, data, now), spec_key_of(h)) < stored(s, h, data, now).len(),
{
    lemma_key_pos_range(s, spec_key_of(h));
    let s2 = stored(s, h, data, now);
    let p = key_pos(s, spec_key_of(h));
    if p >= 0 {
        assert(s2[p].key == spec_key_of(h));
        assert forall|k: int| p < k < s2.len() implies (#[trigger] s2[k]).key != spec_key_of(h) by {
            assert(s2[k] == s[k]);
        }
        lemma_key_pos_last(s2, spec_key_of(h), p);
    } else {
        assert(s2.last().key == spec_key_of(h));
    }
}

/// Partial reassemblies stay bounded: when at most `MAX_REASSEMBLIES` are
/// in progress before a fragment arrives, at most that many are in progress
/// after it.
pub proof fn law_reassemblies_bounded(s: Seq<ReassemblyModel>, h: FragmentHeader, data: Seq<u8>, now: u64)
    requires
        s.len() <= MAX_REASSEMBLIES,
    ensures
        process_spec(s, h, data, now).1.len() <= MAX_REASSEMBLIES,
{
    lemma_stored_len(s, h, data, now);
    let s2 = stored(s, h, data, now);
    lemma_keep_fresh_len(s2, now);
    lemma_cap_len(keep_fresh(s2, now));
}

/// No two reassemblies are for the same datagram.
pub open spec fn keys_distinct(s: Seq<ReassemblyModel>) -> bool {
    forall|i: int, j: int| 0 <= i < j < s.len() ==> (#[trigger] s[i]).key != (#[trigger] s[j]).key
}

/// Removing a reassembly keeps the keys distinct and leaves none with the
/// removed key.
proof fn lemma_remove_keeps_distinct(s: Seq<ReassemblyModel>, i: int)
    requires
        keys_distinct(s),
        0 <= i < s.len(),
    ensures
        keys_distinct(s.remove(i)),
        forall|k: int| 0 <= k < s.remove(i).len() ==> (#[trigger] s.remove(i)[k]).key != s[i].key,
{
    let t = s.remove(i);
    assert forall|a: int, b: int| 0 <= a < b < t.len() implies (#[trigger] t[a]).key != (#[trigger] t[b]).key by {
        let a2 = if a < i { a } else { a + 1 };
        let b2 = if b < i { b } else { b + 1 };
        assert(t[a] == s[a2] && t[b] == s[b2]);
    }
    assert forall|k: int| 0 <= k < t.len() implies (#[trigger] t[k]).key != s[i].key by {
        let k2 = if k < i { k } else { k + 1 };
        assert(t[k] == s[k2]);
    }
}

/// Storing a fragment keeps the keys distinct.
proof fn lemma_stored_distinct(s: Seq<ReassemblyModel>, h: FragmentHeader, data: Seq<u8>, now: u64)
    requires
        keys_distinct(s),
    ensures
        keys_distinct(stored(s, h, data, now)),
{
    lemma_key_pos_range(s, spec_key_of(h));
    let s2 = stored(s, h, data, now);
    let p = key_pos(s, spec_key_of(h));
    assert forall|a: int, b: int| 0 <= a < b < s2.len() implies (#[trigger] s2[a]).key != (#[trigger] s2[b]).key by {
        if p >= 0 {
            assert(s2[a].key == s[a].key && s2[b].key == s[b].key);
        } else if b < s.len() {
            assert(s2[a] == s[a] && s2[b] == s[b]);
        } else {
            assert(s2[a] == s[a]);
            assert(s2[b].key == spec_key_of(h));
        }
    }
}

/// Keeping the fresh reassemblies keeps some of them, keys distinct.
proof fn lemma_keep_fresh_distinct(s: Seq<ReassemblyModel>, now: u64)
    requires
        keys_distinct(s),
    ensures
        keys_distinct(keep_fresh(s, now)),
        forall|k: int| 0 <= k < keep_fresh(s, now).len()
            ==> exists|j: int| 0 <= j < s.len() && s[j] == #[trigger] keep_fresh(s, now)[k],
    decreases s.len(),
{
    if s.len() > 0 {
        let t = s.drop_last();
        assert forall|a: int, b: int| 0 <= a < b < t.len() implies (#[trigger] t[a]).key != (#[trigger] t[b]).key by {
            assert(t[a] == s[a] && t[b] == s[b]);
        }
        lemma_keep_fresh_distinct(t, now);
        let rest = keep_fresh(t, now);
        let r = keep_fresh(s, now);
        assert forall|k: int| 0 <= k < rest.len() implies (#[trigger] rest[k]).key != s.last().key by {
            let j = choose|j: int| 0 <= j < t.len() && t[j] == rest[k];
            assert(t[j] == s[j]);
        }
        assert forall|k: int| 0 <= k < r.len() implies exists|j: int| 0 <= j < s.len() && s[j] == #[trigger] r[k] by {
            if k < rest.len() {
                assert(r[k] == rest[k]);
                let j = choose|j: int| 0 <= j < t.len() && t[j] == rest[k];
                assert(s[j] == t[j]);
            } else {
                assert(r[k] == s[s.len() - 1]);
            }
        }
        assert forall|a: int, b: int| 0 <= a < b < r.len() implies (#[trigger] r[a]).key != (#[trigger] r[b]).key by {
            if b < rest.len() {
                assert(r[a] == rest[a] && r[b] == rest[b]);
            } else {
                assert(r[a] == rest[a]);
                assert(r[b] == s.last());
            }
        }
    }
}

/// Capping keeps the keys distinct.
proof fn lemma_cap_distinct(s: Seq<ReassemblyModel>)
    requires
        keys_distinct(s),
    ensures
        keys_distinct(cap(s)),
    decreases s.len(),
{
    if s.len() > MAX_REASSEMBLIES {
        lemma_oldest_index_bounds(s);
        lemma_remove_keeps_distinct(s, oldest_index(s));
        lemma_cap_distinct(s.remove(oldest_index(s)));
    }
}

/// Each datagram has at most one reassembly in progress, and once a
/// datagram is handed out, no reassembly for it is left.
pub proof fn law_completed_datagram_forgotten(s: Seq<ReassemblyModel>, h: FragmentHeader, data: Seq<u8>, now: u64)
    requires
        keys_distinct(s),
    ensures
        keys_distinct(process_spec(s, h, data, now).1),
        process_spec(s, h, data, now).0 is Some ==> forall|k: int| 0 <= k < process_spec(s, h, data, now).1.len()
            ==> (#[trigger] process_spec(s, h, data, now).1[k]).key != spec_key_of(h),
{
    lemma_stored_distinct(s, h, data, now);
    lemma_stored_len(s, h, data, now);
    let s2 = stored(s, h, data, now);
    let q = key_pos(s2, spec_key_of(h));
    lemma_key_pos_range(s2, spec_key_of(h));
    if is_complete(s2[q]) {
        lemma_remove_keeps_distinct(s2, q);
    } else {
        lemma_keep_fresh_distinct(s2, now);
        lemma_cap_distinct(keep_fresh(s2, now));
    }
}

/// Offsets strictly increase.
pub open spec fn offsets_sorted(s: Seq<(usize, Seq<u8>)>) -> bool {
    forall|i: int, j: int| 0 <= i < j < s.len() ==> #[trigger] s[i].0 < #[trigger] s[j].0
}

/// A repeated fragment is ignored: storing a fragment at an offset that a
/// stored fragment already starts at leaves the fragments as they were, so
/// retransmissions cannot corrupt a reassembly.
pub proof fn law_repeated_fragment_ignored(s: Seq<(usize, Seq<u8>)>, off: usize, data: Seq<u8>)
    requires
        offsets_sorted(s),
        exists|i: int| 0 <= i < s.len() && (#[trigger] s[i]).0 == off,
    ensures
        insert_sorted(s, off, data) == s,
    decreases s.len(),
{
    if off != s[0].0 {
        let i = choose|i: int| 0 <= i < s.len() && (#[trigger] s[i]).0 == off;
        assert(i > 0);
        assert(s[0].0 < s[i].0);
        let t = s.drop_first();
        assert(t[i - 1] == s[i]);
        assert forall|a: int, b: int| 0 <= a < b < t.len() implies #[trigger] t[a].0 < #[trigger] t[b].0 by {
            assert(t[a] == s[a + 1] && t[b] == s[b + 1]);
        }
        law_repeated_fragment_ignored(t, off, data);
        assert(seq![s[0]] + t =~= s);
    }
}

/// Fragments that chain from `from` to `e` hold `e - from` bytes.
proof fn lemma_chain_len(s: Seq<(usize, Seq<u8>)>, from: int)
    requires
        chain_end(s, from) is Some,
    ensures
        flatten_parts(s).len() == chain_end(s, from)->0 - from,
    decreases s.len(),
{
    if s.len() > 0 {
        lemma_chain_len(s.drop_first(), from + s[0].1.len());
    }
}

/// A datagram is handed out only once its fragments cover it without a gap
/// or an overlap, and then it is exactly as long as its last fragment
/// announced.
pub proof fn law_datagram_complete_when_handed_out(s: Seq<ReassemblyModel>, h: FragmentHeader, data: Seq<u8>, now: u64)
    ensures
        process_spec(s, h, data, now).0 matches Some(d) ==> {
            let s2 = stored(s, h, data, now);
            let m = s2[key_pos(s2, spec_key_of(h))];
            &&& is_complete(m)
            &&& d.len() == m.total_length
        },
{
    let s2 = stored(s, h, data, now);
    let m = s2[key_pos(s2, spec_key_of(h))];
    if is_complete(m) {
        lemma_chain_len(m.parts, 0);
    }
}

/// The result of processing one fragment, and the reassemblies afterwards:
/// the fragment is stored; a datagram it completes is handed out and its
/// reassembly dropped; otherwise stale reassemblies are evicted.
pub open spec fn process_spec(s: Seq<ReassemblyModel>, h: FragmentHeader, data: Seq<u8>, now: u64)
    -> (Option<Seq<u8>>, Seq<ReassemblyModel>)
{
    let s2 = stored(s, h, data, now);
    let q = key_pos(s2, spec_key_of(h));
    if is_complete(s2[q]) {
        (Some(flatten_parts(s2[q].parts)), s2.remove(q))
    } else {
        (None, evict(s2, now))
    }
}

pub open spec fn opt_bytes(r: Option<Vec<u8>>) -> Option<Seq<u8>> {
    match r {
        Some(v) => Some(v@),
        None => None,
    }
}

#[verifier::external_type_specification]
#[verifier::external_body]
pub struct ExInstant(Instant);

/// Calls `Instant::now`. Nothing is claimed of the moment it returns.
#[verifier::external_body]
pub(crate) fn instant_now() -> Instant {
    Instant::now()
}

/// Calls `Instant::elapsed`. Nothing is claimed of the duration it returns.
#[verifier::external_body]
pub(crate) fn instant_elapsed(origin: &Instant) -> Duration {
    origin.elapsed()
}

/// Calls `Duration::as_nanos`. Nothing is claimed of the count it returns.
#[verifier::external_body]
pub(crate) fn duration_as_nanos(d: &Duration) -> u128 {
    d.as_nanos()
}

/// Reassembles fragmented IPv4 datagrams.
pub struct PacketDecoder {
    reassemblies: Vec<Reassembly>,
    origin: Instant,
}

impl PacketDecoder {
    /// The partial reassemblies, in the order they were started.
    pub closed spec fn reassemblies(&self) -> Seq<ReassemblyModel> {
        models(self.reassemblies@)
    }

    /// Every reassembly is well formed, and no two are for the same
    /// datagram.
    pub closed spec fn wf(&self) -> bool {
        &&& forall|i: int| 0 <= i < self.reassemblies@.len() ==> (#[trigger] self.reassemblies@[i]).wf()
        &&& keys_distinct(self.reassemblies())
    }

    /// In a well-formed decoder no two reassemblies are for the same
    /// datagram.
    pub proof fn lemma_keys_distinct(&self)
        requires
            self.wf(),
        ensures
            keys_distinct(self.reassemblies()),
    {
    }

    /// A decoder with no partial reassembly.
    pub fn new() -> (r: Self)
        ensures
            r.wf(),
            r.reassemblies() == Seq::<ReassemblyModel>::empty(),
    {
        let r = PacketDecoder { reassemblies: Vec::new(), origin: instant_now() };
        assert(r.reassemblies() =~= Seq::<ReassemblyModel>::empty());
        r
    }

    /// The number of datagrams whose reassembly is in progress.
    pub fn partial_count(&self) -> (r: usize)
        ensures
            r == self.reassemblies().len(),
    {
        self.reassemblies.len()
    }

    /// Nanoseconds since this decoder was created (saturating).
    pub(crate) fn now_nanos(&self) -> u64 {
        let d = instant_elapsed(&self.origin);
        let n = duration_as_nanos(&d);
        if n > u64::MAX as u128 {
            u64::MAX
        } else {
            n as u64
        }
    }

    /// Processes one IPv4 fragment and returns the datagram's payload once
    /// all its fragments have arrived; the time of arrival is read from the
    /// clock.
    pub fn process_fragments(&mut self, h: &FragmentHeader, payload: &[u8]) -> (r: Option<Vec<u8>>)
        requires
            old(self).wf(),
            payload@.len() <= MAX_IPV4_PAYLOAD,
        ensures
            final(self).wf(),
            exists|now: u64| (opt_bytes(r), final(self).reassemblies())
                == process_spec(old(self).reassemblies(), *h, payload@, now),
            keys_distinct(final(self).reassemblies()),
            r is Some ==> forall|k: int| 0 <= k < final(self).reassemblies().len()
                ==> (#[trigger] final(self).reassemblies()[k]).key != spec_key_of(*h),
    {
        let now = self.now_nanos();
        self.process_fragments_at(h, payload, now)
    }

    /// Processes one IPv4 fragment arriving at time `now` (nanoseconds) and
    /// returns the datagram's payload once all its fragments have arrived.
    pub fn process_fragments_at(&mut self, h: &FragmentHeader, payload: &[u8], now: u64) -> (r: Option<Vec<u8>>)
        requires
            old(self).wf(),
            payload@.len() <= MAX_IPV4_PAYLOAD,
        ensures
            final(self).wf(),
            (opt_bytes(r), final(self).reassemblies())
                == process_spec(old(self).reassemblies(), *h, payload@, now),
            keys_distinct(final(self).reassemblies()),
            r is Some ==> forall|k: int| 0 <= k < final(self).reassemblies().len()
                ==> (#[trigger] final(self).reassemblies()[k]).key != spec_key_of(*h),
    {
        proof {
            law_completed_datagram_forgotten(old(self).reassemblies(), *h, payload@, now);
        }
        let key = key_of(h);
        let off: usize = h.fragment_offset as usize * 8;
        let ghost s0 = self.reassemblies();
        let ghost s2 = stored(s0, *h, payload@, now);
        let n = self.reassemblies.len();
        let pos = self.find(key);
        proof {
            lemma_key_pos_range(s0, key);
        }
        let q: usize = match pos {
            Some(p) => {
                let mut entry = self.reassemblies.remove(p);
                entry.record(off, payload, h.more_fragments);
                self.reassemblies.insert(p, entry);
                proof {
                    assert(self.reassemblies() =~= s2);
                    assert forall|k: int| p < k < s2.len() implies (#[trigger] s2[k]).key != key by {
                        assert(s2[k] == s0[k]);
                    }
                    lemma_key_pos_last(s2, key, p as int);
                }
                p
            },
            None => {
                let mut entry = Reassembly { key, parts: Vec::new(), total_length: 0, first_seen: now };
                assert(parts_model(entry.parts@) =~= Seq::<(usize, Seq<u8>)>::empty());
                entry.record(off, payload, h.more_fragments);
                self.reassemblies.push(entry);
                proof {
                    assert(self.reassemblies() =~= s2);
                    assert(s2.drop_last() =~= s0);
                }
                n
            },
        };
        assert(self.wf()) by {
            assert forall|i: int| 0 <= i < self.reassemblies@.len() implies (#[trigger] self.reassemblies@[i]).wf() by {
                if i != q {
                    if pos.is_some() {
                        assert(self.reassemblies@[i] == old(self).reassemblies@[i]);
                    } else {
                        assert(self.reassemblies@[i] == old(self).reassemblies@[i]);
                    }
                }
            }
        }
        if self.reassemblies[q].is_complete() {
            let entry = self.reassemblies.remove(q);
            proof {
                assert(self.reassemblies() =~= s2.remove(q as int));
                assert(entry.model() == s2[q as int]);
            }
            let out = entry.assemble();
            Some(out)
        } else {
            self.evict_stale(now);
            None
        }
    }

    /// The position of the reassembly for `key`, searching from the newest.
    fn find(&self, key: (u32, u32, u16)) -> (r: Option<usize>)
        ensures
            match r {
                Some(i) => i == key_pos(self.reassemblies(), key),
                None => key_pos(self.reassemblies(), key) == -1,
            },
    {
        let ghost s = self.reassemblies();
        let mut i: usize = self.reassemblies.len();
        assert(s.take(i as int) =~= s);
        while i > 0
            invariant
                s == self.reassemblies(),
                i <= s.len(),
                key_pos(s, key) == key_pos(s.take(i as int), key),
            decreases i,
        {
            let e = &self.reassemblies[i - 1];
            proof {
                lemma_key_pos_take(s, key, i - 1);
                assert(s[i - 1].key == e.key);
            }
            if e.key.0 == key.0 && e.key.1 == key.1 && e.key.2 == key.2 {
                return Some(i - 1);
            }
            i = i - 1;
        }
        None
    }

    /// Drops reassemblies older than the time-to-live, then evicts the oldest
    /// until at most `MAX_REASSEMBLIES` remain.
    fn evict_stale(&mut self, now: u64)
        requires
            old(self).wf(),
        ensures
            final(self).wf(),
            final(self).reassemblies() == evict(old(self).reassemblies(), now),
    {
        let ghost s = self.reassemblies();
        let mut i: usize = 0;
        let mut k: usize = 0;
        let n = self.reassemblies.len();
        assert(s.take(0) =~= Seq::<ReassemblyModel>::empty());
        assert(s.skip(0) =~= s);
        while k < n
            invariant
                n == s.len(),
                k <= n,
                i <= k,
                self.wf(),
                self.reassemblies() == keep_fresh(s.take(k as int), now) + s.skip(k as int),
                keep_fresh(s.take(k as int), now).len() == i,
                self.reassemblies@.len() == i + (n - k),
            decreases n - k,
        {
            assert(s.take(k + 1).drop_last() =~= s.take(k as int));
            assert(s.take(k + 1).last() == s[k as int]);
            assert(self.reassemblies()[i as int] == s[k as int]);
            assert(self.reassemblies@[i as int].model() == s[k as int]);
            if age_of(now, self.reassemblies[i].first_seen) <= REASSEMBLY_TTL_NANOS {
                i = i + 1;
                proof {
                    assert(keep_fresh(s.take(k + 1), now) =~= keep_fresh(s.take(k as int), now).push(s[k as int]));
                    assert(self.reassemblies() =~= keep_fresh(s.take(k + 1), now) + s.skip(k + 1));
                }
            } else {
                let ghost before = self.reassemblies@;
                self.reassemblies.remove(i);
                proof {
                    assert forall|j: int| 0 <= j < self.reassemblies@.len() implies (#[trigger] self.reassemblies@[j]).wf() by {
                        if j < i {
                            assert(self.reassemblies@[j] == before[j]);
                        } else {
                            assert(self.reassemblies@[j] == before[j + 1]);
                        }
                    }
                    assert(keep_fresh(s.take(k + 1), now) == keep_fresh(s.take(k as int), now));
                    assert(self.reassemblies() =~= models(before).remove(i as int));
                    assert(models(before).remove(i as int) =~= keep_fresh(s.take(k + 1), now) + s.skip(k + 1));
                }
            }
            k = k + 1;
        }
        assert(s.take(n as int) =~= s);
        assert(self.reassemblies() =~= keep_fresh(s, now));
        let ghost fresh = self.reassemblies();
        while self.reassemblies.len() > MAX_REASSEMBLIES
            invariant
                self.wf(),
                cap(self.reassemblies()) == cap(fresh),
            decreases self.reassemblies@.len(),
        {
            let idx = self.oldest();
            let ghost before = self.reassemblies@;
            self.reassemblies.remove(idx);
            proof {
                assert(self.reassemblies() =~= models(before).remove(idx as int));
                assert forall|j: int| 0 <= j < self.reassemblies@.len() implies (#[trigger] self.reassemblies@[j]).wf() by {
                    if j < idx {
                        assert(self.reassemblies@[j] == before[j]);
                    } else {
                        assert(self.reassemblies@[j] == before[j + 1]);
                    }
                }
            }
        }
    }

    /// The first position holding the oldest reassembly.
    fn oldest(&self) -> (r: usize)
        requires
            self.reassemblies@.len() > 0,
        ensures
            r == oldest_index(self.reassemblies()),
            r < self.reassemblies@.len(),
    {
        let ghost s = self.reassemblies();
        let n = self.reassemblies.len();
        let mut best: usize = 0;
        let mut k: usize = 1;
        assert(s.take(1).len() == 1);
        while k < n
            invariant
                s == self.reassemblies(),
                n == s.len(),
                1 <= k <= n,
                best < k,
                best == oldest_index(s.take(k as int)),
            decreases n - k,
        {
            assert(s.take(k + 1).drop_last() =~= s.take(k as int));
            assert(s.take(k + 1)[best as int] == s[best as int]);
            if self.reassemblies[k].first_seen < self.reassemblies[best].first_seen {
                best = k;
            }
            k = k + 1;
        }
        assert(s.take(n as int) =~= s);
        best
    }
}

/// How long ago `since` was at time `now` (zero if `since` is later).
fn age_of(now: u64, since: u64) -> (r: u64)
    ensures
        r == age(now, since),
{
    if now >= since {
        now - since
    } else {
        0
    }
}

} // verus!
