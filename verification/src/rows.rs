//! The rows of the dashboard tables, built from the traffic state: one row
//! per participant, writer, reader, topic or report, in a fixed order.
//! Rates are handed over as the sum of the values in the window and the
//! window's length; turning them into per-second figures is up to the
//! caller.

use vstd::prelude::*;
use vstd::utf8::{encode_utf8, encode_utf8_decode_utf8};
use crate::guid::{Guid, GuidPrefix};
use crate::display::locator_text;
use crate::guid::Locator;
use crate::state::{locators_view, ParticipantView, TopicView, ReaderState, ReaderView, State, StateView, WriterState, WriterView};
use crate::state::{abnormalities_view, Abnormality, Statistics};
use crate::state_cleanup::{sort_desc, sort_newest_first, sorted_desc};
use crate::text::{dec_string, push_decimal, push_str, to_owned_string};
use crate::timed_stat::sum_values;
use crate::vecmap::{keys_unique, Inv, MapKey};

verus! {

/// `a` comes before `b` in byte-wise lexicographic order (a proper prefix
/// comes first).
pub open spec fn bytes_lt(a: Seq<u8>, b: Seq<u8>) -> bool
    decreases a.len(),
{
    if a.len() == 0 {
        b.len() > 0
    } else if b.len() == 0 {
        false
    } else if a[0] != b[0] {
        a[0] < b[0]
    } else {
        bytes_lt(a.drop_first(), b.drop_first())
    }
}

/// The order is strict: nothing comes before itself.
pub proof fn lemma_bytes_lt_irreflexive(a: Seq<u8>)
    ensures
        !bytes_lt(a, a),
    decreases a.len(),
{
    if a.len() > 0 {
        lemma_bytes_lt_irreflexive(a.drop_first());
    }
}

/// The order is transitive.
pub proof fn lemma_bytes_lt_transitive(a: Seq<u8>, b: Seq<u8>, c: Seq<u8>)
    requires
        bytes_lt(a, b),
        bytes_lt(b, c),
    ensures
        bytes_lt(a, c),
    decreases a.len(),
{
    if a.len() > 0 && b.len() > 0 && c.len() > 0 && a[0] == b[0] && b[0] == c[0] {
        lemma_bytes_lt_transitive(a.drop_first(), b.drop_first(), c.drop_first());
    }
}

/// The order is total: of two different sequences, one comes first.
pub proof fn lemma_bytes_lt_total(a: Seq<u8>, b: Seq<u8>)
    requires
        a != b,
    ensures
        bytes_lt(a, b) || bytes_lt(b, a),
    decreases a.len(),
{
    if a.len() > 0 && b.len() > 0 && a[0] == b[0] {
        if a.drop_first() == b.drop_first() {
            assert(a =~= seq![a[0]] + a.drop_first());
            assert(b =~= seq![b[0]] + b.drop_first());
        }
        lemma_bytes_lt_total(a.drop_first(), b.drop_first());
    } else if a.len() == 0 && b.len() == 0 {
        assert(a =~= b);
    }
}

/// Whether `a` comes before `b` in byte-wise lexicographic order.
pub fn bytes_less(a: &[u8], b: &[u8]) -> (r: bool)
    ensures
        r == bytes_lt(a@, b@),
{
    let n = a.len();
    let m = b.len();
    let mut i: usize = 0;
    assert(a@.skip(0) =~= a@ && b@.skip(0) =~= b@);
    while i < n && i < m
        invariant
            n == a@.len(),
            m == b@.len(),
            i <= n,
            i <= m,
            bytes_lt(a@, b@) == bytes_lt(a@.skip(i as int), b@.skip(i as int)),
        decreases n - i,
    {
        if a[i] != b[i] {
            return a[i] < b[i];
        }
        proof {
            assert(a@.skip(i as int).drop_first() =~= a@.skip(i + 1));
            assert(b@.skip(i as int).drop_first() =~= b@.skip(i + 1));
        }
        i = i + 1;
    }
    i < m
}

/// A row with a sort key.
pub trait RowKey: Sized {
    /// The bytes the row is ordered by.
    spec fn key(&self) -> Seq<u8>;

    /// Whether this row comes before `other`.
    fn key_less(&self, other: &Self) -> (r: bool)
        ensures
            r == bytes_lt(self.key(), other.key());
}

/// The rows are in strictly increasing key order.
pub open spec fn strictly_sorted<T: RowKey>(s: Seq<T>) -> bool {
    forall|i: int, j: int| 0 <= i < j < s.len() ==> bytes_lt((#[trigger] s[i]).key(), (#[trigger] s[j]).key())
}

/// Inserts `item` into rows in strictly increasing key order, where no row
/// has its key yet, and says where it went.
pub fn insert_sorted<T: RowKey>(v: &mut Vec<T>, item: T) -> (p: usize)
    requires
        strictly_sorted(old(v)@),
        forall|i: int| 0 <= i < old(v)@.len() ==> (#[trigger] old(v)@[i]).key() != item.key(),
    ensures
        p <= old(v)@.len(),
        final(v)@ == old(v)@.insert(p as int, item),
        strictly_sorted(final(v)@),
{
    let n = v.len();
    let mut p: usize = 0;
    let mut found = false;
    while p < n && !found
        invariant
            n == v@.len(),
            p <= n,
            strictly_sorted(v@),
            forall|i: int| 0 <= i < n ==> (#[trigger] v@[i]).key() != item.key(),
            forall|i: int| 0 <= i < p ==> bytes_lt((#[trigger] v@[i]).key(), item.key()),
            found ==> p < n && bytes_lt(item.key(), v@[p as int].key()),
        decreases n - p + (if found { 0int } else { 1int }),
    {
        if item.key_less(&v[p]) {
            found = true;
        } else {
            proof {
                lemma_bytes_lt_total(v@[p as int].key(), item.key());
            }
            p = p + 1;
        }
    }
    let ghost before = v@;
    proof {
        assert forall|j: int| p <= j < n implies bytes_lt(item.key(), (#[trigger] before[j]).key()) by {
            if j > p {
                lemma_bytes_lt_transitive(item.key(), before[p as int].key(), before[j].key());
            }
        }
    }
    v.insert(p, item);
    proof {
        let s = v@;
        assert forall|i: int, j: int| 0 <= i < j < s.len() implies bytes_lt((#[trigger] s[i]).key(), (#[trigger] s[j]).key()) by {
            if j < p {
                assert(s[i] == before[i] && s[j] == before[j]);
            } else if j == p {
                assert(s[i] == before[i]);
            } else if i < p {
                assert(s[i] == before[i] && s[j] == before[j - 1]);
                lemma_bytes_lt_transitive(before[i].key(), item.key(), before[j - 1].key());
            } else if i == p {
                assert(s[j] == before[j - 1]);
            } else {
                assert(s[i] == before[i - 1] && s[j] == before[j - 1]);
            }
        }
    }
    p
}

/// The bytes a GUID is ordered by: its prefix, its entity key and its kind.
pub open spec fn guid_key(g: (Seq<u8>, (Seq<u8>, u8))) -> Seq<u8> {
    g.0 + g.1.0 + seq![g.1.1]
}

/// The 16 bytes of a GUID.
pub fn guid_bytes(g: &Guid) -> (r: [u8; 16])
    ensures
        r@ == guid_key(g@),
{
    let p = g.prefix.bytes;
    let k = g.entity_id.entity_key;
    let r = [
        p[0], p[1], p[2], p[3], p[4], p[5], p[6], p[7], p[8], p[9], p[10], p[11],
        k[0], k[1], k[2], g.entity_id.entity_kind,
    ];
    assert(r@ =~= guid_key(g@));
    r
}

/// GUIDs with the same bytes are the same GUID.
pub proof fn lemma_guid_key_injective(a: (Seq<u8>, (Seq<u8>, u8)), b: (Seq<u8>, (Seq<u8>, u8)))
    requires
        a.0.len() == 12,
        b.0.len() == 12,
        a.1.0.len() == 3,
        b.1.0.len() == 3,
        guid_key(a) == guid_key(b),
    ensures
        a == b,
{
    assert(a.0 =~= guid_key(a).subrange(0, 12));
    assert(b.0 =~= guid_key(b).subrange(0, 12));
    assert(a.1.0 =~= guid_key(a).subrange(12, 15));
    assert(b.1.0 =~= guid_key(b).subrange(12, 15));
    assert(a.1.1 == guid_key(a)[15]);
    assert(b.1.1 == guid_key(b)[15]);
}

/// The rate figures of a statistic: the sum of the values in its window,
/// and the window's length in nanoseconds.
pub type RateSum = (u128, i64);

/// A row of the writers table.
#[derive(Debug)]
pub struct WriterRow {
    pub guid: Guid,
    pub last_sn: Option<i64>,
    pub message_count: usize,
    pub message_rate: RateSum,
    pub byte_count: usize,
    pub bit_rate: RateSum,
    /// How many messages wait for fragments; `None` when none does.
    pub fragmented_messages: Option<usize>,
    /// The first and last sequence numbers of the latest heartbeat.
    pub heartbeat_range: Option<(i64, i64)>,
    pub data_type: Option<String>,
    pub topic_name: Option<String>,
}

/// The content of a [`WriterRow`].
pub struct WriterRowView {
    pub guid: (Seq<u8>, (Seq<u8>, u8)),
    pub last_sn: Option<i64>,
    pub message_count: usize,
    pub message_rate: (int, i64),
    pub byte_count: usize,
    pub bit_rate: (int, i64),
    pub fragmented_messages: Option<usize>,
    pub heartbeat_range: Option<(i64, i64)>,
    pub data_type: Option<Seq<char>>,
    pub topic_name: Option<Seq<char>>,
}

/// The content of an optional string.
pub open spec fn opt_text(t: Option<String>) -> Option<Seq<char>> {
    match t {
        Some(x) => Some(x@),
        None => None,
    }
}

impl View for WriterRow {
    type V = WriterRowView;

    open spec fn view(&self) -> WriterRowView {
        WriterRowView {
            guid: self.guid@,
            last_sn: self.last_sn,
            message_count: self.message_count,
            message_rate: (self.message_rate.0 as int, self.message_rate.1),
            byte_count: self.byte_count,
            bit_rate: (self.bit_rate.0 as int, self.bit_rate.1),
            fragmented_messages: self.fragmented_messages,
            heartbeat_range: self.heartbeat_range,
            data_type: opt_text(self.data_type),
            topic_name: opt_text(self.topic_name),
        }
    }
}

impl RowKey for WriterRow {
    open spec fn key(&self) -> Seq<u8> {
        guid_key(self.guid@)
    }

    fn key_less(&self, other: &Self) -> (r: bool) {
        let a = guid_bytes(&self.guid);
        let b = guid_bytes(&other.guid);
        bytes_less(a.as_slice(), b.as_slice())
    }
}

/// The row of writer `g` whose state is `w`.
pub open spec fn writer_row(g: (Seq<u8>, (Seq<u8>, u8)), w: WriterView) -> WriterRowView {
    WriterRowView {
        guid: g,
        last_sn: w.last_sn,
        message_count: w.total_msg_count,
        message_rate: (sum_values(w.msg_rate_stat.entries), w.msg_rate_stat.window),
        byte_count: w.total_byte_count,
        bit_rate: (sum_values(w.bit_rate_stat.entries), w.bit_rate_stat.window),
        fragmented_messages: if w.frag_messages.dom().len() == 0 {
            None
        } else {
            Some(w.frag_messages.dom().len() as usize)
        },
        heartbeat_range: match w.heartbeat {
            Some(h) => Some((h.first_sn, h.last_sn)),
            None => None,
        },
        data_type: match w.data {
            Some(d) => Some(d.data_type),
            None => None,
        },
        topic_name: match w.data {
            Some(d) => Some(d.topic_name),
            None => None,
        },
    }
}

/// The GUID of every writer of state `s`.
pub open spec fn writer_guids(s: StateView) -> Set<(Seq<u8>, (Seq<u8>, u8))> {
    Set::new(|g: (Seq<u8>, (Seq<u8>, u8))| s.participants.contains_key(g.0) && s.participants[g.0].writers.contains_key(g.1))
}

/// A copy of an optional string.
fn copy_text(t: Option<&String>) -> (r: Option<String>)
    ensures
        match t {
            Some(x) => r matches Some(y) && y@ == x@,
            None => r is None,
        },
{
    match t {
        Some(x) => Some(x.clone()),
        None => None,
    }
}

/// The row of writer `g`.
fn make_writer_row(g: Guid, w: &WriterState) -> (r: WriterRow)
    requires
        w.inv(),
    ensures
        r@ == writer_row(g@, w@),
{
    let n = w.frag_messages.len();
    proof {
        w.frag_messages.lemma_len();
    }
    WriterRow {
        guid: g,
        last_sn: w.last_sn,
        message_count: w.total_msg_count,
        message_rate: (w.msg_rate_stat.sum(), w.msg_rate_stat.window()),
        byte_count: w.total_byte_count,
        bit_rate: (w.bit_rate_stat.sum(), w.bit_rate_stat.window()),
        fragmented_messages: if n == 0 { None } else { Some(n) },
        heartbeat_range: match w.heartbeat {
            Some(h) => Some((h.first_sn, h.last_sn)),
            None => None,
        },
        data_type: copy_text(w.data_type()),
        topic_name: copy_text(w.topic_name()),
    }
}

/// The rows of the writers table: one per writer of the state, in GUID
/// order (prefix bytes, then entity key, then kind).
#[verifier::spinoff_prover]
#[verifier::rlimit(40)]
pub fn writer_rows(state: &State) -> (r: Vec<WriterRow>)
    requires
        state.wf(),
    ensures
        strictly_sorted(r@),
        forall|k: int| 0 <= k < r@.len() ==> writer_guids(state@).contains(#[trigger] r@[k].guid@),
        forall|k: int| 0 <= k < r@.len() ==> (#[trigger] r@[k])@ == writer_row(
            r@[k].guid@,
            state@.participants[r@[k].guid@.0].writers[r@[k].guid@.1],
        ),
        forall|g: (Seq<u8>, (Seq<u8>, u8))| #[trigger] writer_guids(state@).contains(g)
            ==> exists|k: int| 0 <= k < r@.len() && r@[k].guid@ == g,
{
    let parts = &state.participants;
    let ghost pe = parts.entries();
    proof {
        parts.lemma_view();
        parts.lemma_keys_unique();
        parts.lemma_values_inv();
    }
    let n = parts.len();
    let mut out: Vec<WriterRow> = Vec::new();
    let mut i: usize = 0;
    while i < n
        invariant
            state.wf(),
            parts == &state.participants,
            pe == parts.entries(),
            n == pe.len(),
            i <= n,
            keys_unique(pe),
            forall|m: Seq<u8>| #[trigger] parts@.contains_key(m)
                <==> exists|x: int| 0 <= x < pe.len() && (#[trigger] pe[x]).0.model() == m,
            forall|x: int| 0 <= x < pe.len() ==> parts@[(#[trigger] pe[x]).0.model()] == pe[x].1@,
            forall|x: int| 0 <= x < pe.len() ==> (#[trigger] pe[x]).1.inv(),
            strictly_sorted(out@),
            forall|k: int| 0 <= k < out@.len() ==> writer_guids(state@).contains(#[trigger] out@[k].guid@),
            forall|k: int| 0 <= k < out@.len() ==> (#[trigger] out@[k])@ == writer_row(
                out@[k].guid@,
                state@.participants[out@[k].guid@.0].writers[out@[k].guid@.1],
            ),
            forall|k: int| 0 <= k < out@.len() ==> exists|x: int| 0 <= x < i && (#[trigger] pe[x]).0.model() == (#[trigger] out@[k]).guid@.0,
            forall|x: int, e: (Seq<u8>, u8)| 0 <= x < i && #[trigger] pe[x].1@.writers.contains_key(e)
                ==> exists|k: int| 0 <= k < out@.len() && (#[trigger] out@[k]).guid@ == (pe[x].0.model(), e),
        decreases n - i,
    {
        let pk = parts.key_at(i);
        let part = parts.value_at(i);
        let ws = &part.writers;
        let ghost we = ws.entries();
        proof {
            assert(pe[i as int].1.inv());
            ws.lemma_view();
            ws.lemma_keys_unique();
            ws.lemma_values_inv();
            assert(parts@[pk@] == part@);
        }
        let m = ws.len();
        let mut j: usize = 0;
        while j < m
            invariant
                state.wf(),
                parts == &state.participants,
                pe == parts.entries(),
                n == pe.len(),
                i < n,
                *pk == pe[i as int].0,
                *part == pe[i as int].1,
                ws == &part.writers,
                we == ws.entries(),
                m == we.len(),
                j <= m,
                keys_unique(pe),
                keys_unique(we),
                parts@.contains_key(pk@),
                parts@[pk@] == part@,
                forall|e: (Seq<u8>, u8)| #[trigger] ws@.contains_key(e)
                    <==> exists|y: int| 0 <= y < we.len() && (#[trigger] we[y]).0.model() == e,
                forall|y: int| 0 <= y < we.len() ==> ws@[(#[trigger] we[y]).0.model()] == we[y].1@,
                forall|y: int| 0 <= y < we.len() ==> (#[trigger] we[y]).1.inv(),
                forall|m: Seq<u8>| #[trigger] parts@.contains_key(m)
                    <==> exists|x: int| 0 <= x < pe.len() && (#[trigger] pe[x]).0.model() == m,
                forall|x: int| 0 <= x < pe.len() ==> parts@[(#[trigger] pe[x]).0.model()] == pe[x].1@,
                forall|x: int| 0 <= x < pe.len() ==> (#[trigger] pe[x]).1.inv(),
                strictly_sorted(out@),
                forall|k: int| 0 <= k < out@.len() ==> writer_guids(state@).contains(#[trigger] out@[k].guid@),
                forall|k: int| 0 <= k < out@.len() ==> (#[trigger] out@[k])@ == writer_row(
                    out@[k].guid@,
                    state@.participants[out@[k].guid@.0].writers[out@[k].guid@.1],
                ),
                forall|k: int| 0 <= k < out@.len() ==>
                    (exists|x: int| 0 <= x < i && (#[trigger] pe[x]).0.model() == (#[trigger] out@[k]).guid@.0)
                    || (out@[k].guid@.0 == pk@
                        && exists|y: int| 0 <= y < j && (#[trigger] we[y]).0.model() == out@[k].guid@.1),
                forall|x: int, e: (Seq<u8>, u8)| 0 <= x < i && #[trigger] pe[x].1@.writers.contains_key(e)
                    ==> exists|k: int| 0 <= k < out@.len() && (#[trigger] out@[k]).guid@ == (pe[x].0.model(), e),
                forall|y: int| 0 <= y < j ==> exists|k: int| 0 <= k < out@.len()
                    && (#[trigger] out@[k]).guid@ == (pk@, (#[trigger] we[y]).0.model()),
            decreases m - j,
        {
            let ek = ws.key_at(j);
            let w = ws.value_at(j);
            let g = Guid::new(*pk, *ek);
            proof {
                assert(we[j as int].1.inv());
                assert(ws@.contains_key(ek@));
                assert(ws@[ek@] == w@);
            }
            let row = make_writer_row(g, w);
            let ghost before = out@;
            proof {
                assert forall|k: int| 0 <= k < before.len() implies (#[trigger] before[k]).key() != row.key() by {
                    if before[k].guid@ == g@ {
                        if exists|x: int| 0 <= x < i && (#[trigger] pe[x]).0.model() == before[k].guid@.0 {
                            let x = choose|x: int| 0 <= x < i && (#[trigger] pe[x]).0.model() == before[k].guid@.0;
                            assert(pe[x].0.model() != pe[i as int].0.model());
                        } else {
                            let y = choose|y: int| 0 <= y < j && (#[trigger] we[y]).0.model() == before[k].guid@.1;
                            assert(we[y].0.model() != we[j as int].0.model());
                        }
                    } else if before[k].key() == row.key() {
                        lemma_guid_key_injective(before[k].guid@, g@);
                    }
                }
            }
            let p = insert_sorted(&mut out, row);
            proof {
                let s = out@;
                assert(s[p as int] == row);
                assert forall|k: int| 0 <= k < s.len() implies
                    (s[k] == row || exists|k0: int| 0 <= k0 < before.len() && before[k0] == #[trigger] s[k]) by {
                    if k < p {
                        assert(s[k] == before[k]);
                    } else if k > p {
                        assert(s[k] == before[k - 1]);
                    }
                }
                assert forall|k0: int| 0 <= k0 < before.len() implies exists|k: int| 0 <= k < s.len() && s[k] == #[trigger] before[k0] by {
                    if k0 < p {
                        assert(s[k0] == before[k0]);
                    } else {
                        assert(s[k0 + 1] == before[k0]);
                    }
                }
                assert(writer_guids(state@).contains(g@));
            }
            j = j + 1;
        }
        proof {
            assert forall|x: int, e: (Seq<u8>, u8)| 0 <= x < i + 1 && #[trigger] pe[x].1@.writers.contains_key(e)
                implies exists|k: int| 0 <= k < out@.len() && (#[trigger] out@[k]).guid@ == (pe[x].0.model(), e) by {
                if x == i {
                    let y = choose|y: int| 0 <= y < we.len() && (#[trigger] we[y]).0.model() == e;
                    assert(exists|k: int| 0 <= k < out@.len() && (#[trigger] out@[k]).guid@ == (pk@, we[y].0.model()));
                }
            }
        }
        i = i + 1;
    }
    proof {
        assert forall|g: (Seq<u8>, (Seq<u8>, u8))| #[trigger] writer_guids(state@).contains(g)
            implies exists|k: int| 0 <= k < out@.len() && out@[k].guid@ == g by {
            let x = choose|x: int| 0 <= x < pe.len() && (#[trigger] pe[x]).0.model() == g.0;
            assert(pe[x].1@.writers.contains_key(g.1));
        }
    }
    out
}


/// A row of the readers table.
#[derive(Debug)]
pub struct ReaderRow {
    pub guid: Guid,
    pub last_sn: Option<i64>,
    /// The sequence numbers the latest ACKNACK asked for.
    pub missing_sn: Option<Vec<i64>>,
    pub acknack_count: usize,
    pub acknack_rate: RateSum,
    pub data_type: Option<String>,
    pub topic_name: Option<String>,
}

/// The content of a [`ReaderRow`].
pub struct ReaderRowView {
    pub guid: (Seq<u8>, (Seq<u8>, u8)),
    pub last_sn: Option<i64>,
    pub missing_sn: Option<Seq<i64>>,
    pub acknack_count: usize,
    pub acknack_rate: (int, i64),
    pub data_type: Option<Seq<char>>,
    pub topic_name: Option<Seq<char>>,
}

impl View for ReaderRow {
    type V = ReaderRowView;

    open spec fn view(&self) -> ReaderRowView {
        ReaderRowView {
            guid: self.guid@,
            last_sn: self.last_sn,
            missing_sn: match self.missing_sn {
                Some(v) => Some(v@),
                None => None,
            },
            acknack_count: self.acknack_count,
            acknack_rate: (self.acknack_rate.0 as int, self.acknack_rate.1),
            data_type: opt_text(self.data_type),
            topic_name: opt_text(self.topic_name),
        }
    }
}

impl RowKey for ReaderRow {
    open spec fn key(&self) -> Seq<u8> {
        guid_key(self.guid@)
    }

    fn key_less(&self, other: &Self) -> (r: bool) {
        let a = guid_bytes(&self.guid);
        let b = guid_bytes(&other.guid);
        bytes_less(a.as_slice(), b.as_slice())
    }
}

/// The row of reader `g` whose state is `d`.
pub open spec fn reader_row(g: (Seq<u8>, (Seq<u8>, u8)), d: ReaderView) -> ReaderRowView {
    ReaderRowView {
        guid: g,
        last_sn: d.last_sn,
        missing_sn: match d.acknack {
            Some(a) => Some(a.missing_sn),
            None => None,
        },
        acknack_count: d.total_acknack_count,
        acknack_rate: (sum_values(d.acknack_rate_stat.entries), d.acknack_rate_stat.window),
        data_type: match d.data {
            Some(x) => Some(x.data_type),
            None => None,
        },
        topic_name: match d.data {
            Some(x) => Some(x.topic_name),
            None => None,
        },
    }
}

/// The GUID of every reader of state `s`.
pub open spec fn reader_guids(s: StateView) -> Set<(Seq<u8>, (Seq<u8>, u8))> {
    Set::new(|g: (Seq<u8>, (Seq<u8>, u8))| s.participants.contains_key(g.0) && s.participants[g.0].readers.contains_key(g.1))
}

/// A copy of a list of sequence numbers.
fn copy_sns(v: &Vec<i64>) -> (r: Vec<i64>)
    ensures
        r@ == v@,
{
    let n = v.len();
    let mut out: Vec<i64> = Vec::new();
    let mut i: usize = 0;
    while i < n
        invariant
            n == v@.len(),
            i <= n,
            out@ == v@.take(i as int),
        decreases n - i,
    {
        out.push(v[i]);
        i = i + 1;
        assert(v@.take(i as int) =~= v@.take(i - 1).push(v@[i - 1]));
    }
    assert(v@.take(n as int) =~= v@);
    out
}

/// The row of reader `g`.
fn make_reader_row(g: Guid, d: &ReaderState) -> (r: ReaderRow)
    requires
        d.inv(),
    ensures
        r@ == reader_row(g@, d@),
{
    ReaderRow {
        guid: g,
        last_sn: d.last_sn,
        missing_sn: match &d.acknack {
            Some(a) => Some(copy_sns(&a.missing_sn)),
            None => None,
        },
        acknack_count: d.total_acknack_count,
        acknack_rate: (d.acknack_rate_stat.sum(), d.acknack_rate_stat.window()),
        data_type: copy_text(d.data_type()),
        topic_name: copy_text(d.topic_name()),
    }
}

/// The rows of the readers table: one per reader of the state, in GUID
/// order (prefix bytes, then entity key, then kind).
#[verifier::spinoff_prover]
#[verifier::rlimit(40)]
pub fn reader_rows(state: &State) -> (r: Vec<ReaderRow>)
    requires
        state.wf(),
    ensures
        strictly_sorted(r@),
        forall|k: int| 0 <= k < r@.len() ==> reader_guids(state@).contains(#[trigger] r@[k].guid@),
        forall|k: int| 0 <= k < r@.len() ==> (#[trigger] r@[k])@ == reader_row(
            r@[k].guid@,
            state@.participants[r@[k].guid@.0].readers[r@[k].guid@.1],
        ),
        forall|g: (Seq<u8>, (Seq<u8>, u8))| #[trigger] reader_guids(state@).contains(g)
            ==> exists|k: int| 0 <= k < r@.len() && r@[k].guid@ == g,
{
    let parts = &state.participants;
    let ghost pe = parts.entries();
    proof {
        parts.lemma_view();
        parts.lemma_keys_unique();
        parts.lemma_values_inv();
    }
    let n = parts.len();
    let mut out: Vec<ReaderRow> = Vec::new();
    let mut i: usize = 0;
    while i < n
        invariant
            state.wf(),
            parts == &state.participants,
            pe == parts.entries(),
            n == pe.len(),
            i <= n,
            keys_unique(pe),
            forall|m: Seq<u8>| #[trigger] parts@.contains_key(m)
                <==> exists|x: int| 0 <= x < pe.len() && (#[trigger] pe[x]).0.model() == m,
            forall|x: int| 0 <= x < pe.len() ==> parts@[(#[trigger] pe[x]).0.model()] == pe[x].1@,
            forall|x: int| 0 <= x < pe.len() ==> (#[trigger] pe[x]).1.inv(),
            strictly_sorted(out@),
            forall|k: int| 0 <= k < out@.len() ==> reader_guids(state@).contains(#[trigger] out@[k].guid@),
            forall|k: int| 0 <= k < out@.len() ==> (#[trigger] out@[k])@ == reader_row(
                out@[k].guid@,
                state@.participants[out@[k].guid@.0].readers[out@[k].guid@.1],
            ),
            forall|k: int| 0 <= k < out@.len() ==> exists|x: int| 0 <= x < i && (#[trigger] pe[x]).0.model() == (#[trigger] out@[k]).guid@.0,
            forall|x: int, e: (Seq<u8>, u8)| 0 <= x < i && #[trigger] pe[x].1@.readers.contains_key(e)
                ==> exists|k: int| 0 <= k < out@.len() && (#[trigger] out@[k]).guid@ == (pe[x].0.model(), e),
        decreases n - i,
    {
        let pk = parts.key_at(i);
        let part = parts.value_at(i);
        let ws = &part.readers;
        let ghost we = ws.entries();
        proof {
            assert(pe[i as int].1.inv());
            ws.lemma_view();
            ws.lemma_keys_unique();
            ws.lemma_values_inv();
            assert(parts@[pk@] == part@);
        }
        let m = ws.len();
        let mut j: usize = 0;
        while j < m
            invariant
                state.wf(),
                parts == &state.participants,
                pe == parts.entries(),
                n == pe.len(),
                i < n,
                *pk == pe[i as int].0,
                *part == pe[i as int].1,
                ws == &part.readers,
                we == ws.entries(),
                m == we.len(),
                j <= m,
                keys_unique(pe),
                keys_unique(we),
                parts@.contains_key(pk@),
                parts@[pk@] == part@,
                forall|e: (Seq<u8>, u8)| #[trigger] ws@.contains_key(e)
                    <==> exists|y: int| 0 <= y < we.len() && (#[trigger] we[y]).0.model() == e,
                forall|y: int| 0 <= y < we.len() ==> ws@[(#[trigger] we[y]).0.model()] == we[y].1@,
                forall|y: int| 0 <= y < we.len() ==> (#[trigger] we[y]).1.inv(),
                forall|m: Seq<u8>| #[trigger] parts@.contains_key(m)
                    <==> exists|x: int| 0 <= x < pe.len() && (#[trigger] pe[x]).0.model() == m,
                forall|x: int| 0 <= x < pe.len() ==> parts@[(#[trigger] pe[x]).0.model()] == pe[x].1@,
                forall|x: int| 0 <= x < pe.len() ==> (#[trigger] pe[x]).1.inv(),
                strictly_sorted(out@),
                forall|k: int| 0 <= k < out@.len() ==> reader_guids(state@).contains(#[trigger] out@[k].guid@),
                forall|k: int| 0 <= k < out@.len() ==> (#[trigger] out@[k])@ == reader_row(
                    out@[k].guid@,
                    state@.participants[out@[k].guid@.0].readers[out@[k].guid@.1],
                ),
                forall|k: int| 0 <= k < out@.len() ==>
                    (exists|x: int| 0 <= x < i && (#[trigger] pe[x]).0.model() == (#[trigger] out@[k]).guid@.0)
                    || (out@[k].guid@.0 == pk@
                        && exists|y: int| 0 <= y < j && (#[trigger] we[y]).0.model() == out@[k].guid@.1),
                forall|x: int, e: (Seq<u8>, u8)| 0 <= x < i && #[trigger] pe[x].1@.readers.contains_key(e)
                    ==> exists|k: int| 0 <= k < out@.len() && (#[trigger] out@[k]).guid@ == (pe[x].0.model(), e),
                forall|y: int| 0 <= y < j ==> exists|k: int| 0 <= k < out@.len()
                    && (#[trigger] out@[k]).guid@ == (pk@, (#[trigger] we[y]).0.model()),
            decreases m - j,
        {
            let ek = ws.key_at(j);
            let w = ws.value_at(j);
            let g = Guid::new(*pk, *ek);
            proof {
                assert(we[j as int].1.inv());
                assert(ws@.contains_key(ek@));
                assert(ws@[ek@] == w@);
            }
            let row = make_reader_row(g, w);
            let ghost before = out@;
            proof {
                assert forall|k: int| 0 <= k < before.len() implies (#[trigger] before[k]).key() != row.key() by {
                    if before[k].guid@ == g@ {
                        if exists|x: int| 0 <= x < i && (#[trigger] pe[x]).0.model() == before[k].guid@.0 {
                            let x = choose|x: int| 0 <= x < i && (#[trigger] pe[x]).0.model() == before[k].guid@.0;
                            assert(pe[x].0.model() != pe[i as int].0.model());
                        } else {
                            let y = choose|y: int| 0 <= y < j && (#[trigger] we[y]).0.model() == before[k].guid@.1;
                            assert(we[y].0.model() != we[j as int].0.model());
                        }
                    } else if before[k].key() == row.key() {
                        lemma_guid_key_injective(before[k].guid@, g@);
                    }
                }
            }
            let p = insert_sorted(&mut out, row);
            proof {
                let s = out@;
                assert(s[p as int] == row);
                assert forall|k: int| 0 <= k < s.len() implies
                    (s[k] == row || exists|k0: int| 0 <= k0 < before.len() && before[k0] == #[trigger] s[k]) by {
                    if k < p {
                        assert(s[k] == before[k]);
                    } else if k > p {
                        assert(s[k] == before[k - 1]);
                    }
                }
                assert forall|k0: int| 0 <= k0 < before.len() implies exists|k: int| 0 <= k < s.len() && s[k] == #[trigger] before[k0] by {
                    if k0 < p {
                        assert(s[k0] == before[k0]);
                    } else {
                        assert(s[k0 + 1] == before[k0]);
                    }
                }
                assert(reader_guids(state@).contains(g@));
            }
            j = j + 1;
        }
        proof {
            assert forall|x: int, e: (Seq<u8>, u8)| 0 <= x < i + 1 && #[trigger] pe[x].1@.readers.contains_key(e)
                implies exists|k: int| 0 <= k < out@.len() && (#[trigger] out@[k]).guid@ == (pe[x].0.model(), e) by {
                if x == i {
                    let y = choose|y: int| 0 <= y < we.len() && (#[trigger] we[y]).0.model() == e;
                    assert(exists|k: int| 0 <= k < out@.len() && (#[trigger] out@[k]).guid@ == (pk@, we[y].0.model()));
                }
            }
        }
        i = i + 1;
    }
    proof {
        assert forall|g: (Seq<u8>, (Seq<u8>, u8))| #[trigger] reader_guids(state@).contains(g)
            implies exists|k: int| 0 <= k < out@.len() && out@[k].guid@ == g by {
            let x = choose|x: int| 0 <= x < pe.len() && (#[trigger] pe[x]).0.model() == g.0;
            assert(pe[x].1@.readers.contains_key(g.1));
        }
    }
    out
}


/// A row of the participants table.
#[derive(Debug)]
pub struct ParticipantRow {
    pub guid_prefix: GuidPrefix,
    pub unicast_locators: String,
    pub multicast_locators: String,
}

/// The content of a [`ParticipantRow`].
pub struct ParticipantRowView {
    pub guid_prefix: Seq<u8>,
    pub unicast_locators: Seq<char>,
    pub multicast_locators: Seq<char>,
}

impl View for ParticipantRow {
    type V = ParticipantRowView;

    open spec fn view(&self) -> ParticipantRowView {
        ParticipantRowView {
            guid_prefix: self.guid_prefix@,
            unicast_locators: self.unicast_locators@,
            multicast_locators: self.multicast_locators@,
        }
    }
}

impl RowKey for ParticipantRow {
    open spec fn key(&self) -> Seq<u8> {
        self.guid_prefix@
    }

    fn key_less(&self, other: &Self) -> (r: bool) {
        bytes_less(self.guid_prefix.bytes.as_slice(), other.guid_prefix.bytes.as_slice())
    }
}

/// The writings of locators, each after the previous and a comma.
pub open spec fn joined_locators(s: Seq<Locator>) -> Seq<char>
    decreases s.len(),
{
    if s.len() <= 1 {
        if s.len() == 1 { locator_text(s[0]@) } else { Seq::empty() }
    } else {
        joined_locators(s.drop_last()) + ", "@ + locator_text(s.last()@)
    }
}

/// The writing of a locator list: "-" when there is none or it is empty,
/// the locator alone when there is one, otherwise all of them between
/// brackets, separated by commas.
pub open spec fn locator_list_text(l: Option<Seq<Locator>>) -> Seq<char> {
    match l {
        None => "-"@,
        Some(s) => if s.len() == 0 {
            "-"@
        } else if s.len() == 1 {
            locator_text(s[0]@)
        } else {
            "["@ + joined_locators(s) + "]"@
        },
    }
}

/// The row of the participant with prefix `p` whose state is `v`.
pub open spec fn participant_row(p: Seq<u8>, v: ParticipantView) -> ParticipantRowView {
    ParticipantRowView {
        guid_prefix: p,
        unicast_locators: locator_list_text(v.unicast_locator_list),
        multicast_locators: locator_list_text(v.multicast_locator_list),
    }
}

/// Appends the writings of the locators, separated by commas.
fn push_joined_locators(out: &mut String, v: &Vec<Locator>)
    ensures
        final(out)@ == old(out)@ + joined_locators(v@),
{
    proof {
        reveal_strlit(", ");
    }
    let n = v.len();
    let mut i: usize = 0;
    while i < n
        invariant
            n == v@.len(),
            i <= n,
            out@ == old(out)@ + joined_locators(v@.take(i as int)),
        decreases n - i,
    {
        if i > 0 {
            push_str(out, ", ");
        }
        let t = v[i].display_string();
        push_str(out, t.as_str());
        proof {
            let a = v@.take(i + 1);
            assert(a.drop_last() =~= v@.take(i as int));
            assert(a.last() == v@[i as int]);
            if i == 0 {
                assert(joined_locators(v@.take(0)) =~= Seq::<char>::empty());
            }
        }
        i = i + 1;
    }
    assert(v@.take(n as int) =~= v@);
}

/// The writing of a locator list.
fn locator_list_string(l: &Option<Vec<Locator>>) -> (r: String)
    ensures
        r@ == locator_list_text(locators_view(*l)),
{
    proof {
        reveal_strlit("-");
        reveal_strlit("[");
        reveal_strlit("]");
    }
    match l {
        None => to_owned_string("-"),
        Some(v) => {
            if v.len() == 0 {
                to_owned_string("-")
            } else if v.len() == 1 {
                v[0].display_string()
            } else {
                let mut s = to_owned_string("[");
                push_joined_locators(&mut s, v);
                push_str(&mut s, "]");
                s
            }
        },
    }
}

/// The rows of the participants table: one per participant of the state,
/// in prefix order.
#[verifier::spinoff_prover]
#[verifier::rlimit(40)]
pub fn participant_rows(state: &State) -> (r: Vec<ParticipantRow>)
    requires
        state.wf(),
    ensures
        strictly_sorted(r@),
        forall|k: int| 0 <= k < r@.len() ==> state@.participants.contains_key(#[trigger] r@[k].guid_prefix@),
        forall|k: int| 0 <= k < r@.len() ==> (#[trigger] r@[k])@ == participant_row(
            r@[k].guid_prefix@,
            state@.participants[r@[k].guid_prefix@],
        ),
        forall|p: Seq<u8>| #[trigger] state@.participants.contains_key(p)
            ==> exists|k: int| 0 <= k < r@.len() && r@[k].guid_prefix@ == p,
{
    let parts = &state.participants;
    let ghost pe = parts.entries();
    proof {
        parts.lemma_view();
        parts.lemma_keys_unique();
    }
    let n = parts.len();
    let mut out: Vec<ParticipantRow> = Vec::new();
    let mut i: usize = 0;
    while i < n
        invariant
            state.wf(),
            parts == &state.participants,
            pe == parts.entries(),
            n == pe.len(),
            i <= n,
            keys_unique(pe),
            forall|m: Seq<u8>| #[trigger] parts@.contains_key(m)
                <==> exists|x: int| 0 <= x < pe.len() && (#[trigger] pe[x]).0.model() == m,
            forall|x: int| 0 <= x < pe.len() ==> parts@[(#[trigger] pe[x]).0.model()] == pe[x].1@,
            strictly_sorted(out@),
            forall|k: int| 0 <= k < out@.len() ==> parts@.contains_key(#[trigger] out@[k].guid_prefix@),
            forall|k: int| 0 <= k < out@.len() ==> (#[trigger] out@[k])@ == participant_row(
                out@[k].guid_prefix@,
                parts@[out@[k].guid_prefix@],
            ),
            forall|k: int| 0 <= k < out@.len() ==> exists|x: int| 0 <= x < i && (#[trigger] pe[x]).0.model() == (#[trigger] out@[k]).guid_prefix@,
            forall|x: int| 0 <= x < i ==> exists|k: int| 0 <= k < out@.len() && (#[trigger] out@[k]).guid_prefix@ == (#[trigger] pe[x]).0.model(),
        decreases n - i,
    {
        let pk = parts.key_at(i);
        let part = parts.value_at(i);
        proof {
            assert(parts@[pk@] == part@);
        }
        let row = ParticipantRow {
            guid_prefix: *pk,
            unicast_locators: locator_list_string(&part.unicast_locator_list),
            multicast_locators: locator_list_string(&part.multicast_locator_list),
        };
        let ghost before = out@;
        proof {
            assert forall|k: int| 0 <= k < before.len() implies (#[trigger] before[k]).key() != row.key() by {
                let x = choose|x: int| 0 <= x < i && (#[trigger] pe[x]).0.model() == before[k].guid_prefix@;
                assert(pe[x].0.model() != pe[i as int].0.model());
            }
        }
        let p = insert_sorted(&mut out, row);
        proof {
            let s = out@;
            assert(s[p as int] == row);
            assert forall|k: int| 0 <= k < s.len() implies
                (s[k] == row || exists|k0: int| 0 <= k0 < before.len() && before[k0] == #[trigger] s[k]) by {
                if k < p {
                    assert(s[k] == before[k]);
                } else if k > p {
                    assert(s[k] == before[k - 1]);
                }
            }
            assert forall|k0: int| 0 <= k0 < before.len() implies exists|k: int| 0 <= k < s.len() && s[k] == #[trigger] before[k0] by {
                if k0 < p {
                    assert(s[k0] == before[k0]);
                } else {
                    assert(s[k0 + 1] == before[k0]);
                }
            }
        }
        i = i + 1;
    }
    proof {
        assert forall|p: Seq<u8>| #[trigger] state@.participants.contains_key(p)
            implies exists|k: int| 0 <= k < out@.len() && out@[k].guid_prefix@ == p by {
            let x = choose|x: int| 0 <= x < pe.len() && (#[trigger] pe[x]).0.model() == p;
            assert(exists|k: int| 0 <= k < out@.len() && (#[trigger] out@[k]).guid_prefix@ == pe[x].0.model());
        }
    }
    out
}


/// A row of the topics table.
#[derive(Debug)]
pub struct TopicRow {
    pub name: String,
    pub readers: usize,
    pub writers: usize,
}

/// The content of a [`TopicRow`].
pub struct TopicRowView {
    pub name: Seq<char>,
    pub readers: nat,
    pub writers: nat,
}

impl View for TopicRow {
    type V = TopicRowView;

    open spec fn view(&self) -> TopicRowView {
        TopicRowView { name: self.name@, readers: self.readers as nat, writers: self.writers as nat }
    }
}

impl RowKey for TopicRow {
    /// Names are ordered by their UTF-8 bytes, as `String` orders them.
    open spec fn key(&self) -> Seq<u8> {
        encode_utf8(self.name@)
    }

    fn key_less(&self, other: &Self) -> (r: bool) {
        bytes_less(self.name.as_str().as_bytes(), other.name.as_str().as_bytes())
    }
}

/// The row of topic `name` whose state is `v`: its name and how many
/// readers and writers it has.
pub open spec fn topic_row(name: Seq<char>, v: TopicView) -> TopicRowView {
    TopicRowView { name, readers: v.readers.len(), writers: v.writers.len() }
}

/// The rows of the topics table: one per topic of the state, in name
/// order.
#[verifier::spinoff_prover]
#[verifier::rlimit(40)]
pub fn topic_rows(state: &State) -> (r: Vec<TopicRow>)
    requires
        state.wf(),
    ensures
        strictly_sorted(r@),
        forall|k: int| 0 <= k < r@.len() ==> state@.topics.contains_key(#[trigger] r@[k].name@),
        forall|k: int| 0 <= k < r@.len() ==> (#[trigger] r@[k])@ == topic_row(r@[k].name@, state@.topics[r@[k].name@]),
        forall|t: Seq<char>| #[trigger] state@.topics.contains_key(t)
            ==> exists|k: int| 0 <= k < r@.len() && r@[k].name@ == t,
{
    let topics = &state.topics;
    let ghost te = topics.entries();
    proof {
        topics.lemma_view();
        topics.lemma_keys_unique();
        topics.lemma_values_inv();
    }
    let n = topics.len();
    let mut out: Vec<TopicRow> = Vec::new();
    let mut i: usize = 0;
    while i < n
        invariant
            state.wf(),
            topics == &state.topics,
            te == topics.entries(),
            n == te.len(),
            i <= n,
            keys_unique(te),
            forall|m: Seq<char>| #[trigger] topics@.contains_key(m)
                <==> exists|x: int| 0 <= x < te.len() && (#[trigger] te[x]).0.model() == m,
            forall|x: int| 0 <= x < te.len() ==> topics@[(#[trigger] te[x]).0.model()] == te[x].1@,
            forall|x: int| 0 <= x < te.len() ==> (#[trigger] te[x]).1.inv(),
            strictly_sorted(out@),
            forall|k: int| 0 <= k < out@.len() ==> topics@.contains_key(#[trigger] out@[k].name@),
            forall|k: int| 0 <= k < out@.len() ==> (#[trigger] out@[k])@ == topic_row(out@[k].name@, topics@[out@[k].name@]),
            forall|k: int| 0 <= k < out@.len() ==> exists|x: int| 0 <= x < i && (#[trigger] te[x]).0.model() == (#[trigger] out@[k]).name@,
            forall|x: int| 0 <= x < i ==> exists|k: int| 0 <= k < out@.len() && (#[trigger] out@[k]).name@ == (#[trigger] te[x]).0.model(),
        decreases n - i,
    {
        let name = topics.key_at(i);
        let topic = topics.value_at(i);
        proof {
            assert(te[i as int].1.inv());
            assert(topics@[name@] == topic@);
            topic.readers.lemma_len();
            topic.writers.lemma_len();
        }
        let row = TopicRow { name: name.clone(), readers: topic.readers.len(), writers: topic.writers.len() };
        let ghost before = out@;
        proof {
            assert forall|k: int| 0 <= k < before.len() implies (#[trigger] before[k]).key() != row.key() by {
                let x = choose|x: int| 0 <= x < i && (#[trigger] te[x]).0.model() == before[k].name@;
                assert(te[x].0.model() != te[i as int].0.model());
                if before[k].key() == row.key() {
                    encode_utf8_decode_utf8(before[k].name@);
                    encode_utf8_decode_utf8(row.name@);
                }
            }
        }
        let p = insert_sorted(&mut out, row);
        proof {
            let s = out@;
            assert(s[p as int] == row);
            assert forall|k: int| 0 <= k < s.len() implies
                (s[k] == row || exists|k0: int| 0 <= k0 < before.len() && before[k0] == #[trigger] s[k]) by {
                if k < p {
                    assert(s[k] == before[k]);
                } else if k > p {
                    assert(s[k] == before[k - 1]);
                }
            }
            assert forall|k0: int| 0 <= k0 < before.len() implies exists|k: int| 0 <= k < s.len() && s[k] == #[trigger] before[k0] by {
                if k0 < p {
                    assert(s[k0] == before[k0]);
                } else {
                    assert(s[k0 + 1] == before[k0]);
                }
            }
        }
        i = i + 1;
    }
    proof {
        assert forall|t: Seq<char>| #[trigger] state@.topics.contains_key(t)
            implies exists|k: int| 0 <= k < out@.len() && out@[k].name@ == t by {
            let x = choose|x: int| 0 <= x < te.len() && (#[trigger] te[x]).0.model() == t;
            assert(exists|k: int| 0 <= k < out@.len() && (#[trigger] out@[k]).name@ == te[x].0.model());
        }
    }
    out
}


/// A row of the statistics table: an item and its count in decimal.
#[derive(Debug)]
pub struct StatRow {
    pub item: String,
    pub value: String,
}

/// The items of the statistics table and their counts.
pub open spec fn stat_items(st: Statistics) -> Seq<(Seq<char>, usize)> {
    seq![
        ("packets"@, st.packet_count),
        ("data submsg"@, st.data_submsg_count),
        ("datafrag submsg"@, st.datafrag_submsg_count),
        ("acknack submsg"@, st.acknack_submsg_count),
        ("ackfrag submsg"@, st.ackfrag_submsg_count),
        ("heartbeat submsg"@, st.heartbeat_submsg_count),
        ("heartbeat_frag submsg"@, st.heartbeat_frag_submsg_count),
    ]
}

/// A statistics row.
fn stat_row(item: &str, count: usize) -> (r: StatRow)
    ensures
        r.item@ == item@,
        r.value@ == dec_string(count as nat),
{
    let mut value = String::new();
    push_decimal(&mut value, count as u64);
    StatRow { item: to_owned_string(item), value }
}

/// The rows of the statistics table: each count of the general
/// statistics, in a fixed order.
pub fn stat_rows(st: &Statistics) -> (r: Vec<StatRow>)
    ensures
        r@.len() == stat_items(*st).len(),
        forall|k: int| 0 <= k < r@.len() ==> (#[trigger] r@[k]).item@ == stat_items(*st)[k].0
            && r@[k].value@ == dec_string(stat_items(*st)[k].1 as nat),
{
    proof {
        reveal_strlit("packets");
        reveal_strlit("data submsg");
        reveal_strlit("datafrag submsg");
        reveal_strlit("acknack submsg");
        reveal_strlit("ackfrag submsg");
        reveal_strlit("heartbeat submsg");
        reveal_strlit("heartbeat_frag submsg");
    }
    let r = vec![
        stat_row("packets", st.packet_count),
        stat_row("data submsg", st.data_submsg_count),
        stat_row("datafrag submsg", st.datafrag_submsg_count),
        stat_row("acknack submsg", st.acknack_submsg_count),
        stat_row("ackfrag submsg", st.ackfrag_submsg_count),
        stat_row("heartbeat submsg", st.heartbeat_submsg_count),
        stat_row("heartbeat_frag submsg", st.heartbeat_frag_submsg_count),
    ];
    r
}

/// A copy of an abnormality report.
fn copy_abnormality(a: &Abnormality) -> (r: Abnormality)
    ensures
        r@ == a@,
{
    Abnormality {
        when: a.when,
        writer_guid: a.writer_guid,
        reader_guid: a.reader_guid,
        topic_name: copy_text(a.topic_name.as_ref()),
        desc: a.desc.clone(),
    }
}

/// The rows of the abnormalities table: every report, newest first
/// (reports of the same time keep their order).
pub fn abnormality_rows(state: &State) -> (r: Vec<Abnormality>)
    ensures
        abnormalities_view(r@) == sort_desc(state@.abnormalities),
        sorted_desc(abnormalities_view(r@)),
{
    let v = &state.abnormalities;
    let n = v.len();
    let mut copy: Vec<Abnormality> = Vec::new();
    let mut i: usize = 0;
    while i < n
        invariant
            n == v@.len(),
            i <= n,
            abnormalities_view(copy@) == abnormalities_view(v@).take(i as int),
        decreases n - i,
    {
        let a = copy_abnormality(&v[i]);
        let ghost before = copy@;
        copy.push(a);
        proof {
            assert(abnormalities_view(copy@) =~= abnormalities_view(before).push(a@));
            assert(abnormalities_view(v@).take(i + 1) =~= abnormalities_view(v@).take(i as int).push(v@[i as int]@));
        }
        i = i + 1;
    }
    assert(abnormalities_view(v@).take(n as int) =~= abnormalities_view(v@));
    sort_newest_first(copy)
}

/// A reader's row shows the reader's own GUID, last sequence number,
/// ACKNACK count and the missing sequence numbers of its recorded ACKNACK;
/// its type column shows the data type and its topic column the topic name
/// of the reader's discovery data (both empty when it has none).
pub proof fn law_reader_row_columns(g: (Seq<u8>, (Seq<u8>, u8)), d: ReaderView)
    ensures
        reader_row(g, d).guid == g,
        reader_row(g, d).last_sn == d.last_sn,
        reader_row(g, d).acknack_count == d.total_acknack_count,
        d.acknack is Some ==> reader_row(g, d).missing_sn == Some(d.acknack->0.missing_sn),
        d.acknack is None ==> reader_row(g, d).missing_sn is None,
        d.data is Some ==> reader_row(g, d).data_type == Some(d.data->0.data_type),
        d.data is Some ==> reader_row(g, d).topic_name == Some(d.data->0.topic_name),
        d.data is None ==> reader_row(g, d).data_type is None && reader_row(g, d).topic_name is None,
{
}

/// A writer's row shows the writer's own GUID, last sequence number,
/// message and byte counts and latest heartbeat range; its type column
/// shows the data type and its topic column the topic name of the writer's
/// discovery data (both empty when it has none).
pub proof fn law_writer_row_columns(g: (Seq<u8>, (Seq<u8>, u8)), w: WriterView)
    ensures
        writer_row(g, w).guid == g,
        writer_row(g, w).last_sn == w.last_sn,
        writer_row(g, w).message_count == w.total_msg_count,
        writer_row(g, w).byte_count == w.total_byte_count,
        w.heartbeat is Some ==> writer_row(g, w).heartbeat_range
            == Some((w.heartbeat->0.first_sn, w.heartbeat->0.last_sn)),
        w.heartbeat is None ==> writer_row(g, w).heartbeat_range is None,
        w.data is Some ==> writer_row(g, w).data_type == Some(w.data->0.data_type),
        w.data is Some ==> writer_row(g, w).topic_name == Some(w.data->0.topic_name),
        w.data is None ==> writer_row(g, w).data_type is None && writer_row(g, w).topic_name is None,
{
}

/// A topic's row shows the topic's name, its number of readers in the
/// readers column and its number of writers in the writers column.
pub proof fn law_topic_row_columns(name: Seq<char>, v: TopicView)
    ensures
        topic_row(name, v).name == name,
        topic_row(name, v).readers == v.readers.len(),
        topic_row(name, v).writers == v.writers.len(),
{
}

/// A participant's row shows its own prefix, its unicast locators in the
/// unicast column and its multicast locators in the multicast column.
pub proof fn law_participant_row_columns(p: Seq<u8>, v: ParticipantView)
    ensures
        participant_row(p, v).guid_prefix == p,
        participant_row(p, v).unicast_locators == locator_list_text(v.unicast_locator_list),
        participant_row(p, v).multicast_locators == locator_list_text(v.multicast_locator_list),
        v.unicast_locator_list is None ==> participant_row(p, v).unicast_locators == "-"@,
        v.multicast_locator_list is None ==> participant_row(p, v).multicast_locators == "-"@,
{
}

} // verus!
