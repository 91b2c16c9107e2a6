//! Identifiers of RTPS participants and entities, and network locators.

use vstd::prelude::*;
use crate::vecmap::{Inv, MapKey};

verus! {

/// The 12-byte prefix shared by all entities of a participant.
#[derive(Debug, Clone, Copy)]
pub struct GuidPrefix {
    pub bytes: [u8; 12],
}

/// An entity within a participant: a 3-byte key and a kind octet.
#[derive(Debug, Clone, Copy)]
pub struct EntityId {
    pub entity_key: [u8; 3],
    pub entity_kind: u8,
}

/// A globally unique entity identifier.
#[derive(Debug, Clone, Copy)]
pub struct Guid {
    pub prefix: GuidPrefix,
    pub entity_id: EntityId,
}

impl View for GuidPrefix {
    type V = Seq<u8>;

    open spec fn view(&self) -> Seq<u8> {
        self.bytes@
    }
}

impl View for EntityId {
    type V = (Seq<u8>, u8);

    open spec fn view(&self) -> (Seq<u8>, u8) {
        (self.entity_key@, self.entity_kind)
    }
}

impl View for Guid {
    type V = (Seq<u8>, (Seq<u8>, u8));

    open spec fn view(&self) -> (Seq<u8>, (Seq<u8>, u8)) {
        (self.prefix@, self.entity_id@)
    }
}

/// Two byte slices hold the same bytes.
fn same_bytes(a: &[u8], b: &[u8]) -> (r: bool)
    ensures
        r == (a@ == b@),
{
    if a.len() != b.len() {
        return false;
    }
    let n = a.len();
    let mut i: usize = 0;
    while i < n
        invariant
            n == a@.len(),
            n == b@.len(),
            i <= n,
            forall|j: int| 0 <= j < i ==> a@[j] == b@[j],
        decreases n - i,
    {
        if a[i] != b[i] {
            return false;
        }
        i = i + 1;
    }
    assert(a@ =~= b@);
    true
}

impl GuidPrefix {
    /// The all-zero prefix that stands for "unknown".
    pub fn unknown() -> (r: Self)
        ensures
            r@ == Seq::new(12, |i: int| 0u8),
    {
        let r = GuidPrefix { bytes: [0u8; 12] };
        assert(r@ =~= Seq::new(12, |i: int| 0u8));
        r
    }

    /// The prefix is the unknown (all-zero) prefix.
    pub fn is_unknown(&self) -> (r: bool)
        ensures
            r == (self@ == Seq::new(12, |i: int| 0u8)),
    {
        let z = Self::unknown();
        same_bytes(self.bytes.as_slice(), z.bytes.as_slice())
    }

    /// Equality of prefixes.
    pub fn equals(&self, other: &Self) -> (r: bool)
        ensures
            r == (self@ == other@),
    {
        same_bytes(self.bytes.as_slice(), other.bytes.as_slice())
    }
}

impl EntityId {
    /// Equality of entity ids.
    pub fn equals(&self, other: &Self) -> (r: bool)
        ensures
            r == (self@ == other@),
    {
        same_bytes(self.entity_key.as_slice(), other.entity_key.as_slice())
            && self.entity_kind == other.entity_kind
    }
}

impl Guid {
    /// The GUID of entity `entity_id` of the participant with `prefix`.
    pub fn new(prefix: GuidPrefix, entity_id: EntityId) -> (r: Self)
        ensures
            r.prefix == prefix,
            r.entity_id == entity_id,
    {
        Guid { prefix, entity_id }
    }

    /// Equality of GUIDs.
    pub fn equals(&self, other: &Self) -> (r: bool)
        ensures
            r == (self@ == other@),
    {
        self.prefix.equals(&other.prefix) && self.entity_id.equals(&other.entity_id)
    }
}

impl MapKey for GuidPrefix {
    type Model = Seq<u8>;

    open spec fn model(&self) -> Seq<u8> {
        self@
    }

    fn same_key(&self, other: &Self) -> (r: bool) {
        self.equals(other)
    }

    fn key_copy(&self) -> (r: Self) {
        *self
    }
}

impl MapKey for EntityId {
    type Model = (Seq<u8>, u8);

    open spec fn model(&self) -> (Seq<u8>, u8) {
        self@
    }

    fn same_key(&self, other: &Self) -> (r: bool) {
        self.equals(other)
    }

    fn key_copy(&self) -> (r: Self) {
        *self
    }
}

impl MapKey for Guid {
    type Model = (Seq<u8>, (Seq<u8>, u8));

    open spec fn model(&self) -> (Seq<u8>, (Seq<u8>, u8)) {
        self@
    }

    fn same_key(&self, other: &Self) -> (r: bool) {
        self.equals(other)
    }

    fn key_copy(&self) -> (r: Self) {
        *self
    }
}

/// Where a participant can be reached.
#[derive(Debug, Clone, Copy)]
pub enum Locator {
    Invalid,
    Reserved,
    UdpV4 { addr: [u8; 4], port: u16 },
    UdpV6 { addr: [u8; 16], port: u16 },
    Other { kind: i32, port: u32, address: [u8; 16] },
}

/// The content of a [`Locator`], with addresses as byte sequences.
pub enum LocatorView {
    Invalid,
    Reserved,
    UdpV4 { addr: Seq<u8>, port: u16 },
    UdpV6 { addr: Seq<u8>, port: u16 },
    Other { kind: i32, port: u32, address: Seq<u8> },
}

impl View for Locator {
    type V = LocatorView;

    open spec fn view(&self) -> LocatorView {
        match *self {
            Locator::Invalid => LocatorView::Invalid,
            Locator::Reserved => LocatorView::Reserved,
            Locator::UdpV4 { addr, port } => LocatorView::UdpV4 { addr: addr@, port },
            Locator::UdpV6 { addr, port } => LocatorView::UdpV6 { addr: addr@, port },
            Locator::Other { kind, port, address } => LocatorView::Other { kind, port, address: address@ },
        }
    }
}

/// The content of a list of locators.
pub open spec fn locator_seq_view(s: Seq<Locator>) -> Seq<LocatorView> {
    s.map_values(|l: Locator| l@)
}

} // verus!
