//! Decoding the discovery data that built-in writers publish: parameter
//! lists in PL_CDR encoding, from which the monitor takes endpoint GUIDs,
//! topic names and type names.

use vstd::prelude::*;
use vstd::utf8::{decode_utf8, encode_utf8, encode_utf8_decode_utf8, valid_utf8};
use vstd::slice::slice_subrange;
use crate::guid::{EntityId, Guid, GuidPrefix};
use crate::message::{
    DataPayload, EndpointView, ParticipantDiscovery, ReaderDiscovery, TopicDiscovery, WriterDiscovery,
};
use crate::rtps::SerializedData;
use crate::wire::{param_list_end, read_u16, read_u32, u16_at, u32_at};

verus! {

/// Parameter ids.
pub const PID_SENTINEL: u16 = 0x0001;
pub const PID_TOPIC_NAME: u16 = 0x0005;
pub const PID_TYPE_NAME: u16 = 0x0007;
pub const PID_PARTICIPANT_GUID: u16 = 0x0050;
pub const PID_ENDPOINT_GUID: u16 = 0x005a;

/// The representation identifiers of PL_CDR data, big- and little-endian.
pub open spec fn pl_cdr_endianness(rep: Seq<u8>) -> Option<bool> {
    if rep.len() == 2 && rep[0] == 0 && rep[1] == 2 {
        Some(false)
    } else if rep.len() == 2 && rep[0] == 0 && rep[1] == 3 {
        Some(true)
    } else {
        None
    }
}

/// Where the value of the first parameter with id `pid` starts, searching
/// the list from `i`; `None` when the list ends (or breaks off) first.
pub open spec fn find_param(b: Seq<u8>, i: int, le: bool, pid: u16) -> Option<int>
    decreases b.len() - i,
{
    if i < 0 || i + 4 > b.len() || u16_at(b, i, le) == PID_SENTINEL {
        None
    } else if i + 4 + u16_at(b, i + 2, le) > b.len() {
        None
    } else if u16_at(b, i, le) == pid {
        Some(i + 4)
    } else {
        find_param(b, i + 4 + u16_at(b, i + 2, le), le, pid)
    }
}

/// The GUID held by the first parameter `pid`: 12 prefix bytes, 3 key
/// bytes and a kind byte.
pub open spec fn guid_param(b: Seq<u8>, le: bool, pid: u16) -> Option<(Seq<u8>, (Seq<u8>, u8))> {
    match find_param(b, 0, le, pid) {
        Some(v) => if u16_at(b, v - 2, le) >= 16 {
            Some((b.subrange(v, v + 12), (b.subrange(v + 12, v + 15), b[v + 15])))
        } else {
            None
        },
        None => None,
    }
}

/// The text held by the first parameter `pid`: a CDR string, that is a
/// length counting a final NUL, then that many bytes of UTF-8.
pub open spec fn string_param(b: Seq<u8>, le: bool, pid: u16) -> Option<Seq<char>> {
    match find_param(b, 0, le, pid) {
        Some(v) => {
            let plen = u16_at(b, v - 2, le) as int;
            if plen < 4 {
                None
            } else {
                let n = u32_at(b, v, le) as int;
                if n < 1 || 4 + n > plen || !valid_utf8(b.subrange(v + 4, v + 3 + n)) {
                    None
                } else {
                    Some(decode_utf8(b.subrange(v + 4, v + 3 + n)))
                }
            }
        },
        None => None,
    }
}

/// The endpoint that SEDP data describes: its GUID, topic name and type
/// name, when the payload is a well-formed PL_CDR parameter list that holds
/// all three.
pub open spec fn endpoint_decoding(rep: Seq<u8>, b: Seq<u8>) -> Option<EndpointView> {
    match pl_cdr_endianness(rep) {
        None => None,
        Some(le) => {
            if param_list_end(b, 0, le) is None {
                None
            } else {
                match (guid_param(b, le, PID_ENDPOINT_GUID), string_param(b, le, PID_TOPIC_NAME), string_param(b, le, PID_TYPE_NAME)) {
                    (Some(guid), Some(topic_name), Some(data_type)) => Some(EndpointView { guid, topic_name, data_type }),
                    _ => None,
                }
            }
        },
    }
}

/// The topic that SEDP topic data describes: its name and type name.
pub open spec fn topic_decoding(rep: Seq<u8>, b: Seq<u8>) -> Option<(Seq<char>, Seq<char>)> {
    match pl_cdr_endianness(rep) {
        None => None,
        Some(le) => {
            if param_list_end(b, 0, le) is None {
                None
            } else {
                match (string_param(b, le, PID_TOPIC_NAME), string_param(b, le, PID_TYPE_NAME)) {
                    (Some(t), Some(d)) => Some((t, d)),
                    _ => None,
                }
            }
        },
    }
}

/// The GUID prefix of the participant that SPDP data describes.
pub open spec fn participant_decoding(rep: Seq<u8>, b: Seq<u8>) -> Option<Seq<u8>> {
    match pl_cdr_endianness(rep) {
        None => None,
        Some(le) => {
            if param_list_end(b, 0, le) is None {
                None
            } else {
                match guid_param(b, le, PID_PARTICIPANT_GUID) {
                    Some(g) => Some(g.0),
                    None => None,
                }
            }
        },
    }
}

/// `std::str::from_utf8`: the bytes as text when they are valid UTF-8, and
/// then the text encodes back to exactly these bytes.
#[verifier::external_body]
fn utf8_text(bytes: &[u8]) -> (r: Option<String>)
    ensures
        r is Some <==> valid_utf8(bytes@),
        r matches Some(s) ==> encode_utf8(s@) == bytes@,
{
    match std::str::from_utf8(bytes) {
        Ok(s) => Some(s.to_string()),
        Err(_) => None,
    }
}

/// Finds the value of the first parameter `pid` in the list.
fn find_param_exec(b: &[u8], le: bool, pid: u16) -> (r: Option<usize>)
    ensures
        match r {
            Some(v) => find_param(b@, 0, le, pid) == Some(v as int),
            None => find_param(b@, 0, le, pid) is None,
        },
{
    let n = b.len();
    let mut i: usize = 0;
    while i <= n && n - i >= 4
        invariant
            n == b@.len(),
            find_param(b@, i as int, le, pid) == find_param(b@, 0, le, pid),
        decreases n - i,
    {
        let id = read_u16(b, i, le);
        if id == PID_SENTINEL {
            return None;
        }
        let len = read_u16(b, i + 2, le) as usize;
        if n - i - 4 < len {
            return None;
        }
        if id == pid {
            return Some(i + 4);
        }
        i = i + 4 + len;
    }
    None
}

/// Whether the parameter list is terminated within the bytes.
fn param_list_terminated(b: &[u8], le: bool) -> (r: bool)
    ensures
        r == (param_list_end(b@, 0, le) is Some),
{
    match crate::wire::skip_param_list(b, 0, le) {
        Some(_) => true,
        None => false,
    }
}

/// Reads the GUID parameter `pid`.
fn read_guid_param(b: &[u8], le: bool, pid: u16) -> (r: Option<Guid>)
    ensures
        match r {
            Some(g) => guid_param(b@, le, pid) == Some(g@),
            None => guid_param(b@, le, pid) is None,
        },
{
    let v = match find_param_exec(b, le, pid) {
        Some(v) => v,
        None => return None,
    };
    proof {
        lemma_find_param_bound(b@, 0, le, pid);
    }
    let len = b.len();
    let plen = read_u16(b, v - 2, le);
    assert(v + plen <= len);
    if plen < 16 {
        return None;
    }
    let prefix = crate::wire::read_prefix(b, v);
    let entity_id = crate::wire::read_entity_id(b, v + 12);
    Some(Guid { prefix, entity_id })
}

/// Reads the string parameter `pid`.
fn read_string_param(b: &[u8], le: bool, pid: u16) -> (r: Option<String>)
    ensures
        match r {
            Some(s) => string_param(b@, le, pid) == Some(s@),
            None => string_param(b@, le, pid) is None,
        },
{
    let v = match find_param_exec(b, le, pid) {
        Some(v) => v,
        None => return None,
    };
    proof {
        lemma_find_param_bound(b@, 0, le, pid);
    }
    let len = b.len();
    let plen = read_u16(b, v - 2, le) as usize;
    assert(v + plen <= len);
    if plen < 4 {
        return None;
    }
    let n = read_u32(b, v, le) as usize;
    if n < 1 || n > plen - 4 {
        return None;
    }
    let text = slice_subrange(b, v + 4, v + 3 + n);
    match utf8_text(text) {
        Some(s) => {
            proof {
                encode_utf8_decode_utf8(s@);
            }
            Some(s)
        },
        None => None,
    }
}

/// A parameter value found in the list lies within the bytes, after its
/// id and length.
proof fn lemma_find_param_bound(b: Seq<u8>, i: int, le: bool, pid: u16)
    requires
        find_param(b, i, le, pid) is Some,
    ensures
        ({
            let v = find_param(b, i, le, pid)->0;
            &&& 4 <= v
            &&& i + 4 <= v
            &&& v + u16_at(b, v - 2, le) <= b.len()
        }),
    decreases b.len() - i,
{
    if u16_at(b, i, le) != pid {
        lemma_find_param_bound(b, i + 4 + u16_at(b, i + 2, le), le, pid);
    }
}

/// The endianness of PL_CDR data with representation `rep`.
fn pl_cdr_le(rep: [u8; 2]) -> (r: Option<bool>)
    ensures
        r == pl_cdr_endianness(rep@),
{
    if rep[0] == 0 && rep[1] == 2 {
        Some(false)
    } else if rep[0] == 0 && rep[1] == 3 {
        Some(true)
    } else {
        None
    }
}

/// Decodes the endpoint that SEDP publication or subscription data
/// describes.
fn decode_endpoint(p: &SerializedData) -> (r: Option<(Guid, String, String)>)
    ensures
        match r {
            Some(e) => endpoint_decoding(p.representation@, p.value@)
                == Some(EndpointView { guid: e.0@, topic_name: e.1@, data_type: e.2@ }),
            None => endpoint_decoding(p.representation@, p.value@) is None,
        },
{
    let le = match pl_cdr_le(p.representation) {
        Some(le) => le,
        None => return None,
    };
    let b = p.value.as_slice();
    if !param_list_terminated(b, le) {
        return None;
    }
    let guid = read_guid_param(b, le, PID_ENDPOINT_GUID);
    let topic_name = read_string_param(b, le, PID_TOPIC_NAME);
    let data_type = read_string_param(b, le, PID_TYPE_NAME);
    match (guid, topic_name, data_type) {
        (Some(g), Some(t), Some(d)) => Some((g, t, d)),
        _ => None,
    }
}

/// Decodes SEDP publication data: the writer it announces.
pub fn decode_writer_data(p: &SerializedData) -> (r: Option<WriterDiscovery>)
    ensures
        match r {
            Some(d) => endpoint_decoding(p.representation@, p.value@) == Some(d@),
            None => endpoint_decoding(p.representation@, p.value@) is None,
        },
{
    match decode_endpoint(p) {
        Some((remote_writer_guid, topic_name, data_type)) => Some(WriterDiscovery { remote_writer_guid, topic_name, data_type }),
        None => None,
    }
}

/// Decodes SEDP subscription data: the reader it announces.
pub fn decode_reader_data(p: &SerializedData) -> (r: Option<ReaderDiscovery>)
    ensures
        match r {
            Some(d) => endpoint_decoding(p.representation@, p.value@) == Some(d@),
            None => endpoint_decoding(p.representation@, p.value@) is None,
        },
{
    match decode_endpoint(p) {
        Some((remote_reader_guid, topic_name, data_type)) => Some(ReaderDiscovery { remote_reader_guid, topic_name, data_type }),
        None => None,
    }
}

/// Decodes SEDP topic data.
pub fn decode_topic_data(p: &SerializedData) -> (r: Option<TopicDiscovery>)
    ensures
        match r {
            Some(d) => topic_decoding(p.representation@, p.value@) == Some((d.topic_name@, d.data_type@)),
            None => topic_decoding(p.representation@, p.value@) is None,
        },
{
    let le = match pl_cdr_le(p.representation) {
        Some(le) => le,
        None => return None,
    };
    let b = p.value.as_slice();
    if !param_list_terminated(b, le) {
        return None;
    }
    let topic_name = read_string_param(b, le, PID_TOPIC_NAME);
    let data_type = read_string_param(b, le, PID_TYPE_NAME);
    match (topic_name, data_type) {
        (Some(topic_name), Some(data_type)) => Some(TopicDiscovery { topic_name, data_type }),
        _ => None,
    }
}

/// Decodes SPDP participant data.
pub fn decode_participant_data(p: &SerializedData) -> (r: Option<ParticipantDiscovery>)
    ensures
        match r {
            Some(d) => participant_decoding(p.representation@, p.value@) == Some(d.guid_prefix@),
            None => participant_decoding(p.representation@, p.value@) is None,
        },
{
    let le = match pl_cdr_le(p.representation) {
        Some(le) => le,
        None => return None,
    };
    let b = p.value.as_slice();
    if !param_list_terminated(b, le) {
        return None;
    }
    match read_guid_param(b, le, PID_PARTICIPANT_GUID) {
        Some(g) => Some(ParticipantDiscovery { guid_prefix: g.prefix }),
        None => None,
    }
}

} // verus!
