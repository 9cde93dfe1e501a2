//! The storage header, the standard header and the extension fields that the
//! standard header announces.
use vstd::prelude::*;
use vstd::bytes::{spec_u32_from_le_bytes, u32_from_le_bytes};
use crate::text::{id_text, identifier_text};
use crate::timestamp::{Timestamp, timestamp_of, compose_timestamp};

verus! {

/// Size of the storage header.
pub const STORAGE_HEADER_LEN: usize = 16;

/// Size of the standard header.
pub const STANDARD_HEADER_LEN: usize = 4;

/// Size of each extension field.
pub const EXTENSION_LEN: usize = 4;

/// The unsigned little-endian integer in the four bytes of `b` at `i`.
pub open spec fn le_u32_at(b: Seq<u8>, i: int) -> u32 {
    spec_u32_from_le_bytes(b.subrange(i, i + 4))
}

/// The unsigned big-endian integer in the two bytes of `b` at `i`.
pub open spec fn be_u16_at(b: Seq<u8>, i: int) -> u16 {
    (b[i] * 256 + b[i + 1]) as u16
}

/// The container-level prefix of a record.
#[derive(Debug)]
pub struct StorageHeader<'a> {
    /// The four pattern bytes, as found (not checked here).
    pub pattern: &'a [u8],
    pub timestamp: Timestamp,
    /// The sender id, zero padding dropped, decoded lossily.
    pub ecu: String,
}

/// Decodes a storage header from the front of `data`: pattern, seconds
/// (little-endian, unsigned), microseconds (little-endian, signed) and sender
/// id. `None` when fewer than 16 bytes are given.
pub fn parse_storage_header<'a>(data: &'a [u8]) -> (r: Option<(StorageHeader<'a>, &'a [u8])>)
    ensures
        r is Some <==> data@.len() >= STORAGE_HEADER_LEN,
        r matches Some((h, rest)) ==> {
            &&& h.pattern@ == data@.subrange(0, 4)
            &&& h.timestamp == timestamp_of(le_u32_at(data@, 4), le_u32_at(data@, 8) as i32)
            &&& h.ecu@ == id_text(data@.subrange(12, 16))
            &&& rest@ == data@.subrange(STORAGE_HEADER_LEN as int, data@.len() as int)
        },
{
    if data.len() < STORAGE_HEADER_LEN {
        return None;
    }
    let (head, rest) = data.split_at(STORAGE_HEADER_LEN);
    let pattern = vstd::slice::slice_subrange(head, 0, 4);
    let seconds = u32_from_le_bytes(vstd::slice::slice_subrange(head, 4, 8));
    let micros = u32_from_le_bytes(vstd::slice::slice_subrange(head, 8, 12)) as i32;
    let ecu = identifier_text(vstd::slice::slice_subrange(head, 12, 16));
    proof {
        assert(head@.subrange(4, 8) =~= data@.subrange(4, 8));
        assert(head@.subrange(8, 12) =~= data@.subrange(8, 12));
        assert(head@.subrange(12, 16) =~= data@.subrange(12, 16));
        assert(head@.subrange(0, 4) =~= data@.subrange(0, 4));
    }
    let timestamp = compose_timestamp(seconds, micros);
    Some((StorageHeader { pattern, timestamp, ecu }, rest))
}

/// The core header of a record.
#[derive(Clone, Copy, Debug, PartialEq, Eq, Structural)]
pub struct StandardHeader {
    /// Flags: bit 0 extended header, bit 1 big-endian payload, bit 2 sender id
    /// extension, bit 3 session id extension, bit 4 timestamp extension.
    pub htyp: u8,
    /// Message counter.
    pub mcnt: u8,
    /// Bytes from the start of the standard header to the end of the payload.
    pub len: u16,
}

/// The standard header held in the four bytes of `b` at `i`.
pub open spec fn standard_header_at(b: Seq<u8>, i: int) -> StandardHeader {
    StandardHeader { htyp: b[i], mcnt: b[i + 1], len: be_u16_at(b, i + 2) }
}

/// Decodes a standard header from the front of `data`: flags, counter and
/// total length (big-endian). `None` when fewer than 4 bytes are given.
pub fn parse_standard_header(data: &[u8]) -> (r: Option<(StandardHeader, &[u8])>)
    ensures
        r is Some <==> data@.len() >= STANDARD_HEADER_LEN,
        r matches Some((h, rest)) ==> {
            &&& h == standard_header_at(data@, 0)
            &&& rest@ == data@.subrange(STANDARD_HEADER_LEN as int, data@.len() as int)
        },
{
    if data.len() < STANDARD_HEADER_LEN {
        return None;
    }
    let htyp = data[0];
    let mcnt = data[1];
    let len: u16 = data[2] as u16 * 256 + data[3] as u16;
    let (_, rest) = data.split_at(STANDARD_HEADER_LEN);
    Some((StandardHeader { htyp, mcnt, len }, rest))
}

/// Number of bytes taken by the extension fields that the three flags
/// announce.
pub open spec fn extensions_len(ecu_id: bool, session_id: bool, timestamp: bool) -> nat {
    (if ecu_id { 4nat } else { 0nat }) + (if session_id { 4nat } else { 0nat }) + (if timestamp {
        4nat
    } else {
        0nat
    })
}

/// Skips the extension fields that the flags announce (sender id, session id,
/// timestamp, four bytes each), without decoding them. `None` when fewer bytes
/// remain than they take.
pub fn parse_extensions(ecu_id: bool, session_id: bool, timestamp: bool, data: &[u8]) -> (r:
    Option<&[u8]>)
    ensures
        r is Some <==> data@.len() >= extensions_len(ecu_id, session_id, timestamp),
        r matches Some(rest) ==> rest@ == data@.subrange(
            extensions_len(ecu_id, session_id, timestamp) as int,
            data@.len() as int,
        ),
{
    let mut bytes: usize = 0;
    if ecu_id {
        bytes += EXTENSION_LEN;
    }
    if session_id {
        bytes += EXTENSION_LEN;
    }
    if timestamp {
        bytes += EXTENSION_LEN;
    }
    if data.len() < bytes {
        return None;
    }
    let (_, rest) = data.split_at(bytes);
    Some(rest)
}

} // verus!
