//! Decoding of whole records: the headers in order, the checks between them,
//! and the payload boundary computed from the standard header's length.
use vstd::prelude::*;
use crate::extended::{ExtendedHeader, message_info_of, parse_extended_header, EXTENDED_HEADER_LEN};
use crate::header::{
    StandardHeader, StorageHeader, be_u16_at, extensions_len, le_u32_at, parse_extensions,
    parse_standard_header, parse_storage_header, standard_header_at, STANDARD_HEADER_LEN,
    STORAGE_HEADER_LEN,
};
use crate::text::id_text;
use crate::timestamp::timestamp_of;

verus! {

/// Size of the reserved field that follows the optional headers.
pub const RESERVED_LEN: usize = 6;

/// Why a record could not be decoded.
#[derive(Clone, Copy, Debug, PartialEq, Eq, Structural)]
pub enum DecodeError {
    /// Fewer bytes remain than a fixed field requires.
    TruncatedInput,
    /// The storage header's pattern is not the magic constant.
    InvalidMagic,
    /// The standard header announces a big-endian payload.
    UnsupportedByteOrder,
    /// The payload length that the total length implies is negative or runs
    /// past the end of the buffer.
    PayloadLengthOutOfRange,
}

/// One decoded record; the pattern and the payload borrow from the buffer.
#[derive(Debug)]
pub struct Message<'a> {
    pub storage_header: StorageHeader<'a>,
    pub standard_header: StandardHeader,
    pub extended_header: Option<ExtendedHeader>,
    pub payload: &'a [u8],
}

/// The pattern that opens every storage header.
pub open spec fn magic() -> Seq<u8> {
    seq![0x44u8, 0x4cu8, 0x54u8, 0x01u8]
}

/// Flag: an extended header follows the extension fields.
pub open spec fn has_extended(htyp: u8) -> bool {
    htyp & 0x01u8 != 0
}

/// Flag: the payload is big-endian.
pub open spec fn msb_first(htyp: u8) -> bool {
    htyp & 0x02u8 != 0
}

/// Bytes taken by the extension fields that the flags announce.
pub open spec fn flagged_extensions_len(htyp: u8) -> nat {
    extensions_len(htyp & 0x04u8 != 0, htyp & 0x08u8 != 0, htyp & 0x10u8 != 0)
}

/// Offset of the extended header (or of the reserved field, when there is
/// none) from the start of the record.
pub open spec fn extended_offset(htyp: u8) -> nat {
    (STORAGE_HEADER_LEN + STANDARD_HEADER_LEN + flagged_extensions_len(htyp)) as nat
}

/// Offset of the payload from the start of the record.
pub open spec fn header_len(htyp: u8) -> nat {
    (extended_offset(htyp) + (if has_extended(htyp) { EXTENDED_HEADER_LEN as nat } else { 0nat })
        + RESERVED_LEN) as nat
}

/// The outcome of decoding the record at the front of `b`: the offset at which
/// the record ends, or the first error met.
pub open spec fn decode_outcome(b: Seq<u8>) -> Result<nat, DecodeError> {
    if b.len() < STORAGE_HEADER_LEN {
        Err(DecodeError::TruncatedInput)
    } else if b.subrange(0, 4) != magic() {
        Err(DecodeError::InvalidMagic)
    } else if b.len() < STORAGE_HEADER_LEN + STANDARD_HEADER_LEN {
        Err(DecodeError::TruncatedInput)
    } else if msb_first(b[16]) {
        Err(DecodeError::UnsupportedByteOrder)
    } else if b.len() < header_len(b[16]) {
        Err(DecodeError::TruncatedInput)
    } else if be_u16_at(b, 18) + STORAGE_HEADER_LEN < header_len(b[16]) || be_u16_at(b, 18)
        + STORAGE_HEADER_LEN > b.len() {
        Err(DecodeError::PayloadLengthOutOfRange)
    } else {
        Ok((be_u16_at(b, 18) + STORAGE_HEADER_LEN) as nat)
    }
}

/// `m` holds what the record at the front of `b` says, for a record that
/// `decode_outcome` accepts.
pub open spec fn message_at(m: &Message, b: Seq<u8>) -> bool {
    let htyp = b[16];
    let k = extended_offset(htyp) as int;
    &&& m.storage_header.pattern@ == b.subrange(0, 4)
    &&& m.storage_header.timestamp == timestamp_of(le_u32_at(b, 4), le_u32_at(b, 8) as i32)
    &&& m.storage_header.ecu@ == id_text(b.subrange(12, 16))
    &&& m.standard_header == standard_header_at(b, 16)
    &&& if has_extended(htyp) {
        &&& m.extended_header is Some
        &&& m.extended_header->Some_0.message_type == message_info_of(b[k])
        &&& m.extended_header->Some_0.noar == b[k + 1]
        &&& m.extended_header->Some_0.apid@ == id_text(b.subrange(k + 2, k + 6))
        &&& m.extended_header->Some_0.ctid@ == id_text(b.subrange(k + 6, k + 10))
    } else {
        m.extended_header is None
    }
    &&& m.payload@ == b.subrange(
        header_len(htyp) as int,
        be_u16_at(b, 18) + STORAGE_HEADER_LEN,
    )
}

/// Decodes the record at the front of `data` and returns it with the bytes
/// that follow it. The checks come in order: a whole storage header, the magic
/// pattern, a whole standard header, a little-endian payload, whole extension
/// fields, extended header and reserved field, and a payload that fits.
pub fn parse_message<'a>(data: &'a [u8]) -> (r: Result<(Message<'a>, &'a [u8]), DecodeError>)
    ensures
        r is Ok <==> decode_outcome(data@) is Ok,
        r matches Ok((m, rest)) ==> {
            &&& message_at(&m, data@)
            &&& rest@ == data@.subrange(decode_outcome(data@)->Ok_0 as int, data@.len() as int)
        },
        r matches Err(e) ==> decode_outcome(data@) == Err::<nat, DecodeError>(e),
{
    let ghost b = data@;
    let (storage_header, rest) = match parse_storage_header(data) {
        Some(x) => x,
        None => return Err(DecodeError::TruncatedInput),
    };
    let pattern = storage_header.pattern;
    if !(pattern[0] == 0x44 && pattern[1] == 0x4c && pattern[2] == 0x54 && pattern[3] == 0x01) {
        proof {
            assert(b.subrange(0, 4) != magic()) by {
                if b.subrange(0, 4) == magic() {
                    assert(b.subrange(0, 4)[0] == 0x44u8);
                    assert(b.subrange(0, 4)[1] == 0x4cu8);
                    assert(b.subrange(0, 4)[2] == 0x54u8);
                    assert(b.subrange(0, 4)[3] == 0x01u8);
                }
            }
        }
        return Err(DecodeError::InvalidMagic);
    }
    assert(b.subrange(0, 4) =~= magic());
    let (standard_header, rest) = match parse_standard_header(rest) {
        Some(x) => x,
        None => return Err(DecodeError::TruncatedInput),
    };
    assert(standard_header == standard_header_at(b, 16));
    let htyp = standard_header.htyp;
    if htyp & 0x02 != 0 {
        return Err(DecodeError::UnsupportedByteOrder);
    }
    let after_std = rest;
    let rest = match parse_extensions(htyp & 0x04 != 0, htyp & 0x08 != 0, htyp & 0x10 != 0, rest) {
        Some(r) => r,
        None => return Err(DecodeError::TruncatedInput),
    };
    let ghost k = extended_offset(htyp) as int;
    assert(rest@ =~= b.subrange(k, b.len() as int));
    let (extended_header, rest) = if htyp & 0x01 != 0 {
        match parse_extended_header(rest) {
            Some((h, r)) => {
                assert(rest@.subrange(2, 6) =~= b.subrange(k + 2, k + 6));
                assert(rest@.subrange(6, 10) =~= b.subrange(k + 6, k + 10));
                (Some(h), r)
            },
            None => return Err(DecodeError::TruncatedInput),
        }
    } else {
        (None, rest)
    };
    let ghost reserved_at = header_len(htyp) - RESERVED_LEN;
    assert(rest@ =~= b.subrange(reserved_at, b.len() as int));
    if rest.len() < RESERVED_LEN {
        return Err(DecodeError::TruncatedInput);
    }
    let (_, rest) = rest.split_at(RESERVED_LEN);
    assert(rest@ =~= b.subrange(header_len(htyp) as int, b.len() as int));
    let parsed: usize = data.len() - rest.len();
    let total: usize = standard_header.len as usize + STORAGE_HEADER_LEN;
    if total < parsed || total - parsed > rest.len() {
        return Err(DecodeError::PayloadLengthOutOfRange);
    }
    let (payload, rest) = rest.split_at(total - parsed);
    assert(payload@ =~= b.subrange(header_len(htyp) as int, total as int));
    assert(rest@ =~= b.subrange(total as int, b.len() as int));
    Ok((Message { storage_header, standard_header, extended_header, payload }, rest))
}

/// Offsets `starts` of records already decoded, followed by the outcome `r`
/// of decoding what lies from `pos` on.
pub open spec fn after_records(
    starts: Seq<int>,
    pos: int,
    r: Result<Seq<int>, (int, DecodeError)>,
) -> Result<Seq<int>, (int, DecodeError)> {
    match r {
        Ok(t) => Ok(starts + t.map_values(|x: int| x + pos)),
        Err((o, e)) => Err((o + pos, e)),
    }
}

/// The offsets at which the records of `b` start, decoding one after the
/// other until the buffer is used up; or the offset of the record that fails,
/// with its error.
pub open spec fn record_starts(b: Seq<u8>) -> Result<Seq<int>, (int, DecodeError)>
    decreases b.len(),
{
    if b.len() == 0 {
        Ok(Seq::empty())
    } else {
        match decode_outcome(b) {
            Err(e) => Err((0, e)),
            Ok(end) => if 0 < end <= b.len() {
                after_records(seq![0], end as int, record_starts(b.subrange(end as int, b.len() as int)))
            } else {
                Err((0, DecodeError::PayloadLengthOutOfRange))
            },
        }
    }
}

/// A record that decodes ends after its headers, inside the buffer.
pub proof fn lemma_outcome_bounds(b: Seq<u8>)
    ensures
        decode_outcome(b) matches Ok(end) ==> header_len(b[16]) <= end <= b.len() && 0 < end,
{
}

proof fn lemma_after_records_step(starts: Seq<int>, pos: int, end: int, r: Result<Seq<int>, (int, DecodeError)>)
    ensures
        after_records(starts, pos, after_records(seq![0], end, r))
            == after_records(starts.push(pos), pos + end, r),
{
    match r {
        Ok(t) => {
            let lhs = starts + (seq![0] + t.map_values(|x: int| x + end)).map_values(|x: int| x + pos);
            let rhs = starts.push(pos) + t.map_values(|x: int| x + (pos + end));
            assert(lhs =~= rhs);
        },
        Err(_) => {},
    }
}

/// Decodes every record of `data`, one after the other, until the buffer is
/// used up. Stops at the first record that fails and returns its offset with
/// the error.
pub fn decode_all<'a>(data: &'a [u8]) -> (r: Result<Vec<Message<'a>>, (usize, DecodeError)>)
    ensures
        r is Ok <==> record_starts(data@) is Ok,
        r matches Ok(v) ==> {
            let starts = record_starts(data@)->Ok_0;
            &&& v@.len() == starts.len()
            &&& forall|i: int| 0 <= i < starts.len() ==> 0 <= #[trigger] starts[i] < data@.len()
            &&& forall|i: int|
                0 <= i < v@.len() ==> message_at(
                    &#[trigger] v@[i],
                    data@.subrange(starts[i], data@.len() as int),
                )
        },
        r matches Err((o, e)) ==> record_starts(data@) == Err::<Seq<int>, (int, DecodeError)>(
            (o as int, e),
        ),
{
    let mut messages: Vec<Message<'a>> = Vec::new();
    let mut cursor: &'a [u8] = data;
    let mut pos: usize = 0;
    let total: usize = data.len();
    let ghost mut starts: Seq<int> = Seq::empty();
    assert(data@.subrange(0, data@.len() as int) =~= data@);
    assert(after_records(starts, 0, record_starts(data@)) == record_starts(data@)) by {
        if let Ok(t) = record_starts(data@) {
            assert(t.map_values(|x: int| x + 0) =~= t);
            assert(starts + t =~= t);
        }
    }
    while cursor.len() > 0
        invariant
            pos <= data@.len(),
            total == data@.len(),
            cursor@ == data@.subrange(pos as int, data@.len() as int),
            record_starts(data@) == after_records(starts, pos as int, record_starts(cursor@)),
            messages@.len() == starts.len(),
            forall|i: int| 0 <= i < starts.len() ==> 0 <= #[trigger] starts[i] < pos,
            forall|i: int|
                0 <= i < messages@.len() ==> message_at(
                    &#[trigger] messages@[i],
                    data@.subrange(starts[i], data@.len() as int),
                ),
        decreases cursor@.len(),
    {
        proof {
            lemma_outcome_bounds(cursor@);
        }
        match parse_message(cursor) {
            Ok((m, rest)) => {
                let ghost end = decode_outcome(cursor@)->Ok_0 as int;
                proof {
                    lemma_after_records_step(starts, pos as int, end, record_starts(rest@));
                    assert(data@.subrange(pos as int, data@.len() as int) =~= cursor@);
                    assert(rest@ =~= data@.subrange(pos + end, data@.len() as int));
                    starts = starts.push(pos as int);
                    assert(0 < end <= cursor@.len());
                    assert(rest@.len() == cursor@.len() - end);
                    assert(cursor@.len() + pos == data@.len());
                }
                messages.push(m);
                pos = pos + (cursor.len() - rest.len());
                cursor = rest;
            },
            Err(e) => {
                return Err((pos, e));
            },
        }
    }
    proof {
        assert(record_starts(cursor@) == Ok::<Seq<int>, (int, DecodeError)>(Seq::empty()));
        assert(starts + Seq::<int>::empty().map_values(|x: int| x + pos) =~= starts);
    }
    Ok(messages)
}

} // verus!
