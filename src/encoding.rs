//! A model of well-formed records as the fields they are built from, their
//! byte layout, and the laws that relate decoding to it.
use vstd::prelude::*;
use vstd::bytes::{spec_u32_to_le_bytes, lemma_auto_spec_u32_to_from_le_bytes};
use crate::extended::message_info_of;
use crate::header::{StandardHeader, be_u16_at, le_u32_at, standard_header_at};
use crate::message::{
    DecodeError, Message, decode_outcome, extended_offset, flagged_extensions_len, has_extended,
    header_len, magic, message_at, msb_first, record_starts,
};
use crate::text::id_text;
use crate::timestamp::timestamp_of;

verus! {

/// The fields of an extended header, identifiers as raw four-byte slots.
pub struct ExtendedFields {
    pub msin: u8,
    pub noar: u8,
    pub apid: Seq<u8>,
    pub ctid: Seq<u8>,
}

/// The fields a record is built from.
pub struct RecordFields {
    pub seconds: u32,
    pub micros: i32,
    pub ecu: Seq<u8>,
    pub htyp: u8,
    pub mcnt: u8,
    pub len: u16,
    pub extensions: Seq<u8>,
    pub extended: Option<ExtendedFields>,
    pub reserved: Seq<u8>,
    pub payload: Seq<u8>,
}

/// The fields make a record that a decoder should accept: slots of the
/// right sizes, the optional parts present exactly when flagged, a
/// little-endian payload, and a total length that counts from the standard
/// header to the end of the payload.
pub open spec fn valid_fields(f: RecordFields) -> bool {
    &&& f.ecu.len() == 4
    &&& !msb_first(f.htyp)
    &&& f.extensions.len() == flagged_extensions_len(f.htyp)
    &&& f.extended is Some <==> has_extended(f.htyp)
    &&& f.extended matches Some(e) ==> e.apid.len() == 4 && e.ctid.len() == 4
    &&& f.reserved.len() == 6
    &&& f.len + 16 == header_len(f.htyp) + f.payload.len()
}

/// The bytes of the extended header, empty when there is none.
pub open spec fn encode_extended(e: Option<ExtendedFields>) -> Seq<u8> {
    match e {
        Some(e) => seq![e.msin, e.noar] + e.apid + e.ctid,
        None => Seq::empty(),
    }
}

/// The bytes of the record that `f` describes.
pub open spec fn encode(f: RecordFields) -> Seq<u8> {
    magic() + spec_u32_to_le_bytes(f.seconds) + spec_u32_to_le_bytes(f.micros as u32) + f.ecu
        + seq![f.htyp, f.mcnt, (f.len / 256) as u8, (f.len % 256) as u8] + f.extensions
        + encode_extended(f.extended) + f.reserved + f.payload
}

/// The records of `fs`, one after the other.
pub open spec fn encode_all(fs: Seq<RecordFields>) -> Seq<u8>
    decreases fs.len(),
{
    if fs.len() == 0 {
        Seq::empty()
    } else {
        encode(fs[0]) + encode_all(fs.drop_first())
    }
}

/// The record at the front of `b` carries the fields `f`.
pub open spec fn fields_at(b: Seq<u8>, f: RecordFields) -> bool {
    let k = extended_offset(f.htyp) as int;
    let h = header_len(f.htyp) as int;
    &&& b.subrange(0, 4) == magic()
    &&& le_u32_at(b, 4) == f.seconds
    &&& le_u32_at(b, 8) as i32 == f.micros
    &&& b.subrange(12, 16) == f.ecu
    &&& standard_header_at(b, 16) == (StandardHeader { htyp: f.htyp, mcnt: f.mcnt, len: f.len })
    &&& b.subrange(20, k) == f.extensions
    &&& f.extended matches Some(e) ==> {
        &&& b[k] == e.msin
        &&& b[k + 1] == e.noar
        &&& b.subrange(k + 2, k + 6) == e.apid
        &&& b.subrange(k + 6, k + 10) == e.ctid
    }
    &&& b.subrange(h - 6, h) == f.reserved
    &&& b.subrange(h, f.len + 16) == f.payload
}

/// A decoded message shows the fields `f`: headers equal, identifiers as
/// their text, timestamp as the instant the seconds and microseconds make.
pub open spec fn message_shows(m: &Message, f: RecordFields) -> bool {
    &&& m.storage_header.pattern@ == magic()
    &&& m.storage_header.timestamp == timestamp_of(f.seconds, f.micros)
    &&& m.storage_header.ecu@ == id_text(f.ecu)
    &&& m.standard_header == (StandardHeader { htyp: f.htyp, mcnt: f.mcnt, len: f.len })
    &&& match f.extended {
        Some(e) => {
            &&& m.extended_header is Some
            &&& m.extended_header->Some_0.message_type == message_info_of(e.msin)
            &&& m.extended_header->Some_0.noar == e.noar
            &&& m.extended_header->Some_0.apid@ == id_text(e.apid)
            &&& m.extended_header->Some_0.ctid@ == id_text(e.ctid)
        },
        None => m.extended_header is None,
    }
    &&& m.payload@ == f.payload
}

/// A well-formed record, whatever follows it, decodes: it ends where its
/// bytes end, and its fields read back as they were written.
pub proof fn lemma_decode_encoded(f: RecordFields, rest: Seq<u8>)
    requires
        valid_fields(f),
    ensures
        decode_outcome(encode(f) + rest) == Ok::<nat, DecodeError>(encode(f).len()),
        fields_at(encode(f) + rest, f),
        encode(f).len() == f.len + 16,
{
    lemma_auto_spec_u32_to_from_le_bytes();
    let e = encode(f);
    let b = e + rest;
    let k = extended_offset(f.htyp) as int;
    let h = header_len(f.htyp) as int;
    let x = encode_extended(f.extended);
    assert(x.len() == h - 6 - k);
    assert(e.len() == f.len + 16);
    assert(b.subrange(0, 4) =~= magic());
    assert(b.subrange(4, 8) =~= spec_u32_to_le_bytes(f.seconds));
    assert(b.subrange(8, 12) =~= spec_u32_to_le_bytes(f.micros as u32));
    let m = f.micros;
    assert(((m as u32) as i32) == m) by (bit_vector);
    assert(b.subrange(12, 16) =~= f.ecu);
    assert(b[16] == f.htyp);
    assert(b[17] == f.mcnt);
    assert(b[18] == (f.len / 256) as u8);
    assert(b[19] == (f.len % 256) as u8);
    assert(be_u16_at(b, 18) == f.len) by (nonlinear_arith)
        requires
            b[18] == (f.len / 256) as u8,
            b[19] == (f.len % 256) as u8,
            be_u16_at(b, 18) == (b[18] * 256 + b[19]) as u16,
    ;
    assert(b.subrange(20, k) =~= f.extensions);
    if let Some(ef) = f.extended {
        assert(b.subrange(k, h - 6) =~= x);
        assert(b[k] == x[0]);
        assert(b[k + 1] == x[1]);
        assert(b.subrange(k + 2, k + 6) =~= ef.apid);
        assert(b.subrange(k + 6, k + 10) =~= ef.ctid);
    }
    assert(b.subrange(h - 6, h) =~= f.reserved);
    assert(b.subrange(h, f.len + 16) =~= f.payload);
}

/// Records written one after the other decode to as many records, starting
/// where each was written, each carrying the fields it was built from; the
/// whole buffer is used up.
pub proof fn lemma_decode_concatenation(fs: Seq<RecordFields>)
    requires
        forall|i: int| 0 <= i < fs.len() ==> valid_fields(#[trigger] fs[i]),
    ensures
        record_starts(encode_all(fs)) is Ok,
        record_starts(encode_all(fs))->Ok_0.len() == fs.len(),
        forall|i: int|
            0 <= i < fs.len() ==> {
                let s = #[trigger] record_starts(encode_all(fs))->Ok_0[i];
                &&& 0 <= s < encode_all(fs).len()
                &&& fields_at(encode_all(fs).subrange(s, encode_all(fs).len() as int), fs[i])
            },
    decreases fs.len(),
{
    if fs.len() > 0 {
        let tail = fs.drop_first();
        assert forall|i: int| 0 <= i < tail.len() implies valid_fields(#[trigger] tail[i]) by {
            assert(tail[i] == fs[i + 1]);
        }
        lemma_decode_concatenation(tail);
        let e = encode(fs[0]);
        let rest = encode_all(tail);
        let b = encode_all(fs);
        lemma_decode_encoded(fs[0], rest);
        assert(b == e + rest);
        assert(b.subrange(e.len() as int, b.len() as int) =~= rest);
        let t = record_starts(rest)->Ok_0;
        let starts = record_starts(b)->Ok_0;
        assert(starts == seq![0int] + t.map_values(|x: int| x + e.len()));
        assert(b.subrange(0, b.len() as int) =~= b);
        assert forall|i: int| 0 <= i < fs.len() implies {
            let s = #[trigger] record_starts(encode_all(fs))->Ok_0[i];
            &&& 0 <= s < encode_all(fs).len()
            &&& fields_at(encode_all(fs).subrange(s, encode_all(fs).len() as int), fs[i])
        } by {
            if i > 0 {
                let s = t[i - 1];
                assert(tail[i - 1] == fs[i]);
                assert(starts[i] == s + e.len());
                assert(b.subrange(s + e.len(), b.len() as int) =~= rest.subrange(
                    s,
                    rest.len() as int,
                ));
            }
        }
    }
}

/// A message decoded from bytes that carry the fields `f` shows those fields.
pub proof fn lemma_message_shows_fields(m: &Message, b: Seq<u8>, f: RecordFields)
    requires
        decode_outcome(b) is Ok,
        message_at(m, b),
        fields_at(b, f),
        valid_fields(f),
    ensures
        message_shows(m, f),
{
}

/// A buffer that holds a whole storage header whose first four bytes are not
/// the magic pattern fails as such, whatever the other bytes hold.
pub proof fn lemma_invalid_magic(b: Seq<u8>)
    requires
        b.len() >= 16,
        b.subrange(0, 4) != magic(),
    ensures
        decode_outcome(b) == Err::<nat, DecodeError>(DecodeError::InvalidMagic),
{
}

/// A record with the magic pattern and a whole standard header whose flags
/// announce a big-endian payload fails on the byte order.
pub proof fn lemma_big_endian_refused(b: Seq<u8>)
    requires
        b.len() >= 20,
        b.subrange(0, 4) == magic(),
        msb_first(b[16]),
    ensures
        decode_outcome(b) == Err::<nat, DecodeError>(DecodeError::UnsupportedByteOrder),
{
}

/// Without an extended header, the payload is the total length less the
/// standard header, the flagged extension fields and the reserved field.
pub proof fn lemma_payload_len_without_extended(b: Seq<u8>)
    requires
        decode_outcome(b) is Ok,
        !has_extended(b[16]),
    ensures
        decode_outcome(b)->Ok_0 - header_len(b[16]) == be_u16_at(b, 18) - 4
            - flagged_extensions_len(b[16]) - 6,
{
}

/// A record whose headers are whole and accepted, but whose total length runs
/// past the end of the buffer, fails on the payload length.
pub proof fn lemma_payload_past_end(b: Seq<u8>)
    requires
        b.len() >= 20,
        b.subrange(0, 4) == magic(),
        !msb_first(b[16]),
        b.len() >= header_len(b[16]),
        be_u16_at(b, 18) + 16 > b.len(),
    ensures
        decode_outcome(b) == Err::<nat, DecodeError>(DecodeError::PayloadLengthOutOfRange),
{
}

} // verus!
