use dlt_convert::timestamp::compose_timestamp;
use dlt_convert::{
    decode_all, parse_extended_header, parse_extensions, parse_message, parse_standard_header,
    parse_storage_header, strip_null, DecodeError, LogTypeInfo, MessageInfo, Timestamp,
};

const MAGIC: [u8; 4] = [0x44, 0x4c, 0x54, 0x01];

fn storage(seconds: u32, micros: i32, ecu: [u8; 4]) -> Vec<u8> {
    let mut v = MAGIC.to_vec();
    v.extend_from_slice(&seconds.to_le_bytes());
    v.extend_from_slice(&micros.to_le_bytes());
    v.extend_from_slice(&ecu);
    v
}

/// A record with the given flags; extension fields are filled with 0xee, the
/// extended header (when flagged) uses `msin`, and the total length is
/// computed from the payload unless `len` is given.
fn record(htyp: u8, mcnt: u8, msin: u8, payload: &[u8], len: Option<u16>) -> Vec<u8> {
    let mut body = Vec::new();
    for bit in [0x04u8, 0x08, 0x10] {
        if htyp & bit != 0 {
            body.extend_from_slice(&[0xee; 4]);
        }
    }
    if htyp & 0x01 != 0 {
        body.extend_from_slice(&[msin, 2, b'A', b'P', b'P', 0, b'C', b'T', b'X', b'1']);
    }
    body.extend_from_slice(&[0; 6]);
    body.extend_from_slice(payload);
    let total = len.unwrap_or((4 + body.len()) as u16);
    let mut v = storage(100, 250, [b'E', b'C', b'U', 0]);
    v.extend_from_slice(&[htyp, mcnt]);
    v.extend_from_slice(&total.to_be_bytes());
    v.extend_from_slice(&body);
    v
}

#[test]
fn strip_null_trailing_zeros() {
    assert_eq!(strip_null(&[0x41, 0x42, 0x43, 0x44, 0, 0]), &[0x41, 0x42, 0x43, 0x44]);
}

#[test]
fn strip_null_all_zero_unchanged() {
    assert_eq!(strip_null(&[0, 0, 0, 0]), &[0, 0, 0, 0]);
}

#[test]
fn strip_null_embedded_zero_kept() {
    assert_eq!(strip_null(&[0x41, 0, 0x42, 0]), &[0x41, 0, 0x42]);
}

#[test]
fn strip_null_empty_and_full() {
    assert_eq!(strip_null(&[]), &[] as &[u8]);
    assert_eq!(strip_null(&[1, 2, 3, 4]), &[1, 2, 3, 4]);
}

#[test]
fn timestamp_carries_microseconds() {
    assert_eq!(compose_timestamp(0, 1_500_000), Timestamp { secs: 1, nanos: 500_000_000 });
}

#[test]
fn timestamp_plain() {
    assert_eq!(compose_timestamp(1_700_000_000, 123_456), Timestamp { secs: 1_700_000_000, nanos: 123_456_000 });
}

#[test]
fn timestamp_negative_microseconds_borrow() {
    assert_eq!(compose_timestamp(10, -1), Timestamp { secs: 9, nanos: 999_999_000 });
    assert_eq!(compose_timestamp(10, -2_000_000), Timestamp { secs: 8, nanos: 0 });
}

#[test]
fn storage_header_fields() {
    let bytes = storage(7, 2_000_001, [b'E', b'C', 0, b'1']);
    let (h, rest) = parse_storage_header(&bytes).unwrap();
    assert_eq!(h.pattern, &MAGIC);
    assert_eq!(h.timestamp, Timestamp { secs: 9, nanos: 1_000 });
    assert_eq!(h.ecu, "EC\u{0}1");
    assert!(rest.is_empty());
}

#[test]
fn storage_header_truncated() {
    assert!(parse_storage_header(&[0x44, 0x4c, 0x54, 0x01, 0, 0]).is_none());
}

#[test]
fn standard_header_fields() {
    let (h, rest) = parse_standard_header(&[0x21, 9, 0x01, 0x02, 0xaa]).unwrap();
    assert_eq!((h.htyp, h.mcnt, h.len), (0x21, 9, 0x0102));
    assert_eq!(rest, &[0xaa]);
    assert!(parse_standard_header(&[1, 2, 3]).is_none());
}

#[test]
fn extensions_skipped() {
    let data = [1u8; 13];
    assert_eq!(parse_extensions(true, false, true, &data).unwrap().len(), 5);
    assert_eq!(parse_extensions(true, true, true, &data).unwrap().len(), 1);
    assert_eq!(parse_extensions(false, false, false, &data).unwrap().len(), 13);
    assert!(parse_extensions(true, true, true, &data[..11]).is_none());
}

#[test]
fn message_type_application_trace() {
    let (h, _) = parse_extended_header(&[0b0000_0010, 0, b'A', 0, 0, 0, b'C', 0, 0, 0]).unwrap();
    assert_eq!(h.message_type, MessageInfo::AppTrace);
}

#[test]
fn message_type_log_error() {
    let (h, _) = parse_extended_header(&[0b0010_0001, 3, b'A', b'P', 0, 0, b'C', b'T', b'X', 0]).unwrap();
    assert_eq!(h.message_type, MessageInfo::Log { level: LogTypeInfo::Error });
    assert_eq!(h.noar, 3);
    assert_eq!(h.apid, "AP");
    assert_eq!(h.ctid, "CTX");
}

#[test]
fn message_type_other_kinds() {
    let kind = |msin: u8| parse_extended_header(&[msin, 0, 0, 0, 0, 0, 0, 0, 0, 0]).unwrap().0.message_type;
    assert_eq!(kind(0b0100), MessageInfo::NwTrace);
    assert_eq!(kind(0b0110), MessageInfo::Control);
    assert_eq!(kind(0b1000), MessageInfo::Reserved);
    assert_eq!(kind(0b0111_0000), MessageInfo::Log { level: LogTypeInfo::Reserved });
    assert_eq!(kind(0b0100_0000), MessageInfo::Log { level: LogTypeInfo::Info });
    assert_eq!(kind(0b0001_0000), MessageInfo::Log { level: LogTypeInfo::Fatal });
}

#[test]
fn extended_header_invalid_utf8_replaced() {
    let (h, _) = parse_extended_header(&[0, 0, 0xff, b'x', 0, 0, 0, 0, 0, 0]).unwrap();
    assert_eq!(h.apid, "\u{FFFD}x");
    assert_eq!(h.ctid, "\0\0\0\0");
    assert!(parse_extended_header(&[0; 9]).is_none());
}

#[test]
fn level_names() {
    assert_eq!(LogTypeInfo::Fatal.as_str(), "fatal");
    assert_eq!(LogTypeInfo::Error.as_str(), "error");
    assert_eq!(LogTypeInfo::Warn.as_str(), "warn");
    assert_eq!(LogTypeInfo::Info.as_str(), "info");
    assert_eq!(LogTypeInfo::Debug.as_str(), "debug");
    assert_eq!(LogTypeInfo::Verbose.as_str(), "verbose");
    assert_eq!(LogTypeInfo::Reserved.as_str(), "reserved");
}

#[test]
fn record_with_extended_header() {
    let mut bytes = record(0x35, 7, 0b0100_0001, b"hello", None);
    bytes.extend_from_slice(&[1, 2, 3]);
    let (m, rest) = parse_message(&bytes).unwrap();
    assert_eq!(m.payload, b"hello");
    assert_eq!(rest, &[1, 2, 3]);
    assert_eq!(m.standard_header.mcnt, 7);
    assert_eq!(m.standard_header.len, 4 + 8 + 10 + 6 + 5);
    assert_eq!(m.storage_header.ecu, "ECU");
    assert_eq!(m.storage_header.timestamp, Timestamp { secs: 100, nanos: 250_000 });
    let e = m.extended_header.unwrap();
    assert_eq!(e.message_type, MessageInfo::Log { level: LogTypeInfo::Info });
    assert_eq!(e.noar, 2);
    assert_eq!(e.apid, "APP");
    assert_eq!(e.ctid, "CTX1");
}

#[test]
fn record_without_extended_header() {
    // Flags: session id and timestamp extensions, no extended header.
    let bytes = record(0x18, 1, 0, b"abcdefgh", None);
    let (m, rest) = parse_message(&bytes).unwrap();
    assert!(m.extended_header.is_none());
    assert_eq!(m.payload, b"abcdefgh");
    assert_eq!(m.standard_header.len as usize - 4 - 8 - 6, 8);
    assert!(rest.is_empty());
}

#[test]
fn record_empty_payload() {
    let bytes = record(0x00, 0, 0, b"", None);
    let (m, rest) = parse_message(&bytes).unwrap();
    assert!(m.payload.is_empty());
    assert!(rest.is_empty());
}

#[test]
fn invalid_magic() {
    let mut bytes = record(0x01, 0, 0, b"x", None);
    bytes[3] = 0x02;
    assert_eq!(parse_message(&bytes).err(), Some(DecodeError::InvalidMagic));
    let mut short = vec![0u8; 16];
    short[0] = 0x45;
    assert_eq!(parse_message(&short).err(), Some(DecodeError::InvalidMagic));
}

#[test]
fn big_endian_payload_refused() {
    let bytes = record(0x02, 0, 0, b"x", None);
    assert_eq!(parse_message(&bytes).err(), Some(DecodeError::UnsupportedByteOrder));
}

#[test]
fn payload_past_end() {
    let bytes = record(0x00, 0, 0, b"abc", Some(4 + 6 + 4));
    assert_eq!(parse_message(&bytes).err(), Some(DecodeError::PayloadLengthOutOfRange));
}

#[test]
fn payload_length_negative() {
    let bytes = record(0x01, 0, 0, b"abc", Some(4 + 10 + 5));
    assert_eq!(parse_message(&bytes).err(), Some(DecodeError::PayloadLengthOutOfRange));
}

#[test]
fn truncated_inputs() {
    assert_eq!(parse_message(&[]).err(), Some(DecodeError::TruncatedInput));
    let bytes = record(0x1d, 0, 0, b"", None);
    for cut in [10, 16, 18, 25, 30, bytes.len() - 1] {
        assert_eq!(parse_message(&bytes[..cut]).err(), Some(DecodeError::TruncatedInput), "cut {}", cut);
    }
}

#[test]
fn stream_of_records() {
    let mut bytes = Vec::new();
    bytes.extend(record(0x35, 1, 0b0010_0001, b"first", None));
    bytes.extend(record(0x00, 2, 0, b"", None));
    bytes.extend(record(0x01, 3, 0b0000_0010, b"third!", None));
    let messages = decode_all(&bytes).unwrap();
    assert_eq!(messages.len(), 3);
    assert_eq!(messages[0].payload, b"first");
    assert_eq!(messages[0].standard_header.mcnt, 1);
    assert_eq!(
        messages[0].extended_header.as_ref().unwrap().message_type,
        MessageInfo::Log { level: LogTypeInfo::Error }
    );
    assert!(messages[1].payload.is_empty());
    assert!(messages[1].extended_header.is_none());
    assert_eq!(messages[2].payload, b"third!");
    assert_eq!(messages[2].extended_header.as_ref().unwrap().message_type, MessageInfo::AppTrace);
}

#[test]
fn stream_empty() {
    assert_eq!(decode_all(&[]).unwrap().len(), 0);
}

#[test]
fn stream_reports_failing_offset() {
    let first = record(0x00, 1, 0, b"ok", None);
    let mut bytes = first.clone();
    bytes.extend(record(0x00, 2, 0, b"abc", Some(4 + 6 + 10)));
    assert_eq!(decode_all(&bytes).err(), Some((first.len(), DecodeError::PayloadLengthOutOfRange)));
}
