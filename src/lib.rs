//! Decoder for binary trace-log containers: a sequence of self-describing,
//! variable-length records, each made of a storage header, a standard header,
//! optional extension fields, an optional extended header, a reserved field
//! and a payload.
pub mod text;
pub mod timestamp;
pub mod header;
pub mod extended;
pub mod message;
pub mod encoding;

pub use text::strip_null;
pub use timestamp::Timestamp;
pub use message::{Message, DecodeError, parse_message, decode_all};
pub use extended::{ExtendedHeader, MessageInfo, LogTypeInfo, parse_extended_header};
pub use header::{StorageHeader, StandardHeader, parse_storage_header, parse_standard_header, parse_extensions};
