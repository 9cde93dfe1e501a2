//! The optional extended header and the classification of its message-info
//! byte.
use vstd::prelude::*;
use crate::text::{id_text, identifier_text};

verus! {

/// Size of the extended header.
pub const EXTENDED_HEADER_LEN: usize = 10;

/// Severity of a log message.
#[derive(Clone, Copy, Debug, PartialEq, Eq, Structural)]
pub enum LogTypeInfo {
    Fatal,
    Error,
    Warn,
    Info,
    Debug,
    Verbose,
    Reserved,
}

/// Kind of a message, with the severity of a log message.
#[derive(Clone, Copy, Debug, PartialEq, Eq, Structural)]
pub enum MessageInfo {
    Log { level: LogTypeInfo },
    AppTrace,
    NwTrace,
    Control,
    Reserved,
}

/// The severity that a type-info code stands for.
pub open spec fn log_type_of(data: u8) -> LogTypeInfo {
    if data == 1 {
        LogTypeInfo::Fatal
    } else if data == 2 {
        LogTypeInfo::Error
    } else if data == 3 {
        LogTypeInfo::Warn
    } else if data == 4 {
        LogTypeInfo::Info
    } else if data == 5 {
        LogTypeInfo::Debug
    } else if data == 6 {
        LogTypeInfo::Verbose
    } else {
        LogTypeInfo::Reserved
    }
}

/// The kind that a message-type code stands for; the type-info code counts
/// for log messages only.
pub open spec fn message_info_from(ty: u8, data: u8) -> MessageInfo {
    if ty == 0 {
        MessageInfo::Log { level: log_type_of(data) }
    } else if ty == 1 {
        MessageInfo::AppTrace
    } else if ty == 2 {
        MessageInfo::NwTrace
    } else if ty == 3 {
        MessageInfo::Control
    } else {
        MessageInfo::Reserved
    }
}

/// The kind of message that a message-info byte describes: bits 1 to 3 hold
/// the message type, bits 4 to 7 the type info.
pub open spec fn message_info_of(msin: u8) -> MessageInfo {
    message_info_from((msin >> 1u8) & 0x07u8, (msin >> 4u8) & 0x0fu8)
}

/// The lower-case name of a severity.
pub open spec fn level_name(l: LogTypeInfo) -> Seq<char> {
    match l {
        LogTypeInfo::Fatal => "fatal"@,
        LogTypeInfo::Error => "error"@,
        LogTypeInfo::Warn => "warn"@,
        LogTypeInfo::Info => "info"@,
        LogTypeInfo::Debug => "debug"@,
        LogTypeInfo::Verbose => "verbose"@,
        LogTypeInfo::Reserved => "reserved"@,
    }
}

impl MessageInfo {
    fn from_raw(ty: u8, data: u8) -> (r: Self)
        ensures
            r == message_info_from(ty, data),
    {
        match ty {
            0 => Self::Log { level: LogTypeInfo::from_raw(data) },
            1 => Self::AppTrace,
            2 => Self::NwTrace,
            3 => Self::Control,
            _ => Self::Reserved,
        }
    }
}

impl LogTypeInfo {
    fn from_raw(data: u8) -> (r: Self)
        ensures
            r == log_type_of(data),
    {
        match data {
            1 => Self::Fatal,
            2 => Self::Error,
            3 => Self::Warn,
            4 => Self::Info,
            5 => Self::Debug,
            6 => Self::Verbose,
            _ => Self::Reserved,
        }
    }

    /// The lower-case name of this severity.
    pub fn as_str(&self) -> (r: &str)
        ensures
            r@ == level_name(*self),
    {
        proof {
            reveal_strlit("fatal");
            reveal_strlit("error");
            reveal_strlit("warn");
            reveal_strlit("info");
            reveal_strlit("debug");
            reveal_strlit("verbose");
            reveal_strlit("reserved");
        }
        match self {
            LogTypeInfo::Fatal => "fatal",
            LogTypeInfo::Error => "error",
            LogTypeInfo::Warn => "warn",
            LogTypeInfo::Info => "info",
            LogTypeInfo::Debug => "debug",
            LogTypeInfo::Verbose => "verbose",
            LogTypeInfo::Reserved => "reserved",
        }
    }
}

/// The optional header that classifies a message and names its source.
#[derive(Debug)]
pub struct ExtendedHeader {
    pub message_type: MessageInfo,
    /// Number of arguments, as found.
    pub noar: u8,
    /// Application id, zero padding dropped, decoded lossily.
    pub apid: String,
    /// Context id, zero padding dropped, decoded lossily.
    pub ctid: String,
}

/// Decodes an extended header from the front of `data`: message info,
/// argument count, application id and context id. `None` when fewer than 10
/// bytes are given.
pub fn parse_extended_header(data: &[u8]) -> (r: Option<(ExtendedHeader, &[u8])>)
    ensures
        r is Some <==> data@.len() >= EXTENDED_HEADER_LEN,
        r matches Some((h, rest)) ==> {
            &&& h.message_type == message_info_of(data@[0])
            &&& h.noar == data@[1]
            &&& h.apid@ == id_text(data@.subrange(2, 6))
            &&& h.ctid@ == id_text(data@.subrange(6, 10))
            &&& rest@ == data@.subrange(EXTENDED_HEADER_LEN as int, data@.len() as int)
        },
{
    if data.len() < EXTENDED_HEADER_LEN {
        return None;
    }
    let msin = data[0];
    let noar = data[1];
    let apid = identifier_text(vstd::slice::slice_subrange(data, 2, 6));
    let ctid = identifier_text(vstd::slice::slice_subrange(data, 6, 10));
    let message_type = MessageInfo::from_raw((msin >> 1u8) & 0x07u8, (msin >> 4u8) & 0x0fu8);
    let (_, rest) = data.split_at(EXTENDED_HEADER_LEN);
    Some((ExtendedHeader { message_type, noar, apid, ctid }, rest))
}

} // verus!
