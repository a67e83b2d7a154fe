//! Wire and snapshot constants shared by the codecs.

use vstd::prelude::*;

verus! {

pub const CR: u8 = 13;

pub const LF: u8 = 10;

/// `+`
pub const PLUS: u8 = 43;

/// `-`
pub const MINUS: u8 = 45;

/// `:`
pub const COLON: u8 = 58;

/// `$`
pub const DOLLAR: u8 = 36;

/// `*`
pub const STAR: u8 = 42;

/// `.`
pub const DOT: u8 = 46;

/// `1`
pub const DIGIT_ONE: u8 = 49;

pub const DEFAULT_PORT: u16 = 6379;

/// Number of bytes of the snapshot magic, `REDIS`.
pub const MAGIC_BYTES: usize = 5;

pub const VERSION_BYTES: usize = 4;

pub const TIME_SECS_BYTES: usize = 4;

pub const TIME_MILLIS_BYTES: usize = 8;

/// Strings at least this long are stored LZF-compressed when that shortens them.
pub const COMPRESS_AT_LENGTH: u16 = 150;

/// The longest string that is handed to the compressor. On longer inputs
/// `lzf::compress` can write past the end of its output buffer, which has
/// the length of the input: every run of 32 literals moves the write
/// position one further ahead of the read position, and from 165 bytes on
/// the position can pass the end before it is looked at. Longer strings are
/// stored as they are.
pub const COMPRESS_UP_TO: usize = 164;

/// Failed flushes a replica survives before it is dropped from the registry.
pub const SLAVE_LIFETIME_LIMIT: usize = 3;

pub const EOF: u8 = 0xFF;

pub const SELECTDB: u8 = 0xFE;

pub const EXPIRETIME: u8 = 0xFD;

pub const EXPIRETIMEMS: u8 = 0xFC;

pub const RESIZEDB: u8 = 0xFB;

pub const AUX: u8 = 0xFA;

/// The snapshot magic as bytes.
pub open spec fn magic() -> Seq<u8> {
    seq![82u8, 69u8, 68u8, 73u8, 83u8]
}

/// The two-byte line terminator.
pub open spec fn crlf() -> Seq<u8> {
    seq![CR, LF]
}

} // verus!
