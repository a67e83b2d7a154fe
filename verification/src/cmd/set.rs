//! `SET`.

use vstd::prelude::*;
use crate::cmd::{
    arg, array_of_bulks, bulks, error_frame, error_reply, take_arg, texts, CmdError, CmdType,
};
use crate::data_entry::{canonical, EntryModel};
use crate::decimal::{nat_digits, nat_to_bytes, parse_unsigned, read_unsigned};
use crate::redis::{
    add_pending_update_resp, db_set, db_wf, disjoint, lemma_disjoint_insert, slaves_wf, staged_all,
    stream_index, streams_wf, RedisDB, Slaves, StreamDB,
};
use crate::resp::{copy_bytes, views, RespType, RespValue};
use crate::utils::{ascii, is_word, lowercase};

verus! {

pub struct SetCmd {
    pub key: Vec<u8>,
    pub value: Vec<u8>,
    /// For how many milliseconds the value lives, where it expires.
    pub px: Option<u64>,
}

/// The arguments of `SET`: key and value, and where more follows, the
/// word `PX` in any case and the span in milliseconds. Any other word in
/// the place of `PX` is refused.
pub open spec fn set_args(args: Seq<RespValue>) -> Result<(Seq<u8>, Seq<u8>, Option<u64>), CmdError> {
    match arg(args, 0) {
        Ok(key) => match arg(args, 1) {
            Ok(value) => if args.len() > 2 {
                match arg(args, 2) {
                    Ok(word) => if lowercase(word) == ascii("px") {
                        match arg(args, 3) {
                            Ok(span) => match parse_unsigned(span, u64::MAX as nat) {
                                Some(px) => Ok((key, value, Some(px as u64))),
                                None => Err(CmdError::InvalidArg),
                            },
                            Err(e) => Err(e),
                        }
                    } else {
                        Err(CmdError::InvalidArg)
                    },
                    Err(e) => Err(e),
                }
            } else {
                Ok((key, value, None))
            },
            Err(e) => Err(e),
        },
        Err(e) => Err(e),
    }
}

/// The payloads of the command as it is handed on to replicas.
pub open spec fn set_words(key: Seq<u8>, value: Seq<u8>, px: Option<u64>) -> Seq<Seq<u8>> {
    match px {
        Some(millis) => seq![ascii("SET"), key, value, ascii("px"), nat_digits(millis as nat)],
        None => seq![ascii("SET"), key, value],
    }
}

/// The message for a write to a key that holds a stream.
pub open spec fn wrong_type_text() -> Seq<u8> {
    ascii("Operation against a key holding the wrong kind of value")
}

/// The message for a string that the snapshot format cannot hold.
pub open spec fn too_long_text() -> Seq<u8> {
    ascii("string exceeds maximum allowed size")
}

impl SetCmd {
    /// Reads key, value and span from the arguments.
    pub fn new(args: &[RespType]) -> (r: Result<Self, CmdError>)
        ensures
            match set_args(views(args@)) {
                Ok(parts) => r matches Ok(c) && c.key@ == parts.0 && c.value@ == parts.1 && c.px
                    == parts.2,
                Err(e) => r matches Err(err) && err == e,
            },
    {
        let key: Vec<u8> = match take_arg(args, 0) {
            Ok(key) => key,
            Err(e) => {
                return Err(e);
            },
        };
        let value: Vec<u8> = match take_arg(args, 1) {
            Ok(value) => value,
            Err(e) => {
                return Err(e);
            },
        };
        let px: Option<u64> = if args.len() > 2 {
            let word: Vec<u8> = match take_arg(args, 2) {
                Ok(word) => word,
                Err(e) => {
                    return Err(e);
                },
            };
            if !is_word(word.as_slice(), "px".as_bytes()) {
                return Err(CmdError::InvalidArg);
            }
            let span: Vec<u8> = match take_arg(args, 3) {
                Ok(span) => span,
                Err(e) => {
                    return Err(e);
                },
            };
            match read_unsigned(span.as_slice(), u64::MAX as u128) {
                Some(px) => Some(px as u64),
                None => {
                    return Err(CmdError::InvalidArg);
                },
            }
        } else {
            None
        };
        Ok(SetCmd { key, value, px })
    }

    /// The command as it is handed on to replicas: an array of bulk strings.
    pub fn as_resp(&self) -> (r: RespType)
        ensures
            r@ == bulks(set_words(self.key@, self.value@, self.px)),
    {
        let mut words: Vec<Vec<u8>> = Vec::new();
        words.push(vstd::slice::slice_to_vec("SET".as_bytes()));
        words.push(copy_bytes(&self.key));
        words.push(copy_bytes(&self.value));
        match self.px {
            Some(millis) => {
                words.push(vstd::slice::slice_to_vec("px".as_bytes()));
                words.push(nat_to_bytes(millis as u128));
            },
            None => {},
        }
        assert(texts(words@) =~= set_words(self.key@, self.value@, self.px));
        array_of_bulks(words)
    }

    /// Writes the value under the key at the moment `now` and answers
    /// `OK`. Where `propagate` is set the command is staged for every
    /// replica, behind what waits there; no socket is written. A key that
    /// holds a stream, or a string too long for a snapshot, is refused with
    /// an error and nothing changes.
    pub fn run(
        &self,
        dict: &mut RedisDB,
        streams: &StreamDB,
        slaves: &mut Slaves,
        now: u64,
        propagate: bool,
    ) -> (r: RespType)
        requires
            db_wf(old(dict)@),
            streams_wf(streams@),
            slaves_wf(old(slaves)@),
            disjoint(old(dict)@, streams@),
        ensures
            db_wf(final(dict)@),
            slaves_wf(final(slaves)@),
            disjoint(final(dict)@, streams@),
            if self.key@.len() > u32::MAX || self.value@.len() > u32::MAX {
                &&& r@ == error_frame(too_long_text())
                &&& final(dict)@ == old(dict)@
                &&& final(slaves)@ == old(slaves)@
            } else if stream_index(streams@, self.key@) is Some {
                &&& r@ == error_frame(wrong_type_text())
                &&& final(dict)@ == old(dict)@
                &&& final(slaves)@ == old(slaves)@
            } else {
                &&& r@ == RespValue::SimpleString(ascii("OK"))
                &&& final(dict)@ == db_set(old(dict)@, self.key@, self.value@, self.px, now)
                &&& final(slaves)@ == if propagate {
                    staged_all(
                        old(slaves)@,
                        bulks(set_words(self.key@, self.value@, self.px)).serialize(),
                    )
                } else {
                    old(slaves)@
                }
            },
    {
        if self.key.len() > 0xffff_ffff || self.value.len() > 0xffff_ffff {
            return error_reply("string exceeds maximum allowed size".as_bytes());
        }
        if streams.find(self.key.as_slice()).is_some() {
            return error_reply("Operation against a key holding the wrong kind of value".as_bytes());
        }
        dict.set(copy_bytes(&self.key), copy_bytes(&self.value), self.px, now);
        proof {
            lemma_disjoint_insert(
                old(dict)@,
                streams@,
                canonical(self.key@),
                EntryModel {
                    value: canonical(self.value@),
                    created_at: now,
                    expired_millis: self.px,
                },
            );
        }
        if propagate {
            let frame: RespType = self.as_resp();
            add_pending_update_resp(slaves, &frame);
        }
        RespType::SimpleString(vstd::slice::slice_to_vec("OK".as_bytes()))
    }

    pub fn cmd_type(&self) -> (r: CmdType)
        ensures
            r == CmdType::SET,
    {
        CmdType::SET
    }
}

} // verus!
