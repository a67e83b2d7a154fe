//! `TYPE`.

use vstd::prelude::*;
use crate::cmd::{arg, take_arg, CmdError, CmdType};
use crate::redis::{db_get, db_wf, stream_index, streams_wf, RedisDB, StreamDB};
use crate::resp::{views, RespType, RespValue};
use crate::utils::ascii;

verus! {

pub struct Type {
    pub key: Vec<u8>,
}

/// The name of what a key holds: `string` where a read gives a value,
/// else `stream` where a stream stands under the key, else `none`.
pub open spec fn kind_name(found: Option<Seq<u8>>, is_stream: bool) -> Seq<u8> {
    if found is Some {
        ascii("string")
    } else if is_stream {
        ascii("stream")
    } else {
        ascii("none")
    }
}

impl Type {
    /// Reads the key, the first argument.
    pub fn new(args: &[RespType]) -> (r: Result<Self, CmdError>)
        ensures
            match arg(views(args@), 0) {
                Ok(key) => r matches Ok(c) && c.key@ == key,
                Err(e) => r matches Err(err) && err == e,
            },
    {
        match take_arg(args, 0) {
            Ok(key) => Ok(Type { key }),
            Err(e) => Err(e),
        }
    }

    /// Answers the name of what the key holds at the moment `now`. A
    /// string that has outlived its span is taken out, as a read does.
    pub fn run(&self, dict: &mut RedisDB, streams: &StreamDB, now: u64) -> (r: RespType)
        requires
            db_wf(old(dict)@),
            streams_wf(streams@),
        ensures
            db_wf(final(dict)@),
            self.key@.len() <= u32::MAX ==> final(dict)@ == db_get(old(dict)@, self.key@, now).0
                && r@ == RespValue::SimpleString(
                kind_name(
                    db_get(old(dict)@, self.key@, now).1,
                    stream_index(streams@, self.key@) is Some,
                ),
            ),
            self.key@.len() > u32::MAX ==> final(dict)@ == old(dict)@ && r@
                == RespValue::SimpleString(
                kind_name(None, stream_index(streams@, self.key@) is Some),
            ),
    {
        let found: bool = if self.key.len() > 0xffff_ffff {
            false
        } else {
            dict.get(self.key.as_slice(), now).is_some()
        };
        let name: &str = if found {
            "string"
        } else if streams.find(self.key.as_slice()).is_some() {
            "stream"
        } else {
            "none"
        };
        RespType::SimpleString(vstd::slice::slice_to_vec(name.as_bytes()))
    }

    pub fn cmd_type(&self) -> (r: CmdType)
        ensures
            r == CmdType::TYPE,
    {
        CmdType::TYPE
    }
}

} // verus!
