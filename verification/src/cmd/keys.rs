//! `KEYS`.

use vstd::prelude::*;
use crate::cmd::{arg, take_arg, CmdError, CmdType};
use crate::redis::{alive, db_wf, key_frames, RedisDB};
use crate::resp::{lemma_view_array, views, RespType, RespValue};

verus! {

pub struct Keys {
    /// Read and kept, not used: every key matches.
    pub pattern: Vec<u8>,
}

impl Keys {
    /// Reads the pattern, the first argument.
    pub fn new(args: &[RespType]) -> (r: Result<Self, CmdError>)
        ensures
            match arg(views(args@), 0) {
                Ok(p) => r matches Ok(c) && c.pattern@ == p,
                Err(e) => r matches Err(err) && err == e,
            },
    {
        match take_arg(args, 0) {
            Ok(pattern) => Ok(Keys { pattern }),
            Err(e) => Err(e),
        }
    }

    /// Takes out every entry that has outlived its span at the moment
    /// `now` and answers the keys that remain, in order, whatever the pattern.
    pub fn run(&self, dict: &mut RedisDB, now: u64) -> (r: RespType)
        requires
            db_wf(old(dict)@),
        ensures
            final(dict)@ == old(dict)@.filter(alive(now)),
            r@ == RespValue::Array(key_frames(final(dict)@)),
            db_wf(final(dict)@),
    {
        dict.purge_expired(now);
        let keys: Vec<RespType> = dict.keys();
        proof {
            lemma_view_array(keys);
        }
        RespType::Array(keys)
    }

    pub fn cmd_type(&self) -> (r: CmdType)
        ensures
            r == CmdType::KEYS,
    {
        CmdType::KEYS
    }
}

} // verus!
