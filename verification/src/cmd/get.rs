//! `GET`.

use vstd::prelude::*;
use crate::cmd::{arg, take_arg, CmdError, CmdType};
use crate::redis::{db_get, db_wf, RedisDB};
use crate::resp::{views, RespType, RespValue};

verus! {

pub struct Get {
    pub key: Vec<u8>,
}

/// What `GET` answers for what a read gives.
pub open spec fn get_reply(found: Option<Seq<u8>>) -> RespValue {
    match found {
        Some(text) => RespValue::BulkString(text),
        None => RespValue::Null,
    }
}

impl Get {
    /// Reads the key, the first argument.
    pub fn new(args: &[RespType]) -> (r: Result<Self, CmdError>)
        ensures
            match arg(views(args@), 0) {
                Ok(key) => r matches Ok(c) && c.key@ == key,
                Err(e) => r matches Err(err) && err == e,
            },
    {
        match take_arg(args, 0) {
            Ok(key) => Ok(Get { key }),
            Err(e) => Err(e),
        }
    }

    /// Reads the key at the moment `now`: before its span has run out the
    /// value comes back as it was written and nothing changes; after, the
    /// key is taken out and the answer is null, as it is for a key that is
    /// not stored.
    pub fn run(&self, dict: &mut RedisDB, now: u64) -> (r: RespType)
        requires
            db_wf(old(dict)@),
        ensures
            self.key@.len() <= u32::MAX ==> final(dict)@ == db_get(old(dict)@, self.key@, now).0
                && r@ == get_reply(db_get(old(dict)@, self.key@, now).1),
            self.key@.len() > u32::MAX ==> final(dict)@ == old(dict)@ && r@ == RespValue::Null,
            db_wf(final(dict)@),
    {
        if self.key.len() > 0xffff_ffff {
            return RespType::Null;
        }
        match dict.get(self.key.as_slice(), now) {
            Some(text) => RespType::BulkString(text),
            None => RespType::Null,
        }
    }

    pub fn cmd_type(&self) -> (r: CmdType)
        ensures
            r == CmdType::GET,
    {
        CmdType::GET
    }
}

} // verus!
