//! `ECHO`.

use vstd::prelude::*;
use crate::cmd::{arg, take_arg, CmdError, CmdType};
use crate::resp::{copy_bytes, views, RespType, RespValue};

verus! {

pub struct Echo {
    pub msg: Vec<u8>,
}

impl Echo {
    /// Reads the message, the first argument.
    pub fn new(args: &[RespType]) -> (r: Result<Self, CmdError>)
        ensures
            match arg(views(args@), 0) {
                Ok(msg) => r matches Ok(c) && c.msg@ == msg,
                Err(e) => r matches Err(err) && err == e,
            },
    {
        match take_arg(args, 0) {
            Ok(msg) => Ok(Echo { msg }),
            Err(e) => Err(e),
        }
    }

    /// Answers the message as a bulk string.
    pub fn run(&self) -> (r: RespType)
        ensures
            r@ == RespValue::BulkString(self.msg@),
    {
        RespType::BulkString(copy_bytes(&self.msg))
    }

    pub fn cmd_type(&self) -> (r: CmdType)
        ensures
            r == CmdType::ECHO,
    {
        CmdType::ECHO
    }
}

} // verus!
