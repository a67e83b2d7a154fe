//! `INFO`.

use vstd::prelude::*;
use crate::cmd::{arg, take_arg, CmdError, CmdType};
use crate::config::{replica_text, shows_replication, Config};
use crate::resp::{views, RespType, RespValue};

verus! {

pub struct Info {
    pub section: Option<Vec<u8>>,
}

impl Info {
    /// Reads the section, the first argument, where there is one.
    pub fn new(args: &[RespType]) -> (r: Result<Self, CmdError>)
        ensures
            args@.len() == 0 ==> (r matches Ok(c) && c.section is None),
            args@.len() > 0 ==> match arg(views(args@), 0) {
                Ok(s) => r matches Ok(c) && c.section matches Some(got) && got@ == s,
                Err(e) => r matches Err(err) && err == e,
            },
    {
        if args.len() == 0 {
            return Ok(Info { section: None });
        }
        match take_arg(args, 0) {
            Ok(section) => Ok(Info { section: Some(section) }),
            Err(e) => Err(e),
        }
    }

    /// Answers the sections that the keyword selects as a bulk string.
    pub fn run(&self, config: &Config) -> (r: RespType)
        ensures
            r@ == RespValue::BulkString(
                if shows_replication(
                    match self.section {
                        Some(s) => Some(s@),
                        None => None,
                    },
                ) {
                    replica_text(
                        config.replica_of.role,
                        config.replica_of.master_replid@,
                        config.replica_of.master_repl_offset,
                    )
                } else {
                    Seq::<u8>::empty()
                },
            ),
    {
        let text: Vec<u8> = match &self.section {
            Some(s) => config.get_info(Some(s.as_slice())),
            None => config.get_info(None),
        };
        RespType::BulkString(text)
    }

    pub fn cmd_type(&self) -> (r: CmdType)
        ensures
            r == CmdType::INFO,
    {
        CmdType::INFO
    }
}

} // verus!
