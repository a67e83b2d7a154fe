//! Commands without arguments of their own: `PING`, plain `REPLCONF`, and
//! the command that stands for an error.

use vstd::prelude::*;
use crate::cmd::{error_frame, error_reply, CmdType};
use crate::redis::{registered, slaves_wf, Slaves};
use crate::resp::{RespType, RespValue};
use crate::slave_meta::PeerAddr;
use crate::utils::ascii;

verus! {

pub struct Ping {}

impl Ping {
    /// Answers `PONG`.
    pub fn run(&self) -> (r: RespType)
        ensures
            r@ == RespValue::SimpleString(ascii("PONG")),
    {
        RespType::SimpleString(vstd::slice::slice_to_vec("PONG".as_bytes()))
    }

    pub fn cmd_type(&self) -> (r: CmdType)
        ensures
            r == CmdType::PING,
    {
        CmdType::PING
    }
}

pub struct ReplConf {}

impl ReplConf {
    /// Answers `OK`. On a connection with a peer the peer is registered as
    /// a replica, unless it is registered already.
    pub fn run(&self, slaves: &mut Slaves, peer: Option<PeerAddr>) -> (r: RespType)
        requires
            slaves_wf(old(slaves)@),
        ensures
            r@ == RespValue::SimpleString(ascii("OK")),
            final(slaves)@ == match peer {
                Some(addr) => registered(old(slaves)@, addr),
                None => old(slaves)@,
            },
            slaves_wf(final(slaves)@),
    {
        match peer {
            Some(addr) => {
                slaves.get_or_insert(addr);
            },
            None => {},
        }
        RespType::SimpleString(vstd::slice::slice_to_vec("OK".as_bytes()))
    }

    pub fn cmd_type(&self) -> (r: CmdType)
        ensures
            r == CmdType::REPLCONF,
    {
        CmdType::REPLCONF
    }
}

/// The command that frames become where they are no command.
pub struct ErrCmd {
    pub err_msg: Vec<u8>,
}

impl ErrCmd {
    /// Answers the error, and changes nothing.
    pub fn run(&self) -> (r: RespType)
        ensures
            r@ == error_frame(self.err_msg@),
    {
        error_reply(self.err_msg.as_slice())
    }

    pub fn cmd_type(&self) -> (r: CmdType)
        ensures
            r == CmdType::ERR_CMD,
    {
        CmdType::ERR_CMD
    }
}

} // verus!
