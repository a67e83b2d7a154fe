//! `REPLCONF ACK` and `REPLCONF GETACK`.

use vstd::prelude::*;
use crate::cmd::{arg, array_of_bulks, bulks, take_arg, texts, CmdError, CmdType};
use crate::config::Config;
use crate::decimal::{nat_digits, nat_to_bytes, parse_unsigned, read_unsigned};
use crate::redis::{slave_index, slaves_wf, Slaves, SlavesModel};
use crate::resp::{copy_bytes, views, RespType, RespValue};
use crate::slave_meta::{PeerAddr, SlaveMeta, SlaveModel};
use crate::utils::ascii;

verus! {

/// A replica says how many bytes of the command stream it has taken in.
pub struct Ack {
    pub offset: u64,
}

/// The registry after the replica at `addr` has acknowledged `offset` bytes.
pub open spec fn acknowledged(s: SlavesModel, addr: PeerAddr, offset: u64) -> SlavesModel {
    match slave_index(s, addr) {
        Some(i) => s.update(i, SlaveModel { actual_offset: offset, ..s[i] }),
        None => s,
    }
}

impl Ack {
    /// Reads the offset, the argument behind the word `ACK`.
    pub fn new(args: &[RespType]) -> (r: Result<Self, CmdError>)
        ensures
            match arg(views(args@), 1) {
                Ok(text) => match parse_unsigned(text, u64::MAX as nat) {
                    Some(n) => r matches Ok(c) && c.offset == n,
                    None => r matches Err(err) && err == CmdError::InvalidArg,
                },
                Err(e) => r matches Err(err) && err == e,
            },
    {
        match take_arg(args, 1) {
            Ok(text) => match read_unsigned(text.as_slice(), u64::MAX as u128) {
                Some(n) => Ok(Ack { offset: n as u64 }),
                None => Err(CmdError::InvalidArg),
            },
            Err(e) => Err(e),
        }
    }

    /// Notes the offset in the record of the replica at `peer` and
    /// answers with no bytes at all.
    pub fn run(&self, slaves: &mut Slaves, peer: Option<PeerAddr>) -> (r: RespType)
        requires
            slaves_wf(old(slaves)@),
        ensures
            r@ == RespValue::Raw(Seq::<u8>::empty()),
            final(slaves)@ == match peer {
                Some(addr) => acknowledged(old(slaves)@, addr, self.offset),
                None => old(slaves)@,
            },
            slaves_wf(final(slaves)@),
    {
        match peer {
            Some(addr) => match slaves.find(addr) {
                Some(i) => {
                    assert(slaves@[i as int] == slaves.list@[i as int]@);
                    let meta = SlaveMeta {
                        expected_offset: slaves.list[i].expected_offset,
                        actual_offset: self.offset,
                        lifetime_limit: slaves.list[i].lifetime_limit,
                        socket_addr: slaves.list[i].socket_addr,
                        pending_updates: copy_bytes(&slaves.list[i].pending_updates),
                    };
                    slaves.list.set(i, meta);
                    proof {
                        let after = slaves@;
                        assert(after =~= acknowledged(old(slaves)@, addr, self.offset));
                        assert forall|a: int, b: int|
                            0 <= a < after.len() && 0 <= b < after.len() && a != b implies (
                        #[trigger] after[a]).socket_addr != (#[trigger] after[b]).socket_addr by {
                            assert(after[a].socket_addr == old(slaves)@[a].socket_addr);
                            assert(after[b].socket_addr == old(slaves)@[b].socket_addr);
                        }
                    }
                },
                None => {},
            },
            None => {},
        }
        RespType::WildCard(Vec::new())
    }

    pub fn cmd_type(&self) -> (r: CmdType)
        ensures
            r == CmdType::ACK,
    {
        CmdType::ACK
    }
}

/// A master asks how far this replica has got.
pub struct GetAck {}

/// The payloads of the answer to `REPLCONF GETACK`.
pub open spec fn ack_words(offset: u64) -> Seq<Seq<u8>> {
    seq![ascii("REPLCONF"), ascii("ACK"), nat_digits(offset as nat)]
}

impl GetAck {
    /// Answers `REPLCONF ACK` with the number of bytes of the master's
    /// command stream that this replica had taken in before this command.
    pub fn run(&self, config: &Config) -> (r: RespType)
        ensures
            r@ == bulks(ack_words(config.replica_of.master_repl_offset)),
    {
        let mut words: Vec<Vec<u8>> = Vec::new();
        words.push(vstd::slice::slice_to_vec("REPLCONF".as_bytes()));
        words.push(vstd::slice::slice_to_vec("ACK".as_bytes()));
        words.push(nat_to_bytes(config.replica_of.master_repl_offset as u128));
        assert(texts(words@) =~= ack_words(config.replica_of.master_repl_offset));
        array_of_bulks(words)
    }

    pub fn cmd_type(&self) -> (r: CmdType)
        ensures
            r == CmdType::GETACK,
    {
        CmdType::GETACK
    }
}

} // verus!
