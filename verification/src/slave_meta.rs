//! What a master keeps of each replica: where it is, which bytes wait for
//! the next flush, and how many bytes it was meant to get and did get.

use vstd::prelude::*;
use crate::resp::{push_bytes, RespType, RespValue};
use crate::utils::ascii;

verus! {

/// The address of the peer of a connection.
#[derive(Debug, Clone, Copy, PartialEq, Eq, Structural)]
pub struct PeerAddr {
    pub host: u128,
    pub port: u16,
}

/// How the flush of one replica ended.
#[derive(Debug, Clone, Copy, PartialEq, Eq, Structural)]
pub enum UpdateState {
    /// The write was accepted: the replica, the bytes that were handed to
    /// the write and the bytes that it took.
    Success(PeerAddr, u64, u64),
    /// The write failed: the replica and the bytes that were handed to the write.
    Failed(PeerAddr, u64),
}

/// The record of one replica.
#[derive(Debug)]
pub struct SlaveMeta {
    pub expected_offset: u64,
    pub actual_offset: u64,
    /// Flushes that failed so far.
    pub lifetime_limit: usize,
    pub socket_addr: PeerAddr,
    pub pending_updates: Vec<u8>,
}

/// The mathematical model of the record of a replica.
pub struct SlaveModel {
    pub expected_offset: u64,
    pub actual_offset: u64,
    pub lifetime_limit: usize,
    pub socket_addr: PeerAddr,
    pub pending_updates: Seq<u8>,
}

impl View for SlaveMeta {
    type V = SlaveModel;

    open spec fn view(&self) -> SlaveModel {
        SlaveModel {
            expected_offset: self.expected_offset,
            actual_offset: self.actual_offset,
            lifetime_limit: self.lifetime_limit,
            socket_addr: self.socket_addr,
            pending_updates: self.pending_updates@,
        }
    }
}

/// An offset moved on by `n` bytes; it stays at the greatest value once there.
pub open spec fn advanced(offset: u64, n: u64) -> u64 {
    if offset + n > u64::MAX {
        u64::MAX
    } else {
        (offset + n) as u64
    }
}

/// The command that asks a replica how far it has got, as a frame.
pub open spec fn getack_frame() -> RespValue {
    RespValue::Array(
        seq![
            RespValue::BulkString(ascii("REPLCONF")),
            RespValue::BulkString(ascii("GETACK")),
            RespValue::BulkString(ascii("*")),
        ],
    )
}

/// An array of bulk strings from three texts.
pub fn array_of_three(a: &str, b: &str, c: &str) -> (r: RespType)
    ensures
        r@ == RespValue::Array(
            seq![
                RespValue::BulkString(ascii(a)),
                RespValue::BulkString(ascii(b)),
                RespValue::BulkString(ascii(c)),
            ],
        ),
{
    let mut items: Vec<RespType> = Vec::new();
    items.push(RespType::BulkString(vstd::slice::slice_to_vec(a.as_bytes())));
    items.push(RespType::BulkString(vstd::slice::slice_to_vec(b.as_bytes())));
    items.push(RespType::BulkString(vstd::slice::slice_to_vec(c.as_bytes())));
    proof {
        crate::resp::lemma_view_array(items);
        assert(crate::resp::views(items@) =~= seq![
            RespValue::BulkString(ascii(a)),
            RespValue::BulkString(ascii(b)),
            RespValue::BulkString(ascii(c)),
        ]);
    }
    RespType::Array(items)
}

impl SlaveModel {
    /// The record after `bytes` are staged for the next flush.
    pub open spec fn staged(self, bytes: Seq<u8>) -> SlaveModel {
        SlaveModel { pending_updates: self.pending_updates + bytes, ..self }
    }

    /// The record after a flush of `sent` bytes of which the write took `written`:
    /// both offsets move on and nothing waits any more.
    pub open spec fn flushed(self, sent: u64, written: u64) -> SlaveModel {
        SlaveModel {
            expected_offset: advanced(self.expected_offset, sent),
            actual_offset: advanced(self.actual_offset, written),
            pending_updates: Seq::<u8>::empty(),
            ..self
        }
    }

    /// The record after a flush of `sent` bytes that failed: the bytes were
    /// expected and still wait, and one more failure is counted.
    pub open spec fn struck(self, sent: u64) -> SlaveModel {
        SlaveModel {
            expected_offset: advanced(self.expected_offset, sent),
            lifetime_limit: if self.lifetime_limit == usize::MAX {
                usize::MAX
            } else {
                (self.lifetime_limit + 1) as usize
            },
            ..self
        }
    }

    /// The record after the command that asks for an acknowledgement was
    /// written to the replica: `written` bytes were taken, if the write
    /// succeeded, and the whole command was expected either way.
    pub open spec fn asked(self, written: Option<u64>) -> SlaveModel {
        SlaveModel {
            expected_offset: advanced(
                self.expected_offset,
                getack_frame().serialize().len() as u64,
            ),
            actual_offset: match written {
                Some(n) => advanced(self.actual_offset, n),
                None => self.actual_offset,
            },
            ..self
        }
    }
}

/// Moves an offset on by `n` bytes.
pub fn advance(offset: u64, n: u64) -> (r: u64)
    ensures
        r == advanced(offset, n),
{
    if offset > u64::MAX - n {
        u64::MAX
    } else {
        offset + n
    }
}

/// A length as a count of bytes on the wire.
pub fn length_u64(n: usize) -> (r: u64)
    ensures
        r == n,
{
    n as u64
}

impl SlaveMeta {
    /// The record of a replica that has just connected.
    pub fn new(socket_addr: PeerAddr) -> (r: Self)
        ensures
            r@ == (SlaveModel {
                expected_offset: 0,
                actual_offset: 0,
                lifetime_limit: 0,
                socket_addr: socket_addr,
                pending_updates: Seq::<u8>::empty(),
            }),
    {
        SlaveMeta {
            expected_offset: 0,
            actual_offset: 0,
            lifetime_limit: 0,
            socket_addr,
            pending_updates: Vec::new(),
        }
    }

    /// Stages the bytes of a command for the next flush, behind what waits already.
    pub fn append_update(&mut self, cmd: &Vec<u8>)
        ensures
            final(self)@ == old(self)@.staged(cmd@),
    {
        push_bytes(&mut self.pending_updates, cmd.as_slice());
    }

    /// The bytes of the command that asks a replica how far it has got.
    pub fn getack_cmd() -> (r: Vec<u8>)
        ensures
            r@ == getack_frame().serialize(),
    {
        array_of_three("REPLCONF", "GETACK", "*").serialize()
    }

    /// Accounts for the command that asks for an acknowledgement, once it
    /// was written to the replica: `written` is what the write took, or
    /// `None` where it failed.
    pub fn write_getack_cmd(&mut self, written: Option<u64>)
        ensures
            final(self)@ == old(self)@.asked(written),
    {
        let cmd: Vec<u8> = Self::getack_cmd();
        match written {
            Some(n) => {
                self.actual_offset = advance(self.actual_offset, n);
            },
            None => {},
        }
        self.expected_offset = advance(self.expected_offset, length_u64(cmd.len()));
    }

    /// What a flush hands to the write: the bytes that wait, or `None`
    /// where nothing waits.
    pub fn pending_job(&self) -> (r: Option<Vec<u8>>)
        ensures
            self@.pending_updates.len() == 0 ==> r is None,
            self@.pending_updates.len() > 0 ==> (r matches Some(bytes) && bytes@
                == self@.pending_updates),
    {
        if self.pending_updates.len() == 0 {
            None
        } else {
            Some(crate::resp::copy_bytes(&self.pending_updates))
        }
    }

    /// Accounts for a flush of this replica. `written` is what the write
    /// took of the `sent` bytes, or `None` where it failed.
    pub fn apply_pending_updates(&mut self, sent: u64, written: Option<u64>) -> (r: UpdateState)
        ensures
            match written {
                Some(n) => final(self)@ == old(self)@.flushed(sent, n) && r == UpdateState::Success(
                    old(self)@.socket_addr,
                    sent,
                    n,
                ),
                None => final(self)@ == old(self)@.struck(sent) && r == UpdateState::Failed(
                    old(self)@.socket_addr,
                    sent,
                ),
            },
    {
        self.expected_offset = advance(self.expected_offset, sent);
        match written {
            Some(n) => {
                self.actual_offset = advance(self.actual_offset, n);
                self.pending_updates = Vec::new();
                UpdateState::Success(self.socket_addr, sent, n)
            },
            None => {
                if self.lifetime_limit < usize::MAX {
                    self.lifetime_limit = self.lifetime_limit + 1;
                }
                UpdateState::Failed(self.socket_addr, sent)
            },
        }
    }
}

} // verus!
