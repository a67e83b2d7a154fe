//! `WAIT`.

use vstd::prelude::*;
use crate::cmd::{arg, take_arg, CmdError, CmdType, Outcome};
use crate::decimal::{parse_unsigned, read_unsigned};
use crate::redis::{slaves_wf, Slaves, SlavesModel};
use crate::resp::{copy_bytes, push_bytes, views, RespType, RespValue};
use crate::slave_meta::{getack_frame, SlaveMeta, SlaveModel};

verus! {

pub struct Wait {
    pub num_replicas: u64,
    /// For how many milliseconds to wait at most; 0 does not wait at all.
    pub timeout: u64,
}

/// The replicas that have taken at least `offset` bytes.
pub open spec fn caught_up(offset: u64) -> spec_fn(SlaveModel) -> bool {
    |m: SlaveModel| m.actual_offset >= offset
}

/// The registry after every replica that has taken fewer than `offset`
/// bytes was asked how far it has got: the question is staged for it.
pub open spec fn asked_all(s: SlavesModel, offset: u64) -> SlavesModel {
    Seq::new(
        s.len(),
        |i: int|
            if s[i].actual_offset >= offset {
                s[i]
            } else {
                s[i].staged(getack_frame().serialize())
            },
    )
}

/// A count as the integer of a reply.
pub open spec fn count_frame(n: nat) -> RespValue {
    RespValue::Integer(
        if n > i64::MAX {
            i64::MAX
        } else {
            n as i64
        },
    )
}

/// A count as the integer of a reply.
pub fn count_reply(n: u64) -> (r: RespType)
    ensures
        r@ == count_frame(n as nat),
{
    if n > 0x7fff_ffff_ffff_ffff {
        RespType::Integer(i64::MAX)
    } else {
        RespType::Integer(n as i64)
    }
}

/// The acknowledgements that came in while a `WAIT` is waiting.
pub struct AckWindow {
    pub have: u64,
    pub needed: u64,
}

impl AckWindow {
    /// Counts one acknowledgement. Once as many are in as were asked
    /// for, the answer is their number; until then there is none.
    pub fn on_ack(&mut self) -> (r: Option<RespType>)
        ensures
            final(self).needed == old(self).needed,
            final(self).have == if old(self).have == u64::MAX {
                u64::MAX
            } else {
                (old(self).have + 1) as u64
            },
            final(self).have >= final(self).needed ==> (r matches Some(reply) && reply@
                == count_frame(final(self).have as nat)),
            final(self).have < final(self).needed ==> r is None,
    {
        if self.have < u64::MAX {
            self.have = self.have + 1;
        }
        if self.have >= self.needed {
            Some(count_reply(self.have))
        } else {
            None
        }
    }

    /// The answer once the span has run out: the number of
    /// acknowledgements that came in.
    pub fn on_timeout(&self) -> (r: RespType)
        ensures
            r@ == count_frame(self.have as nat),
    {
        count_reply(self.have)
    }
}

impl Wait {
    /// Reads the number of replicas and the span from the arguments.
    pub fn new(args: &[RespType]) -> (r: Result<Self, CmdError>)
        ensures
            match arg(views(args@), 0) {
                Ok(count) => match parse_unsigned(count, u64::MAX as nat) {
                    Some(n) => match arg(views(args@), 1) {
                        Ok(span) => match parse_unsigned(span, u64::MAX as nat) {
                            Some(t) => r matches Ok(c) && c.num_replicas == n && c.timeout == t,
                            None => r matches Err(err) && err == CmdError::InvalidArg,
                        },
                        Err(e) => r matches Err(err) && err == e,
                    },
                    None => r matches Err(err) && err == CmdError::InvalidArg,
                },
                Err(e) => r matches Err(err) && err == e,
            },
    {
        let count: Vec<u8> = match take_arg(args, 0) {
            Ok(v) => v,
            Err(e) => {
                return Err(e);
            },
        };
        let num_replicas: u64 = match read_unsigned(count.as_slice(), u64::MAX as u128) {
            Some(n) => n as u64,
            None => {
                return Err(CmdError::InvalidArg);
            },
        };
        let span: Vec<u8> = match take_arg(args, 1) {
            Ok(v) => v,
            Err(e) => {
                return Err(e);
            },
        };
        match read_unsigned(span.as_slice(), u64::MAX as u128) {
            Some(t) => Ok(Wait { num_replicas, timeout: t as u64 }),
            None => Err(CmdError::InvalidArg),
        }
    }

    /// Counts the replicas that have taken at least `master_repl_offset`
    /// bytes. Where they are as many as were asked for, or the span is 0,
    /// their number is the answer and nothing changes. Else every other
    /// replica is asked how far it has got, by a question staged for the next
    /// flush, and the command asks to wait for acknowledgements, counting from 0.
    pub fn run(&self, slaves: &mut Slaves, master_repl_offset: u64) -> (r: Outcome)
        requires
            slaves_wf(old(slaves)@),
        ensures
            slaves_wf(final(slaves)@),
            ({
                let ready = old(slaves)@.filter(caught_up(master_repl_offset)).len();
                if ready >= self.num_replicas || self.timeout == 0 {
                    &&& r matches Outcome::Reply(reply)
                    &&& reply@ == count_frame(ready)
                    &&& final(slaves)@ == old(slaves)@
                } else {
                    &&& r matches Outcome::AwaitAcks { have, needed, timeout_ms }
                    &&& have == 0
                    &&& needed == self.num_replicas
                    &&& timeout_ms == self.timeout
                    &&& final(slaves)@ == asked_all(old(slaves)@, master_repl_offset)
                }
            }),
    {
        let ghost all = slaves@;
        let ghost keep = caught_up(master_repl_offset);
        let n: usize = slaves.list.len();
        let mut ready: usize = 0;
        let mut i: usize = 0;
        proof {
            reveal(Seq::filter);
            assert(all.take(0) =~= Seq::<SlaveModel>::empty());
            assert(all.take(0).filter(keep) =~= Seq::<SlaveModel>::empty());
        }
        while i < n
            invariant
                n == slaves.list@.len(),
                0 <= i <= n,
                all == slaves@,
                keep == caught_up(master_repl_offset),
                ready <= i,
                ready == all.take(i as int).filter(keep).len(),
            decreases n - i,
        {
            proof {
                assert(all[i as int] == slaves.list@[i as int]@);
                all.take(i as int).lemma_filter_push(all[i as int], keep);
                assert(all.take(i + 1) =~= all.take(i as int).push(all[i as int]));
            }
            if slaves.list[i].actual_offset >= master_repl_offset {
                ready = ready + 1;
            }
            i = i + 1;
        }
        assert(all.take(n as int) =~= all);
        if ready as u64 >= self.num_replicas || self.timeout == 0 {
            return Outcome::Reply(count_reply(ready as u64));
        }
        let question: Vec<u8> = SlaveMeta::getack_cmd();
        let mut j: usize = 0;
        while j < n
            invariant
                n == slaves.list@.len(),
                n == all.len(),
                0 <= j <= n,
                all == old(slaves)@,
                question@ == getack_frame().serialize(),
                forall|k: int|
                    0 <= k < j ==> (#[trigger] slaves@[k]) == asked_all(all, master_repl_offset)[k],
                forall|k: int| j <= k < n ==> (#[trigger] slaves@[k]) == all[k],
            decreases n - j,
        {
            assert(slaves@[j as int] == all[j as int]);
            assert(slaves@[j as int] == slaves.list@[j as int]@);
            let ghost before = slaves@;
            if slaves.list[j].actual_offset < master_repl_offset {
                let mut pending: Vec<u8> = copy_bytes(&slaves.list[j].pending_updates);
                push_bytes(&mut pending, question.as_slice());
                let meta = SlaveMeta {
                    expected_offset: slaves.list[j].expected_offset,
                    actual_offset: slaves.list[j].actual_offset,
                    lifetime_limit: slaves.list[j].lifetime_limit,
                    socket_addr: slaves.list[j].socket_addr,
                    pending_updates: pending,
                };
                slaves.list.set(j, meta);
            }
            proof {
                assert forall|k: int| 0 <= k < j + 1 implies (#[trigger] slaves@[k]) == asked_all(
                    all,
                    master_repl_offset,
                )[k] by {
                    if k < j {
                        assert(slaves@[k] == before[k]);
                    }
                }
                assert forall|k: int| j + 1 <= k < n implies (#[trigger] slaves@[k]) == all[k] by {
                    assert(slaves@[k] == before[k]);
                }
            }
            j = j + 1;
        }
        proof {
            let after = slaves@;
            assert(after =~= asked_all(all, master_repl_offset));
            assert forall|a: int, b: int|
                0 <= a < after.len() && 0 <= b < after.len() && a != b implies (
            #[trigger] after[a]).socket_addr != (#[trigger] after[b]).socket_addr by {
                assert(after[a].socket_addr == all[a].socket_addr);
                assert(after[b].socket_addr == all[b].socket_addr);
            }
        }
        Outcome::AwaitAcks { have: 0, needed: self.num_replicas, timeout_ms: self.timeout }
    }

    pub fn cmd_type(&self) -> (r: CmdType)
        ensures
            r == CmdType::WAIT,
    {
        CmdType::WAIT
    }
}

} // verus!
