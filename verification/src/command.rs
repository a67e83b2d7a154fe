//! Commands as plain values, for callers that want to look at a command
//! without running it.

use vstd::prelude::*;
use crate::cmd::{array_of_bulks, bulks, texts};
use crate::cmd::cmd_builder::{is_parsed, CmdBuilder, Command};
use crate::cmd::set::set_words;
use crate::config::params_view;
use crate::decimal::nat_to_bytes;
use crate::resp::{copy_bytes, RespType};
pub use crate::cmd::CmdError;

verus! {

/// A command and its arguments.
#[derive(Debug)]
pub enum Cmd {
    Ping,
    Echo(Vec<u8>),
    SetKey { key: Vec<u8>, value: Vec<u8>, px: Option<u64> },
    Get(Vec<u8>),
    Info(Option<Vec<u8>>),
    Ack(u64),
    GetAck,
    ReplConf,
    Psync { replid: Vec<u8>, offset: i64 },
    Wait { num_replicas: u64, timeout: u64 },
    ConfigGet(Vec<u8>),
    Keys(Vec<u8>),
    Type(Vec<u8>),
    XAdd { stream_key: Vec<u8>, stream_id: Vec<u8>, stream_data: Vec<(Vec<u8>, Vec<u8>)> },
    XRange { stream_key: Vec<u8>, start_id: Vec<u8>, end_id: Vec<u8> },
    XRead { block: Option<u64>, keys: Vec<Vec<u8>>, ids: Vec<Vec<u8>> },
}

impl Cmd {
    /// This value holds the kind and the arguments of the command `c`.
    pub open spec fn describes(self, c: Command) -> bool {
        match (self, c) {
            (Cmd::Ping, Command::Ping(_)) => true,
            (Cmd::Echo(m), Command::Echo(x)) => m@ == x.msg@,
            (Cmd::SetKey { key, value, px }, Command::SetCmd(x)) => key@ == x.key@ && value@
                == x.value@ && px == x.px,
            (Cmd::Get(k), Command::Get(x)) => k@ == x.key@,
            (Cmd::Info(s), Command::Info(x)) => match (s, x.section) {
                (Some(a), Some(b)) => a@ == b@,
                (None, None) => true,
                _ => false,
            },
            (Cmd::Ack(n), Command::Ack(x)) => n == x.offset,
            (Cmd::GetAck, Command::GetAck(_)) => true,
            (Cmd::ReplConf, Command::ReplConf(_)) => true,
            (Cmd::Psync { replid, offset }, Command::Psync(x)) => replid@ == x.replid@ && offset
                == x.offset,
            (Cmd::Wait { num_replicas, timeout }, Command::Wait(x)) => num_replicas
                == x.num_replicas && timeout == x.timeout,
            (Cmd::ConfigGet(p), Command::ConfigGet(x)) => p@ == x.param@,
            (Cmd::Keys(p), Command::Keys(x)) => p@ == x.pattern@,
            (Cmd::Type(k), Command::Type(x)) => k@ == x.key@,
            (Cmd::XAdd { stream_key, stream_id, stream_data }, Command::XAdd(x)) => stream_key@
                == x.stream_key@ && stream_id@ == x.stream_id@ && params_view(stream_data@)
                == params_view(x.stream_data@),
            (Cmd::XRange { stream_key, start_id, end_id }, Command::XRange(x)) => stream_key@
                == x.stream_key@ && start_id@ == x.start_id@ && end_id@ == x.end_id@,
            (Cmd::XRead { block, keys, ids }, Command::XRead(x)) => block == x.timeout
                && texts(keys@) == texts(x.keys@) && texts(ids@) == texts(x.ids@),
            _ => false,
        }
    }

    /// The command that a frame spells, with its arguments, or why it
    /// spells none.
    pub fn from_resp(resp: RespType) -> (r: Result<Cmd, CmdError>)
        ensures
            match r {
                Ok(cmd) => exists|c: Command| #[trigger]
                    is_parsed(resp@, Ok::<Command, CmdError>(c)) && cmd.describes(c),
                Err(e) => is_parsed(resp@, Err::<Command, CmdError>(e)),
            },
    {
        let parsed = CmdBuilder::parse(&resp);
        let command: Command = match parsed {
            Ok(c) => c,
            Err(e) => {
                return Err(e);
            },
        };
        let ghost c = command;
        let cmd: Cmd = match command {
            Command::Ping(_) => Cmd::Ping,
            Command::Echo(x) => Cmd::Echo(x.msg),
            Command::SetCmd(x) => Cmd::SetKey { key: x.key, value: x.value, px: x.px },
            Command::Get(x) => Cmd::Get(x.key),
            Command::Info(x) => Cmd::Info(x.section),
            Command::Ack(x) => Cmd::Ack(x.offset),
            Command::GetAck(_) => Cmd::GetAck,
            Command::ReplConf(_) => Cmd::ReplConf,
            Command::Psync(x) => Cmd::Psync { replid: x.replid, offset: x.offset },
            Command::Wait(x) => Cmd::Wait { num_replicas: x.num_replicas, timeout: x.timeout },
            Command::ConfigGet(x) => Cmd::ConfigGet(x.param),
            Command::Keys(x) => Cmd::Keys(x.pattern),
            Command::Type(x) => Cmd::Type(x.key),
            Command::XAdd(x) => Cmd::XAdd {
                stream_key: x.stream_key,
                stream_id: x.stream_id,
                stream_data: x.stream_data,
            },
            Command::XRange(x) => Cmd::XRange {
                stream_key: x.stream_key,
                start_id: x.start_id,
                end_id: x.end_id,
            },
            Command::XRead(x) => Cmd::XRead { block: x.timeout, keys: x.keys, ids: x.ids },
            Command::Error(_) => {
                proof {
                    crate::cmd::cmd_builder::lemma_parsed_no_error(resp@, c);
                }
                Cmd::Ping
            },
        };
        assert(cmd.describes(c));
        Ok(cmd)
    }

    /// The command as it is handed on to replicas: an array of bulk
    /// strings. Only writes are handed on, so only `SET` has such a form.
    pub fn to_resp_array_of_bulks(&self) -> (r: RespType)
        requires
            self is SetKey,
        ensures
            r@ == bulks(set_words(self->key@, self->value@, self->px)),
    {
        match self {
            Cmd::SetKey { key, value, px } => {
                let mut words: Vec<Vec<u8>> = Vec::new();
                words.push(vstd::slice::slice_to_vec("SET".as_bytes()));
                words.push(copy_bytes(key));
                words.push(copy_bytes(value));
                match px {
                    Some(millis) => {
                        words.push(vstd::slice::slice_to_vec("px".as_bytes()));
                        words.push(nat_to_bytes(*millis as u128));
                    },
                    None => {},
                }
                assert(texts(words@) =~= set_words(key@, value@, *px));
                array_of_bulks(words)
            },
            _ => RespType::Null,
        }
    }
}

} // verus!
