//! From a frame to the command it spells.

use vstd::prelude::*;
use vstd::slice::slice_subrange;
use crate::cmd::{arg, error_text, texts, CmdError, CmdType};
use crate::cmd::ack::{Ack, GetAck};
use crate::cmd::config_get::{config_get_args, ConfigGet};
use crate::cmd::echo::Echo;
use crate::cmd::get::Get;
use crate::cmd::info::Info;
use crate::cmd::keys::Keys;
use crate::cmd::misc::{ErrCmd, Ping, ReplConf};
use crate::cmd::psync::Psync;
use crate::cmd::set::{set_args, SetCmd};
use crate::cmd::typ::Type;
use crate::cmd::wait::Wait;
use crate::cmd::xadd::{xadd_args, XAdd};
use crate::cmd::xrange::XRange;
use crate::cmd::xread::{xread_args, XRead};
use crate::config::params_view;
use crate::decimal::{parse_signed, parse_unsigned};
use crate::resp::{views, RespType, RespValue};
use crate::utils::{ascii, bulk_of, is_word, lowercase, unpack_bulk_string};

verus! {

/// A command that is ready to run.
pub enum Command {
    Ping(Ping),
    Echo(Echo),
    SetCmd(SetCmd),
    Get(Get),
    Info(Info),
    Psync(Psync),
    Wait(Wait),
    ConfigGet(ConfigGet),
    ReplConf(ReplConf),
    GetAck(GetAck),
    Ack(Ack),
    Keys(Keys),
    Type(Type),
    XAdd(XAdd),
    XRange(XRange),
    XRead(XRead),
    Error(ErrCmd),
}

impl Command {
    /// The kind of the command.
    pub fn cmd_type(&self) -> (r: CmdType)
        ensures
            r == match *self {
                Command::Ping(_) => CmdType::PING,
                Command::Echo(_) => CmdType::ECHO,
                Command::SetCmd(_) => CmdType::SET,
                Command::Get(_) => CmdType::GET,
                Command::Info(_) => CmdType::INFO,
                Command::Psync(_) => CmdType::PSYNC,
                Command::Wait(_) => CmdType::WAIT,
                Command::ConfigGet(_) => CmdType::CONFIG_GET,
                Command::ReplConf(_) => CmdType::REPLCONF,
                Command::GetAck(_) => CmdType::GETACK,
                Command::Ack(_) => CmdType::ACK,
                Command::Keys(_) => CmdType::KEYS,
                Command::Type(_) => CmdType::TYPE,
                Command::XAdd(_) => CmdType::XADD,
                Command::XRange(_) => CmdType::XRANGE,
                Command::XRead(_) => CmdType::XREAD,
                Command::Error(_) => CmdType::ERR_CMD,
            },
    {
        match self {
            Command::Ping(c) => c.cmd_type(),
            Command::Echo(c) => c.cmd_type(),
            Command::SetCmd(c) => c.cmd_type(),
            Command::Get(c) => c.cmd_type(),
            Command::Info(c) => c.cmd_type(),
            Command::Psync(c) => c.cmd_type(),
            Command::Wait(c) => c.cmd_type(),
            Command::ConfigGet(c) => c.cmd_type(),
            Command::ReplConf(c) => c.cmd_type(),
            Command::GetAck(c) => c.cmd_type(),
            Command::Ack(c) => c.cmd_type(),
            Command::Keys(c) => c.cmd_type(),
            Command::Type(c) => c.cmd_type(),
            Command::XAdd(c) => c.cmd_type(),
            Command::XRange(c) => c.cmd_type(),
            Command::XRead(c) => c.cmd_type(),
            Command::Error(c) => c.cmd_type(),
        }
    }
}

/// The name of the command that the frames spell: the first of them.
pub open spec fn spec_cmd_type(items: Seq<RespValue>) -> Result<Seq<u8>, CmdError> {
    if items.len() == 0 {
        Err(CmdError::NoCmdsProvided)
    } else {
        bulk_of(items[0])
    }
}

/// `r` is what the word `REPLCONF` with the arguments `args` spells:
/// `GETACK` and `ACK`, in any case, are commands of their own.
pub open spec fn is_replconf(args: Seq<RespValue>, r: Result<Command, CmdError>) -> bool {
    match arg(args, 0) {
        Ok(word) => if lowercase(word) == ascii("getack") {
            r matches Ok(Command::GetAck(_))
        } else if lowercase(word) == ascii("ack") {
            match arg(args, 1) {
                Ok(text) => match parse_unsigned(text, u64::MAX as nat) {
                    Some(n) => r matches Ok(Command::Ack(c)) && c.offset == n,
                    None => r matches Err(err) && err == CmdError::InvalidArg,
                },
                Err(e) => r matches Err(err) && err == e,
            }
        } else {
            r matches Ok(Command::ReplConf(_))
        },
        Err(e) => r matches Err(err) && err == e,
    }
}

/// `r` is the command with one argument that `args` spell: `pick` says
/// whether a command is of the right kind and holds the given argument.
pub open spec fn is_unary(
    args: Seq<RespValue>,
    r: Result<Command, CmdError>,
    pick: spec_fn(Command, Seq<u8>) -> bool,
) -> bool {
    match arg(args, 0) {
        Ok(text) => r matches Ok(c) && pick(c, text),
        Err(e) => r matches Err(err) && err == e,
    }
}

/// `r` is the `XRANGE` that `args` spell.
pub open spec fn is_xrange(args: Seq<RespValue>, r: Result<Command, CmdError>) -> bool {
    match (arg(args, 0), arg(args, 1), arg(args, 2)) {
        (Ok(key), Ok(start), Ok(end)) => r matches Ok(Command::XRange(c)) && c.stream_key@ == key
            && c.start_id@ == start && c.end_id@ == end,
        (Err(e), _, _) => r matches Err(err) && err == e,
        (_, Err(e), _) => r matches Err(err) && err == e,
        (_, _, Err(e)) => r matches Err(err) && err == e,
    }
}

/// `r` is the `PSYNC` that `args` spell.
pub open spec fn is_psync(args: Seq<RespValue>, r: Result<Command, CmdError>) -> bool {
    match (arg(args, 0), arg(args, 1)) {
        (Ok(replid), Ok(text)) => match parse_signed(
            text,
            0x8000_0000_0000_0000,
            0x7fff_ffff_ffff_ffff,
        ) {
            Some(n) => r matches Ok(Command::Psync(c)) && c.replid@ == replid && c.offset == n,
            None => r matches Err(err) && err == CmdError::InvalidArg,
        },
        (Err(e), _) => r matches Err(err) && err == e,
        (_, Err(e)) => r matches Err(err) && err == e,
    }
}

/// `r` is the `WAIT` that `args` spell.
pub open spec fn is_wait(args: Seq<RespValue>, r: Result<Command, CmdError>) -> bool {
    match arg(args, 0) {
        Ok(count) => match parse_unsigned(count, u64::MAX as nat) {
            Some(n) => match arg(args, 1) {
                Ok(span) => match parse_unsigned(span, u64::MAX as nat) {
                    Some(t) => r matches Ok(Command::Wait(c)) && c.num_replicas == n && c.timeout
                        == t,
                    None => r matches Err(err) && err == CmdError::InvalidArg,
                },
                Err(e) => r matches Err(err) && err == e,
            },
            None => r matches Err(err) && err == CmdError::InvalidArg,
        },
        Err(e) => r matches Err(err) && err == e,
    }
}

/// `r` is the `INFO` that `args` spell.
pub open spec fn is_info(args: Seq<RespValue>, r: Result<Command, CmdError>) -> bool {
    if args.len() == 0 {
        r matches Ok(Command::Info(c)) && c.section is None
    } else {
        match arg(args, 0) {
            Ok(s) => r matches Ok(Command::Info(c)) && c.section matches Some(got) && got@ == s,
            Err(e) => r matches Err(err) && err == e,
        }
    }
}

/// `r` is the command that the name `name`, in any case, and the
/// arguments `args` spell.
pub open spec fn is_command(name: Seq<u8>, args: Seq<RespValue>, r: Result<Command, CmdError>) -> bool {
    let word = lowercase(name);
    if word == ascii("ping") {
        r matches Ok(Command::Ping(_))
    } else if word == ascii("echo") {
        is_unary(args, r, |c: Command, t: Seq<u8>| c matches Command::Echo(x) && x.msg@ == t)
    } else if word == ascii("set") {
        match set_args(args) {
            Ok(parts) => r matches Ok(Command::SetCmd(c)) && c.key@ == parts.0 && c.value@ == parts.1
                && c.px == parts.2,
            Err(e) => r matches Err(err) && err == e,
        }
    } else if word == ascii("get") {
        is_unary(args, r, |c: Command, t: Seq<u8>| c matches Command::Get(x) && x.key@ == t)
    } else if word == ascii("info") {
        is_info(args, r)
    } else if word == ascii("psync") {
        is_psync(args, r)
    } else if word == ascii("wait") {
        is_wait(args, r)
    } else if word == ascii("config") {
        match config_get_args(args) {
            Ok(name) => r matches Ok(Command::ConfigGet(c)) && c.param@ == name,
            Err(e) => r matches Err(err) && err == e,
        }
    } else if word == ascii("replconf") {
        is_replconf(args, r)
    } else if word == ascii("keys") {
        is_unary(args, r, |c: Command, t: Seq<u8>| c matches Command::Keys(x) && x.pattern@ == t)
    } else if word == ascii("type") {
        is_unary(args, r, |c: Command, t: Seq<u8>| c matches Command::Type(x) && x.key@ == t)
    } else if word == ascii("xadd") {
        match xadd_args(args) {
            Ok(parts) => r matches Ok(Command::XAdd(c)) && c.stream_key@ == parts.0
                && c.stream_id@ == parts.1 && params_view(c.stream_data@) == parts.2,
            Err(e) => r matches Err(err) && err == e,
        }
    } else if word == ascii("xrange") {
        is_xrange(args, r)
    } else if word == ascii("xread") {
        match xread_args(args) {
            Ok(parts) => r matches Ok(Command::XRead(c)) && c.timeout == parts.0 && texts(c.keys@)
                == parts.1 && texts(c.ids@) == parts.2,
            Err(e) => r matches Err(err) && err == e,
        }
    } else {
        r matches Err(err) && err == CmdError::NotImplementedCmd
    }
}

/// `r` is what the frame `v` spells: a command is an array whose first
/// item names it and whose other items are its arguments.
pub open spec fn is_parsed(v: RespValue, r: Result<Command, CmdError>) -> bool {
    match v {
        RespValue::Array(items) => match spec_cmd_type(items) {
            Ok(name) => is_command(name, items.skip(1), r),
            Err(e) => r matches Err(err) && err == e,
        },
        _ => r matches Err(err) && err == CmdError::InvalidCmdType,
    }
}

pub struct CmdBuilder {}

impl CmdBuilder {
    /// The name of the command that the frames spell.
    pub fn cmd_type(items: &[RespType]) -> (r: Result<Vec<u8>, CmdError>)
        ensures
            match spec_cmd_type(views(items@)) {
                Ok(name) => r matches Ok(got) && got@ == name,
                Err(e) => r matches Err(err) && err == e,
            },
    {
        if items.len() == 0 {
            Err(CmdError::NoCmdsProvided)
        } else {
            unpack_bulk_string(&items[0])
        }
    }

    /// The command that the word `REPLCONF` with its arguments spells.
    pub fn replconf_cmd(args: &[RespType]) -> (r: Result<Command, CmdError>)
        ensures
            is_replconf(views(args@), r),
    {
        let word: Vec<u8> = match crate::cmd::take_arg(args, 0) {
            Ok(v) => v,
            Err(e) => {
                return Err(e);
            },
        };
        if is_word(word.as_slice(), "getack".as_bytes()) {
            Ok(Command::GetAck(GetAck {  }))
        } else if is_word(word.as_slice(), "ack".as_bytes()) {
            match Ack::new(args) {
                Ok(c) => Ok(Command::Ack(c)),
                Err(e) => Err(e),
            }
        } else {
            Ok(Command::ReplConf(ReplConf {  }))
        }
    }

    /// The command that a frame spells, or why it spells none.
    pub fn parse(resp: &RespType) -> (r: Result<Command, CmdError>)
        ensures
            is_parsed(resp@, r),
    {
        let items: &Vec<RespType> = match resp {
            RespType::Array(items) => items,
            _ => {
                return Err(CmdError::InvalidCmdType);
            },
        };
        proof {
            crate::resp::lemma_view_array(*items);
        }
        let name: Vec<u8> = match Self::cmd_type(items.as_slice()) {
            Ok(name) => name,
            Err(e) => {
                return Err(e);
            },
        };
        let args: &[RespType] = slice_subrange(items.as_slice(), 1, items.len());
        assert(views(args@) =~= views(items@).skip(1));
        let word: &[u8] = name.as_slice();
        if is_word(word, "ping".as_bytes()) {
            Ok(Command::Ping(Ping {  }))
        } else if is_word(word, "echo".as_bytes()) {
            match Echo::new(args) {
                Ok(c) => Ok(Command::Echo(c)),
                Err(e) => Err(e),
            }
        } else if is_word(word, "set".as_bytes()) {
            match SetCmd::new(args) {
                Ok(c) => Ok(Command::SetCmd(c)),
                Err(e) => Err(e),
            }
        } else if is_word(word, "get".as_bytes()) {
            match Get::new(args) {
                Ok(c) => Ok(Command::Get(c)),
                Err(e) => Err(e),
            }
        } else if is_word(word, "info".as_bytes()) {
            match Info::new(args) {
                Ok(c) => Ok(Command::Info(c)),
                Err(e) => Err(e),
            }
        } else if is_word(word, "psync".as_bytes()) {
            match Psync::new(args) {
                Ok(c) => Ok(Command::Psync(c)),
                Err(e) => Err(e),
            }
        } else if is_word(word, "wait".as_bytes()) {
            match Wait::new(args) {
                Ok(c) => Ok(Command::Wait(c)),
                Err(e) => Err(e),
            }
        } else if is_word(word, "config".as_bytes()) {
            match ConfigGet::new(args) {
                Ok(c) => Ok(Command::ConfigGet(c)),
                Err(e) => Err(e),
            }
        } else if is_word(word, "replconf".as_bytes()) {
            Self::replconf_cmd(args)
        } else if is_word(word, "keys".as_bytes()) {
            match Keys::new(args) {
                Ok(c) => Ok(Command::Keys(c)),
                Err(e) => Err(e),
            }
        } else if is_word(word, "type".as_bytes()) {
            match Type::new(args) {
                Ok(c) => Ok(Command::Type(c)),
                Err(e) => Err(e),
            }
        } else if is_word(word, "xadd".as_bytes()) {
            match XAdd::new(args) {
                Ok(c) => Ok(Command::XAdd(c)),
                Err(e) => Err(e),
            }
        } else if is_word(word, "xrange".as_bytes()) {
            match XRange::new(args) {
                Ok(c) => Ok(Command::XRange(c)),
                Err(e) => Err(e),
            }
        } else if is_word(word, "xread".as_bytes()) {
            match XRead::new(args) {
                Ok(c) => Ok(Command::XRead(c)),
                Err(e) => Err(e),
            }
        } else {
            Err(CmdError::NotImplementedCmd)
        }
    }

    /// The command that a frame spells. A frame that spells none becomes
    /// the command that answers with the reason and changes nothing.
    pub fn from_resp(resp: RespType) -> (r: Command)
        ensures
            built(resp@, r),
    {
        let parsed = Self::parse(&resp);
        match parsed {
            Ok(c) => c,
            Err(e) => Command::Error(
                ErrCmd { err_msg: vstd::slice::slice_to_vec(e.message().as_bytes()) },
            ),
        }
    }
}

/// `c` is the command that runs for the frame `v`: the command that the
/// frame spells, or the command that answers with the reason why it spells none.
pub open spec fn built(v: RespValue, c: Command) -> bool {
    if c is Error {
        exists|e: CmdError| #[trigger]
            is_parsed(v, Err::<Command, CmdError>(e)) && c->Error_0.err_msg@ == error_text(e)
    } else {
        is_parsed(v, Ok::<Command, CmdError>(c))
    }
}

/// No frame spells the command that stands for an error.
pub proof fn lemma_parsed_no_error(v: RespValue, c: Command)
    requires
        is_parsed(v, Ok::<Command, CmdError>(c)),
    ensures
        !(c is Error),
{
}

} // verus!
