//! The commands of the server: each reads its arguments from frames and
//! runs against the state it needs.

pub mod ack;
pub mod cmd_builder;
pub mod config_get;
pub mod echo;
pub mod get;
pub mod info;
pub mod keys;
pub mod misc;
pub mod psync;
pub mod set;
pub mod typ;
pub mod wait;
pub mod xadd;
pub mod xrange;
pub mod xread;

use vstd::prelude::*;
use crate::resp::{lemma_view_array, push_bytes, views, RespType, RespValue};
use crate::utils::{ascii, bulk_of, unpack_bulk_string};

verus! {

/// The kinds of commands.
#[allow(non_camel_case_types)]
#[derive(Debug, Clone, Copy, PartialEq, Eq, Structural)]
pub enum CmdType {
    PING,
    ECHO,
    INFO,
    CONFIG_GET,
    ERR_CMD,
    KEYS,
    TYPE,
    SET,
    GET,
    WAIT,
    ACK,
    GETACK,
    REPLCONF,
    PSYNC,
    XADD,
    XRANGE,
    XREAD,
}

/// Why frames are no command.
#[derive(Debug, Clone, Copy, PartialEq, Eq, Structural)]
pub enum CmdError {
    NoCmdsProvided,
    InvalidCmdType,
    MissingArgs,
    InvalidArg,
    NotImplementedCmd,
}

impl CmdError {
    /// The text shown for this error.
    pub fn message(&self) -> (text: &'static str)
        ensures
            text@ == match *self {
                CmdError::NoCmdsProvided => "ERROR: No commands where provided"@,
                CmdError::InvalidCmdType => "ERROR: Invalid command RESP type"@,
                CmdError::MissingArgs => "ERROR: Missing arguments for current command"@,
                CmdError::InvalidArg => "ERROR: Invalid argument type"@,
                CmdError::NotImplementedCmd => "ERROR: Provided command is not implemented"@,
            },
            ascii(text) == error_text(*self),
    {
        match self {
            CmdError::NoCmdsProvided => "ERROR: No commands where provided",
            CmdError::InvalidCmdType => "ERROR: Invalid command RESP type",
            CmdError::MissingArgs => "ERROR: Missing arguments for current command",
            CmdError::InvalidArg => "ERROR: Invalid argument type",
            CmdError::NotImplementedCmd => "ERROR: Provided command is not implemented",
        }
    }
}

/// The bytes of the text shown for an error.
pub open spec fn error_text(e: CmdError) -> Seq<u8> {
    match e {
        CmdError::NoCmdsProvided => ascii("ERROR: No commands where provided"),
        CmdError::InvalidCmdType => ascii("ERROR: Invalid command RESP type"),
        CmdError::MissingArgs => ascii("ERROR: Missing arguments for current command"),
        CmdError::InvalidArg => ascii("ERROR: Invalid argument type"),
        CmdError::NotImplementedCmd => ascii("ERROR: Provided command is not implemented"),
    }
}

/// What running a command asks of the connection that sent it.
#[derive(Debug)]
pub enum Outcome {
    /// Send this frame.
    Reply(RespType),
    /// Send `reply`, and hand `entry` to whoever follows the stream under `key`.
    Publish { reply: RespType, key: Vec<u8>, entry: RespType },
    /// Send nothing yet: wait until one of the streams under `keys` gets an
    /// entry, for `timeout_ms` milliseconds at most, or without limit where
    /// that is 0.
    AwaitStreams { keys: Vec<Vec<u8>>, timeout_ms: u64 },
    /// Send nothing yet: the replicas that lag were asked how far they
    /// have got; wait until `needed` acknowledgements are in, counting from
    /// `have`, for `timeout_ms` milliseconds at most.
    AwaitAcks { have: u64, needed: u64, timeout_ms: u64 },
}

impl Outcome {
    /// Whether there is nothing to send and nothing to wait for: the
    /// answer is a frame of no bytes, as it is to the acknowledgement of a
    /// replica and to every command on the stream of a master but the
    /// question for an acknowledgement.
    pub fn is_silent(&self) -> (r: bool)
        ensures
            r == (self matches Outcome::Reply(reply) && reply@ == RespValue::Raw(
                Seq::<u8>::empty(),
            )),
    {
        match self {
            Outcome::Reply(RespType::WildCard(bytes)) => {
                if bytes.len() == 0 {
                    assert(bytes@ =~= Seq::<u8>::empty());
                    true
                } else {
                    false
                }
            },
            _ => false,
        }
    }
}

/// The error frame for a message: the message behind `ERR `.
pub open spec fn error_frame(message: Seq<u8>) -> RespValue {
    RespValue::SimpleError(ascii("ERR ") + message)
}

/// The error frame for a message.
pub fn error_reply(message: &[u8]) -> (r: RespType)
    ensures
        r@ == error_frame(message@),
{
    let mut line: Vec<u8> = Vec::new();
    push_bytes(&mut line, "ERR ".as_bytes());
    push_bytes(&mut line, message);
    RespType::SimpleError(line)
}

/// The `i`-th argument of a command: the payload of the bulk string there.
pub open spec fn arg(args: Seq<RespValue>, i: int) -> Result<Seq<u8>, CmdError> {
    if 0 <= i < args.len() {
        bulk_of(args[i])
    } else {
        Err(CmdError::MissingArgs)
    }
}

/// The `i`-th argument of a command.
pub fn take_arg(args: &[RespType], i: usize) -> (r: Result<Vec<u8>, CmdError>)
    ensures
        match arg(views(args@), i as int) {
            Ok(s) => r matches Ok(got) && got@ == s,
            Err(e) => r matches Err(err) && err == e,
        },
{
    if i < args.len() {
        unpack_bulk_string(&args[i])
    } else {
        Err(CmdError::MissingArgs)
    }
}

/// An array of bulk strings with the given payloads.
pub open spec fn bulks(items: Seq<Seq<u8>>) -> RespValue {
    RespValue::Array(Seq::new(items.len(), |i: int| RespValue::BulkString(items[i])))
}

/// The models of a run of byte strings.
pub open spec fn texts(items: Seq<Vec<u8>>) -> Seq<Seq<u8>> {
    Seq::new(items.len(), |i: int| items[i]@)
}

/// An array of bulk strings with the given payloads.
pub fn array_of_bulks(items: Vec<Vec<u8>>) -> (r: RespType)
    ensures
        r@ == bulks(texts(items@)),
{
    let mut out: Vec<RespType> = Vec::new();
    let mut items = items;
    let ghost all = texts(items@);
    let n: usize = items.len();
    let mut i: usize = 0;
    while i < n
        invariant
            n == items@.len(),
            0 <= i <= n,
            all.len() == n,
            out@.len() == i,
            forall|j: int| 0 <= j < i ==> (#[trigger] out@[j])@ == RespValue::BulkString(all[j]),
            forall|j: int| i <= j < n ==> (#[trigger] items@[j])@ == all[j],
        decreases n - i,
    {
        let mut taken: Vec<u8> = Vec::new();
        push_bytes(&mut taken, items[i].as_slice());
        assert(taken@ =~= all[i as int]);
        out.push(RespType::BulkString(taken));
        i = i + 1;
    }
    proof {
        lemma_view_array(out);
        assert(views(out@) =~= Seq::new(all.len(), |i: int| RespValue::BulkString(all[i])));
    }
    RespType::Array(out)
}

} // verus!
