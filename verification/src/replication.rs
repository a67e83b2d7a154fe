//! The handshake of a replica with its master, as a machine that is fed the
//! bytes the master sends and says what to send next. The connection itself
//! is driven from outside.

use vstd::prelude::*;
use vstd::slice::slice_subrange;
use crate::cmd::{array_of_bulks, bulks, texts};
use crate::constants::DOLLAR;
use crate::decimal::{nat_digits, nat_to_bytes};
use crate::parser::{line_end, spec_parse_resp, ParseError, Parser};
use crate::rdb::{
    spec_from_rdb, spec_parse_rdb_file_length, HeaderModel, RDBHeader, RDBParseError, RDBParser,
};
use crate::redis::{db_wf, DbModel, RedisDB};
use crate::resp::{RespType, RespValue};
use crate::utils::{ascii, bytes_eq};

verus! {

/// Where a replica stands in the handshake.
#[derive(Debug, Clone, Copy, PartialEq, Eq, Structural)]
pub enum HandshakeState {
    /// `PING` was sent; `+PONG` is awaited.
    AwaitPong,
    /// The listening port was announced; `+OK` is awaited.
    AwaitPortOk,
    /// The capabilities were announced; `+OK` is awaited.
    AwaitCapaOk,
    /// `PSYNC ? -1` was sent; the line `+FULLRESYNC ...` is awaited.
    AwaitFullResync,
    /// The snapshot behind its length is awaited.
    AwaitSnapshot,
    /// The handshake is over: what comes now is the command stream.
    Streaming,
}

/// Why a handshake failed.
#[derive(Debug, Clone, Copy, PartialEq, Eq, Structural)]
pub enum ReplicationError {
    /// The master answered, but not what this step expects.
    HandshakeMismatch,
    /// The master closed the connection before the handshake was over.
    PrematureEof,
    /// The master sent bytes that are no frame.
    Malformed(ParseError),
    /// The master sent a snapshot that cannot be read.
    Snapshot(RDBParseError),
}

/// What a replica does next.
pub enum HandshakeStep {
    /// Nothing yet: the bytes so far do not hold what this step awaits.
    /// Read more and offer all of them again.
    NeedMore,
    /// The step is done: send these bytes.
    Send(Vec<u8>),
    /// The step is done and there is nothing to send: go on with the
    /// bytes that are left.
    Proceed,
    /// The snapshot is in: install the key-space. What follows is the
    /// command stream.
    Install(RDBHeader, RedisDB),
    /// The handshake failed; the connection is lost.
    Failed(ReplicationError),
}

/// The mathematical model of what a replica does next.
pub enum StepModel {
    NeedMore,
    Send(Seq<u8>),
    Proceed,
    Install(HeaderModel, DbModel),
    Failed(ReplicationError),
}

impl View for HandshakeStep {
    type V = StepModel;

    open spec fn view(&self) -> StepModel {
        match self {
            HandshakeStep::NeedMore => StepModel::NeedMore,
            HandshakeStep::Send(bytes) => StepModel::Send(bytes@),
            HandshakeStep::Proceed => StepModel::Proceed,
            HandshakeStep::Install(header, db) => StepModel::Install(header@, db@),
            HandshakeStep::Failed(e) => StepModel::Failed(*e),
        }
    }
}

/// The handshake of one replica.
pub struct Handshake {
    pub state: HandshakeState,
    /// The port on which this replica listens itself.
    pub service_port: u16,
}

/// The payloads of the command that announces the listening port.
pub open spec fn port_words(port: u16) -> Seq<Seq<u8>> {
    seq![ascii("REPLCONF"), ascii("listening-port"), nat_digits(port as nat)]
}

/// The payloads of the command that announces the capabilities.
pub open spec fn capa_words() -> Seq<Seq<u8>> {
    seq![ascii("REPLCONF"), ascii("capa"), ascii("eof"), ascii("capa"), ascii("psync2")]
}

/// The payloads of the command that asks for a full resynchronisation.
pub open spec fn psync_words() -> Seq<Seq<u8>> {
    seq![ascii("PSYNC"), ascii("?"), ascii("-1")]
}

/// What a step that awaits the simple string `word` makes of `input`:
/// without a whole frame nothing; with the awaited frame the step is done,
/// `next` is to be sent and the frame is used up; any other frame, and bytes
/// that are no frame, fail the handshake.
pub open spec fn expect_step(input: Seq<u8>, word: Seq<u8>, next: Seq<u8>) -> (StepModel, int) {
    match spec_parse_resp(input) {
        Ok((v, k)) => if v == RespValue::SimpleString(word) {
            (StepModel::Send(next), k)
        } else {
            (StepModel::Failed(ReplicationError::HandshakeMismatch), 0)
        },
        Err(ParseError::IncompleteInput) => (StepModel::NeedMore, 0),
        Err(e) => (StepModel::Failed(ReplicationError::Malformed(e)), 0),
    }
}

/// `line` starts with `word`.
pub open spec fn starts_with(line: Seq<u8>, word: Seq<u8>) -> bool {
    line.len() >= word.len() && line.take(word.len() as int) == word
}

/// What the step that awaits the line `+FULLRESYNC ...` makes of `input`.
pub open spec fn resync_step(input: Seq<u8>) -> (StepModel, int) {
    match line_end(input) {
        Some(e) => if starts_with(input.take(e), ascii("+FULLRESYNC")) {
            (StepModel::Proceed, e + 2)
        } else {
            (StepModel::Failed(ReplicationError::HandshakeMismatch), 0)
        },
        None => (StepModel::NeedMore, 0),
    }
}

/// What the step that awaits the snapshot makes of `input`: nothing
/// while the length or the payload is not all there; then the snapshot is
/// read with every entry stamped with `now`.
pub open spec fn snapshot_step(input: Seq<u8>, now: u64) -> (StepModel, int) {
    if input.len() == 0 {
        (StepModel::NeedMore, 0)
    } else if input[0] != DOLLAR {
        (StepModel::Failed(ReplicationError::Snapshot(RDBParseError::InvalidFileLength)), 0)
    } else if line_end(input.skip(1)) is None {
        (StepModel::NeedMore, 0)
    } else {
        match spec_parse_rdb_file_length(input) {
            Ok((n, k)) => if input.len() < k + n {
                (StepModel::NeedMore, 0)
            } else {
                match spec_from_rdb(input, now) {
                    Ok((snap, used)) => (StepModel::Install(snap.0, snap.1), used),
                    Err(e) => (StepModel::Failed(ReplicationError::Snapshot(e)), 0),
                }
            },
            Err(e) => (StepModel::Failed(ReplicationError::Snapshot(e)), 0),
        }
    }
}

/// What the handshake in the state `state` makes of `input`: what to
/// do next and how many bytes are used up.
pub open spec fn handshake_step(state: HandshakeState, port: u16, input: Seq<u8>, now: u64) -> (
    StepModel,
    int,
) {
    match state {
        HandshakeState::AwaitPong => expect_step(
            input,
            ascii("PONG"),
            bulks(port_words(port)).serialize(),
        ),
        HandshakeState::AwaitPortOk => expect_step(
            input,
            ascii("OK"),
            bulks(capa_words()).serialize(),
        ),
        HandshakeState::AwaitCapaOk => expect_step(
            input,
            ascii("OK"),
            bulks(psync_words()).serialize(),
        ),
        HandshakeState::AwaitFullResync => resync_step(input),
        HandshakeState::AwaitSnapshot => snapshot_step(input, now),
        HandshakeState::Streaming => (StepModel::Proceed, 0),
    }
}

/// The state behind `state` once its step is done.
pub open spec fn next_state(state: HandshakeState) -> HandshakeState {
    match state {
        HandshakeState::AwaitPong => HandshakeState::AwaitPortOk,
        HandshakeState::AwaitPortOk => HandshakeState::AwaitCapaOk,
        HandshakeState::AwaitCapaOk => HandshakeState::AwaitFullResync,
        HandshakeState::AwaitFullResync => HandshakeState::AwaitSnapshot,
        HandshakeState::AwaitSnapshot => HandshakeState::Streaming,
        HandshakeState::Streaming => HandshakeState::Streaming,
    }
}

/// A step is done where it sends, proceeds or installs.
pub open spec fn step_done(step: StepModel) -> bool {
    step is Send || step is Proceed || step is Install
}

/// An array of bulk strings from texts.
pub fn words_frame(words: Vec<Vec<u8>>) -> (r: Vec<u8>)
    ensures
        r@ == bulks(texts(words@)).serialize(),
{
    array_of_bulks(words).serialize()
}

/// Whether the front of `line` is `word`.
pub fn has_prefix(line: &[u8], word: &[u8]) -> (r: bool)
    ensures
        r == starts_with(line@, word@),
{
    if line.len() < word.len() {
        return false;
    }
    let head = slice_subrange(line, 0, word.len());
    assert(head@ =~= line@.take(word@.len() as int));
    bytes_eq(head, word)
}

impl Handshake {
    /// Starts the handshake of a replica that listens on `service_port`:
    /// the bytes to send first are the command `PING`.
    pub fn setup_replica(service_port: u16) -> (r: (Handshake, Vec<u8>))
        ensures
            r.0.state == HandshakeState::AwaitPong,
            r.0.service_port == service_port,
            r.1@ == bulks(seq![ascii("PING")]).serialize(),
    {
        let mut words: Vec<Vec<u8>> = Vec::new();
        words.push(vstd::slice::slice_to_vec("PING".as_bytes()));
        assert(texts(words@) =~= seq![ascii("PING")]);
        (Handshake { state: HandshakeState::AwaitPong, service_port }, words_frame(words))
    }

    /// Awaits the simple string `word`, and answers with `next`.
    fn expect(input: &[u8], word: &str, next: Vec<Vec<u8>>) -> (r: (HandshakeStep, usize))
        ensures
            r.0@ == expect_step(input@, ascii(word), bulks(texts(next@)).serialize()).0,
            r.1 == expect_step(input@, ascii(word), bulks(texts(next@)).serialize()).1,
            r.1 <= input@.len(),
    {
        match Parser::parse_resp(input) {
            Ok((frame, rest)) => {
                let matches: bool = match &frame {
                    RespType::SimpleString(s) => bytes_eq(s.as_slice(), word.as_bytes()),
                    _ => false,
                };
                if matches {
                    (HandshakeStep::Send(words_frame(next)), input.len() - rest.len())
                } else {
                    (HandshakeStep::Failed(ReplicationError::HandshakeMismatch), 0)
                }
            },
            Err(e) => match e {
                ParseError::IncompleteInput => (HandshakeStep::NeedMore, 0),
                _ => (HandshakeStep::Failed(ReplicationError::Malformed(e)), 0),
            },
        }
    }

    /// Offers the bytes that the master has sent and are not used up
    /// yet. Says what to do next and how many of the bytes this step has
    /// used up; the state moves on where the step is done.
    pub fn on_bytes(&mut self, input: &[u8], now: u64) -> (r: (HandshakeStep, usize))
        ensures
            r.0@ == handshake_step(old(self).state, old(self).service_port, input@, now).0,
            r.1 == handshake_step(old(self).state, old(self).service_port, input@, now).1,
            r.1 <= input@.len(),
            final(self).service_port == old(self).service_port,
            final(self).state == if step_done(r.0@) {
                next_state(old(self).state)
            } else {
                old(self).state
            },
            r.0 matches HandshakeStep::Install(header, db) ==> db_wf(db@) && header@.wf(),
    {
        let r: (HandshakeStep, usize) = match self.state {
            HandshakeState::AwaitPong => {
                let mut words: Vec<Vec<u8>> = Vec::new();
                words.push(vstd::slice::slice_to_vec("REPLCONF".as_bytes()));
                words.push(vstd::slice::slice_to_vec("listening-port".as_bytes()));
                words.push(nat_to_bytes(self.service_port as u128));
                assert(texts(words@) =~= port_words(self.service_port));
                Self::expect(input, "PONG", words)
            },
            HandshakeState::AwaitPortOk => {
                let mut words: Vec<Vec<u8>> = Vec::new();
                words.push(vstd::slice::slice_to_vec("REPLCONF".as_bytes()));
                words.push(vstd::slice::slice_to_vec("capa".as_bytes()));
                words.push(vstd::slice::slice_to_vec("eof".as_bytes()));
                words.push(vstd::slice::slice_to_vec("capa".as_bytes()));
                words.push(vstd::slice::slice_to_vec("psync2".as_bytes()));
                assert(texts(words@) =~= capa_words());
                Self::expect(input, "OK", words)
            },
            HandshakeState::AwaitCapaOk => {
                let mut words: Vec<Vec<u8>> = Vec::new();
                words.push(vstd::slice::slice_to_vec("PSYNC".as_bytes()));
                words.push(vstd::slice::slice_to_vec("?".as_bytes()));
                words.push(vstd::slice::slice_to_vec("-1".as_bytes()));
                assert(texts(words@) =~= psync_words());
                Self::expect(input, "OK", words)
            },
            HandshakeState::AwaitFullResync => match Parser::parse_until_crlf(input) {
                Ok((line, rest)) => {
                    if has_prefix(line, "+FULLRESYNC".as_bytes()) {
                        (HandshakeStep::Proceed, input.len() - rest.len())
                    } else {
                        (HandshakeStep::Failed(ReplicationError::HandshakeMismatch), 0)
                    }
                },
                Err(_) => (HandshakeStep::NeedMore, 0),
            },
            HandshakeState::AwaitSnapshot => Self::await_snapshot(input, now),
            HandshakeState::Streaming => (HandshakeStep::Proceed, 0),
        };
        let done: bool = match &r.0 {
            HandshakeStep::Send(_) => true,
            HandshakeStep::Proceed => true,
            HandshakeStep::Install(_, _) => true,
            _ => false,
        };
        if done {
            self.state = match self.state {
                HandshakeState::AwaitPong => HandshakeState::AwaitPortOk,
                HandshakeState::AwaitPortOk => HandshakeState::AwaitCapaOk,
                HandshakeState::AwaitCapaOk => HandshakeState::AwaitFullResync,
                HandshakeState::AwaitFullResync => HandshakeState::AwaitSnapshot,
                HandshakeState::AwaitSnapshot => HandshakeState::Streaming,
                HandshakeState::Streaming => HandshakeState::Streaming,
            };
        }
        r
    }

    /// What the end of the connection means: a failure while the
    /// handshake is on, nothing once the command stream has begun.
    pub fn on_eof(&self) -> (r: HandshakeStep)
        ensures
            r@ == if self.state == HandshakeState::Streaming {
                StepModel::Proceed
            } else {
                StepModel::Failed(ReplicationError::PrematureEof)
            },
    {
        match self.state {
            HandshakeState::Streaming => HandshakeStep::Proceed,
            _ => HandshakeStep::Failed(ReplicationError::PrematureEof),
        }
    }

    /// Awaits the snapshot behind its length.
    fn await_snapshot(input: &[u8], now: u64) -> (r: (HandshakeStep, usize))
        ensures
            r.0@ == snapshot_step(input@, now).0,
            r.1 == snapshot_step(input@, now).1,
            r.1 <= input@.len(),
            r.0 matches HandshakeStep::Install(header, db) ==> db_wf(db@) && header@.wf(),
    {
        if input.len() == 0 {
            return (HandshakeStep::NeedMore, 0);
        }
        if input[0] != DOLLAR {
            return (
                HandshakeStep::Failed(ReplicationError::Snapshot(RDBParseError::InvalidFileLength)),
                0,
            );
        }
        let body = slice_subrange(input, 1, input.len());
        assert(body@ =~= input@.skip(1));
        if Parser::parse_until_crlf(body).is_err() {
            return (HandshakeStep::NeedMore, 0);
        }
        let mut cur: &[u8] = input;
        match RDBParser::parse_rdb_file_length(&mut cur) {
            Ok(n) => {
                if cur.len() < n {
                    return (HandshakeStep::NeedMore, 0);
                }
            },
            Err(e) => {
                return (HandshakeStep::Failed(ReplicationError::Snapshot(e)), 0);
            },
        }
        let mut whole: &[u8] = input;
        match RDBParser::from_rdb(&mut whole, now) {
            Ok((header, db)) => (HandshakeStep::Install(header, db), input.len() - whole.len()),
            Err(e) => (HandshakeStep::Failed(ReplicationError::Snapshot(e)), 0),
        }
    }
}

} // verus!
