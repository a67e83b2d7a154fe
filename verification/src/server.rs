//! A server as one value: its configuration, its key-space, its streams and
//! its replicas, and what each command makes of them.

use vstd::prelude::*;
use crate::cmd::{bulks, error_frame, error_reply, texts, Outcome};
use crate::cmd::ack::{ack_words, acknowledged};
use crate::cmd::cmd_builder::{built, CmdBuilder, Command};
use crate::cmd::get::get_reply;
use crate::cmd::psync::full_resync;
use crate::cmd::set::{set_words, too_long_text, wrong_type_text};
use crate::cmd::typ::kind_name;
use crate::cmd::wait::{asked_all, caught_up, count_frame};
use crate::cmd::xread::scan;
use crate::config::{param_value, params_view, replica_text, shows_replication, Config, ConfigModel};
use crate::data_entry::{canonical, EntryModel, ValueModel};
use crate::parser::{parse_error_text, spec_parse_resp, ParseError, Parser};
use crate::redis::{
    alive, db_get, db_set, db_wf, disjoint, incr_master_repl_offset, index_of, key_frames,
    lemma_disjoint_live, lemma_disjoint_remove, registered, slaves_wf, staged_all, stream_index,
    stream_of, streams_wf, with_stream, DbModel, RedisDB, Slaves, SlavesModel, StreamDB,
    StreamsModel,
};
use crate::resp::{RespType, RespValue};
use crate::slave_meta::{advanced, PeerAddr, SlaveModel};
use crate::stream_entry::{
    appended, entry_frame, entry_frames, id_text, spec_to_xrange, spec_xadd, stream_error_text,
    within, RecordModel, StreamError, StreamModel,
};
use crate::utils::ascii;

verus! {

/// The state of a server.
pub struct Server {
    pub config: Config,
    pub dict: RedisDB,
    pub streams: StreamDB,
    pub slaves: Slaves,
}

/// The mathematical model of the state of a server.
pub struct ServerModel {
    pub config: ConfigModel,
    pub dict: DbModel,
    pub streams: StreamsModel,
    pub slaves: SlavesModel,
}

impl View for Server {
    type V = ServerModel;

    open spec fn view(&self) -> ServerModel {
        ServerModel {
            config: self.config@,
            dict: self.dict@,
            streams: self.streams@,
            slaves: self.slaves@,
        }
    }
}

impl ServerModel {
    /// Key-space, streams and registry are well formed, and no key is
    /// stored both as a string and as a stream.
    pub open spec fn wf(self) -> bool {
        &&& db_wf(self.dict)
        &&& streams_wf(self.streams)
        &&& slaves_wf(self.slaves)
        &&& disjoint(self.dict, self.streams)
    }
}

/// The message for a command that needs a peer and has none: it came in
/// on the stream of a master.
pub open spec fn no_peer_text() -> Seq<u8> {
    ascii("PSYNC needs a connection to answer on")
}

/// The key-space after a read of `key`, where the key can be stored at all.
pub open spec fn read_dict(dict: DbModel, key: Seq<u8>, now: u64) -> DbModel {
    if key.len() <= u32::MAX {
        db_get(dict, key, now).0
    } else {
        dict
    }
}

/// What a read of `key` gives, where the key can be stored at all.
pub open spec fn read_value(dict: DbModel, key: Seq<u8>, now: u64) -> Option<Seq<u8>> {
    if key.len() <= u32::MAX {
        db_get(dict, key, now).1
    } else {
        None
    }
}

/// `out` is the one frame `reply`.
pub open spec fn replies(out: Outcome, reply: RespValue) -> bool {
    out matches Outcome::Reply(r) && r@ == reply
}

/// What running `cmd` makes of the server `before`, on a connection with
/// the peer `peer`, at the moment `now` on the monotonic clock and
/// `wall_ms` on the wall clock: the server `after` and the outcome `out`.
/// Writes are staged for the replicas where `propagate` is set.
#[verifier::opaque]
pub open spec fn executed(
    cmd: Command,
    before: ServerModel,
    peer: Option<PeerAddr>,
    now: u64,
    wall_ms: u128,
    propagate: bool,
    after: ServerModel,
    out: Outcome,
) -> bool {
    match cmd {
        Command::Ping(_) => after == before && replies(
            out,
            RespValue::SimpleString(ascii("PONG")),
        ),
        Command::Echo(c) => after == before && replies(out, RespValue::BulkString(c.msg@)),
        Command::Error(c) => after == before && replies(out, error_frame(c.err_msg@)),
        Command::Info(c) => after == before && replies(
            out,
            RespValue::BulkString(
                if shows_replication(
                    match c.section {
                        Some(s) => Some(s@),
                        None => None,
                    },
                ) {
                    replica_text(
                        before.config.role,
                        before.config.master_replid,
                        before.config.master_repl_offset,
                    )
                } else {
                    Seq::<u8>::empty()
                },
            ),
        ),
        Command::ConfigGet(c) => after == before && replies(
            out,
            bulks(
                seq![
                    c.param@,
                    match param_value(before.config.parameters, c.param@) {
                        Some(v) => v,
                        None => ascii("-1"),
                    },
                ],
            ),
        ),
        Command::GetAck(_) => after == before && replies(
            out,
            bulks(ack_words(before.config.master_repl_offset)),
        ),
        Command::Get(c) => after == (ServerModel {
            dict: read_dict(before.dict, c.key@, now),
            ..before
        }) && replies(out, get_reply(read_value(before.dict, c.key@, now))),
        Command::Type(c) => after == (ServerModel {
            dict: read_dict(before.dict, c.key@, now),
            ..before
        }) && replies(
            out,
            RespValue::SimpleString(
                kind_name(
                    read_value(before.dict, c.key@, now),
                    stream_index(before.streams, c.key@) is Some,
                ),
            ),
        ),
        Command::Keys(_) => after == (ServerModel {
            dict: before.dict.filter(alive(now)),
            ..before
        }) && replies(out, RespValue::Array(key_frames(after.dict))),
        Command::SetCmd(c) => if c.key@.len() > u32::MAX || c.value@.len() > u32::MAX {
            after == before && replies(out, error_frame(too_long_text()))
        } else if stream_index(before.streams, c.key@) is Some {
            after == before && replies(out, error_frame(wrong_type_text()))
        } else {
            after == (ServerModel {
                dict: db_set(before.dict, c.key@, c.value@, c.px, now),
                slaves: if propagate {
                    staged_all(before.slaves, bulks(set_words(c.key@, c.value@, c.px)).serialize())
                } else {
                    before.slaves
                },
                ..before
            }) && replies(out, RespValue::SimpleString(ascii("OK")))
        },
        Command::ReplConf(_) => after == (ServerModel {
            slaves: match peer {
                Some(addr) => registered(before.slaves, addr),
                None => before.slaves,
            },
            ..before
        }) && replies(out, RespValue::SimpleString(ascii("OK"))),
        Command::Ack(c) => after == (ServerModel {
            slaves: match peer {
                Some(addr) => acknowledged(before.slaves, addr, c.offset),
                None => before.slaves,
            },
            ..before
        }) && replies(out, RespValue::Raw(Seq::<u8>::empty())),
        Command::Psync(_) => match peer {
            Some(addr) => after == (ServerModel {
                slaves: registered(before.slaves, addr),
                ..before
            }) && replies(
                out,
                RespValue::Raw(full_resync(before.config.master_replid, before.dict)),
            ),
            None => after == before && replies(out, error_frame(no_peer_text())),
        },
        Command::Wait(c) => {
            let ready = before.slaves.filter(caught_up(before.config.master_repl_offset)).len();
            if ready >= c.num_replicas || c.timeout == 0 {
                after == before && replies(out, count_frame(ready))
            } else {
                &&& after == (ServerModel {
                    slaves: asked_all(before.slaves, before.config.master_repl_offset),
                    ..before
                })
                &&& out matches Outcome::AwaitAcks { have, needed, timeout_ms }
                &&& have == 0
                &&& needed == c.num_replicas
                &&& timeout_ms == c.timeout
            }
        },
        Command::XAdd(c) => {
            let dict = read_dict(before.dict, c.stream_key@, now);
            if read_value(before.dict, c.stream_key@, now) is Some {
                after == (ServerModel { dict: dict, ..before }) && replies(
                    out,
                    error_frame(wrong_type_text()),
                )
            } else {
                let stream = stream_of(before.streams, c.stream_key@);
                match spec_xadd(stream, c.stream_id@, wall_ms) {
                    Ok(id) => {
                        &&& after == (ServerModel {
                            dict: dict,
                            streams: with_stream(
                                before.streams,
                                c.stream_key@,
                                appended(stream, id, params_view(c.stream_data@)),
                            ),
                            ..before
                        })
                        &&& out matches Outcome::Publish { reply, key, entry }
                        &&& reply@ == RespValue::BulkString(id_text(id))
                        &&& key@ == c.stream_key@
                        &&& entry@ == entry_frame(
                            RecordModel { id: id, fields: params_view(c.stream_data@) },
                        )
                    },
                    Err(e) => after == (ServerModel { dict: dict, ..before }) && replies(
                        out,
                        error_frame(stream_error_text(e)),
                    ),
                }
            }
        },
        Command::XRange(c) => after == before && match stream_index(
            before.streams,
            c.stream_key@,
        ) {
            Some(i) => match (spec_to_xrange(c.start_id@), spec_to_xrange(c.end_id@)) {
                (Some(lo), Some(hi)) => replies(
                    out,
                    RespValue::Array(
                        entry_frames(before.streams[i].1.entries.filter(within(lo, hi))),
                    ),
                ),
                _ => replies(out, error_frame(stream_error_text(StreamError::InvalidId))),
            },
            None => replies(out, RespValue::Raw(ascii("*0\r\n"))),
        },
        Command::XRead(c) => after == before && match scan(
            before.streams,
            texts(c.keys@),
            texts(c.ids@),
            if c.keys@.len() <= c.ids@.len() {
                c.keys@.len()
            } else {
                c.ids@.len()
            },
        ) {
            Ok(found) => if found.1 {
                replies(out, RespValue::Array(found.0))
            } else {
                match c.timeout {
                    Some(t) => out matches Outcome::AwaitStreams { keys, timeout_ms } && texts(
                        keys@,
                    ) == texts(c.keys@) && timeout_ms == t,
                    None => replies(out, RespValue::Raw(ascii("$-1\r\n"))),
                }
            },
            Err(_) => replies(out, error_frame(stream_error_text(StreamError::InvalidId))),
        },
    }
}

impl Server {
    /// A server without keys, streams and replicas.
    pub fn new(config: Config) -> (r: Self)
        ensures
            r@.config == config@,
            r@.dict == Seq::<(ValueModel, EntryModel)>::empty(),
            r@.streams == Seq::<(Seq<u8>, StreamModel)>::empty(),
            r@.slaves == Seq::<SlaveModel>::empty(),
            r@.wf(),
    {
        Server {
            config,
            dict: RedisDB::new(),
            streams: StreamDB::new(),
            slaves: Slaves::new(),
        }
    }

    /// A server that starts from a key-space, as a snapshot gives it.
    pub fn with_dict(config: Config, dict: RedisDB) -> (r: Self)
        requires
            db_wf(dict@),
        ensures
            r@.config == config@,
            r@.dict == dict@,
            r@.streams == Seq::<(Seq<u8>, StreamModel)>::empty(),
            r@.slaves == Seq::<SlaveModel>::empty(),
            r@.wf(),
    {
        Server { config, dict, streams: StreamDB::new(), slaves: Slaves::new() }
    }

    /// Whether the state is well formed; decided by looking at all of it.
    /// A server that is only ever changed through the functions of this
    /// crate stays well formed.
    pub fn is_wf(&self) -> (ok: bool)
        ensures
            ok == self@.wf(),
    {
        self.dict.check() && self.streams.check() && self.slaves.check()
            && crate::redis::check_disjoint(&self.dict, &self.streams)
    }

    /// Installs a key-space, as a snapshot of the master gives it, in
    /// place of the one that is there. It is refused, and nothing changes,
    /// where it is not well formed or holds a key under which a stream stands.
    pub fn install(&mut self, dict: RedisDB) -> (ok: bool)
        requires
            old(self)@.wf(),
        ensures
            final(self)@.wf(),
            ok == (db_wf(dict@) && disjoint(dict@, old(self)@.streams)),
            final(self)@ == if ok {
                ServerModel { dict: dict@, ..old(self)@ }
            } else {
                old(self)@
            },
    {
        if dict.check() && crate::redis::check_disjoint(&dict, &self.streams) {
            self.dict = dict;
            true
        } else {
            false
        }
    }

    /// Runs a command against the server. Nothing is written to any
    /// socket: what is to be sent, and what is to be waited for, comes back
    /// as the outcome.
    pub fn execute(
        &mut self,
        cmd: &Command,
        peer: Option<PeerAddr>,
        now: u64,
        wall_ms: u128,
        propagate: bool,
    ) -> (out: Outcome)
        requires
            old(self)@.wf(),
        ensures
            final(self)@.wf(),
            executed(*cmd, old(self)@, peer, now, wall_ms, propagate, final(self)@, out),
    {
        reveal(executed);
        match cmd {
            Command::Ping(c) => Outcome::Reply(c.run()),
            Command::Echo(c) => Outcome::Reply(c.run()),
            Command::Error(c) => Outcome::Reply(c.run()),
            Command::Info(c) => Outcome::Reply(c.run(&self.config)),
            Command::ConfigGet(c) => Outcome::Reply(c.run(&self.config)),
            Command::GetAck(c) => Outcome::Reply(c.run(&self.config)),
            Command::Get(c) => {
                let r = c.run(&mut self.dict, now);
                proof {
                    self.lemma_read_keeps_apart(old(self)@, c.key@, now);
                }
                Outcome::Reply(r)
            },
            Command::Type(c) => {
                let r = c.run(&mut self.dict, &self.streams, now);
                proof {
                    self.lemma_read_keeps_apart(old(self)@, c.key@, now);
                }
                Outcome::Reply(r)
            },
            Command::Keys(c) => {
                let r = c.run(&mut self.dict, now);
                proof {
                    lemma_disjoint_live(old(self)@.dict, old(self)@.streams, now);
                }
                Outcome::Reply(r)
            },
            Command::SetCmd(c) => Outcome::Reply(
                c.run(&mut self.dict, &self.streams, &mut self.slaves, now, propagate),
            ),
            Command::ReplConf(c) => Outcome::Reply(c.run(&mut self.slaves, peer)),
            Command::Ack(c) => Outcome::Reply(c.run(&mut self.slaves, peer)),
            Command::Psync(c) => match peer {
                Some(addr) => Outcome::Reply(c.run(&self.dict, &self.config, &mut self.slaves, addr)),
                None => Outcome::Reply(
                    error_reply("PSYNC needs a connection to answer on".as_bytes()),
                ),
            },
            Command::Wait(c) => c.run(&mut self.slaves, self.config.replica_of.master_repl_offset),
            Command::XAdd(c) => c.run(&mut self.dict, &mut self.streams, wall_ms, now),
            Command::XRange(c) => Outcome::Reply(c.run(&self.streams)),
            Command::XRead(c) => c.run(&self.streams),
        }
    }

    /// A read that takes an entry out keeps the key-space apart from the streams.
    pub proof fn lemma_read_keeps_apart(&self, before: ServerModel, key: Seq<u8>, now: u64)
        requires
            before.wf(),
        ensures
            disjoint(read_dict(before.dict, key, now), before.streams),
    {
        if key.len() <= u32::MAX {
            match index_of(before.dict, canonical(key)) {
                Some(i) => {
                    if before.dict[i].1.is_expired(now) {
                        assert(crate::redis::key_at(before.dict, canonical(key), i));
                        lemma_disjoint_remove(before.dict, before.streams, i);
                    }
                },
                None => {},
            }
        }
    }
}

/// The server with its replication offset moved on by `n` bytes.
pub open spec fn with_offset(s: ServerModel, n: u64) -> ServerModel {
    ServerModel {
        config: ConfigModel {
            master_repl_offset: advanced(s.config.master_repl_offset, n),
            ..s.config
        },
        ..s
    }
}

/// The circumstances under which bytes are served: who sent them, what
/// the two clocks say, and whether they are the command stream of a master.
pub struct Session {
    pub peer: Option<PeerAddr>,
    pub now: u64,
    pub wall_ms: u128,
    pub from_master: bool,
}

/// What running `cmd` makes of the server in a session: commands of a
/// master are not handed on to replicas.
pub open spec fn executed_in(
    cmd: Command,
    before: ServerModel,
    session: Session,
    after: ServerModel,
    out: Outcome,
) -> bool {
    executed(
        cmd,
        before,
        session.peer,
        session.now,
        session.wall_ms,
        !session.from_master,
        after,
        out,
    )
}

/// What one frame of `size` bytes makes of the server: the command for
/// the frame runs. On the stream of a master nothing is handed on to
/// replicas, the replication offset moves on by the size of the frame, and
/// only the question for an acknowledgement is answered; every other
/// outcome is replaced by an answer of no bytes.
pub open spec fn stepped(
    before: ServerModel,
    frame: RespValue,
    size: int,
    session: Session,
    after: ServerModel,
    out: Outcome,
) -> bool {
    exists|cmd: Command, mid: ServerModel, raw: Outcome|
        #![trigger executed_in(cmd, before, session, mid, raw)]
        {
            &&& built(frame, cmd)
            &&& executed_in(cmd, before, session, mid, raw)
            &&& if session.from_master {
                &&& after == with_offset(mid, size as u64)
                &&& if cmd is GetAck {
                    out == raw
                } else {
                    replies(out, RespValue::Raw(Seq::<u8>::empty()))
                }
            } else {
                after == mid && out == raw
            }
        }
}

/// The `i`-th frame of `input` starts at `cuts[i]`, ends at `cuts[i + 1]`,
/// and takes the server from `states[i]` to `states[i + 1]` with the
/// outcome `outs[i]`.
pub open spec fn step_at(
    i: int,
    input: Seq<u8>,
    states: Seq<ServerModel>,
    cuts: Seq<int>,
    outs: Seq<Outcome>,
    session: Session,
) -> bool {
    &&& 0 <= cuts[i] <= input.len()
    &&& match spec_parse_resp(input.skip(cuts[i])) {
        Ok((v, k)) => {
            &&& 0 < k
            &&& cuts[i + 1] == cuts[i] + k
            &&& cuts[i + 1] <= input.len()
            &&& stepped(states[i], v, k, session, states[i + 1], outs[i])
        },
        Err(_) => false,
    }
}

/// What serving `input` makes of the server: the frames at its front run
/// one after the other, `states` and `cuts` say through which states and to
/// which positions. Serving stops where the bytes left are no whole frame:
/// these stay unread. Bytes that cannot start a frame are answered with an
/// error and dropped, all of them.
pub open spec fn served(
    before: ServerModel,
    input: Seq<u8>,
    session: Session,
    after: ServerModel,
    outs: Seq<Outcome>,
    consumed: usize,
    states: Seq<ServerModel>,
    cuts: Seq<int>,
) -> bool {
    let n = states.len() - 1;
    &&& states.len() >= 1
    &&& cuts.len() == states.len()
    &&& states[0] == before
    &&& cuts[0] == 0
    &&& states[n] == after
    &&& 0 <= cuts[n] <= input.len()
    &&& forall|i: int| 0 <= i < n ==> #[trigger] step_at(i, input, states, cuts, outs, session)
    &&& match spec_parse_resp(input.skip(cuts[n])) {
        Err(ParseError::IncompleteInput) => outs.len() == n && consumed == cuts[n],
        Err(e) => outs.len() == n + 1 && replies(outs[n], error_frame(parse_error_text(e)))
            && consumed == input.len(),
        Ok(_) => false,
    }
}

/// The session of a client at `peer`.
pub open spec fn client_session(peer: PeerAddr, now: u64, wall_ms: u128) -> Session {
    Session { peer: Some(peer), now: now, wall_ms: wall_ms, from_master: false }
}

/// The session of the master of this replica.
pub open spec fn master_session(now: u64, wall_ms: u128) -> Session {
    Session { peer: None, now: now, wall_ms: wall_ms, from_master: true }
}

impl Server {
    /// Runs the command for one frame of `size` bytes.
    pub fn serve_frame(
        &mut self,
        frame: RespType,
        size: usize,
        peer: Option<PeerAddr>,
        now: u64,
        wall_ms: u128,
        from_master: bool,
    ) -> (out: Outcome)
        requires
            old(self)@.wf(),
        ensures
            final(self)@.wf(),
            stepped(
                old(self)@,
                frame@,
                size as int,
                (Session { peer, now, wall_ms, from_master }),
                final(self)@,
                out,
            ),
    {
        let ghost session = Session { peer, now, wall_ms, from_master };
        let ghost v = frame@;
        let cmd: Command = CmdBuilder::from_resp(frame);
        let raw: Outcome = self.execute(&cmd, peer, now, wall_ms, !from_master);
        let ghost mid = self@;
        let ghost raw_copy = raw;
        let out: Outcome = if from_master {
            incr_master_repl_offset(&mut self.config, size as u64);
            assert(self@ == with_offset(mid, size as u64));
            match cmd {
                Command::GetAck(_) => raw,
                _ => Outcome::Reply(RespType::WildCard(Vec::new())),
            }
        } else {
            raw
        };
        assert(built(v, cmd));
        assert(executed_in(cmd, old(self)@, session, mid, raw_copy));
        out
    }

    /// Serves the bytes that a connection has delivered: every whole
    /// frame at their front is run as a command, in order, and the outcomes
    /// come back in that order with the number of bytes that were used up.
    /// With `from_master` set the bytes are the command stream of a master.
    pub fn serve(
        &mut self,
        input: &[u8],
        peer: Option<PeerAddr>,
        now: u64,
        wall_ms: u128,
        from_master: bool,
    ) -> (r: (Vec<Outcome>, usize))
        requires
            old(self)@.wf(),
        ensures
            final(self)@.wf(),
            r.1 <= input@.len(),
            exists|states: Seq<ServerModel>, cuts: Seq<int>|
                #[trigger] served(
                    old(self)@,
                    input@,
                    (Session { peer, now, wall_ms, from_master }),
                    final(self)@,
                    r.0@,
                    r.1,
                    states,
                    cuts,
                ),
    {
        let ghost session = Session { peer, now, wall_ms, from_master };
        let mut outs: Vec<Outcome> = Vec::new();
        let mut rest: &[u8] = input;
        let total: usize = input.len();
        let ghost mut states: Seq<ServerModel> = seq![self@];
        let ghost mut cuts: Seq<int> = seq![0int];
        assert(input@.skip(0) =~= input@);
        loop
            invariant
                self@.wf(),
                total == input@.len(),
                session == (Session { peer, now, wall_ms, from_master }),
                states.len() == outs@.len() + 1,
                cuts.len() == states.len(),
                states[0] == old(self)@,
                cuts[0] == 0,
                states[states.len() - 1] == self@,
                0 <= cuts[cuts.len() - 1] <= input@.len(),
                rest@ == input@.skip(cuts[cuts.len() - 1]),
                forall|i: int|
                    0 <= i < outs@.len() ==> #[trigger] step_at(
                        i,
                        input@,
                        states,
                        cuts,
                        outs@,
                        session,
                    ),
            decreases rest@.len(),
        {
            let ghost cut = cuts[cuts.len() - 1];
            let ghost before = self@;
            let ghost done = outs@;
            let ghost old_states = states;
            let ghost old_cuts = cuts;
            match Parser::parse_resp(rest) {
                Err(e) => {
                    let used: usize = match e {
                        ParseError::IncompleteInput => total - rest.len(),
                        _ => {
                            outs.push(Outcome::Reply(error_reply(e.message().as_bytes())));
                            total
                        },
                    };
                    proof {
                        assert forall|i: int| 0 <= i < done.len() implies #[trigger] step_at(
                            i,
                            input@,
                            states,
                            cuts,
                            outs@,
                            session,
                        ) by {
                            assert(step_at(i, input@, states, cuts, done, session));
                            assert(outs@[i] == done[i]);
                        }
                        assert(served(
                            old(self)@,
                            input@,
                            session,
                            self@,
                            outs@,
                            used,
                            states,
                            cuts,
                        ));
                    }
                    let ghost sent = outs@;
                    let result = (outs, used);
                    assert(result.0@ == sent && result.1 == used);
                    return result;
                },
                Ok((frame, rem)) => {
                    let ghost k = spec_parse_resp(rest@)->Ok_0.1;
                    let size: usize = rest.len() - rem.len();
                    let out: Outcome = self.serve_frame(frame, size, peer, now, wall_ms, from_master);
                    outs.push(out);
                    proof {
                        states = states.push(self@);
                        cuts = cuts.push(cut + k);
                        assert(input@.skip(cut).skip(k) =~= input@.skip(cut + k));
                        assert forall|i: int| 0 <= i < outs@.len() implies #[trigger] step_at(
                            i,
                            input@,
                            states,
                            cuts,
                            outs@,
                            session,
                        ) by {
                            if i < done.len() {
                                assert(step_at(i, input@, old_states, old_cuts, done, session));
                                assert(outs@[i] == done[i]);
                                assert(states[i] == old_states[i]);
                                assert(states[i + 1] == old_states[i + 1]);
                                assert(cuts[i] == old_cuts[i]);
                                assert(cuts[i + 1] == old_cuts[i + 1]);
                            } else {
                                assert(states[i] == before);
                                assert(cuts[i] == cut);
                                assert(outs@[i] == out);
                            }
                        }
                    }
                    rest = rem;
                },
            }
        }
    }

    /// Serves bytes as `serve` does, for a caller that cannot know
    /// whether the state is well formed: the state is looked at first, and
    /// nothing is done where it is not.
    pub fn serve_checked(
        &mut self,
        input: &[u8],
        peer: Option<PeerAddr>,
        now: u64,
        wall_ms: u128,
        from_master: bool,
    ) -> (r: Option<(Vec<Outcome>, usize)>)
        ensures
            r is Some == old(self)@.wf(),
            !old(self)@.wf() ==> final(self)@ == old(self)@,
            r matches Some(got) ==> final(self)@.wf() && got.1 <= input@.len() && exists|
                states: Seq<ServerModel>,
                cuts: Seq<int>,
            |
                #[trigger] served(
                    old(self)@,
                    input@,
                    (Session { peer, now, wall_ms, from_master }),
                    final(self)@,
                    got.0@,
                    got.1,
                    states,
                    cuts,
                ),
    {
        if self.is_wf() {
            Some(self.serve(input, peer, now, wall_ms, from_master))
        } else {
            None
        }
    }

    /// Serves the bytes that a client has sent. Writes are handed on to
    /// the replicas.
    pub fn handle_client(&mut self, input: &[u8], peer: PeerAddr, now: u64, wall_ms: u128) -> (r: (
        Vec<Outcome>,
        usize,
    ))
        requires
            old(self)@.wf(),
        ensures
            final(self)@.wf(),
            r.1 <= input@.len(),
            exists|states: Seq<ServerModel>, cuts: Seq<int>|
                #[trigger] served(
                    old(self)@,
                    input@,
                    client_session(peer, now, wall_ms),
                    final(self)@,
                    r.0@,
                    r.1,
                    states,
                    cuts,
                ),
    {
        self.serve(input, Some(peer), now, wall_ms, false)
    }

    /// Takes in bytes of the command stream of the master of this
    /// replica: every whole frame is applied, nothing is handed on, and the
    /// replication offset moves on by exactly the bytes of the frames that
    /// were applied. Only the question for an acknowledgement is answered.
    pub fn replica_handle_master_connection(&mut self, input: &[u8], now: u64, wall_ms: u128) -> (r:
        (Vec<Outcome>, usize))
        requires
            old(self)@.wf(),
        ensures
            final(self)@.wf(),
            r.1 <= input@.len(),
            exists|states: Seq<ServerModel>, cuts: Seq<int>|
                #[trigger] served(
                    old(self)@,
                    input@,
                    master_session(now, wall_ms),
                    final(self)@,
                    r.0@,
                    r.1,
                    states,
                    cuts,
                ),
    {
        self.serve(input, None, now, wall_ms, true)
    }
}

} // verus!
