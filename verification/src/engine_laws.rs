//! What holds of the engine whatever the inputs: values live as long as
//! their span, stream identifiers only grow, a replica counts every byte it
//! applies, and replicas see writes in the order in which they were accepted.

use vstd::prelude::*;
use crate::cmd::{bulks, error_frame, Outcome};
use crate::cmd::cmd_builder::Command;
use crate::cmd::set::{set_words, SetCmd};
use crate::constants::STAR;
use crate::data_entry::{canonical, lemma_canonical_text, EntryModel};
use crate::parser::{spec_parse_resp, ParseError};
use crate::redis::{
    applied_all, db_get, db_set, db_wf, flush_jobs, has_pending, index_of, key_at, lemma_index_of,
    lemma_insert_wf, lemma_slave_index, slave_at, slaves_wf, staged_all, updates_done, DbModel,
    SlavesModel,
};
use crate::resp::{lemma_serialize_seq_push, serialize_seq, RespValue};
use crate::server::{
    executed, master_session, replies, served, step_at, stepped, ServerModel, Session,
};
use crate::slave_meta::{advanced, PeerAddr, SlaveModel, UpdateState};
use crate::stream_entry::{id_le, id_lt, spec_to_xadd, spec_xadd, StreamModel, XAddId};
use crate::utils::ascii;
use crate::wire_laws::lemma_parse_serialized;

verus! {

/// Whether a value written at `t0` to live for `px` has outlived its span at `t`.
pub open spec fn outlived(px: Option<u64>, t0: u64, t: u64) -> bool {
    px matches Some(span) && t > t0 && t - t0 > span
}

/// A value that was written is read back unchanged as long as its span
/// has not run out, and the read changes nothing. Once the span has run
/// out, the read gives nothing and takes the key out.
pub proof fn law_read_after_write(
    db: DbModel,
    key: Seq<u8>,
    value: Seq<u8>,
    px: Option<u64>,
    t0: u64,
    t: u64,
)
    requires
        db_wf(db),
        key.len() <= u32::MAX,
        value.len() <= u32::MAX,
    ensures
        !outlived(px, t0, t) ==> db_get(db_set(db, key, value, px, t0), key, t) == (
            db_set(db, key, value, px, t0),
            Some(value),
        ),
        outlived(px, t0, t) ==> db_get(db_set(db, key, value, px, t0), key, t).1 is None
            && index_of(db_get(db_set(db, key, value, px, t0), key, t).0, canonical(key)) is None,
{
    lemma_canonical_text(key);
    lemma_canonical_text(value);
    let k = canonical(key);
    let entry = EntryModel { value: canonical(value), created_at: t0, expired_millis: px };
    let db1 = db_set(db, key, value, px, t0);
    lemma_insert_wf(db, k, entry);
    let i = match index_of(db, k) {
        Some(i) => i,
        None => db.len() as int,
    };
    if index_of(db, k) is Some {
        assert(key_at(db, k, i));
    }
    assert(key_at(db1, k, i));
    lemma_index_of(db1, k, i);
    assert(db1[i].1 == entry);
    if outlived(px, t0, t) {
        let after = db1.remove(i);
        if exists|j: int| key_at(after, k, j) {
            let j = choose|j: int| key_at(after, k, j);
            let j0 = if j < i { j } else { j + 1 };
            assert(after[j] == db1[j0]);
            assert(db1[j0].0 != db1[i].0);
        }
    }
}

/// An identifier that is accepted strictly exceeds the last one of the
/// stream, whichever way it was spelled; an explicit identifier that does
/// not is refused.
pub proof fn law_stream_ids_grow(stream: StreamModel, s: Seq<u8>, now: u128)
    requires
        stream.wf(),
    ensures
        spec_xadd(stream, s, now) matches Ok(id) ==> id_lt(stream.last_stream_id, id) && forall|
            i: int,
        | 0 <= i < stream.entries.len() ==> id_lt((#[trigger] stream.entries[i]).id, id),
        spec_to_xadd(s, now) matches Some(XAddId::Explicit(id)) && id_le(
            id,
            stream.last_stream_id,
        ) ==> spec_xadd(stream, s, now) is Err,
{
    match spec_xadd(stream, s, now) {
        Ok(id) => {
            assert forall|i: int| 0 <= i < stream.entries.len() implies id_lt(
                (#[trigger] stream.entries[i]).id,
                id,
            ) by {
                let last = stream.entries.len() - 1;
                if i < last {
                    assert(id_lt(stream.entries[i].id, stream.entries[last].id));
                }
            }
        },
        Err(_) => {},
    }
}

/// `*` is accepted exactly where the wall clock has not fallen behind
/// the stream and the sequence numbers of its millisecond are not used up.
pub proof fn law_star_accepted(stream: StreamModel, now: u128)
    requires
        stream.wf(),
    ensures
        spec_xadd(stream, seq![STAR], now) is Ok <==> now >= stream.last_stream_id.millis && !(
        stream.entries.len() > 0 && now == stream.last_stream_id.millis
            && stream.last_stream_id.seq == u64::MAX),
{
}

/// Moving an offset on twice is moving it on by the sum.
pub proof fn lemma_advanced_twice(x: u64, a: u64, b: u64)
    requires
        a + b <= u64::MAX,
    ensures
        advanced(advanced(x, a), b) == advanced(x, (a + b) as u64),
{
}

/// Along the command stream of a master the replication offset stands
/// at what it was plus the bytes of the frames applied so far.
pub proof fn lemma_offset_along(
    input: Seq<u8>,
    states: Seq<ServerModel>,
    cuts: Seq<int>,
    outs: Seq<Outcome>,
    now: u64,
    wall_ms: u128,
    n: int,
)
    requires
        input.len() <= u64::MAX,
        0 <= n < states.len(),
        cuts.len() == states.len(),
        cuts[0] == 0,
        forall|i: int|
            0 <= i < n ==> #[trigger] step_at(i, input, states, cuts, outs, master_session(now, wall_ms)),
        0 <= cuts[n] <= input.len(),
    ensures
        states[n].config.master_repl_offset == advanced(
            states[0].config.master_repl_offset,
            cuts[n] as u64,
        ),
        forall|i: int| 0 <= i <= n ==> 0 <= #[trigger] cuts[i] <= cuts[n],
    decreases n,
{
    if n > 0 {
        assert(step_at(n - 1, input, states, cuts, outs, master_session(now, wall_ms)));
        let (v, k) = spec_parse_resp(input.skip(cuts[n - 1]))->Ok_0;
        assert(cuts[n] == cuts[n - 1] + k);
        assert(stepped(
            states[n - 1],
            v,
            k,
            master_session(now, wall_ms),
            states[n],
            outs[n - 1],
        ));
        lemma_offset_along(input, states, cuts, outs, now, wall_ms, n - 1);
        lemma_step_offset(states[n - 1], v, k, now, wall_ms, states[n], outs[n - 1]);
        lemma_advanced_twice(states[0].config.master_repl_offset, cuts[n - 1] as u64, k as u64);
    }
}

/// One frame of the command stream of a master moves the replication
/// offset on by its size, whatever its command does.
pub proof fn lemma_step_offset(
    before: ServerModel,
    frame: RespValue,
    size: int,
    now: u64,
    wall_ms: u128,
    after: ServerModel,
    out: Outcome,
)
    requires
        stepped(before, frame, size, master_session(now, wall_ms), after, out),
    ensures
        after.config.master_repl_offset == advanced(before.config.master_repl_offset, size as u64),
{
    reveal(executed);
}

/// After a session in which a replica has applied whole frames of its
/// master and was left with no malformed bytes, its replication offset has
/// moved on by exactly the bytes it has used up.
pub proof fn law_replica_offset(
    before: ServerModel,
    input: Seq<u8>,
    now: u64,
    wall_ms: u128,
    after: ServerModel,
    outs: Seq<Outcome>,
    consumed: usize,
    states: Seq<ServerModel>,
    cuts: Seq<int>,
)
    requires
        input.len() <= usize::MAX,
        served(before, input, master_session(now, wall_ms), after, outs, consumed, states, cuts),
        spec_parse_resp(input.skip(cuts[cuts.len() - 1])) == Err::<(RespValue, int), ParseError>(
            ParseError::IncompleteInput,
        ),
    ensures
        after.config.master_repl_offset == advanced(
            before.config.master_repl_offset,
            consumed as u64,
        ),
{
    lemma_offset_along(input, states, cuts, outs, now, wall_ms, states.len() - 1);
}

/// Two writes that are staged one after the other wait in every
/// replica's buffer in that order, behind what waited before.
pub proof fn law_staged_in_order(s: SlavesModel, first: Seq<u8>, second: Seq<u8>)
    ensures
        staged_all(staged_all(s, first), second) == staged_all(s, first + second),
        forall|i: int|
            0 <= i < s.len() ==> (#[trigger] staged_all(
                staged_all(s, first),
                second,
            )[i]).pending_updates == s[i].pending_updates + first + second,
{
    let twice = staged_all(staged_all(s, first), second);
    let once = staged_all(s, first + second);
    assert forall|i: int| 0 <= i < s.len() implies (#[trigger] twice[i]).pending_updates
        == s[i].pending_updates + first + second && twice[i] == once[i] by {
        assert(staged_all(s, first)[i] == s[i].staged(first));
        assert(s[i].pending_updates + first + second =~= s[i].pending_updates + (first + second));
    }
    assert(twice =~= once);
}

/// Two writes that a master accepts one after the other wait for every
/// replica in that order, behind what waited before: first the one command
/// as it is handed on, then the other.
pub proof fn law_writes_reach_replicas_in_order(
    first: SetCmd,
    second: SetCmd,
    s0: ServerModel,
    s1: ServerModel,
    s2: ServerModel,
    peer: Option<PeerAddr>,
    t1: u64,
    t2: u64,
    wall_ms: u128,
    o1: Outcome,
    o2: Outcome,
)
    requires
        executed(Command::SetCmd(first), s0, peer, t1, wall_ms, true, s1, o1),
        executed(Command::SetCmd(second), s1, peer, t2, wall_ms, true, s2, o2),
        replies(o1, RespValue::SimpleString(ascii("OK"))),
        replies(o2, RespValue::SimpleString(ascii("OK"))),
    ensures
        s2.slaves.len() == s0.slaves.len(),
        forall|i: int|
            0 <= i < s0.slaves.len() ==> (#[trigger] s2.slaves[i]).pending_updates
                == s0.slaves[i].pending_updates + bulks(
                set_words(first.key@, first.value@, first.px),
            ).serialize() + bulks(set_words(second.key@, second.value@, second.px)).serialize(),
{
    reveal(executed);
    let a = bulks(set_words(first.key@, first.value@, first.px)).serialize();
    let b = bulks(set_words(second.key@, second.value@, second.px)).serialize();
    lemma_ok_is_no_error();
    law_staged_in_order(s0.slaves, a, b);
}

/// The answer `OK` is no error frame.
pub proof fn lemma_ok_is_no_error()
    ensures
        forall|m: Seq<u8>| RespValue::SimpleString(ascii("OK")) != #[trigger] error_frame(m),
{
}

/// Two frames that were written one after the other are read in that
/// order: the first from the front, the second from what is left.
pub proof fn law_frames_read_in_order(first: RespValue, second: RespValue, rest: Seq<u8>)
    requires
        first.is_wire_value(),
        second.is_wire_value(),
    ensures
        spec_parse_resp(first.serialize() + second.serialize() + rest) == Ok::<
            (RespValue, int),
            ParseError,
        >((first, first.serialize().len() as int)),
        spec_parse_resp(
            (first.serialize() + second.serialize() + rest).skip(first.serialize().len() as int),
        ) == Ok::<(RespValue, int), ParseError>((second, second.serialize().len() as int)),
{
    let all = first.serialize() + second.serialize() + rest;
    assert(all =~= first.serialize() + (second.serialize() + rest));
    lemma_parse_serialized(first, second.serialize() + rest);
    assert(all.skip(first.serialize().len() as int) =~= second.serialize() + rest);
    lemma_parse_serialized(second, rest);
}

/// The bytes of two runs of frames, one after the other, are the bytes of
/// the one run followed by the bytes of the other.
pub proof fn lemma_serialize_seq_concat(a: Seq<RespValue>, b: Seq<RespValue>)
    ensures
        serialize_seq(a + b) == serialize_seq(a) + serialize_seq(b),
    decreases b.len(),
{
    if b.len() == 0 {
        assert(a + b =~= a);
        assert(serialize_seq(b) =~= Seq::<u8>::empty());
        assert(serialize_seq(a) + serialize_seq(b) =~= serialize_seq(a));
    } else {
        let front = b.drop_last();
        assert(a + b =~= (a + front).push(b.last()));
        assert(b =~= front.push(b.last()));
        lemma_serialize_seq_push(a + front, b.last());
        lemma_serialize_seq_push(front, b.last());
        lemma_serialize_seq_concat(a, front);
        assert(serialize_seq(a + b) =~= serialize_seq(a) + serialize_seq(b));
    }
}

/// In the bytes of a run of frames the `i`-th frame stands behind the
/// bytes of the frames before it, and reads from there as itself. Behind
/// the last frame nothing is left to read.
pub proof fn lemma_frame_in_run(frames: Seq<RespValue>, i: int)
    requires
        forall|j: int| 0 <= j < frames.len() ==> (#[trigger] frames[j]).is_wire_value(),
        0 <= i <= frames.len(),
    ensures
        serialize_seq(frames.take(i)).len() <= serialize_seq(frames).len(),
        i < frames.len() ==> spec_parse_resp(
            serialize_seq(frames).skip(serialize_seq(frames.take(i)).len() as int),
        ) == Ok::<(RespValue, int), ParseError>((frames[i], frames[i].serialize().len() as int))
            && serialize_seq(frames.take(i + 1)).len() == serialize_seq(frames.take(i)).len()
            + frames[i].serialize().len(),
        i == frames.len() ==> serialize_seq(frames.take(i)).len() == serialize_seq(frames).len()
            && spec_parse_resp(
            serialize_seq(frames).skip(serialize_seq(frames.take(i)).len() as int),
        ) == Err::<(RespValue, int), ParseError>(ParseError::IncompleteInput),
{
    let input = serialize_seq(frames);
    let before = serialize_seq(frames.take(i));
    assert(frames =~= frames.take(i) + frames.skip(i));
    lemma_serialize_seq_concat(frames.take(i), frames.skip(i));
    assert(input.skip(before.len() as int) =~= serialize_seq(frames.skip(i)));
    if i < frames.len() {
        let rest = frames.skip(i).drop_first();
        assert(frames.skip(i)[0] == frames[i]);
        assert(serialize_seq(frames.skip(i)) == frames[i].serialize() + serialize_seq(rest));
        lemma_parse_serialized(frames[i], serialize_seq(rest));
        assert(frames.take(i + 1) =~= frames.take(i).push(frames[i]));
        lemma_serialize_seq_push(frames.take(i), frames[i]);
    } else {
        assert(frames.take(i) =~= frames);
        assert(serialize_seq(frames.skip(i)) =~= Seq::<u8>::empty());
    }
}

/// Along a session over the bytes of a run of frames, the `i`-th step
/// starts where the bytes of the `i`-th frame start.
pub proof fn lemma_cuts_follow_frames(
    frames: Seq<RespValue>,
    states: Seq<ServerModel>,
    cuts: Seq<int>,
    outs: Seq<Outcome>,
    session: Session,
    i: int,
)
    requires
        forall|j: int| 0 <= j < frames.len() ==> (#[trigger] frames[j]).is_wire_value(),
        cuts.len() == states.len(),
        cuts[0] == 0,
        0 <= i < states.len(),
        i <= frames.len(),
        forall|j: int|
            0 <= j < states.len() - 1 ==> #[trigger] step_at(
                j,
                serialize_seq(frames),
                states,
                cuts,
                outs,
                session,
            ),
    ensures
        cuts[i] == serialize_seq(frames.take(i)).len(),
    decreases i,
{
    if i == 0 {
        assert(frames.take(0) =~= Seq::<RespValue>::empty());
        assert(serialize_seq(frames.take(0)) =~= Seq::<u8>::empty());
    } else {
        lemma_cuts_follow_frames(frames, states, cuts, outs, session, i - 1);
        lemma_frame_in_run(frames, i - 1);
        assert(step_at(i - 1, serialize_seq(frames), states, cuts, outs, session));
    }
}

/// A session over bytes that are whole frames, one after the other, uses
/// up all of the bytes and runs one command for every frame, in the order
/// in which the frames stand on the wire: the `i`-th step starts behind the
/// bytes of the frames before it and runs the command for the `i`-th frame.
pub proof fn law_whole_frames_are_served_in_order(
    frames: Seq<RespValue>,
    before: ServerModel,
    session: Session,
    after: ServerModel,
    outs: Seq<Outcome>,
    consumed: usize,
    states: Seq<ServerModel>,
    cuts: Seq<int>,
)
    requires
        forall|j: int| 0 <= j < frames.len() ==> (#[trigger] frames[j]).is_wire_value(),
        served(before, serialize_seq(frames), session, after, outs, consumed, states, cuts),
    ensures
        consumed == serialize_seq(frames).len(),
        outs.len() == frames.len(),
        states.len() == frames.len() + 1,
        states[0] == before,
        states[frames.len() as int] == after,
        forall|i: int|
            0 <= i <= frames.len() ==> #[trigger] cuts[i] == serialize_seq(frames.take(i)).len(),
        forall|i: int|
            #![trigger frames[i]]
            0 <= i < frames.len() ==> stepped(
                states[i],
                frames[i],
                frames[i].serialize().len() as int,
                session,
                states[i + 1],
                outs[i],
            ),
{
    let input = serialize_seq(frames);
    let n = states.len() - 1;
    if n < frames.len() {
        lemma_cuts_follow_frames(frames, states, cuts, outs, session, n);
        lemma_frame_in_run(frames, n);
    } else if n > frames.len() {
        let m = frames.len() as int;
        lemma_cuts_follow_frames(frames, states, cuts, outs, session, m);
        lemma_frame_in_run(frames, m);
        assert(step_at(m, input, states, cuts, outs, session));
    }
    assert(n == frames.len());
    lemma_cuts_follow_frames(frames, states, cuts, outs, session, n);
    lemma_frame_in_run(frames, n);
    assert forall|i: int| 0 <= i <= frames.len() implies #[trigger] cuts[i] == serialize_seq(
        frames.take(i),
    ).len() by {
        lemma_cuts_follow_frames(frames, states, cuts, outs, session, i);
    }
    assert forall|i: int|
        #![trigger frames[i]]
        0 <= i < frames.len() implies stepped(
        states[i],
        frames[i],
        frames[i].serialize().len() as int,
        session,
        states[i + 1],
        outs[i],
    ) by {
        lemma_cuts_follow_frames(frames, states, cuts, outs, session, i);
        lemma_frame_in_run(frames, i);
        assert(step_at(i, input, states, cuts, outs, session));
    }
}

/// After a replica has taken in bytes of its master that are whole
/// frames, its replication offset has moved on by the length of the bytes,
/// and behind the `i`-th frame it had moved on by the bytes of the frames up
/// to there: bytes on the wire, whatever the commands are. The offset is a
/// 64-bit number and stays at the greatest value once there; below that it
/// is the sum.
pub proof fn law_replica_counts_whole_frames(
    frames: Seq<RespValue>,
    before: ServerModel,
    now: u64,
    wall_ms: u128,
    after: ServerModel,
    outs: Seq<Outcome>,
    consumed: usize,
    states: Seq<ServerModel>,
    cuts: Seq<int>,
)
    requires
        forall|j: int| 0 <= j < frames.len() ==> (#[trigger] frames[j]).is_wire_value(),
        served(
            before,
            serialize_seq(frames),
            master_session(now, wall_ms),
            after,
            outs,
            consumed,
            states,
            cuts,
        ),
    ensures
        consumed == serialize_seq(frames).len(),
        outs.len() == frames.len(),
        states.len() == frames.len() + 1,
        forall|i: int|
            0 <= i <= frames.len() ==> (#[trigger] states[i]).config.master_repl_offset
                == advanced(
                before.config.master_repl_offset,
                serialize_seq(frames.take(i)).len() as u64,
            ),
        after.config.master_repl_offset == advanced(
            before.config.master_repl_offset,
            serialize_seq(frames).len() as u64,
        ),
        before.config.master_repl_offset + serialize_seq(frames).len() <= u64::MAX
            ==> after.config.master_repl_offset == before.config.master_repl_offset
            + serialize_seq(frames).len(),
{
    let input = serialize_seq(frames);
    let session = master_session(now, wall_ms);
    law_whole_frames_are_served_in_order(
        frames,
        before,
        session,
        after,
        outs,
        consumed,
        states,
        cuts,
    );
    assert forall|i: int| 0 <= i <= frames.len() implies (
    #[trigger] states[i]).config.master_repl_offset == advanced(
        before.config.master_repl_offset,
        serialize_seq(frames.take(i)).len() as u64,
    ) by {
        assert(cuts[i] == serialize_seq(frames.take(i)).len());
        lemma_frame_in_run(frames, i);
        assert forall|j: int| 0 <= j < i implies #[trigger] step_at(
            j,
            input,
            states,
            cuts,
            outs,
            session,
        ) by {}
        lemma_offset_along(input, states, cuts, outs, now, wall_ms, i);
    }
    assert(frames.take(frames.len() as int) =~= frames);
    assert(states[frames.len() as int] == after);
}

/// One of the first `k` positions is `i`.
pub open spec fn hit(idx: Seq<int>, k: int, i: int) -> bool {
    exists|j: int| 0 <= j < k && #[trigger] idx[j] == i
}

/// `idx` names, in growing order, the places of `s` at which the members
/// stand that the filter keeps: one place for each, and all of them.
pub open spec fn positions_of<A>(s: Seq<A>, keep: spec_fn(A) -> bool, idx: Seq<int>) -> bool {
    &&& idx.len() == s.filter(keep).len()
    &&& forall|j: int|
        0 <= j < idx.len() ==> 0 <= #[trigger] idx[j] < s.len() && s[idx[j]] == s.filter(keep)[j]
    &&& forall|a: int, b: int| 0 <= a < b < idx.len() ==> #[trigger] idx[a] < #[trigger] idx[b]
    &&& forall|i: int| 0 <= i < s.len() && keep(#[trigger] s[i]) ==> hit(idx, idx.len() as int, i)
}

/// What a filter keeps stands in the run at places that grow.
pub proof fn lemma_filter_positions<A>(s: Seq<A>, keep: spec_fn(A) -> bool) -> (idx: Seq<int>)
    ensures
        positions_of(s, keep, idx),
    decreases s.len(),
{
    reveal(Seq::filter);
    if s.len() == 0 {
        Seq::<int>::empty()
    } else {
        let front = s.drop_last();
        let last = s.len() - 1;
        let idx0 = lemma_filter_positions(front, keep);
        assert forall|j: int| 0 <= j < idx0.len() implies s[#[trigger] idx0[j]] == front.filter(
            keep,
        )[j] by {
            assert(front[idx0[j]] == s[idx0[j]]);
        }
        if keep(s[last]) {
            let idx = idx0.push(last);
            assert forall|i: int| 0 <= i < s.len() && keep(#[trigger] s[i]) implies hit(
                idx,
                idx.len() as int,
                i,
            ) by {
                if i < last {
                    assert(front[i] == s[i]);
                    assert(hit(idx0, idx0.len() as int, i));
                    let j = choose|j: int| 0 <= j < idx0.len() && #[trigger] idx0[j] == i;
                    assert(idx[j] == i);
                } else {
                    assert(idx[idx0.len() as int] == i);
                }
            }
            idx
        } else {
            assert forall|i: int| 0 <= i < s.len() && keep(#[trigger] s[i]) implies hit(
                idx0,
                idx0.len() as int,
                i,
            ) by {
                assert(front[i] == s[i]);
            }
            idx0
        }
    }
}

/// The results of a flush tick in which every write took all of its bytes.
pub open spec fn all_accepted(jobs: Seq<(PeerAddr, Seq<u8>)>) -> Seq<UpdateState> {
    Seq::new(
        jobs.len(),
        |j: int|
            UpdateState::Success(jobs[j].0, jobs[j].1.len() as u64, jobs[j].1.len() as u64),
    )
}

/// The record of a replica after all that waited for it was written and taken.
pub open spec fn drained(m: SlaveModel) -> SlaveModel {
    m.flushed(m.pending_updates.len() as u64, m.pending_updates.len() as u64)
}

/// The registry after the replicas at the first `k` positions were drained.
pub open spec fn drained_at(s: SlavesModel, idx: Seq<int>, k: int) -> SlavesModel {
    Seq::new(
        s.len(),
        |i: int|
            if hit(idx, k, i) {
                drained(s[i])
            } else {
                s[i]
            },
    )
}

/// The registry after every replica for which bytes waited was drained;
/// the others are as they were.
pub open spec fn drained_all(s: SlavesModel) -> SlavesModel {
    Seq::new(
        s.len(),
        |i: int|
            if s[i].pending_updates.len() > 0 {
                drained(s[i])
            } else {
                s[i]
            },
    )
}

/// Accounting for the first `k` results of a flush tick in which every
/// write took all of its bytes drains the replicas at the first `k`
/// positions, and counts each of them.
pub proof fn lemma_flush_prefix(s: SlavesModel, limit: usize, idx: Seq<int>, k: int)
    requires
        slaves_wf(s),
        positions_of(s, has_pending(), idx),
        0 <= k <= idx.len(),
    ensures
        applied_all(s, all_accepted(flush_jobs(s)).take(k), limit) == drained_at(s, idx, k),
        updates_done(s, all_accepted(flush_jobs(s)).take(k), limit) == k,
    decreases k,
{
    let results = all_accepted(flush_jobs(s));
    let waiting = s.filter(has_pending());
    if k == 0 {
        assert(results.take(0) =~= Seq::<UpdateState>::empty());
        assert(drained_at(s, idx, 0) =~= s);
    } else {
        lemma_flush_prefix(s, limit, idx, k - 1);
        let at = idx[k - 1];
        let prev = drained_at(s, idx, k - 1);
        assert(results.take(k).drop_last() =~= results.take(k - 1));
        assert(results.take(k).last() == results[k - 1]);
        assert(waiting[k - 1] == s[at]);
        let addr = s[at].socket_addr;
        assert(!hit(idx, k - 1, at)) by {
            if hit(idx, k - 1, at) {
                let j = choose|j: int| 0 <= j < k - 1 && #[trigger] idx[j] == at;
                assert(idx[j] < idx[k - 1]);
            }
        }
        assert(prev[at] == s[at]);
        assert forall|a: int, b: int|
            0 <= a < prev.len() && 0 <= b < prev.len() && a != b implies (
        #[trigger] prev[a]).socket_addr != (#[trigger] prev[b]).socket_addr by {
            assert(prev[a].socket_addr == s[a].socket_addr);
            assert(prev[b].socket_addr == s[b].socket_addr);
        }
        assert(slave_at(prev, addr, at));
        lemma_slave_index(prev, addr, at);
        let next = drained_at(s, idx, k);
        assert forall|i: int| 0 <= i < s.len() implies #[trigger] next[i] == prev.update(
            at,
            drained(s[at]),
        )[i] by {
            if i == at {
                assert(idx[k - 1] == i);
                assert(hit(idx, k, i));
            } else if hit(idx, k, i) {
                let j = choose|j: int| 0 <= j < k && #[trigger] idx[j] == i;
                assert(j < k - 1);
                assert(hit(idx, k - 1, i));
            } else if hit(idx, k - 1, i) {
                let j = choose|j: int| 0 <= j < k - 1 && #[trigger] idx[j] == i;
                assert(idx[j] == i && j < k);
            }
        }
        assert(next =~= prev.update(at, drained(s[at])));
    }
}

/// A flush tick in which every write takes all of its bytes: every replica
/// for which bytes waited is handed exactly those bytes, once, in the order
/// of the registry; afterwards nothing waits for it and both of its offsets
/// have moved on by the length of those bytes. A replica for which nothing
/// waited is not written to and stays as it was. The count that comes back is
/// the number of replicas that were written to. Offsets are 64-bit numbers
/// and stay at the greatest value once there; below that they are the sums.
pub proof fn law_flush_drains_every_buffer(s: SlavesModel, limit: usize)
    requires
        slaves_wf(s),
    ensures
        applied_all(s, all_accepted(flush_jobs(s)), limit) == drained_all(s),
        updates_done(s, all_accepted(flush_jobs(s)), limit) == flush_jobs(s).len(),
        exists|idx: Seq<int>|
            #![trigger positions_of(s, has_pending(), idx)]
            positions_of(s, has_pending(), idx) && idx.len() == flush_jobs(s).len() && forall|
                j: int,
            |
                0 <= j < idx.len() ==> (#[trigger] flush_jobs(s)[j]) == (
                    s[idx[j]].socket_addr,
                    s[idx[j]].pending_updates,
                ),
        forall|i: int|
            0 <= i < s.len() ==> {
                let m = #[trigger] drained_all(s)[i];
                let waited = s[i].pending_updates.len();
                if waited > 0 {
                    &&& m.socket_addr == s[i].socket_addr
                    &&& m.pending_updates.len() == 0
                    &&& m.expected_offset == advanced(s[i].expected_offset, waited as u64)
                    &&& m.actual_offset == advanced(s[i].actual_offset, waited as u64)
                    &&& s[i].expected_offset + waited <= u64::MAX ==> m.expected_offset
                        == s[i].expected_offset + waited
                    &&& s[i].actual_offset + waited <= u64::MAX ==> m.actual_offset
                        == s[i].actual_offset + waited
                } else {
                    m == s[i]
                }
            },
{
    let keep = has_pending();
    let waiting = s.filter(keep);
    let results = all_accepted(flush_jobs(s));
    let idx = lemma_filter_positions(s, keep);
    let n = idx.len() as int;
    lemma_flush_prefix(s, limit, idx, n);
    assert(results.take(n) =~= results);
    assert forall|i: int| 0 <= i < s.len() implies #[trigger] drained_at(s, idx, n)[i]
        == drained_all(s)[i] by {
        if hit(idx, n, i) {
            let j = choose|j: int| 0 <= j < n && #[trigger] idx[j] == i;
            assert(s[idx[j]] == waiting[j]);
            s.lemma_filter_pred(keep, j);
            assert(keep(s[i]));
        } else if s[i].pending_updates.len() > 0 {
            assert(keep(s[i]));
        }
    }
    assert(drained_at(s, idx, n) =~= drained_all(s));
    assert forall|j: int| 0 <= j < idx.len() implies (#[trigger] flush_jobs(s)[j]) == (
        s[idx[j]].socket_addr,
        s[idx[j]].pending_updates,
    ) by {
        assert(s[idx[j]] == waiting[j]);
    }
    assert(positions_of(s, has_pending(), idx));
}

} // verus!
