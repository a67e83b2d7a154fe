//! `XADD`.

use vstd::prelude::*;
use crate::cmd::{arg, error_frame, error_reply, take_arg, CmdError, CmdType, Outcome};
use crate::cmd::set::wrong_type_text;
use crate::config::{param_set, params_view, set_pair, ParamsModel};
use crate::data_entry::canonical;
use crate::redis::{
    db_get, db_wf, disjoint, lemma_disjoint_remove, lemma_disjoint_streams, lemma_get_none_absent,
    stream_of, streams_wf, with_stream, RedisDB, StreamDB,
};
use crate::resp::{copy_bytes, views, RespType, RespValue};
use crate::stream_entry::{
    appended, entry_frame, fields_view, id_text, spec_xadd, stream_error_text, RecordModel,
};
use crate::utils::{bulk_of, unpack_bulk_string};

verus! {

pub struct XAdd {
    pub stream_key: Vec<u8>,
    pub stream_id: Vec<u8>,
    /// The fields in the order in which their names were first given; a
    /// name that is given again keeps its place and takes the later value.
    pub stream_data: Vec<(Vec<u8>, Vec<u8>)>,
}

/// The fields that the first `count` pairs of arguments from index `from` spell.
pub open spec fn pair_fields(args: Seq<RespValue>, from: int, count: nat) -> Result<
    ParamsModel,
    CmdError,
>
    decreases count,
{
    if count == 0 {
        Ok(Seq::<(Seq<u8>, Seq<u8>)>::empty())
    } else {
        match pair_fields(args, from, (count - 1) as nat) {
            Ok(fields) => match bulk_of(args[from + 2 * (count - 1)]) {
                Ok(name) => match bulk_of(args[from + 2 * (count - 1) + 1]) {
                    Ok(value) => Ok(param_set(fields, name, value)),
                    Err(e) => Err(e),
                },
                Err(e) => Err(e),
            },
            Err(e) => Err(e),
        }
    }
}

/// The arguments of `XADD`: key, identifier, and pairs of name and value.
/// An argument without partner at the end is passed over.
pub open spec fn xadd_args(args: Seq<RespValue>) -> Result<(Seq<u8>, Seq<u8>, ParamsModel), CmdError> {
    match arg(args, 0) {
        Ok(key) => match arg(args, 1) {
            Ok(id) => match pair_fields(args, 2, ((args.len() - 2) / 2) as nat) {
                Ok(fields) => Ok((key, id, fields)),
                Err(e) => Err(e),
            },
            Err(e) => Err(e),
        },
        Err(e) => Err(e),
    }
}

impl XAdd {
    /// Reads key, identifier and fields from the arguments.
    pub fn new(args: &[RespType]) -> (r: Result<Self, CmdError>)
        ensures
            match xadd_args(views(args@)) {
                Ok(parts) => r matches Ok(c) && c.stream_key@ == parts.0 && c.stream_id@ == parts.1
                    && params_view(c.stream_data@) == parts.2,
                Err(e) => r matches Err(err) && err == e,
            },
    {
        let stream_key: Vec<u8> = match take_arg(args, 0) {
            Ok(key) => key,
            Err(e) => {
                return Err(e);
            },
        };
        let stream_id: Vec<u8> = match take_arg(args, 1) {
            Ok(id) => id,
            Err(e) => {
                return Err(e);
            },
        };
        let mut stream_data: Vec<(Vec<u8>, Vec<u8>)> = Vec::new();
        let n: usize = args.len();
        let count: usize = (n - 2) / 2;
        let mut k: usize = 0;
        assert(params_view(stream_data@) =~= Seq::<(Seq<u8>, Seq<u8>)>::empty());
        while k < count
            invariant
                n == args@.len(),
                n >= 2,
                count == (n - 2) / 2,
                0 <= k <= count,
                pair_fields(views(args@), 2, k as nat) == Ok::<ParamsModel, CmdError>(
                    params_view(stream_data@),
                ),
            decreases count - k,
        {
            let ghost next = pair_fields(views(args@), 2, (k + 1) as nat);
            assert(views(args@)[2 + 2 * k] == args@[2 + 2 * k]@);
            assert(views(args@)[2 + 2 * k + 1] == args@[2 + 2 * k + 1]@);
            let name: Vec<u8> = match unpack_bulk_string(&args[2 + 2 * k]) {
                Ok(name) => name,
                Err(e) => {
                    proof {
                        lemma_pair_fields_error(views(args@), 2, (k + 1) as nat, count as nat);
                    }
                    return Err(e);
                },
            };
            let value: Vec<u8> = match unpack_bulk_string(&args[2 + 2 * k + 1]) {
                Ok(value) => value,
                Err(e) => {
                    proof {
                        lemma_pair_fields_error(views(args@), 2, (k + 1) as nat, count as nat);
                    }
                    return Err(e);
                },
            };
            set_pair(&mut stream_data, name, value);
            k = k + 1;
        }
        Ok(XAdd { stream_key, stream_id, stream_data })
    }

    /// Appends the entry to the stream under the key, which is created
    /// where there is none, and answers the identifier under which the entry
    /// is stored; the entry is handed on for those who follow the stream. A
    /// refused identifier is answered with its error and changes no stream:
    /// `0-0`, an identifier that does not exceed the last one, or a text that
    /// is no identifier. A key that holds a string is refused too. The
    /// moment `now` decides whether a string under the key is still alive;
    /// `wall_ms` is the wall-clock time for `*`.
    pub fn run(&self, dict: &mut RedisDB, streams: &mut StreamDB, wall_ms: u128, now: u64) -> (r:
        Outcome)
        requires
            db_wf(old(dict)@),
            streams_wf(old(streams)@),
            disjoint(old(dict)@, old(streams)@),
        ensures
            db_wf(final(dict)@),
            streams_wf(final(streams)@),
            disjoint(final(dict)@, final(streams)@),
            final(dict)@ == if self.stream_key@.len() <= u32::MAX {
                db_get(old(dict)@, self.stream_key@, now).0
            } else {
                old(dict)@
            },
            if self.stream_key@.len() <= u32::MAX && db_get(
                old(dict)@,
                self.stream_key@,
                now,
            ).1 is Some {
                &&& r matches Outcome::Reply(reply)
                &&& reply@ == error_frame(wrong_type_text())
                &&& final(streams)@ == old(streams)@
            } else {
                match spec_xadd(stream_of(old(streams)@, self.stream_key@), self.stream_id@, wall_ms) {
                    Ok(id) => {
                        &&& r matches Outcome::Publish { reply, key, entry }
                        &&& reply@ == RespValue::BulkString(id_text(id))
                        &&& key@ == self.stream_key@
                        &&& entry@ == entry_frame(
                            RecordModel { id: id, fields: params_view(self.stream_data@) },
                        )
                        &&& final(streams)@ == with_stream(
                            old(streams)@,
                            self.stream_key@,
                            appended(
                                stream_of(old(streams)@, self.stream_key@),
                                id,
                                params_view(self.stream_data@),
                            ),
                        )
                    },
                    Err(e) => {
                        &&& r matches Outcome::Reply(reply)
                        &&& reply@ == error_frame(stream_error_text(e))
                        &&& final(streams)@ == old(streams)@
                    },
                }
            },
    {
        if self.stream_key.len() <= 0xffff_ffff {
            let held = dict.get(self.stream_key.as_slice(), now);
            proof {
                let at = crate::redis::index_of(old(dict)@, canonical(self.stream_key@));
                if at is Some && dict@ != old(dict)@ {
                    lemma_disjoint_remove(old(dict)@, old(streams)@, at->0);
                }
            }
            if held.is_some() {
                return Outcome::Reply(
                    error_reply("Operation against a key holding the wrong kind of value".as_bytes()),
                );
            }
            proof {
                lemma_get_none_absent(old(dict)@, self.stream_key@, now);
            }
        }
        assert forall|i: int| 0 <= i < dict@.len() implies (#[trigger] dict@[i]).0.text()
            != self.stream_key@ by {
            if dict@[i].0.text() == self.stream_key@ {
                assert(dict@[i].0 == canonical(self.stream_key@));
            }
        }
        let fields: Vec<(Vec<u8>, Vec<u8>)> = copy_pairs(&self.stream_data);
        let appended = streams.append_at(
            self.stream_key.as_slice(),
            self.stream_id.as_slice(),
            fields,
            wall_ms,
        );
        proof {
            lemma_disjoint_streams(dict@, old(streams)@, streams@, self.stream_key@);
        }
        match appended {
            Ok(text) => {
                let entry = self.entry_frame_of(copy_bytes(&text));
                Outcome::Publish {
                    reply: RespType::BulkString(text),
                    key: copy_bytes(&self.stream_key),
                    entry,
                }
            },
            Err(e) => Outcome::Reply(error_reply(e.message().as_bytes())),
        }
    }

    /// The frame of the entry of this command under the identifier whose text is `text`.
    fn entry_frame_of(&self, text: Vec<u8>) -> (r: RespType)
        ensures
            r@ == RespValue::Array(
                seq![
                    RespValue::BulkString(text@),
                    RespValue::Array(
                        crate::stream_entry::field_frames(params_view(self.stream_data@)),
                    ),
                ],
            ),
    {
        let mut items: Vec<RespType> = Vec::new();
        let n: usize = self.stream_data.len();
        let mut i: usize = 0;
        let ghost fields = params_view(self.stream_data@);
        while i < n
            invariant
                n == self.stream_data@.len(),
                0 <= i <= n,
                fields == params_view(self.stream_data@),
                items@.len() == 2 * i,
                forall|j: int|
                    0 <= j < 2 * i ==> (#[trigger] items@[j])@ == crate::stream_entry::field_frames(
                        fields,
                    )[j],
            decreases n - i,
        {
            assert(fields[i as int] == (self.stream_data@[i as int].0@, self.stream_data@[i as int].1@));
            items.push(RespType::BulkString(copy_bytes(&self.stream_data[i].0)));
            items.push(RespType::BulkString(copy_bytes(&self.stream_data[i].1)));
            i = i + 1;
        }
        proof {
            crate::resp::lemma_view_array(items);
            assert(views(items@) =~= crate::stream_entry::field_frames(fields));
        }
        let mut pair: Vec<RespType> = Vec::new();
        pair.push(RespType::BulkString(text));
        pair.push(RespType::Array(items));
        proof {
            crate::resp::lemma_view_array(pair);
            assert(views(pair@) =~= seq![
                RespValue::BulkString(pair@[0]@->BulkString_0),
                RespValue::Array(crate::stream_entry::field_frames(fields)),
            ]);
        }
        RespType::Array(pair)
    }

    pub fn cmd_type(&self) -> (r: CmdType)
        ensures
            r == CmdType::XADD,
    {
        CmdType::XADD
    }
}

/// An error among the first pairs is the error of all pairs.
pub proof fn lemma_pair_fields_error(args: Seq<RespValue>, from: int, k: nat, count: nat)
    requires
        k <= count,
        pair_fields(args, from, k) is Err,
    ensures
        pair_fields(args, from, count) == pair_fields(args, from, k),
    decreases count - k,
{
    if k < count {
        lemma_pair_fields_error(args, from, k, (count - 1) as nat);
    }
}

/// A copy of a run of fields.
pub fn copy_pairs(src: &Vec<(Vec<u8>, Vec<u8>)>) -> (r: Vec<(Vec<u8>, Vec<u8>)>)
    ensures
        params_view(r@) == params_view(src@),
        fields_view(r@) == params_view(src@),
{
    let mut out: Vec<(Vec<u8>, Vec<u8>)> = Vec::new();
    let n: usize = src.len();
    let mut i: usize = 0;
    while i < n
        invariant
            n == src@.len(),
            0 <= i <= n,
            out@.len() == i,
            forall|j: int| 0 <= j < i ==> (#[trigger] out@[j]).0@ == src@[j].0@ && out@[j].1@ == src@[j].1@,
        decreases n - i,
    {
        out.push((copy_bytes(&src[i].0), copy_bytes(&src[i].1)));
        i = i + 1;
    }
    assert(params_view(out@) =~= params_view(src@));
    assert(fields_view(out@) =~= params_view(src@));
    out
}

} // verus!
