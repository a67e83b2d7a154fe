//! `XREAD`.

use vstd::prelude::*;
use crate::cmd::{arg, error_frame, error_reply, take_arg, texts, CmdError, CmdType, Outcome};
use crate::decimal::{parse_unsigned, read_unsigned};
use crate::redis::{stream_index, streams_wf, StreamDB, StreamsModel};
use crate::resp::{copy_bytes, lemma_view_array, views, RespType, RespValue};
use crate::stream_entry::{behind, entry_frames, spec_to_xread, stream_error_text, StreamError};
use crate::utils::{ascii, bulk_of, is_word, lowercase, unpack_bulk_string};

verus! {

pub struct XRead {
    /// For how many milliseconds to wait for an entry where there is none
    /// yet; 0 waits without limit; without it the command does not wait.
    pub timeout: Option<u64>,
    pub keys: Vec<Vec<u8>>,
    pub ids: Vec<Vec<u8>>,
}

/// The first `k` keys and identifiers among `n` of each from index `from`:
/// the keys stand first, the identifiers behind them.
pub open spec fn keys_and_ids(args: Seq<RespValue>, from: int, n: int, k: nat) -> Result<
    (Seq<Seq<u8>>, Seq<Seq<u8>>),
    CmdError,
>
    decreases k,
{
    if k == 0 {
        Ok((Seq::<Seq<u8>>::empty(), Seq::<Seq<u8>>::empty()))
    } else {
        match keys_and_ids(args, from, n, (k - 1) as nat) {
            Ok(found) => match bulk_of(args[from + k - 1]) {
                Ok(key) => match bulk_of(args[from + k - 1 + n]) {
                    Ok(id) => Ok((found.0.push(key), found.1.push(id))),
                    Err(e) => Err(e),
                },
                Err(e) => Err(e),
            },
            Err(e) => Err(e),
        }
    }
}

/// Where the keys start and how long to wait: behind `BLOCK` stands the
/// span, and the word `STREAMS` stands before the keys.
pub open spec fn xread_head(args: Seq<RespValue>) -> Result<(Option<u64>, int), CmdError> {
    match arg(args, 0) {
        Ok(word) => if lowercase(word) == ascii("block") {
            match arg(args, 1) {
                Ok(span) => match parse_unsigned(span, u64::MAX as nat) {
                    Some(t) => match arg(args, 2) {
                        Ok(w) => if lowercase(w) == ascii("streams") {
                            Ok((Some(t as u64), 3))
                        } else {
                            Err(CmdError::InvalidArg)
                        },
                        Err(e) => Err(e),
                    },
                    None => Err(CmdError::InvalidArg),
                },
                Err(e) => Err(e),
            }
        } else if lowercase(word) == ascii("streams") {
            Ok((None, 1))
        } else {
            Err(CmdError::InvalidArg)
        },
        Err(e) => Err(e),
    }
}

/// The arguments of `XREAD`.
pub open spec fn xread_args(args: Seq<RespValue>) -> Result<
    (Option<u64>, Seq<Seq<u8>>, Seq<Seq<u8>>),
    CmdError,
> {
    match xread_head(args) {
        Ok((timeout, from)) => {
            let n = (args.len() - from) / 2;
            match keys_and_ids(args, from, n, n as nat) {
                Ok(found) => Ok((timeout, found.0, found.1)),
                Err(e) => Err(e),
            }
        },
        Err(e) => Err(e),
    }
}

/// What the first `k` keys give: for every key under which a stream
/// stands, the key and the entries behind its identifier, and whether any
/// of them has entries. `Err` where an identifier is none.
pub open spec fn scan(streams: StreamsModel, keys: Seq<Seq<u8>>, ids: Seq<Seq<u8>>, k: nat) -> Result<
    (Seq<RespValue>, bool),
    (),
>
    decreases k,
{
    if k == 0 {
        Ok((Seq::<RespValue>::empty(), false))
    } else {
        match scan(streams, keys, ids, (k - 1) as nat) {
            Ok(found) => match stream_index(streams, keys[k - 1]) {
                Some(i) => match spec_to_xread(ids[k - 1], streams[i].1.last_stream_id) {
                    Some(from) => {
                        let entries = streams[i].1.entries.filter(behind(from));
                        Ok(
                            (
                                found.0.push(
                                    RespValue::Array(
                                        seq![
                                            RespValue::BulkString(keys[k - 1]),
                                            RespValue::Array(entry_frames(entries)),
                                        ],
                                    ),
                                ),
                                found.1 || entries.len() > 0,
                            ),
                        )
                    },
                    None => Err(()),
                },
                None => Ok(found),
            },
            Err(e) => Err(e),
        }
    }
}

/// An error among the first keys is the error of all keys.
pub proof fn lemma_keys_error(args: Seq<RespValue>, from: int, n: int, k: nat, count: nat)
    requires
        k <= count,
        keys_and_ids(args, from, n, k) is Err,
    ensures
        keys_and_ids(args, from, n, count) == keys_and_ids(args, from, n, k),
    decreases count - k,
{
    if k < count {
        lemma_keys_error(args, from, n, k, (count - 1) as nat);
    }
}

/// An identifier that is none among the first keys fails the whole scan.
pub proof fn lemma_scan_error(streams: StreamsModel, keys: Seq<Seq<u8>>, ids: Seq<Seq<u8>>, k: nat, count: nat)
    requires
        k <= count,
        scan(streams, keys, ids, k) is Err,
    ensures
        scan(streams, keys, ids, count) is Err,
    decreases count - k,
{
    if k < count {
        lemma_scan_error(streams, keys, ids, k, (count - 1) as nat);
    }
}

impl XRead {
    /// Reads span, keys and identifiers from the arguments.
    pub fn new(args: &[RespType]) -> (r: Result<Self, CmdError>)
        ensures
            match xread_args(views(args@)) {
                Ok(parts) => r matches Ok(c) && c.timeout == parts.0 && texts(c.keys@) == parts.1
                    && texts(c.ids@) == parts.2,
                Err(e) => r matches Err(err) && err == e,
            },
    {
        let word: Vec<u8> = match take_arg(args, 0) {
            Ok(v) => v,
            Err(e) => {
                return Err(e);
            },
        };
        let mut timeout: Option<u64> = None;
        let mut from: usize = 1;
        if is_word(word.as_slice(), "block".as_bytes()) {
            let span: Vec<u8> = match take_arg(args, 1) {
                Ok(v) => v,
                Err(e) => {
                    return Err(e);
                },
            };
            match read_unsigned(span.as_slice(), u64::MAX as u128) {
                Some(t) => {
                    timeout = Some(t as u64);
                },
                None => {
                    return Err(CmdError::InvalidArg);
                },
            }
            let w: Vec<u8> = match take_arg(args, 2) {
                Ok(v) => v,
                Err(e) => {
                    return Err(e);
                },
            };
            if !is_word(w.as_slice(), "streams".as_bytes()) {
                return Err(CmdError::InvalidArg);
            }
            from = 3;
        } else if !is_word(word.as_slice(), "streams".as_bytes()) {
            return Err(CmdError::InvalidArg);
        }
        assert(xread_head(views(args@)) == Ok::<(Option<u64>, int), CmdError>(
            (timeout, from as int),
        ));
        let len: usize = args.len();
        let n: usize = (len - from) / 2;
        let mut keys: Vec<Vec<u8>> = Vec::new();
        let mut ids: Vec<Vec<u8>> = Vec::new();
        let mut k: usize = 0;
        assert(texts(keys@) =~= Seq::<Seq<u8>>::empty());
        assert(texts(ids@) =~= Seq::<Seq<u8>>::empty());
        while k < n
            invariant
                len == args@.len(),
                1 <= from <= len,
                xread_head(views(args@)) == Ok::<(Option<u64>, int), CmdError>(
                    (timeout, from as int),
                ),
                n == (len - from) / 2,
                0 <= k <= n,
                keys_and_ids(views(args@), from as int, n as int, k as nat) == Ok::<
                    (Seq<Seq<u8>>, Seq<Seq<u8>>),
                    CmdError,
                >((texts(keys@), texts(ids@))),
            decreases n - k,
        {
            let ghost next = keys_and_ids(views(args@), from as int, n as int, (k + 1) as nat);
            let ghost had_keys = texts(keys@);
            let ghost had_ids = texts(ids@);
            assert(views(args@)[from + k] == args@[from + k]@);
            assert(views(args@)[from + k + n] == args@[from + k + n]@);
            let key: Vec<u8> = match unpack_bulk_string(&args[from + k]) {
                Ok(v) => v,
                Err(e) => {
                    proof {
                        lemma_keys_error(views(args@), from as int, n as int, (k + 1) as nat, n as nat);
                    }
                    return Err(e);
                },
            };
            let id: Vec<u8> = match unpack_bulk_string(&args[from + k + n]) {
                Ok(v) => v,
                Err(e) => {
                    proof {
                        lemma_keys_error(views(args@), from as int, n as int, (k + 1) as nat, n as nat);
                    }
                    return Err(e);
                },
            };
            let ghost key_text = key@;
            let ghost id_text = id@;
            keys.push(key);
            ids.push(id);
            assert(texts(keys@) =~= had_keys.push(key_text));
            assert(texts(ids@) =~= had_ids.push(id_text));
            k = k + 1;
        }
        Ok(XRead { timeout, keys, ids })
    }

    /// Answers, for every key under which a stream stands, the entries
    /// strictly behind the identifier given for it; `$` stands for the last
    /// identifier of the stream at this moment. Where no stream has such
    /// entries, the command asks to wait if it was given a span, and else
    /// answers null, sent verbatim. An identifier that is none is answered
    /// with an error. A key without identifier, or the other way round, is
    /// passed over.
    pub fn run(&self, streams: &StreamDB) -> (r: Outcome)
        requires
            streams_wf(streams@),
        ensures
            match scan(
                streams@,
                texts(self.keys@),
                texts(self.ids@),
                if self.keys@.len() <= self.ids@.len() {
                    self.keys@.len()
                } else {
                    self.ids@.len()
                },
            ) {
                Ok(found) => if found.1 {
                    r matches Outcome::Reply(reply) && reply@ == RespValue::Array(found.0)
                } else {
                    match self.timeout {
                        Some(t) => r matches Outcome::AwaitStreams { keys, timeout_ms }
                            && texts(keys@) == texts(self.keys@) && timeout_ms == t,
                        None => r matches Outcome::Reply(reply) && reply@ == RespValue::Raw(
                            ascii("$-1\r\n"),
                        ),
                    }
                },
                Err(_) => r matches Outcome::Reply(reply) && reply@ == error_frame(
                    stream_error_text(StreamError::InvalidId),
                ),
            },
    {
        let mut result: Vec<RespType> = Vec::new();
        let mut has_items: bool = false;
        let n: usize = if self.keys.len() <= self.ids.len() {
            self.keys.len()
        } else {
            self.ids.len()
        };
        let mut k: usize = 0;
        let ghost keys = texts(self.keys@);
        let ghost ids = texts(self.ids@);
        assert(views(result@) =~= Seq::<RespValue>::empty());
        while k < n
            invariant
                n <= self.keys@.len(),
                n <= self.ids@.len(),
                n == self.keys@.len() || n == self.ids@.len(),
                0 <= k <= n,
                streams_wf(streams@),
                keys == texts(self.keys@),
                ids == texts(self.ids@),
                scan(streams@, keys, ids, k as nat) == Ok::<(Seq<RespValue>, bool), ()>(
                    (views(result@), has_items),
                ),
            decreases n - k,
        {
            let ghost next = scan(streams@, keys, ids, (k + 1) as nat);
            let ghost had = views(result@);
            assert(keys[k as int] == self.keys@[k as int]@);
            assert(ids[k as int] == self.ids@[k as int]@);
            match streams.find(self.keys[k].as_slice()) {
                Some(i) => {
                    assert(streams@[i as int].1 == streams.list@[i as int].stream@);
                    match streams.list[i].stream.query_xread(self.ids[k].as_slice()) {
                        Some((frame, any)) => {
                            let mut pair: Vec<RespType> = Vec::new();
                            pair.push(RespType::BulkString(copy_bytes(&self.keys[k])));
                            pair.push(frame);
                            proof {
                                lemma_view_array(pair);
                                assert(views(pair@) =~= seq![
                                    RespValue::BulkString(keys[k as int]),
                                    pair@[1]@,
                                ]);
                            }
                            let item = RespType::Array(pair);
                            let ghost item_view = item@;
                            result.push(item);
                            assert(views(result@) =~= had.push(item_view));
                            has_items = has_items || any;
                        },
                        None => {
                            proof {
                                lemma_scan_error(streams@, keys, ids, (k + 1) as nat, n as nat);
                            }
                            return Outcome::Reply(
                                error_reply(StreamError::InvalidId.message().as_bytes()),
                            );
                        },
                    }
                },
                None => {},
            }
            k = k + 1;
        }
        if has_items {
            proof {
                lemma_view_array(result);
            }
            return Outcome::Reply(RespType::Array(result));
        }
        match self.timeout {
            Some(t) => Outcome::AwaitStreams { keys: copy_texts(&self.keys), timeout_ms: t },
            None => Outcome::Reply(Self::on_timeout()),
        }
    }

    /// What a waiting `XREAD` answers once the stream under `key` has got
    /// the entry `entry`: that key with that entry, and nothing else.
    pub fn on_append(key: &[u8], entry: RespType) -> (r: RespType)
        ensures
            r@ == RespValue::Array(
                seq![RespValue::Array(seq![RespValue::BulkString(key@), entry@])],
            ),
    {
        let ghost e = entry@;
        let mut pair: Vec<RespType> = Vec::new();
        pair.push(RespType::BulkString(vstd::slice::slice_to_vec(key)));
        pair.push(entry);
        proof {
            lemma_view_array(pair);
            assert(views(pair@) =~= seq![RespValue::BulkString(key@), e]);
        }
        let mut outer: Vec<RespType> = Vec::new();
        outer.push(RespType::Array(pair));
        proof {
            lemma_view_array(outer);
            assert(views(outer@) =~= seq![
                RespValue::Array(seq![RespValue::BulkString(key@), e]),
            ]);
        }
        RespType::Array(outer)
    }

    /// What a waiting `XREAD` answers once its span has run out: null,
    /// sent verbatim.
    pub fn on_timeout() -> (r: RespType)
        ensures
            r@ == RespValue::Raw(ascii("$-1\r\n")),
    {
        RespType::WildCard(vstd::slice::slice_to_vec("$-1\r\n".as_bytes()))
    }

    pub fn cmd_type(&self) -> (r: CmdType)
        ensures
            r == CmdType::XREAD,
    {
        CmdType::XREAD
    }
}

/// A copy of a run of byte strings.
pub fn copy_texts(src: &Vec<Vec<u8>>) -> (r: Vec<Vec<u8>>)
    ensures
        texts(r@) == texts(src@),
{
    let mut out: Vec<Vec<u8>> = Vec::new();
    let n: usize = src.len();
    let mut i: usize = 0;
    while i < n
        invariant
            n == src@.len(),
            0 <= i <= n,
            out@.len() == i,
            forall|j: int| 0 <= j < i ==> (#[trigger] out@[j])@ == src@[j]@,
        decreases n - i,
    {
        out.push(copy_bytes(&src[i]));
        i = i + 1;
    }
    assert(texts(out@) =~= texts(src@));
    out
}

} // verus!
