//! Streams: identifiers, how the commands spell them, and the append-only
//! log with strictly increasing identifiers.

use vstd::prelude::*;
use vstd::slice::slice_subrange;
use crate::constants::{DOLLAR, MINUS, PLUS, STAR};
use crate::decimal::{nat_digits, parse_unsigned, push_nat, read_unsigned};
use crate::resp::{copy_bytes, lemma_view_array, views, RespType, RespValue};
use crate::utils::{find_byte, gen_millis, index_of_byte};

verus! {

/// The identifier of a stream entry: a time in milliseconds and a sequence
/// number, ordered by time first.
#[derive(Debug, Clone, Copy, PartialEq, Eq, Structural)]
pub struct StreamID {
    pub millis: u128,
    pub seq: u64,
}

/// What an append says of the identifier of its entry. The two forms are
/// kept apart, so that every sequence number can be given explicitly.
#[derive(Debug, Clone, Copy, PartialEq, Eq, Structural)]
pub enum XAddId {
    /// Both numbers are given.
    Explicit(StreamID),
    /// The time is given and the sequence number is left open.
    OpenSeq(u128),
}

/// Why an entry was not appended.
#[derive(Debug, Clone, Copy, PartialEq, Eq, Structural)]
pub enum StreamError {
    /// The identifier is `0-0`.
    ZeroId,
    /// The identifier does not exceed the last one of the stream.
    NonMonotonicId,
    /// The text is no identifier.
    InvalidId,
}

impl StreamError {
    /// The text shown for this error.
    pub fn message(&self) -> (text: &'static str)
        ensures
            text@ == match *self {
                StreamError::ZeroId => "The ID specified in XADD must be greater than 0-0"@,
                StreamError::NonMonotonicId => "The ID specified in XADD is equal or smaller than the target stream top item"@,
                StreamError::InvalidId => "Invalid stream ID specified as stream command argument"@,
            },
            crate::utils::ascii(text) == stream_error_text(*self),
    {
        match self {
            StreamError::ZeroId => "The ID specified in XADD must be greater than 0-0",
            StreamError::NonMonotonicId => "The ID specified in XADD is equal or smaller than the target stream top item",
            StreamError::InvalidId => "Invalid stream ID specified as stream command argument",
        }
    }
}

/// The bytes of the text shown for an error.
pub open spec fn stream_error_text(e: StreamError) -> Seq<u8> {
    match e {
        StreamError::ZeroId => crate::utils::ascii(
            "The ID specified in XADD must be greater than 0-0",
        ),
        StreamError::NonMonotonicId => crate::utils::ascii(
            "The ID specified in XADD is equal or smaller than the target stream top item",
        ),
        StreamError::InvalidId => crate::utils::ascii(
            "Invalid stream ID specified as stream command argument",
        ),
    }
}

/// `a` comes strictly before `b`.
pub open spec fn id_lt(a: StreamID, b: StreamID) -> bool {
    a.millis < b.millis || (a.millis == b.millis && a.seq < b.seq)
}

/// `a` comes before `b` or is `b`.
pub open spec fn id_le(a: StreamID, b: StreamID) -> bool {
    a.millis < b.millis || (a.millis == b.millis && a.seq <= b.seq)
}

/// The text of an identifier: `millis-seq`.
pub open spec fn id_text(id: StreamID) -> Seq<u8> {
    nat_digits(id.millis as nat) + seq![MINUS] + nat_digits(id.seq as nat)
}

/// The two numbers of an identifier spelled `millis-seq`, or `millis` alone
/// with `seq_default` for the sequence number, where `alone` says that the
/// latter spelling is accepted.
pub open spec fn parse_id(s: Seq<u8>, alone: bool, seq_default: u64) -> Option<StreamID> {
    match index_of_byte(s, MINUS) {
        Some(i) => match (
            parse_unsigned(s.take(i), u128::MAX as nat),
            parse_unsigned(s.skip(i + 1), u64::MAX as nat),
        ) {
            (Some(millis), Some(seq)) => Some(StreamID { millis: millis as u128, seq: seq as u64 }),
            _ => None,
        },
        None => if alone {
            match parse_unsigned(s, u128::MAX as nat) {
                Some(millis) => Some(StreamID { millis: millis as u128, seq: seq_default }),
                None => None,
            }
        } else {
            None
        },
    }
}

/// What a bound of a range query spells: `-` is the least identifier, `+`
/// the greatest, `millis` alone means sequence number 0.
pub open spec fn spec_to_xrange(s: Seq<u8>) -> Option<StreamID> {
    if s == seq![MINUS] {
        Some(StreamID { millis: 0, seq: 0 })
    } else if s == seq![PLUS] {
        Some(StreamID { millis: u128::MAX, seq: u64::MAX })
    } else {
        parse_id(s, true, 0)
    }
}

/// What the start of a tail read spells: `$` is the last identifier of the
/// stream, `millis` alone means sequence number 0.
pub open spec fn spec_to_xread(s: Seq<u8>, last: StreamID) -> Option<StreamID> {
    if s == seq![DOLLAR] {
        Some(last)
    } else {
        parse_id(s, true, 0)
    }
}

/// What the identifier of an append spells at the wall-clock time `now`:
/// `*` is that time with the sequence number left open, `millis-*` leaves
/// the sequence number open, `millis-seq` is explicit.
pub open spec fn spec_to_xadd(s: Seq<u8>, now: u128) -> Option<XAddId> {
    if s == seq![STAR] {
        Some(XAddId::OpenSeq(now))
    } else {
        match index_of_byte(s, MINUS) {
            Some(i) => if s.skip(i + 1) == seq![STAR] {
                match parse_unsigned(s.take(i), u128::MAX as nat) {
                    Some(millis) => Some(XAddId::OpenSeq(millis as u128)),
                    None => None,
                }
            } else {
                match parse_id(s, false, 0) {
                    Some(id) => Some(XAddId::Explicit(id)),
                    None => None,
                }
            },
            None => None,
        }
    }
}

/// Reads an identifier spelled `millis-seq`, or `millis` alone where `alone` allows it.
pub fn read_id(s: &[u8], alone: bool, seq_default: u64) -> (r: Option<StreamID>)
    ensures
        r == parse_id(s@, alone, seq_default),
{
    match find_byte(s, MINUS) {
        Some(i) => {
            assert(i < s.len());
            let left = slice_subrange(s, 0, i);
            let right = slice_subrange(s, i + 1, s.len());
            assert(left@ =~= s@.take(i as int));
            assert(right@ =~= s@.skip(i + 1));
            let millis = read_unsigned(left, u128::MAX);
            let seq = read_unsigned(right, u64::MAX as u128);
            match (millis, seq) {
                (Some(m), Some(q)) => Some(StreamID { millis: m, seq: q as u64 }),
                _ => None,
            }
        },
        None => {
            if alone {
                match read_unsigned(s, u128::MAX) {
                    Some(m) => Some(StreamID { millis: m, seq: seq_default }),
                    None => None,
                }
            } else {
                None
            }
        },
    }
}

impl StreamID {
    /// Reads a bound of a range query.
    pub fn to_xrange(id: &[u8]) -> (r: Option<StreamID>)
        ensures
            r == spec_to_xrange(id@),
    {
        if id.len() == 1 && id[0] == MINUS {
            assert(id@ =~= seq![MINUS]);
            Some(StreamID { millis: 0, seq: 0 })
        } else if id.len() == 1 && id[0] == PLUS {
            assert(id@ =~= seq![PLUS]);
            Some(StreamID { millis: u128::MAX, seq: u64::MAX })
        } else {
            assert(id@ != seq![MINUS]) by {
                if id@ == seq![MINUS] {
                    assert(seq![MINUS].len() == 1 && seq![MINUS][0] == MINUS);
                }
            }
            assert(id@ != seq![PLUS]) by {
                if id@ == seq![PLUS] {
                    assert(seq![PLUS].len() == 1 && seq![PLUS][0] == PLUS);
                }
            }
            read_id(id, true, 0)
        }
    }

    /// Reads the start of a tail read on a stream whose last identifier is
    /// `last_stream_id`.
    pub fn to_xread(id: &[u8], last_stream_id: &StreamID) -> (r: Option<StreamID>)
        ensures
            r == spec_to_xread(id@, *last_stream_id),
    {
        if id.len() == 1 && id[0] == DOLLAR {
            assert(id@ =~= seq![DOLLAR]);
            Some(*last_stream_id)
        } else {
            assert(id@ != seq![DOLLAR]) by {
                if id@ == seq![DOLLAR] {
                    assert(seq![DOLLAR].len() == 1 && seq![DOLLAR][0] == DOLLAR);
                }
            }
            read_id(id, true, 0)
        }
    }

    /// Reads the identifier of an append at the wall-clock time `now`.
    pub fn to_xadd_at(id: &[u8], now: u128) -> (r: Option<XAddId>)
        ensures
            r == spec_to_xadd(id@, now),
    {
        if id.len() == 1 && id[0] == STAR {
            assert(id@ =~= seq![STAR]);
            return Some(XAddId::OpenSeq(now));
        }
        assert(id@ != seq![STAR]) by {
            if id@ == seq![STAR] {
                assert(seq![STAR].len() == 1 && seq![STAR][0] == STAR);
            }
        }
        match find_byte(id, MINUS) {
            Some(i) => {
                assert(i < id.len());
                let right = slice_subrange(id, i + 1, id.len());
                assert(right@ =~= id@.skip(i + 1));
                if right.len() == 1 && right[0] == STAR {
                    assert(right@ =~= seq![STAR]);
                    let left = slice_subrange(id, 0, i);
                    assert(left@ =~= id@.take(i as int));
                    match read_unsigned(left, u128::MAX) {
                        Some(m) => Some(XAddId::OpenSeq(m)),
                        None => None,
                    }
                } else {
                    assert(right@ != seq![STAR]) by {
                        if right@ == seq![STAR] {
                            assert(seq![STAR].len() == 1 && seq![STAR][0] == STAR);
                        }
                    }
                    match read_id(id, false, 0) {
                        Some(both) => Some(XAddId::Explicit(both)),
                        None => None,
                    }
                }
            },
            None => None,
        }
    }

    /// Reads the identifier of an append; `*` takes the time from the wall clock.
    pub fn to_xadd(id: &[u8]) -> (r: Option<XAddId>)
        ensures
            exists|now: u128| r == spec_to_xadd(id@, now),
    {
        let now: u128 = gen_millis();
        Self::to_xadd_at(id, now)
    }

    /// The text of the identifier: `millis-seq`.
    pub fn render(&self) -> (r: Vec<u8>)
        ensures
            r@ == id_text(*self),
    {
        let mut out: Vec<u8> = Vec::new();
        push_nat(self.millis, &mut out);
        out.push(MINUS);
        push_nat(self.seq as u128, &mut out);
        assert(out@ =~= id_text(*self));
        out
    }

    /// Whether `self` comes strictly before `other`.
    pub fn before(&self, other: &StreamID) -> (r: bool)
        ensures
            r == id_lt(*self, *other),
    {
        self.millis < other.millis || (self.millis == other.millis && self.seq < other.seq)
    }
}

/// One entry of a stream: its identifier and its fields in the order in
/// which they were given.
#[derive(Debug)]
pub struct StreamRecord {
    pub id: StreamID,
    pub fields: Vec<(Vec<u8>, Vec<u8>)>,
}

/// The mathematical model of a stream entry.
pub struct RecordModel {
    pub id: StreamID,
    pub fields: Seq<(Seq<u8>, Seq<u8>)>,
}

/// The models of a run of fields.
pub open spec fn fields_view(fields: Seq<(Vec<u8>, Vec<u8>)>) -> Seq<(Seq<u8>, Seq<u8>)> {
    Seq::new(fields.len(), |i: int| (fields[i].0@, fields[i].1@))
}

impl View for StreamRecord {
    type V = RecordModel;

    open spec fn view(&self) -> RecordModel {
        RecordModel { id: self.id, fields: fields_view(self.fields@) }
    }
}

/// A stream: an append-only log of entries.
#[derive(Debug)]
pub struct StreamEntry {
    pub entries: Vec<StreamRecord>,
    pub last_stream_id: StreamID,
}

/// The mathematical model of a stream.
pub struct StreamModel {
    pub entries: Seq<RecordModel>,
    pub last_stream_id: StreamID,
}

impl View for StreamEntry {
    type V = StreamModel;

    open spec fn view(&self) -> StreamModel {
        StreamModel {
            entries: Seq::new(self.entries@.len(), |i: int| self.entries@[i]@),
            last_stream_id: self.last_stream_id,
        }
    }
}

impl StreamModel {
    /// Identifiers strictly increase along the log, and the last identifier
    /// is that of the last entry, or `0-0` while the log is empty.
    pub open spec fn wf(self) -> bool {
        &&& forall|i: int, j: int|
            0 <= i < j < self.entries.len() ==> id_lt(
                (#[trigger] self.entries[i]).id,
                (#[trigger] self.entries[j]).id,
            )
        &&& self.last_stream_id == if self.entries.len() == 0 {
            StreamID { millis: 0, seq: 0 }
        } else {
            self.entries.last().id
        }
    }
}

/// The identifier with its sequence number chosen, where it was left open:
/// one more than the last of the stream within the same millisecond, else 0,
/// or 1 where the time is 0. `None` where the sequence numbers of that
/// millisecond are used up.
pub open spec fn resolved_id(stream: StreamModel, id: XAddId) -> Option<StreamID> {
    match id {
        XAddId::Explicit(both) => Some(both),
        XAddId::OpenSeq(millis) => if stream.entries.len() > 0 && stream.last_stream_id.millis
            == millis {
            if stream.last_stream_id.seq == u64::MAX {
                None
            } else {
                Some(StreamID { millis: millis, seq: (stream.last_stream_id.seq + 1) as u64 })
            }
        } else if millis == 0 {
            Some(StreamID { millis: 0, seq: 1 })
        } else {
            Some(StreamID { millis: millis, seq: 0 })
        },
    }
}

/// The identifier under which an append spelled `s` at the wall-clock time
/// `now` is stored, or why it is refused.
pub open spec fn spec_xadd(stream: StreamModel, s: Seq<u8>, now: u128) -> Result<
    StreamID,
    StreamError,
> {
    match spec_to_xadd(s, now) {
        Some(id) => match resolved_id(stream, id) {
            Some(rid) => if rid.millis == 0 && rid.seq == 0 {
                Err(StreamError::ZeroId)
            } else if !id_lt(stream.last_stream_id, rid) {
                Err(StreamError::NonMonotonicId)
            } else {
                Ok(rid)
            },
            None => Err(StreamError::NonMonotonicId),
        },
        None => Err(StreamError::InvalidId),
    }
}

/// The stream after an entry with the identifier `id` is appended.
pub open spec fn appended(stream: StreamModel, id: StreamID, fields: Seq<(Seq<u8>, Seq<u8>)>) -> StreamModel {
    StreamModel {
        entries: stream.entries.push(RecordModel { id: id, fields: fields }),
        last_stream_id: id,
    }
}

/// The fields of an entry as frames: name, value, name, value, and so on.
pub open spec fn field_frames(fields: Seq<(Seq<u8>, Seq<u8>)>) -> Seq<RespValue> {
    Seq::new(
        2 * fields.len(),
        |i: int|
            if i % 2 == 0 {
                RespValue::BulkString(fields[i / 2].0)
            } else {
                RespValue::BulkString(fields[i / 2].1)
            },
    )
}

/// An entry as a frame: its identifier, and its fields.
pub open spec fn entry_frame(e: RecordModel) -> RespValue {
    RespValue::Array(
        seq![RespValue::BulkString(id_text(e.id)), RespValue::Array(field_frames(e.fields))],
    )
}

/// A run of entries as frames.
pub open spec fn entry_frames(es: Seq<RecordModel>) -> Seq<RespValue> {
    Seq::new(es.len(), |i: int| entry_frame(es[i]))
}

/// The entries with an identifier from `lo` to `hi`, both included.
pub open spec fn within(lo: StreamID, hi: StreamID) -> spec_fn(RecordModel) -> bool {
    |e: RecordModel| id_le(lo, e.id) && id_le(e.id, hi)
}

/// The entries with an identifier strictly behind `id`.
pub open spec fn behind(id: StreamID) -> spec_fn(RecordModel) -> bool {
    |e: RecordModel| id_lt(id, e.id)
}

/// The entries that a query selects: those strictly behind `lo` where
/// `strict` is set, else those from `lo` to `hi`.
pub open spec fn selected(lo: StreamID, hi: StreamID, strict: bool) -> spec_fn(RecordModel) -> bool {
    if strict {
        behind(lo)
    } else {
        within(lo, hi)
    }
}

/// The identifier `id` is at or behind `bound`, or strictly behind it
/// where `strict` is set.
pub open spec fn reaches(id: StreamID, bound: StreamID, strict: bool) -> bool {
    if strict {
        id_lt(bound, id)
    } else {
        id_le(bound, id)
    }
}

/// Where the members that a filter keeps are those from index `a` up to
/// index `b`, what it keeps is that range.
pub proof fn lemma_filter_is_range<A>(s: Seq<A>, keep: spec_fn(A) -> bool, a: int, b: int)
    requires
        0 <= a <= b <= s.len(),
        forall|i: int| a <= i < b ==> keep(#[trigger] s[i]),
        forall|i: int| 0 <= i < s.len() && !(a <= i < b) ==> !keep(#[trigger] s[i]),
    ensures
        s.filter(keep) == s.subrange(a, b),
    decreases s.len(),
{
    reveal(Seq::filter);
    if s.len() == 0 {
        assert(s.filter(keep) =~= s.subrange(a, b));
    } else {
        let front = s.drop_last();
        let last = s.len() - 1;
        let a0 = if a <= last { a } else { last };
        let b0 = if b <= last { b } else { last };
        assert forall|i: int| a0 <= i < b0 implies keep(#[trigger] front[i]) by {
            assert(front[i] == s[i]);
        }
        assert forall|i: int| 0 <= i < front.len() && !(a0 <= i < b0) implies !keep(
            #[trigger] front[i],
        ) by {
            assert(front[i] == s[i]);
        }
        lemma_filter_is_range(front, keep, a0, b0);
        if a <= last && b == s.len() {
            assert(keep(s[last]));
            assert(front.subrange(a0, b0).push(s[last]) =~= s.subrange(a, b));
        } else {
            assert(!keep(s[last]));
            assert(front.subrange(a0, b0) =~= s.subrange(a, b));
        }
    }
}

/// The frame of an identifier that has no entry: the identifier and no fields.
pub open spec fn missing_frame(id: StreamID) -> RespValue {
    RespValue::Array(
        seq![RespValue::BulkString(id_text(id)), RespValue::Array(Seq::<RespValue>::empty())],
    )
}

/// The entry with the identifier `id` stands at index `i`.
pub open spec fn record_at(entries: Seq<RecordModel>, id: StreamID, i: int) -> bool {
    0 <= i < entries.len() && entries[i].id == id
}

/// Writes an entry as a frame.
pub fn render_record(rec: &StreamRecord) -> (r: RespType)
    ensures
        r@ == entry_frame(rec@),
{
    let mut items: Vec<RespType> = Vec::new();
    let n: usize = rec.fields.len();
    let mut i: usize = 0;
    let ghost fields = rec@.fields;
    while i < n
        invariant
            n == rec.fields@.len(),
            0 <= i <= n,
            fields == rec@.fields,
            items@.len() == 2 * i,
            forall|j: int| 0 <= j < 2 * i ==> (#[trigger] items@[j])@ == field_frames(fields)[j],
        decreases n - i,
    {
        assert(fields[i as int] == (rec.fields@[i as int].0@, rec.fields@[i as int].1@));
        items.push(RespType::BulkString(copy_bytes(&rec.fields[i].0)));
        items.push(RespType::BulkString(copy_bytes(&rec.fields[i].1)));
        i = i + 1;
    }
    proof {
        lemma_view_array(items);
        assert(views(items@) =~= field_frames(fields));
    }
    let inner = RespType::Array(items);
    let head = RespType::BulkString(rec.id.render());
    let mut pair: Vec<RespType> = Vec::new();
    pair.push(head);
    pair.push(inner);
    proof {
        lemma_view_array(pair);
        assert(views(pair@) =~= seq![
            RespValue::BulkString(id_text(rec.id)),
            RespValue::Array(field_frames(fields)),
        ]);
    }
    RespType::Array(pair)
}

impl StreamEntry {
    /// An empty stream.
    pub fn new() -> (r: Self)
        ensures
            r@.entries == Seq::<RecordModel>::empty(),
            r@.last_stream_id == (StreamID { millis: 0, seq: 0 }),
            r@.wf(),
    {
        let r = StreamEntry { entries: Vec::new(), last_stream_id: StreamID { millis: 0, seq: 0 } };
        assert(r@.entries =~= Seq::<RecordModel>::empty());
        r
    }

    /// Whether the stream is well formed; decided by looking at every
    /// entry and the one before it.
    pub fn check(&self) -> (ok: bool)
        ensures
            ok == self@.wf(),
    {
        let n: usize = self.entries.len();
        if n == 0 {
            return self.last_stream_id.millis == 0 && self.last_stream_id.seq == 0;
        }
        assert(self@.entries[n - 1] == self.entries@[n - 1]@);
        let last: StreamID = self.entries[n - 1].id;
        if !(last.millis == self.last_stream_id.millis && last.seq == self.last_stream_id.seq) {
            return false;
        }
        let mut i: usize = 1;
        while i < n
            invariant
                n == self.entries@.len(),
                1 <= i <= n,
                forall|a: int, b: int|
                    0 <= a < b < i ==> id_lt(
                        (#[trigger] self@.entries[a]).id,
                        (#[trigger] self@.entries[b]).id,
                    ),
            decreases n - i,
        {
            assert(self@.entries[i as int] == self.entries@[i as int]@);
            assert(self@.entries[i - 1] == self.entries@[i - 1]@);
            if !self.entries[i - 1].id.before(&self.entries[i].id) {
                return false;
            }
            assert forall|a: int, b: int| 0 <= a < b < i + 1 implies id_lt(
                (#[trigger] self@.entries[a]).id,
                (#[trigger] self@.entries[b]).id,
            ) by {
                if b == i && a < i - 1 {
                    assert(id_lt(self@.entries[a].id, self@.entries[i - 1].id));
                }
            }
            i = i + 1;
        }
        true
    }

    /// Chooses the sequence number of `id` where it was left open.
    pub fn update_id(&self, id: XAddId) -> (r: Option<StreamID>)
        ensures
            r == resolved_id(self@, id),
    {
        match id {
            XAddId::Explicit(both) => Some(both),
            XAddId::OpenSeq(millis) => {
                if self.entries.len() > 0 && self.last_stream_id.millis == millis {
                    if self.last_stream_id.seq == u64::MAX {
                        None
                    } else {
                        Some(StreamID { millis, seq: self.last_stream_id.seq + 1 })
                    }
                } else if millis == 0 {
                    Some(StreamID { millis: 0, seq: 1 })
                } else {
                    Some(StreamID { millis, seq: 0 })
                }
            },
        }
    }

    /// Whether `id` may be appended: it is not `0-0` and it exceeds the last
    /// identifier of the stream.
    pub fn check_id(&self, id: &StreamID) -> (r: Result<(), StreamError>)
        ensures
            id.millis == 0 && id.seq == 0 ==> r == Err::<(), StreamError>(StreamError::ZeroId),
            !(id.millis == 0 && id.seq == 0) && !id_lt(self@.last_stream_id, *id) ==> r == Err::<
                (),
                StreamError,
            >(StreamError::NonMonotonicId),
            !(id.millis == 0 && id.seq == 0) && id_lt(self@.last_stream_id, *id) ==> r is Ok,
    {
        if id.millis == 0 && id.seq == 0 {
            return Err(StreamError::ZeroId);
        }
        if !self.last_stream_id.before(id) {
            return Err(StreamError::NonMonotonicId);
        }
        Ok(())
    }

    /// Appends an entry under the identifier that `stream_id` spells at the
    /// wall-clock time `now`, and hands back the text of the identifier under
    /// which it is stored. A refused append leaves the stream as it was; an
    /// accepted identifier strictly exceeds every identifier before it.
    pub fn append_stream_at(
        &mut self,
        stream_id: &[u8],
        data: Vec<(Vec<u8>, Vec<u8>)>,
        now: u128,
    ) -> (r: Result<Vec<u8>, StreamError>)
        requires
            old(self)@.wf(),
        ensures
            match spec_xadd(old(self)@, stream_id@, now) {
                Ok(id) => {
                    &&& r matches Ok(text) && text@ == id_text(id)
                    &&& final(self)@ == appended(old(self)@, id, fields_view(data@))
                    &&& id_lt(old(self)@.last_stream_id, id)
                },
                Err(e) => r matches Err(err) && err == e && final(self)@ == old(self)@,
            },
            final(self)@.wf(),
    {
        let spelled: XAddId = match StreamID::to_xadd_at(stream_id, now) {
            Some(spelled) => spelled,
            None => {
                return Err(StreamError::InvalidId);
            },
        };
        let id: StreamID = match self.update_id(spelled) {
            Some(id) => id,
            None => {
                return Err(StreamError::NonMonotonicId);
            },
        };
        match self.check_id(&id) {
            Ok(()) => {},
            Err(e) => {
                return Err(e);
            },
        }
        let text: Vec<u8> = id.render();
        let ghost record = RecordModel { id: id, fields: fields_view(data@) };
        self.entries.push(StreamRecord { id, fields: data });
        self.last_stream_id = id;
        proof {
            assert(self@.entries =~= old(self)@.entries.push(record));
            assert forall|i: int, j: int| 0 <= i < j < self@.entries.len() implies id_lt(
                (#[trigger] self@.entries[i]).id,
                (#[trigger] self@.entries[j]).id,
            ) by {
                if j < old(self)@.entries.len() {
                    assert(self@.entries[i] == old(self)@.entries[i]);
                    assert(self@.entries[j] == old(self)@.entries[j]);
                } else {
                    let last = old(self)@.entries.len() - 1;
                    assert(self@.entries[i] == old(self)@.entries[i]);
                    if i < last {
                        assert(id_lt(old(self)@.entries[i].id, old(self)@.entries[last].id));
                    }
                }
            }
        }
        Ok(text)
    }

    /// Appends an entry; `*` in the identifier takes the time from the wall
    /// clock. Whatever the clock says, a refused append leaves the stream as
    /// it was and an accepted identifier exceeds the last one.
    pub fn append_stream(&mut self, stream_id: &[u8], data: Vec<(Vec<u8>, Vec<u8>)>) -> (r: Result<
        Vec<u8>,
        StreamError,
    >)
        requires
            old(self)@.wf(),
        ensures
            exists|now: u128|
                match #[trigger] spec_xadd(old(self)@, stream_id@, now) {
                    Ok(id) => r matches Ok(text) && text@ == id_text(id) && final(self)@.entries
                        == old(self)@.entries.push(
                        RecordModel { id: id, fields: fields_view(data@) },
                    ) && final(self)@.last_stream_id == id && id_lt(
                        old(self)@.last_stream_id,
                        id,
                    ),
                    Err(e) => r matches Err(err) && err == e && final(self)@ == old(self)@,
                },
            final(self)@.wf(),
    {
        let now: u128 = gen_millis();
        self.append_stream_at(stream_id, data, now)
    }

    /// The frame of the entry with the identifier `stream_id`, and whether the stream
    /// holds such an entry. Where it does not, the frame holds the identifier
    /// and no fields.
    pub fn read_specific_id_as_resp(&self, stream_id: &StreamID) -> (r: (RespType, bool))
        ensures
            r.1 == exists|i: int| record_at(self@.entries, *stream_id, i),
            r.1 ==> exists|i: int|
                record_at(self@.entries, *stream_id, i) && r.0@ == entry_frame(self@.entries[i]),
            !r.1 ==> r.0@ == missing_frame(*stream_id),
    {
        let n: usize = self.entries.len();
        let mut i: usize = 0;
        while i < n
            invariant
                n == self.entries@.len(),
                0 <= i <= n,
                forall|j: int| 0 <= j < i ==> !record_at(self@.entries, *stream_id, j),
            decreases n - i,
        {
            if self.entries[i].id.millis == stream_id.millis && self.entries[i].id.seq
                == stream_id.seq {
                let frame = render_record(&self.entries[i]);
                assert(record_at(self@.entries, *stream_id, i as int));
                return (frame, true);
            }
            i = i + 1;
        }
        let mut pair: Vec<RespType> = Vec::new();
        pair.push(RespType::BulkString(stream_id.render()));
        let none: Vec<RespType> = Vec::new();
        proof {
            lemma_view_array(none);
            assert(views(none@) =~= Seq::<RespValue>::empty());
        }
        pair.push(RespType::Array(none));
        proof {
            lemma_view_array(pair);
            assert(views(pair@) =~= seq![
                RespValue::BulkString(id_text(*stream_id)),
                RespValue::Array(Seq::<RespValue>::empty()),
            ]);
        }
        (RespType::Array(pair), false)
    }

    /// The index of the first entry at or behind `bound`, or strictly
    /// behind it where `strict` is set, found by halving: identifiers grow
    /// along the log, so every entry from there on is such an entry and none
    /// before is.
    pub fn lower_bound(&self, bound: StreamID, strict: bool) -> (r: usize)
        requires
            self@.wf(),
        ensures
            r <= self@.entries.len(),
            forall|i: int| 0 <= i < r ==> !reaches((#[trigger] self@.entries[i]).id, bound, strict),
            forall|i: int|
                r <= i < self@.entries.len() ==> reaches(
                    (#[trigger] self@.entries[i]).id,
                    bound,
                    strict,
                ),
    {
        let mut low: usize = 0;
        let mut high: usize = self.entries.len();
        while low < high
            invariant
                0 <= low <= high <= self.entries@.len(),
                self@.wf(),
                forall|i: int|
                    0 <= i < low ==> !reaches((#[trigger] self@.entries[i]).id, bound, strict),
                forall|i: int|
                    high <= i < self@.entries.len() ==> reaches(
                        (#[trigger] self@.entries[i]).id,
                        bound,
                        strict,
                    ),
            decreases high - low,
        {
            let mid: usize = low + (high - low) / 2;
            assert(self@.entries[mid as int] == self.entries@[mid as int]@);
            let id: StreamID = self.entries[mid].id;
            let here: bool = if strict {
                bound.before(&id)
            } else {
                !id.before(&bound)
            };
            if here {
                assert forall|i: int| mid <= i < self@.entries.len() implies reaches(
                    (#[trigger] self@.entries[i]).id,
                    bound,
                    strict,
                ) by {
                    if mid < i {
                        assert(id_lt(self@.entries[mid as int].id, self@.entries[i].id));
                    }
                }
                high = mid;
            } else {
                assert forall|i: int| 0 <= i < mid + 1 implies !reaches(
                    (#[trigger] self@.entries[i]).id,
                    bound,
                    strict,
                ) by {
                    if i < mid {
                        assert(id_lt(self@.entries[i].id, self@.entries[mid as int].id));
                    }
                }
                low = mid + 1;
            }
        }
        low
    }

    /// The frames of the selected entries, in order, and whether there
    /// is any. Only the selected entries are looked at, and those that the
    /// halving passes on its way to the first of them.
    fn collect(&self, lo: StreamID, hi: StreamID, strict: bool) -> (r: (RespType, bool))
        requires
            self@.wf(),
        ensures
            r.0@ == RespValue::Array(entry_frames(self@.entries.filter(selected(lo, hi, strict)))),
            r.1 == (self@.entries.filter(selected(lo, hi, strict)).len() > 0),
    {
        let mut result: Vec<RespType> = Vec::new();
        let n: usize = self.entries.len();
        let first: usize = self.lower_bound(lo, strict);
        let mut i: usize = first;
        let ghost all = self@.entries;
        let ghost keep = selected(lo, hi, strict);
        while i < n && (strict || !hi.before(&self.entries[i].id))
            invariant
                n == self.entries@.len(),
                first <= i <= n,
                all == self@.entries,
                self@.wf(),
                keep == selected(lo, hi, strict),
                forall|j: int| 0 <= j < first ==> !reaches((#[trigger] all[j]).id, lo, strict),
                forall|j: int| first <= j < n ==> reaches((#[trigger] all[j]).id, lo, strict),
                forall|j: int| first <= j < i ==> keep(#[trigger] all[j]),
                result@.len() == i - first,
                forall|j: int|
                    0 <= j < result@.len() ==> (#[trigger] result@[j])@ == entry_frame(
                        all[first + j],
                    ),
            decreases n - i,
        {
            assert(all[i as int] == self.entries@[i as int]@);
            result.push(render_record(&self.entries[i]));
            i = i + 1;
        }
        proof {
            assert forall|j: int| 0 <= j < n && !(first <= j < i) implies !keep(
                #[trigger] all[j],
            ) by {
                if j >= i {
                    assert(all[i as int] == self.entries@[i as int]@);
                    if j > i {
                        assert(id_lt(all[i as int].id, all[j].id));
                    }
                }
            }
            lemma_filter_is_range(all, keep, first as int, i as int);
            lemma_view_array(result);
            assert(views(result@) =~= entry_frames(all.subrange(first as int, i as int)));
        }
        let any: bool = result.len() > 0;
        (RespType::Array(result), any)
    }

    /// The entries strictly behind the identifier that `id` spells, as an
    /// array of frames, and whether there is any. `None` where `id` is no
    /// identifier.
    pub fn query_xread(&self, id: &[u8]) -> (r: Option<(RespType, bool)>)
        requires
            self@.wf(),
        ensures
            match spec_to_xread(id@, self@.last_stream_id) {
                Some(from) => r matches Some(got) && got.0@ == RespValue::Array(
                    entry_frames(self@.entries.filter(behind(from))),
                ) && got.1 == (self@.entries.filter(behind(from)).len() > 0),
                None => r is None,
            },
    {
        match StreamID::to_xread(id, &self.last_stream_id) {
            Some(from) => Some(self.collect(from, from, true)),
            None => None,
        }
    }

    /// The entries from the identifier that `start_id` spells to the one
    /// that `end_id` spells, both included, as an array of frames, and
    /// whether there is any. `None` where either is no identifier.
    pub fn query_xrange(&self, start_id: &[u8], end_id: &[u8]) -> (r: Option<(RespType, bool)>)
        requires
            self@.wf(),
        ensures
            match (spec_to_xrange(start_id@), spec_to_xrange(end_id@)) {
                (Some(lo), Some(hi)) => r matches Some(got) && got.0@ == RespValue::Array(
                    entry_frames(self@.entries.filter(within(lo, hi))),
                ) && got.1 == (self@.entries.filter(within(lo, hi)).len() > 0),
                _ => r is None,
            },
    {
        let lo = StreamID::to_xrange(start_id);
        let hi = StreamID::to_xrange(end_id);
        match (lo, hi) {
            (Some(lo), Some(hi)) => Some(self.collect(lo, hi, false)),
            _ => None,
        }
    }
}

} // verus!
