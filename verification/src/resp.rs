//! RESP frames: the executable type, its mathematical model and the serializer.

use vstd::prelude::*;
use crate::constants::{crlf, COLON, CR, DIGIT_ONE, DOLLAR, LF, MINUS, PLUS, STAR};
use crate::decimal::{int_digits, nat_digits, push_int, push_nat};

verus! {

/// One frame of the wire protocol.
///
/// Payloads are raw bytes: nothing here asks for UTF-8.
#[derive(Debug)]
pub enum RespType {
    SimpleString(Vec<u8>),
    SimpleError(Vec<u8>),
    Integer(i64),
    BulkString(Vec<u8>),
    Array(Vec<RespType>),
    /// Bytes that are sent verbatim, such as a snapshot payload.
    WildCard(Vec<u8>),
    Null,
}

/// The mathematical model of a frame.
pub enum RespValue {
    SimpleString(Seq<u8>),
    SimpleError(Seq<u8>),
    Integer(i64),
    BulkString(Seq<u8>),
    Array(Seq<RespValue>),
    Raw(Seq<u8>),
    Null,
}

/// The models of a run of frames, in order.
pub open spec fn views(items: Seq<RespType>) -> Seq<RespValue> {
    Seq::new(items.len(), |i: int| items[i]@)
}

impl View for RespType {
    type V = RespValue;

    open spec fn view(&self) -> RespValue
        decreases self,
    {
        match self {
            RespType::SimpleString(s) => RespValue::SimpleString(s@),
            RespType::SimpleError(s) => RespValue::SimpleError(s@),
            RespType::Integer(i) => RespValue::Integer(*i),
            RespType::BulkString(s) => RespValue::BulkString(s@),
            RespType::Array(items) => RespValue::Array(
                Seq::new(
                    items@.len(),
                    |i: int|
                        if 0 <= i < items@.len() {
                            items@[i].view()
                        } else {
                            RespValue::Null
                        },
                ),
            ),
            RespType::WildCard(s) => RespValue::Raw(s@),
            RespType::Null => RespValue::Null,
        }
    }
}

/// A carriage return directly followed by a line feed starts at index `i` of `s`.
pub open spec fn crlf_at(s: Seq<u8>, i: int) -> bool {
    0 <= i && i + 1 < s.len() && s[i] == CR && s[i + 1] == LF
}

/// `s` holds no line terminator.
pub open spec fn no_crlf(s: Seq<u8>) -> bool {
    forall|i: int| !crlf_at(s, i)
}

/// The bytes of a run of frames, one after the other.
pub open spec fn serialize_seq(items: Seq<RespValue>) -> Seq<u8>
    decreases items,
{
    if items.len() == 0 {
        Seq::<u8>::empty()
    } else {
        items[0].serialize() + serialize_seq(items.drop_first())
    }
}

impl RespValue {
    /// The bytes that stand for this frame on the wire.
    pub open spec fn serialize(self) -> Seq<u8>
        decreases self,
    {
        match self {
            RespValue::SimpleString(s) => seq![PLUS] + s + crlf(),
            RespValue::SimpleError(s) => seq![MINUS] + s + crlf(),
            RespValue::Integer(i) => seq![COLON] + int_digits(i as int) + crlf(),
            RespValue::BulkString(s) => seq![DOLLAR] + nat_digits(s.len()) + crlf() + s + crlf(),
            RespValue::Array(items) => seq![STAR] + nat_digits(items.len()) + crlf()
                + serialize_seq(items),
            RespValue::Raw(s) => s,
            RespValue::Null => seq![DOLLAR, MINUS, DIGIT_ONE, CR, LF],
        }
    }

    /// The frames that the parser can produce: lines without a terminator
    /// inside, lengths that fit the machine, and no verbatim bytes anywhere.
    pub open spec fn is_wire_value(self) -> bool
        decreases self,
    {
        match self {
            RespValue::SimpleString(s) => no_crlf(s),
            RespValue::SimpleError(s) => no_crlf(s),
            RespValue::Integer(_) => true,
            RespValue::BulkString(s) => s.len() <= usize::MAX,
            RespValue::Array(items) => items.len() <= usize::MAX && forall|i: int|
                0 <= i < items.len() ==> (#[trigger] items[i]).is_wire_value(),
            RespValue::Raw(_) => false,
            RespValue::Null => true,
        }
    }
}

/// The model of an array is the array of its items' models.
pub proof fn lemma_view_array(items: Vec<RespType>)
    ensures
        RespType::Array(items)@ == RespValue::Array(views(items@)),
{
    reveal_with_fuel(<RespType as View>::view, 2);
    assert(RespType::Array(items)@->Array_0 =~= views(items@));
}

/// Serializing a run frame by frame: one more frame appends its bytes.
pub proof fn lemma_serialize_seq_push(items: Seq<RespValue>, v: RespValue)
    ensures
        serialize_seq(items.push(v)) == serialize_seq(items) + v.serialize(),
    decreases items.len(),
{
    if items.len() == 0 {
        assert(items.push(v).drop_first() =~= Seq::<RespValue>::empty());
        assert(serialize_seq(Seq::<RespValue>::empty()) =~= Seq::<u8>::empty());
        assert(serialize_seq(items) =~= Seq::<u8>::empty());
        assert(items.push(v)[0] == v);
        assert(serialize_seq(items.push(v)) =~= serialize_seq(items) + v.serialize());
    } else {
        assert(items.push(v).drop_first() =~= items.drop_first().push(v));
        lemma_serialize_seq_push(items.drop_first(), v);
        assert(serialize_seq(items.push(v)) =~= serialize_seq(items) + v.serialize());
    }
}

/// Appends every byte of `src` to `out`.
pub fn push_bytes(out: &mut Vec<u8>, src: &[u8])
    ensures
        final(out)@ == old(out)@ + src@,
{
    let n: usize = src.len();
    let mut i: usize = 0;
    while i < n
        invariant
            n == src@.len(),
            0 <= i <= n,
            out@ == old(out)@ + src@.take(i as int),
        decreases n - i,
    {
        out.push(src[i]);
        assert(src@.take(i + 1) =~= src@.take(i as int).push(src@[i as int]));
        assert(out@ =~= old(out)@ + src@.take(i + 1));
        i = i + 1;
    }
    assert(src@.take(n as int) =~= src@);
}

/// A copy of a byte vector.
pub fn copy_bytes(src: &Vec<u8>) -> (out: Vec<u8>)
    ensures
        out@ == src@,
{
    let mut out: Vec<u8> = Vec::new();
    push_bytes(&mut out, src.as_slice());
    assert(out@ =~= src@);
    out
}

impl Clone for RespType {
    fn clone(&self) -> (out: Self)
        ensures
            out@ == self@,
        decreases self,
    {
        match self {
            RespType::SimpleString(s) => RespType::SimpleString(copy_bytes(s)),
            RespType::SimpleError(s) => RespType::SimpleError(copy_bytes(s)),
            RespType::Integer(i) => RespType::Integer(*i),
            RespType::BulkString(s) => RespType::BulkString(copy_bytes(s)),
            RespType::Array(values) => {
                let mut items: Vec<RespType> = Vec::new();
                let n: usize = values.len();
                let mut i: usize = 0;
                while i < n
                    invariant
                        n == values@.len(),
                        0 <= i <= n,
                        *self == RespType::Array(*values),
                        items@.len() == i,
                        forall|j: int| 0 <= j < i ==> (#[trigger] items@[j])@ == values@[j]@,
                    decreases n - i,
                {
                    proof {
                        assert(self->Array_0 == *values);
                        assert(decreases_to!(*self => self->Array_0));
                    }
                    items.push(values[i].clone());
                    i = i + 1;
                }
                proof {
                    lemma_view_array(*values);
                    lemma_view_array(items);
                    assert(views(items@) =~= views(values@));
                }
                RespType::Array(items)
            },
            RespType::WildCard(s) => RespType::WildCard(copy_bytes(s)),
            RespType::Null => RespType::Null,
        }
    }
}

impl RespType {
    /// Writes the frame as bytes. Total: every frame has a serialization.
    pub fn serialize(&self) -> (out: Vec<u8>)
        ensures
            out@ == self@.serialize(),
        decreases self,
    {
        let mut out: Vec<u8> = Vec::new();
        match self {
            RespType::SimpleString(s) => {
                out.push(PLUS);
                push_bytes(&mut out, s.as_slice());
                out.push(CR);
                out.push(LF);
                assert(out@ =~= self@.serialize());
            },
            RespType::SimpleError(s) => {
                out.push(MINUS);
                push_bytes(&mut out, s.as_slice());
                out.push(CR);
                out.push(LF);
                assert(out@ =~= self@.serialize());
            },
            RespType::Integer(num) => {
                out.push(COLON);
                push_int(*num, &mut out);
                out.push(CR);
                out.push(LF);
                assert(out@ =~= self@.serialize());
            },
            RespType::BulkString(s) => {
                out.push(DOLLAR);
                push_nat(s.len() as u128, &mut out);
                out.push(CR);
                out.push(LF);
                push_bytes(&mut out, s.as_slice());
                out.push(CR);
                out.push(LF);
                assert(out@ =~= self@.serialize());
            },
            RespType::Array(values) => {
                out.push(STAR);
                push_nat(values.len() as u128, &mut out);
                out.push(CR);
                out.push(LF);
                let ghost head = out@;
                let ghost all = views(values@);
                proof {
                    lemma_view_array(*values);
                }
                let n: usize = values.len();
                let mut i: usize = 0;
                assert(all.take(0) =~= Seq::<RespValue>::empty());
                while i < n
                    invariant
                        n == values@.len(),
                        0 <= i <= n,
                        all == views(values@),
                        *self == RespType::Array(*values),
                        out@ == head + serialize_seq(all.take(i as int)),
                    decreases n - i,
                {
                    proof {
                        assert(self->Array_0 == *values);
                        assert(decreases_to!(*self => self->Array_0));
                    }
                    let part: Vec<u8> = values[i].serialize();
                    push_bytes(&mut out, part.as_slice());
                    proof {
                        lemma_serialize_seq_push(all.take(i as int), all[i as int]);
                        assert(all.take(i + 1) =~= all.take(i as int).push(all[i as int]));
                        assert(out@ =~= head + serialize_seq(all.take(i + 1)));
                    }
                    i = i + 1;
                }
                assert(all.take(n as int) =~= all);
                assert(out@ =~= self@.serialize());
            },
            RespType::WildCard(s) => {
                push_bytes(&mut out, s.as_slice());
                assert(out@ =~= self@.serialize());
            },
            RespType::Null => {
                out.push(DOLLAR);
                out.push(MINUS);
                out.push(DIGIT_ONE);
                out.push(CR);
                out.push(LF);
                assert(out@ =~= self@.serialize());
            },
        }
        out
    }
}

} // verus!
