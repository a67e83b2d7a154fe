//! What holds between the serializer and the frame grammar: a frame that is
//! written and read again is the same frame, and a frame cut short is never
//! mistaken for a whole one.

use vstd::prelude::*;
use crate::constants::{crlf, COLON, CR, DOLLAR, LF, MINUS, PLUS, STAR};
use crate::decimal::{
    int_digits, is_digit, is_digits, lemma_int_digits_bytes, lemma_nat_digits,
    lemma_parse_int_digits, nat_digits,
};
use crate::parser::{
    first_crlf, lemma_line_end_is, lemma_line_end_none, line_end, minus_one, spec_parse_array,
    spec_parse_bulk_string, spec_parse_integer, spec_parse_items, spec_parse_resp, ParseError,
};
use crate::resp::{crlf_at, no_crlf, serialize_seq, RespValue};

verus! {

/// A line without a terminator inside, followed by one, ends where it was cut.
pub proof fn lemma_line_end_terminated(line: Seq<u8>, rest: Seq<u8>)
    requires
        no_crlf(line),
    ensures
        line_end(line + crlf() + rest) == Some(line.len() as int),
        (line + crlf() + rest).take(line.len() as int) == line,
        (line + crlf() + rest).skip(line.len() as int + 2) == rest,
{
    let s = line + crlf() + rest;
    let n = line.len() as int;
    assert(s[n] == CR && s[n + 1] == LF);
    assert forall|j: int| 0 <= j < n implies !crlf_at(s, j) by {
        if j + 1 < n {
            assert(!crlf_at(line, j));
            assert(s[j] == line[j] && s[j + 1] == line[j + 1]);
        } else {
            assert(s[j + 1] == CR);
        }
    }
    assert(first_crlf(s, n));
    lemma_line_end_is(s, n);
    assert(s.take(n) =~= line);
    assert(s.skip(n + 2) =~= rest);
}

/// A terminated line that is cut anywhere before its end holds no terminator.
pub proof fn lemma_line_cut_short(line: Seq<u8>, n: int)
    requires
        no_crlf(line),
        0 <= n < line.len() + 2,
    ensures
        line_end((line + crlf()).take(n)) is None,
{
    let p = (line + crlf()).take(n);
    assert forall|j: int| !crlf_at(p, j) by {
        if crlf_at(p, j) {
            if j + 1 < line.len() {
                assert(p[j] == line[j] && p[j + 1] == line[j + 1]);
                assert(crlf_at(line, j));
            } else {
                assert(p[j + 1] == CR);
            }
        }
    }
    lemma_line_end_none(p);
}

/// Written digits hold no terminator and are not the null marker.
pub proof fn lemma_digits_line(n: nat)
    ensures
        no_crlf(nat_digits(n)),
        nat_digits(n) != minus_one(),
        is_digits(nat_digits(n)),
{
    lemma_nat_digits(n);
    let d = nat_digits(n);
    assert forall|j: int| !crlf_at(d, j) by {
        if crlf_at(d, j) {
            assert(is_digit(d[j]));
        }
    }
    assert(is_digit(d[0]));
    assert(minus_one()[0] == MINUS);
}

/// A written integer holds no terminator.
pub proof fn lemma_int_line(v: int)
    ensures
        no_crlf(int_digits(v)),
{
    lemma_int_digits_bytes(v);
    let d = int_digits(v);
    assert forall|j: int| !crlf_at(d, j) by {
        if crlf_at(d, j) {
            let b = d[j];
            assert(b == MINUS || is_digit(b));
        }
    }
}

/// Every frame the parser can produce takes at least one byte on the wire.
pub proof fn lemma_serialize_nonempty(v: RespValue)
    requires
        v.is_wire_value(),
    ensures
        v.serialize().len() > 0,
{
}

/// The bytes of a run are those of its first frame and then those of the rest.
pub proof fn lemma_serialize_seq_unfold(items: Seq<RespValue>)
    requires
        items.len() > 0,
    ensures
        serialize_seq(items) == items[0].serialize() + serialize_seq(items.drop_first()),
{
}

/// A written integer line reads back as the integer.
pub proof fn lemma_parse_integer_body(i: i64, rest: Seq<u8>)
    ensures
        spec_parse_integer(int_digits(i as int) + crlf() + rest) == Ok::<
            (RespValue, int),
            ParseError,
        >((RespValue::Integer(i), (int_digits(i as int).len() + 2) as int)),
{
    let d = int_digits(i as int);
    lemma_int_line(i as int);
    lemma_line_end_terminated(d, rest);
    lemma_parse_int_digits(i as int, 0x8000_0000_0000_0000, 0x7fff_ffff_ffff_ffff);
}

/// A written bulk string reads back as its payload, whatever bytes that holds.
pub proof fn lemma_parse_bulk_body(s: Seq<u8>, rest: Seq<u8>)
    requires
        s.len() <= usize::MAX,
    ensures
        spec_parse_bulk_string(nat_digits(s.len()) + crlf() + (s + crlf() + rest)) == Ok::<
            (RespValue, int),
            ParseError,
        >((RespValue::BulkString(s), (nat_digits(s.len()).len() + 2 + s.len() + 2) as int)),
{
    let d = nat_digits(s.len());
    let tail = s + crlf() + rest;
    let body = d + crlf() + tail;
    lemma_digits_line(s.len());
    lemma_line_end_terminated(d, tail);
    lemma_parse_int_digits(s.len() as int, 0, usize::MAX as nat);
    let e = d.len() as int;
    assert(body[e + 2 + s.len()] == CR);
    assert(body[e + 2 + s.len() + 1] == LF);
    assert(body.subrange(e + 2, e + 2 + s.len()) =~= s);
}

/// The written null marker reads back as null.
pub proof fn lemma_parse_null_body(rest: Seq<u8>)
    ensures
        spec_parse_bulk_string(minus_one() + crlf() + rest) == Ok::<(RespValue, int), ParseError>(
            (RespValue::Null, 4),
        ),
{
    assert forall|j: int| !crlf_at(minus_one(), j) by {}
    lemma_line_end_terminated(minus_one(), rest);
}

/// A written array header followed by its written items reads back as the array.
pub proof fn lemma_parse_array_body(items: Seq<RespValue>, rest: Seq<u8>)
    requires
        items.len() <= usize::MAX,
        spec_parse_items(serialize_seq(items) + rest, items.len()) == Ok::<
            (Seq<RespValue>, int),
            ParseError,
        >((items, serialize_seq(items).len() as int)),
    ensures
        spec_parse_array(nat_digits(items.len()) + crlf() + (serialize_seq(items) + rest)) == Ok::<
            (RespValue, int),
            ParseError,
        >(
            (
                RespValue::Array(items),
                (nat_digits(items.len()).len() + 2 + serialize_seq(items).len()) as int,
            ),
        ),
{
    let d = nat_digits(items.len());
    let tail = serialize_seq(items) + rest;
    lemma_digits_line(items.len());
    lemma_line_end_terminated(d, tail);
    lemma_parse_int_digits(items.len() as int, 0, usize::MAX as nat);
}

/// A written line frame reads back as itself.
pub proof fn lemma_parse_line_frame(v: RespValue, rest: Seq<u8>)
    requires
        v is SimpleString || v is SimpleError,
        v.is_wire_value(),
    ensures
        spec_parse_resp(v.serialize() + rest) == Ok::<(RespValue, int), ParseError>(
            (v, v.serialize().len() as int),
        ),
{
    let input = v.serialize() + rest;
    let body = input.skip(1);
    match v {
        RespValue::SimpleString(s) => {
            assert(body =~= s + crlf() + rest);
            lemma_line_end_terminated(s, rest);
            assert(input[0] == PLUS);
        },
        RespValue::SimpleError(s) => {
            assert(body =~= s + crlf() + rest);
            lemma_line_end_terminated(s, rest);
            assert(input[0] == MINUS);
        },
        _ => {},
    }
}

/// A written integer frame reads back as itself.
pub proof fn lemma_parse_integer_frame(i: i64, rest: Seq<u8>)
    ensures
        spec_parse_resp(RespValue::Integer(i).serialize() + rest) == Ok::<
            (RespValue, int),
            ParseError,
        >((RespValue::Integer(i), RespValue::Integer(i).serialize().len() as int)),
{
    let input = RespValue::Integer(i).serialize() + rest;
    assert(input.skip(1) =~= int_digits(i as int) + crlf() + rest);
    lemma_parse_integer_body(i, rest);
    assert(input[0] == COLON);
}

/// A written bulk string frame reads back as itself.
pub proof fn lemma_parse_bulk_frame(s: Seq<u8>, rest: Seq<u8>)
    requires
        s.len() <= usize::MAX,
    ensures
        spec_parse_resp(RespValue::BulkString(s).serialize() + rest) == Ok::<
            (RespValue, int),
            ParseError,
        >((RespValue::BulkString(s), RespValue::BulkString(s).serialize().len() as int)),
{
    let input = RespValue::BulkString(s).serialize() + rest;
    assert(input.skip(1) =~= nat_digits(s.len()) + crlf() + (s + crlf() + rest));
    lemma_parse_bulk_body(s, rest);
    assert(input[0] == DOLLAR);
}

/// The written null frame reads back as null.
pub proof fn lemma_parse_null_frame(rest: Seq<u8>)
    ensures
        spec_parse_resp(RespValue::Null.serialize() + rest) == Ok::<(RespValue, int), ParseError>(
            (RespValue::Null, 5),
        ),
{
    let input = RespValue::Null.serialize() + rest;
    assert(input.skip(1) =~= minus_one() + crlf() + rest);
    lemma_parse_null_body(rest);
    assert(input[0] == DOLLAR);
}

/// A written array frame reads back as itself once its items do.
pub proof fn lemma_parse_array_frame(items: Seq<RespValue>, rest: Seq<u8>)
    requires
        items.len() <= usize::MAX,
        spec_parse_items(serialize_seq(items) + rest, items.len()) == Ok::<
            (Seq<RespValue>, int),
            ParseError,
        >((items, serialize_seq(items).len() as int)),
    ensures
        spec_parse_resp(RespValue::Array(items).serialize() + rest) == Ok::<
            (RespValue, int),
            ParseError,
        >((RespValue::Array(items), RespValue::Array(items).serialize().len() as int)),
{
    let input = RespValue::Array(items).serialize() + rest;
    assert(input.skip(1) =~= nat_digits(items.len()) + crlf() + (serialize_seq(items) + rest));
    lemma_parse_array_body(items, rest);
    assert(input[0] == STAR);
}

/// A written frame, whatever follows it, reads back as itself and takes
/// exactly the bytes that were written for it.
pub proof fn lemma_parse_serialized(v: RespValue, rest: Seq<u8>)
    requires
        v.is_wire_value(),
    ensures
        spec_parse_resp(v.serialize() + rest) == Ok::<(RespValue, int), ParseError>(
            (v, v.serialize().len() as int),
        ),
    decreases v,
{
    match v {
        RespValue::SimpleString(s) => {
            lemma_parse_line_frame(v, rest);
        },
        RespValue::SimpleError(s) => {
            lemma_parse_line_frame(v, rest);
        },
        RespValue::Integer(i) => {
            lemma_parse_integer_frame(i, rest);
        },
        RespValue::BulkString(s) => {
            lemma_parse_bulk_frame(s, rest);
        },
        RespValue::Array(items) => {
            lemma_parse_items_serialized(items, rest);
            lemma_parse_array_frame(items, rest);
        },
        RespValue::Raw(_) => {},
        RespValue::Null => {
            lemma_parse_null_frame(rest);
        },
    }
}

/// A written run of frames, whatever follows it, reads back frame by frame.
pub proof fn lemma_parse_items_serialized(items: Seq<RespValue>, rest: Seq<u8>)
    requires
        forall|i: int| 0 <= i < items.len() ==> (#[trigger] items[i]).is_wire_value(),
    ensures
        spec_parse_items(serialize_seq(items) + rest, items.len()) == Ok::<
            (Seq<RespValue>, int),
            ParseError,
        >((items, serialize_seq(items).len() as int)),
    decreases items,
{
    if items.len() == 0 {
        assert(serialize_seq(items).len() == 0);
        assert(items =~= Seq::<RespValue>::empty());
    } else {
        let head = items[0];
        let others = items.drop_first();
        let input = serialize_seq(items) + rest;
        let k = head.serialize().len() as int;
        lemma_serialize_seq_unfold(items);
        assert(input =~= head.serialize() + (serialize_seq(others) + rest));
        lemma_parse_serialized(head, serialize_seq(others) + rest);
        lemma_serialize_nonempty(head);
        assert(input.skip(k) =~= serialize_seq(others) + rest);
        assert forall|i: int| 0 <= i < others.len() implies (#[trigger] others[i]).is_wire_value() by {
            assert(others[i] == items[i + 1]);
        }
        lemma_parse_items_serialized(others, rest);
        assert(seq![head] + others =~= items);
    }
}

/// A frame that is written and read again is the same frame, and nothing of
/// the input is left over.
pub proof fn law_parse_inverts_serialize(v: RespValue)
    requires
        v.is_wire_value(),
    ensures
        spec_parse_resp(v.serialize()) == Ok::<(RespValue, int), ParseError>(
            (v, v.serialize().len() as int),
        ),
        v.serialize().skip(v.serialize().len() as int) == Seq::<u8>::empty(),
{
    lemma_parse_serialized(v, Seq::<u8>::empty());
    assert(v.serialize() + Seq::<u8>::empty() =~= v.serialize());
    assert(v.serialize().skip(v.serialize().len() as int) =~= Seq::<u8>::empty());
}

/// A written frame that is cut short anywhere reads as incomplete, never as
/// a frame and never as malformed.
pub proof fn law_prefix_is_incomplete(v: RespValue, n: int)
    requires
        v.is_wire_value(),
        0 <= n < v.serialize().len(),
    ensures
        spec_parse_resp(v.serialize().take(n)) == Err::<(RespValue, int), ParseError>(
            ParseError::IncompleteInput,
        ),
    decreases v,
{
    let whole = v.serialize();
    let p = whole.take(n);
    if n > 0 {
        let body = p.skip(1);
        assert(p[0] == whole[0]);
        match v {
            RespValue::SimpleString(s) => {
                assert(body =~= (s + crlf()).take(n - 1));
                lemma_line_cut_short(s, n - 1);
            },
            RespValue::SimpleError(s) => {
                assert(body =~= (s + crlf()).take(n - 1));
                lemma_line_cut_short(s, n - 1);
            },
            RespValue::Integer(i) => {
                let d = int_digits(i as int);
                lemma_int_line(i as int);
                assert(body =~= (d + crlf()).take(n - 1));
                lemma_line_cut_short(d, n - 1);
            },
            RespValue::BulkString(s) => {
                let d = nat_digits(s.len());
                lemma_digits_line(s.len());
                let e = d.len() as int;
                if n - 1 < e + 2 {
                    assert(body =~= (d + crlf()).take(n - 1));
                    lemma_line_cut_short(d, n - 1);
                } else {
                    let tail = (s + crlf()).take(n - 1 - e - 2);
                    assert(body =~= d + crlf() + tail);
                    lemma_line_end_terminated(d, tail);
                    lemma_parse_int_digits(s.len() as int, 0, usize::MAX as nat);
                }
            },
            RespValue::Array(items) => {
                let d = nat_digits(items.len());
                lemma_digits_line(items.len());
                let e = d.len() as int;
                if n - 1 < e + 2 {
                    assert(body =~= (d + crlf()).take(n - 1));
                    lemma_line_cut_short(d, n - 1);
                } else {
                    let m = n - 1 - e - 2;
                    let tail = serialize_seq(items).take(m);
                    assert(body =~= d + crlf() + tail);
                    lemma_line_end_terminated(d, tail);
                    lemma_parse_int_digits(items.len() as int, 0, usize::MAX as nat);
                    lemma_items_prefix_is_incomplete(items, m);
                }
            },
            RespValue::Raw(_) => {},
            RespValue::Null => {
                assert forall|j: int| !crlf_at(minus_one(), j) by {}
                assert(body =~= (minus_one() + crlf()).take(n - 1));
                lemma_line_cut_short(minus_one(), n - 1);
            },
        }
    }
}

/// A written run of frames that is cut short anywhere reads as incomplete.
pub proof fn lemma_items_prefix_is_incomplete(items: Seq<RespValue>, n: int)
    requires
        forall|i: int| 0 <= i < items.len() ==> (#[trigger] items[i]).is_wire_value(),
        0 <= n < serialize_seq(items).len(),
    ensures
        spec_parse_items(serialize_seq(items).take(n), items.len()) == Err::<
            (Seq<RespValue>, int),
            ParseError,
        >(ParseError::IncompleteInput),
    decreases items,
{
    if items.len() == 0 {
        assert(serialize_seq(items).len() == 0);
    } else {
        let head = items[0];
        let others = items.drop_first();
        let k = head.serialize().len() as int;
        let p = serialize_seq(items).take(n);
        lemma_serialize_seq_unfold(items);
        if n < k {
            assert(p =~= head.serialize().take(n));
            law_prefix_is_incomplete(head, n);
        } else {
            let tail = serialize_seq(others).take(n - k);
            assert(p =~= head.serialize() + tail);
            lemma_parse_serialized(head, tail);
            lemma_serialize_nonempty(head);
            assert(p.skip(k) =~= tail);
            assert forall|i: int| 0 <= i < others.len() implies (#[trigger] others[i]).is_wire_value() by {
                assert(others[i] == items[i + 1]);
            }
            lemma_items_prefix_is_incomplete(others, n - k);
        }
    }
}

} // verus!
