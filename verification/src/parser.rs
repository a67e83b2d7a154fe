//! The RESP frame grammar as functions on bytes, and the parser proved against it.
//!
//! ```text
//! +<line>CRLF             simple string
//! -<line>CRLF             simple error
//! :<decimal>CRLF          integer, signed 64-bit
//! $<len>CRLF<bytes>CRLF   bulk string; a length of -1 is null
//! *<count>CRLF<frames...> array; a count of -1 is null
//! ```

use vstd::prelude::*;
use vstd::slice::slice_subrange;
use crate::constants::{COLON, CR, DIGIT_ONE, DOLLAR, LF, MINUS, PLUS, STAR};
use crate::decimal::{parse_signed, parse_unsigned, read_i64, read_unsigned};
use crate::resp::{crlf_at, lemma_view_array, no_crlf, views, RespType, RespValue};

verus! {

/// Why a run of bytes is not a frame.
#[derive(Debug, PartialEq, Eq, Clone, Copy, Structural)]
pub enum ParseError {
    /// The bytes cannot be the start of any frame.
    InvalidInput,
    /// The bytes end before the frame does: read more and try again.
    IncompleteInput,
    /// No line terminator anywhere in the bytes.
    CRLFNotFound,
    /// The first byte is no frame tag.
    UnkownSymbol,
}

impl ParseError {
    /// The text shown for this error.
    pub fn message(&self) -> (text: &'static str)
        ensures
            text@ == match *self {
                ParseError::InvalidInput => "ERROR: Invalid Input"@,
                ParseError::IncompleteInput => "ERROR: Incomplete Input"@,
                ParseError::CRLFNotFound => "ERROR: CRLF Not Found"@,
                ParseError::UnkownSymbol => "ERROR: Unkonwn Symbol"@,
            },
            crate::utils::ascii(text) == parse_error_text(*self),
    {
        match self {
            ParseError::InvalidInput => "ERROR: Invalid Input",
            ParseError::IncompleteInput => "ERROR: Incomplete Input",
            ParseError::CRLFNotFound => "ERROR: CRLF Not Found",
            ParseError::UnkownSymbol => "ERROR: Unkonwn Symbol",
        }
    }
}

/// The bytes of the text shown for an error.
pub open spec fn parse_error_text(e: ParseError) -> Seq<u8> {
    match e {
        ParseError::InvalidInput => crate::utils::ascii("ERROR: Invalid Input"),
        ParseError::IncompleteInput => crate::utils::ascii("ERROR: Incomplete Input"),
        ParseError::CRLFNotFound => crate::utils::ascii("ERROR: CRLF Not Found"),
        ParseError::UnkownSymbol => crate::utils::ascii("ERROR: Unkonwn Symbol"),
    }
}

/// The first line terminator of `s` starts at index `i`.
pub open spec fn first_crlf(s: Seq<u8>, i: int) -> bool {
    crlf_at(s, i) && forall|j: int| 0 <= j < i ==> !crlf_at(s, j)
}

/// Where the first line of `s` ends, if `s` holds a terminator at all.
pub open spec fn line_end(s: Seq<u8>) -> Option<int> {
    if exists|i: int| first_crlf(s, i) {
        Some(choose|i: int| first_crlf(s, i))
    } else {
        None
    }
}

/// The bytes `-1`, which stand for null where a length is expected.
pub open spec fn minus_one() -> Seq<u8> {
    seq![MINUS, DIGIT_ONE]
}

/// The grammar of a simple string after its tag.
pub open spec fn spec_parse_simple_string(body: Seq<u8>) -> Result<(RespValue, int), ParseError> {
    match line_end(body) {
        Some(e) => Ok((RespValue::SimpleString(body.take(e)), e + 2)),
        None => Err(ParseError::IncompleteInput),
    }
}

/// The grammar of a simple error after its tag.
pub open spec fn spec_parse_simple_error(body: Seq<u8>) -> Result<(RespValue, int), ParseError> {
    match line_end(body) {
        Some(e) => Ok((RespValue::SimpleError(body.take(e)), e + 2)),
        None => Err(ParseError::IncompleteInput),
    }
}

/// The grammar of an integer after its tag: a signed decimal that fits 64 bits.
pub open spec fn spec_parse_integer(body: Seq<u8>) -> Result<(RespValue, int), ParseError> {
    match line_end(body) {
        Some(e) => match parse_signed(body.take(e), 0x8000_0000_0000_0000, 0x7fff_ffff_ffff_ffff) {
            Some(v) => Ok((RespValue::Integer(v as i64), e + 2)),
            None => Err(ParseError::InvalidInput),
        },
        None => Err(ParseError::IncompleteInput),
    }
}

/// The grammar of a bulk string after its tag: a length, that many raw
/// bytes, and a terminator.
pub open spec fn spec_parse_bulk_string(body: Seq<u8>) -> Result<(RespValue, int), ParseError> {
    match line_end(body) {
        Some(e) => if body.take(e) == minus_one() {
            Ok((RespValue::Null, e + 2))
        } else {
            match parse_unsigned(body.take(e), usize::MAX as nat) {
                Some(n) => if body.len() < e + 2 + n + 2 {
                    Err(ParseError::IncompleteInput)
                } else if body[e + 2 + n] != CR || body[e + 2 + n + 1] != LF {
                    Err(ParseError::InvalidInput)
                } else {
                    Ok((RespValue::BulkString(body.subrange(e + 2, e + 2 + n)), e + 2 + n + 2))
                },
                None => Err(ParseError::InvalidInput),
            }
        },
        None => Err(ParseError::IncompleteInput),
    }
}

/// The grammar of `count` frames in a row.
pub open spec fn spec_parse_items(s: Seq<u8>, count: nat) -> Result<
    (Seq<RespValue>, int),
    ParseError,
>
    decreases s.len(), count + 1,
{
    if count == 0 {
        Ok((Seq::<RespValue>::empty(), 0))
    } else {
        match spec_parse_resp(s) {
            Ok((v, k)) => if 0 < k <= s.len() {
                match spec_parse_items(s.skip(k), (count - 1) as nat) {
                    Ok((vs, m)) => Ok((seq![v] + vs, k + m)),
                    Err(e) => Err(e),
                }
            } else {
                Err(ParseError::InvalidInput)
            },
            Err(e) => Err(e),
        }
    }
}

/// The grammar of an array after its tag: a count and that many frames.
pub open spec fn spec_parse_array(body: Seq<u8>) -> Result<(RespValue, int), ParseError>
    decreases body.len(), 0nat,
{
    match line_end(body) {
        Some(e) => if body.take(e) == minus_one() {
            Ok((RespValue::Null, e + 2))
        } else {
            match parse_unsigned(body.take(e), usize::MAX as nat) {
                Some(n) => if 0 <= e && e + 2 <= body.len() {
                    match spec_parse_items(body.skip(e + 2), n) {
                        Ok((vs, m)) => Ok((RespValue::Array(vs), e + 2 + m)),
                        Err(err) => Err(err),
                    }
                } else {
                    Err(ParseError::InvalidInput)
                },
                None => Err(ParseError::InvalidInput),
            }
        },
        None => Err(ParseError::IncompleteInput),
    }
}

/// Moves a result that was read after the tag byte back to the whole input.
pub open spec fn after_tag(r: Result<(RespValue, int), ParseError>) -> Result<
    (RespValue, int),
    ParseError,
> {
    match r {
        Ok((v, k)) => Ok((v, k + 1)),
        Err(e) => Err(e),
    }
}

/// The grammar of one frame: the value it stands for and the number of
/// bytes it takes, or why the bytes are no frame.
pub open spec fn spec_parse_resp(s: Seq<u8>) -> Result<(RespValue, int), ParseError>
    decreases s.len(), 0nat,
{
    if s.len() == 0 {
        Err(ParseError::IncompleteInput)
    } else if s[0] == PLUS {
        after_tag(spec_parse_simple_string(s.skip(1)))
    } else if s[0] == MINUS {
        after_tag(spec_parse_simple_error(s.skip(1)))
    } else if s[0] == DOLLAR {
        after_tag(spec_parse_bulk_string(s.skip(1)))
    } else if s[0] == COLON {
        after_tag(spec_parse_integer(s.skip(1)))
    } else if s[0] == STAR {
        after_tag(spec_parse_array(s.skip(1)))
    } else {
        Err(ParseError::UnkownSymbol)
    }
}

/// The parser's answer `r` on `input` is what the grammar `expected` says:
/// the same value, the untouched bytes behind the frame, or the same error.
pub open spec fn parse_matches(
    r: Result<(RespType, &[u8]), ParseError>,
    expected: Result<(RespValue, int), ParseError>,
    input: Seq<u8>,
) -> bool {
    match expected {
        Ok((v, k)) => {
            &&& r matches Ok((frame, rest))
            &&& frame@ == v
            &&& rest@ == input.skip(k)
            &&& 0 < k <= input.len()
            &&& v.is_wire_value()
        },
        Err(e) => r matches Err(err) && err == e,
    }
}

/// At most one index is the first terminator.
pub proof fn lemma_first_crlf_unique(s: Seq<u8>, a: int, b: int)
    requires
        first_crlf(s, a),
        first_crlf(s, b),
    ensures
        a == b,
{
    if a < b {
        assert(!crlf_at(s, a));
    } else if b < a {
        assert(!crlf_at(s, b));
    }
}

/// Naming the first terminator fixes where the line ends.
pub proof fn lemma_line_end_is(s: Seq<u8>, i: int)
    requires
        first_crlf(s, i),
    ensures
        line_end(s) == Some(i),
{
    let c = choose|k: int| first_crlf(s, k);
    lemma_first_crlf_unique(s, c, i);
}

/// Without a terminator there is no line.
pub proof fn lemma_line_end_none(s: Seq<u8>)
    requires
        no_crlf(s),
    ensures
        line_end(s) is None,
{
    if exists|i: int| first_crlf(s, i) {
        let c = choose|k: int| first_crlf(s, k);
        assert(crlf_at(s, c));
    }
}

/// What is known of a line's end: it lies inside the input and the line holds no terminator.
pub proof fn lemma_line_end_bounds(s: Seq<u8>)
    ensures
        line_end(s) matches Some(e) ==> first_crlf(s, e) && 0 <= e && e + 2 <= s.len() && no_crlf(
            s.take(e),
        ),
        line_end(s) is None ==> no_crlf(s),
{
    match line_end(s) {
        Some(e) => {
            assert(first_crlf(s, e));
            assert forall|j: int| !crlf_at(s.take(e), j) by {
                if crlf_at(s.take(e), j) {
                    assert(crlf_at(s, j));
                }
            }
        },
        None => {
            assert forall|j: int| !crlf_at(s, j) by {
                if crlf_at(s, j) {
                    lemma_some_first_crlf(s, j);
                }
            }
        },
    }
}

/// Where some terminator exists, a first one exists.
pub proof fn lemma_some_first_crlf(s: Seq<u8>, j: int)
    requires
        crlf_at(s, j),
    ensures
        exists|i: int| first_crlf(s, i),
    decreases j,
{
    if forall|k: int| 0 <= k < j ==> !crlf_at(s, k) {
        assert(first_crlf(s, j));
    } else {
        let k = choose|k: int| 0 <= k < j && crlf_at(s, k);
        lemma_some_first_crlf(s, k);
    }
}

pub struct Parser {}

impl Parser {
    /// Splits the input at its first line terminator: the line before it and
    /// the bytes behind it.
    pub fn parse_until_crlf<'a>(input: &'a [u8]) -> (r: Result<(&'a [u8], &'a [u8]), ParseError>)
        ensures
            match line_end(input@) {
                Some(e) => r matches Ok((line, rest)) && line@ == input@.take(e) && rest@
                    == input@.skip(e + 2) && 0 <= e && e + 2 <= input@.len() && no_crlf(line@),
                None => r matches Err(err) && err == ParseError::CRLFNotFound,
            },
    {
        let n: usize = input.len();
        if n < 2 {
            proof {
                assert forall|j: int| !crlf_at(input@, j) by {}
                lemma_line_end_none(input@);
            }
            return Err(ParseError::CRLFNotFound);
        }
        let mut i: usize = 0;
        while i < n - 1
            invariant
                n == input@.len(),
                n >= 2,
                0 <= i <= n - 1,
                forall|j: int| 0 <= j < i ==> !crlf_at(input@, j),
            decreases n - i,
        {
            if input[i] == CR && input[i + 1] == LF {
                proof {
                    assert(first_crlf(input@, i as int));
                    lemma_line_end_is(input@, i as int);
                    lemma_line_end_bounds(input@);
                }
                let line = slice_subrange(input, 0, i);
                let rest = slice_subrange(input, i + 2, n);
                assert(line@ =~= input@.take(i as int));
                assert(rest@ =~= input@.skip(i + 2));
                return Ok((line, rest));
            }
            i = i + 1;
        }
        proof {
            assert forall|j: int| !crlf_at(input@, j) by {}
            lemma_line_end_none(input@);
        }
        Err(ParseError::CRLFNotFound)
    }

    /// Parses one frame from the front of `input` and hands back the bytes
    /// behind it untouched.
    pub fn parse_resp<'a>(input: &'a [u8]) -> (r: Result<(RespType, &'a [u8]), ParseError>)
        ensures
            parse_matches(r, spec_parse_resp(input@), input@),
        decreases input@.len(), 1nat,
    {
        if input.len() == 0 {
            return Err(ParseError::IncompleteInput);
        }
        let symbol: u8 = input[0];
        let remaining = slice_subrange(input, 1, input.len());
        assert(remaining@ =~= input@.skip(1));
        let r = if symbol == PLUS {
            Self::parse_simple_string(remaining)
        } else if symbol == MINUS {
            Self::parse_simple_error(remaining)
        } else if symbol == DOLLAR {
            Self::parse_bulk_string(remaining)
        } else if symbol == COLON {
            Self::parse_integer(remaining)
        } else if symbol == STAR {
            Self::parse_array(remaining)
        } else {
            return Err(ParseError::UnkownSymbol);
        };
        match r {
            Ok((frame, rest)) => {
                proof {
                    let k = spec_parse_resp(input@)->Ok_0.1;
                    assert(input@.skip(1).skip(k - 1) =~= input@.skip(k));
                }
                Ok((frame, rest))
            },
            Err(e) => Err(e),
        }
    }

    /// Parses a simple string after its tag.
    pub fn parse_simple_string<'a>(input: &'a [u8]) -> (r: Result<(RespType, &'a [u8]), ParseError>)
        ensures
            parse_matches(r, spec_parse_simple_string(input@), input@),
    {
        match Self::parse_until_crlf(input) {
            Ok((line, rest)) => Ok((RespType::SimpleString(vstd::slice::slice_to_vec(line)), rest)),
            Err(_) => Err(ParseError::IncompleteInput),
        }
    }

    /// Parses a simple error after its tag.
    pub fn parse_simple_error<'a>(input: &'a [u8]) -> (r: Result<(RespType, &'a [u8]), ParseError>)
        ensures
            parse_matches(r, spec_parse_simple_error(input@), input@),
    {
        match Self::parse_until_crlf(input) {
            Ok((line, rest)) => Ok((RespType::SimpleError(vstd::slice::slice_to_vec(line)), rest)),
            Err(_) => Err(ParseError::IncompleteInput),
        }
    }

    /// Parses a bulk string after its tag. The payload is taken by its
    /// length, so it may hold any byte.
    pub fn parse_bulk_string<'a>(input: &'a [u8]) -> (r: Result<(RespType, &'a [u8]), ParseError>)
        ensures
            parse_matches(r, spec_parse_bulk_string(input@), input@),
    {
        let (line, rest) = match Self::parse_until_crlf(input) {
            Ok(pair) => pair,
            Err(_) => {
                return Err(ParseError::IncompleteInput);
            },
        };
        let ghost e = line_end(input@)->0;
        if line.len() == 2 && line[0] == MINUS && line[1] == DIGIT_ONE {
            assert(line@ =~= minus_one());
            return Ok((RespType::Null, rest));
        }
        let n: usize = match read_unsigned(line, usize::MAX as u128) {
            Some(n) => n as usize,
            None => {
                return Err(ParseError::InvalidInput);
            },
        };
        if rest.len() < 2 || rest.len() - 2 < n {
            return Err(ParseError::IncompleteInput);
        }
        if rest[n] != CR || rest[n + 1] != LF {
            return Err(ParseError::InvalidInput);
        }
        let data = slice_subrange(rest, 0, n);
        let remaining = slice_subrange(rest, n + 2, rest.len());
        proof {
            assert(data@ =~= input@.subrange(e + 2, e + 2 + n));
            assert(remaining@ =~= input@.skip(e + 2 + n + 2));
        }
        Ok((RespType::BulkString(vstd::slice::slice_to_vec(data)), remaining))
    }

    /// Parses an integer after its tag.
    pub fn parse_integer<'a>(input: &'a [u8]) -> (r: Result<(RespType, &'a [u8]), ParseError>)
        ensures
            parse_matches(r, spec_parse_integer(input@), input@),
    {
        let (line, rest) = match Self::parse_until_crlf(input) {
            Ok(pair) => pair,
            Err(_) => {
                return Err(ParseError::IncompleteInput);
            },
        };
        match read_i64(line) {
            Some(num) => Ok((RespType::Integer(num), rest)),
            None => Err(ParseError::InvalidInput),
        }
    }

    /// Parses an array after its tag: the count, and that many frames one
    /// after the other.
    pub fn parse_array<'a>(input: &'a [u8]) -> (r: Result<(RespType, &'a [u8]), ParseError>)
        ensures
            parse_matches(r, spec_parse_array(input@), input@),
        decreases input@.len(), 0nat,
    {
        let (line, rest) = match Self::parse_until_crlf(input) {
            Ok(pair) => pair,
            Err(_) => {
                return Err(ParseError::IncompleteInput);
            },
        };
        let ghost e = line_end(input@)->0;
        if line.len() == 2 && line[0] == MINUS && line[1] == DIGIT_ONE {
            assert(line@ =~= minus_one());
            return Ok((RespType::Null, rest));
        }
        let count: usize = match read_unsigned(line, usize::MAX as u128) {
            Some(n) => n as usize,
            None => {
                return Err(ParseError::InvalidInput);
            },
        };
        let ghost start = rest@;
        let mut elements: Vec<RespType> = Vec::new();
        let mut remaining: &'a [u8] = rest;
        let mut done: usize = 0;
        let ghost mut used: int = 0;
        assert(start.skip(0) =~= start);
        assert(views(elements@) =~= Seq::<RespValue>::empty());
        while done < count
            invariant
                0 <= done <= count,
                elements@.len() == done,
                spec_parse_array(input@) == match spec_parse_items(start, count as nat) {
                    Ok((vs, m)) => Ok::<(RespValue, int), ParseError>(
                        (RespValue::Array(vs), e + 2 + m),
                    ),
                    Err(err) => Err(err),
                },
                0 <= used <= start.len(),
                start.len() < input@.len(),
                remaining@ == start.skip(used),
                forall|j: int| 0 <= j < done ==> (#[trigger] elements@[j])@.is_wire_value(),
                spec_parse_items(start, count as nat) == match spec_parse_items(
                    remaining@,
                    (count - done) as nat,
                ) {
                    Ok((vs, m)) => Ok::<(Seq<RespValue>, int), ParseError>(
                        (views(elements@) + vs, used + m),
                    ),
                    Err(err) => Err(err),
                },
            decreases count - done,
        {
            let ghost before = remaining@;
            let ghost prior = views(elements@);
            match Self::parse_resp(remaining) {
                Ok((el, rem)) => {
                    proof {
                        let k = spec_parse_resp(before)->Ok_0.1;
                        let v = spec_parse_resp(before)->Ok_0.0;
                        assert(start.skip(used).skip(k) =~= start.skip(used + k));
                        assert(views(elements@.push(el)) =~= prior.push(v));
                        match spec_parse_items(before.skip(k), (count - done - 1) as nat) {
                            Ok((vs, m)) => {
                                assert(prior + (seq![v] + vs) =~= prior.push(v) + vs);
                            },
                            Err(_) => {},
                        }
                        used = used + k;
                    }
                    elements.push(el);
                    remaining = rem;
                },
                Err(err) => {
                    assert(spec_parse_items(before, (count - done) as nat) == Err::<
                        (Seq<RespValue>, int),
                        ParseError,
                    >(err));
                    return Err(err);
                },
            }
            done = done + 1;
        }
        proof {
            lemma_view_array(elements);
            assert(views(elements@) + Seq::<RespValue>::empty() =~= views(elements@));
            assert(input@.skip(e + 2).skip(used) =~= input@.skip(e + 2 + used));
            let vs = views(elements@);
            assert forall|i: int| 0 <= i < vs.len() implies (#[trigger] vs[i]).is_wire_value() by {
                assert(elements@[i]@.is_wire_value());
            }
        }
        Ok((RespType::Array(elements), remaining))
    }
}

} // verus!
