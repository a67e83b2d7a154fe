use redis_lite::decimal::{nat_to_bytes, push_int, read_i64, read_nat, read_unsigned};
use redis_lite::parser::{ParseError, Parser};
use redis_lite::resp::RespType;

fn bulk(s: &str) -> RespType {
    RespType::BulkString(s.as_bytes().to_vec())
}

fn same(a: &RespType, b: &RespType) -> bool {
    match (a, b) {
        (RespType::SimpleString(x), RespType::SimpleString(y)) => x == y,
        (RespType::SimpleError(x), RespType::SimpleError(y)) => x == y,
        (RespType::Integer(x), RespType::Integer(y)) => x == y,
        (RespType::BulkString(x), RespType::BulkString(y)) => x == y,
        (RespType::WildCard(x), RespType::WildCard(y)) => x == y,
        (RespType::Null, RespType::Null) => true,
        (RespType::Array(x), RespType::Array(y)) => {
            x.len() == y.len() && x.iter().zip(y.iter()).all(|(p, q)| same(p, q))
        }
        _ => false,
    }
}

fn sample_values() -> Vec<RespType> {
    vec![
        RespType::SimpleString(b"PONG".to_vec()),
        RespType::SimpleString(Vec::new()),
        RespType::SimpleString(b"ends with cr\r".to_vec()),
        RespType::SimpleError(b"ERR something went wrong".to_vec()),
        RespType::Integer(0),
        RespType::Integer(-1),
        RespType::Integer(i64::MAX),
        RespType::Integer(i64::MIN),
        RespType::BulkString(Vec::new()),
        RespType::BulkString(b"line one\r\nline two\0\xff".to_vec()),
        RespType::Null,
        RespType::Array(Vec::new()),
        RespType::Array(vec![bulk("SET"), bulk("k"), bulk("v"), RespType::Null]),
        RespType::Array(vec![
            RespType::Array(vec![bulk("1-0"), RespType::Array(vec![bulk("f"), bulk("v")])]),
            RespType::Integer(7),
        ]),
    ]
}

#[test]
fn serialize_simple_string() {
    let v = RespType::SimpleString(b"PONG".to_vec());
    assert_eq!(v.serialize(), b"+PONG\r\n".to_vec());
}

#[test]
fn serialize_simple_error_is_the_line_behind_a_minus() {
    let v = RespType::SimpleError(b"ERR unknown".to_vec());
    assert_eq!(v.serialize(), b"-ERR unknown\r\n".to_vec());
}

#[test]
fn serialize_integer() {
    assert_eq!(RespType::Integer(-42).serialize(), b":-42\r\n".to_vec());
    assert_eq!(RespType::Integer(0).serialize(), b":0\r\n".to_vec());
    assert_eq!(
        RespType::Integer(i64::MIN).serialize(),
        b":-9223372036854775808\r\n".to_vec()
    );
}

#[test]
fn serialize_bulk_string() {
    assert_eq!(bulk("hello").serialize(), b"$5\r\nhello\r\n".to_vec());
    assert_eq!(bulk("").serialize(), b"$0\r\n\r\n".to_vec());
}

#[test]
fn serialize_null_and_raw() {
    assert_eq!(RespType::Null.serialize(), b"$-1\r\n".to_vec());
    assert_eq!(RespType::WildCard(b"*0\r\n".to_vec()).serialize(), b"*0\r\n".to_vec());
    assert_eq!(RespType::WildCard(Vec::new()).serialize(), Vec::<u8>::new());
}

#[test]
fn serialize_array_of_bulks() {
    let v = RespType::Array(vec![bulk("SET"), bulk("k"), bulk("v")]);
    assert_eq!(v.serialize(), b"*3\r\n$3\r\nSET\r\n$1\r\nk\r\n$1\r\nv\r\n".to_vec());
}

#[test]
fn parse_ping_array() {
    let input = b"*1\r\n$4\r\nPING\r\n";
    match Parser::parse_resp(input) {
        Ok((RespType::Array(items), rest)) => {
            assert_eq!(items.len(), 1);
            assert!(matches!(&items[0], RespType::BulkString(s) if s == b"PING"));
            assert!(rest.is_empty());
        }
        _ => panic!("expected an array"),
    }
}

#[test]
fn parse_leaves_the_remainder_untouched() {
    let input = b"+OK\r\n:12\r\nrest";
    let (first, rest) = Parser::parse_resp(input).unwrap();
    assert!(same(&first, &RespType::SimpleString(b"OK".to_vec())));
    assert_eq!(rest, b":12\r\nrest");
    let (second, rest) = Parser::parse_resp(rest).unwrap();
    assert!(same(&second, &RespType::Integer(12)));
    assert_eq!(rest, b"rest");
}

#[test]
fn parse_null_keeps_what_follows() {
    let (v, rest) = Parser::parse_resp(b"$-1\r\n+OK\r\n").unwrap();
    assert!(same(&v, &RespType::Null));
    assert_eq!(rest, b"+OK\r\n");
    let (v, rest) = Parser::parse_resp(b"*-1\r\nxyz").unwrap();
    assert!(same(&v, &RespType::Null));
    assert_eq!(rest, b"xyz");
}

#[test]
fn parse_bulk_payload_is_raw_bytes() {
    let input = b"$7\r\na\r\nb\xff\x00c\r\n";
    let (v, rest) = Parser::parse_resp(input).unwrap();
    assert!(same(&v, &RespType::BulkString(b"a\r\nb\xff\x00c".to_vec())));
    assert!(rest.is_empty());
}

#[test]
fn parse_serialize_round_trip_on_samples() {
    for v in sample_values() {
        let bytes = v.serialize();
        let (back, rest) = Parser::parse_resp(&bytes).unwrap();
        assert!(same(&back, &v));
        assert!(rest.is_empty());
    }
}

#[test]
fn parse_truncated_is_incomplete() {
    let whole = RespType::Array(vec![bulk("ECHO"), bulk("hello")]).serialize();
    for n in 0..whole.len() {
        assert_eq!(Parser::parse_resp(&whole[..n]).err(), Some(ParseError::IncompleteInput));
    }
}

#[test]
fn parse_every_prefix_of_every_sample_is_incomplete() {
    for v in sample_values() {
        let whole = v.serialize();
        for n in 0..whole.len() {
            assert_eq!(
                Parser::parse_resp(&whole[..n]).err(),
                Some(ParseError::IncompleteInput)
            );
        }
    }
}

#[test]
fn parse_unknown_symbol() {
    assert_eq!(Parser::parse_resp(b"!oops\r\n").err(), Some(ParseError::UnkownSymbol));
}

#[test]
fn parse_empty_input_is_incomplete_and_nul_is_no_tag() {
    assert_eq!(Parser::parse_resp(b"").err(), Some(ParseError::IncompleteInput));
    assert_eq!(Parser::parse_resp(b"\0\0\0").err(), Some(ParseError::UnkownSymbol));
    assert_eq!(Parser::parse_resp(b"\0+OK\r\n").err(), Some(ParseError::UnkownSymbol));
}

#[test]
fn parse_invalid_integer() {
    assert_eq!(Parser::parse_resp(b":12a\r\n").err(), Some(ParseError::InvalidInput));
    assert_eq!(Parser::parse_resp(b":\r\n").err(), Some(ParseError::InvalidInput));
    assert_eq!(Parser::parse_resp(b":-\r\n").err(), Some(ParseError::InvalidInput));
}

#[test]
fn parse_oversized_integer_is_rejected() {
    assert_eq!(
        Parser::parse_resp(b":9223372036854775808\r\n").err(),
        Some(ParseError::InvalidInput)
    );
    assert_eq!(
        Parser::parse_resp(b":-9223372036854775809\r\n").err(),
        Some(ParseError::InvalidInput)
    );
    let (v, _) = Parser::parse_resp(b":-9223372036854775808\r\n").unwrap();
    assert!(same(&v, &RespType::Integer(i64::MIN)));
}

#[test]
fn parse_integer_accepts_a_plus_sign() {
    let (v, _) = Parser::parse_resp(b":+17\r\n").unwrap();
    assert!(same(&v, &RespType::Integer(17)));
}

#[test]
fn parse_bulk_with_wrong_terminator_is_invalid() {
    assert_eq!(Parser::parse_resp(b"$3\r\nabcde\r\n").err(), Some(ParseError::InvalidInput));
    assert_eq!(Parser::parse_resp(b"$x\r\nabc\r\n").err(), Some(ParseError::InvalidInput));
    assert_eq!(Parser::parse_resp(b"$-2\r\n").err(), Some(ParseError::InvalidInput));
}

#[test]
fn parse_bulk_shorter_than_announced_is_incomplete() {
    assert_eq!(Parser::parse_resp(b"$5\r\nab\r\n").err(), Some(ParseError::IncompleteInput));
}

#[test]
fn parse_array_stops_at_the_first_bad_item() {
    assert_eq!(Parser::parse_resp(b"*2\r\n+a\r\n?b\r\n").err(), Some(ParseError::UnkownSymbol));
    assert_eq!(Parser::parse_resp(b"*2\r\n+a\r\n").err(), Some(ParseError::IncompleteInput));
}

#[test]
fn parse_until_crlf_splits_at_the_first_terminator() {
    let (line, rest) = Parser::parse_until_crlf(b"+FULLRESYNC abc 0\r\n$3\r\nabc").unwrap();
    assert_eq!(line, b"+FULLRESYNC abc 0");
    assert_eq!(rest, b"$3\r\nabc");
}

#[test]
fn parse_until_crlf_without_terminator() {
    assert_eq!(Parser::parse_until_crlf(b"no end").err(), Some(ParseError::CRLFNotFound));
    assert_eq!(Parser::parse_until_crlf(b"").err(), Some(ParseError::CRLFNotFound));
    assert_eq!(Parser::parse_until_crlf(b"\r").err(), Some(ParseError::CRLFNotFound));
}

#[test]
fn parse_error_messages() {
    assert_eq!(ParseError::InvalidInput.message(), "ERROR: Invalid Input");
    assert_eq!(ParseError::IncompleteInput.message(), "ERROR: Incomplete Input");
    assert_eq!(ParseError::CRLFNotFound.message(), "ERROR: CRLF Not Found");
    assert_eq!(ParseError::UnkownSymbol.message(), "ERROR: Unkonwn Symbol");
}

#[test]
fn clone_keeps_the_frame() {
    for v in sample_values() {
        assert!(same(&v.clone(), &v));
    }
}

#[test]
fn decimal_reads_and_writes() {
    assert_eq!(nat_to_bytes(0), b"0".to_vec());
    assert_eq!(nat_to_bytes(16384), b"16384".to_vec());
    assert_eq!(
        nat_to_bytes(u128::MAX),
        b"340282366920938463463374607431768211455".to_vec()
    );
    let mut out = b"x".to_vec();
    push_int(-120, &mut out);
    assert_eq!(out, b"x-120".to_vec());
    assert_eq!(read_nat(b"007", 10), Some(7));
    assert_eq!(read_nat(b"11", 10), None);
    assert_eq!(read_nat(b"", 10), None);
    assert_eq!(read_nat(b"+1", 10), None);
    assert_eq!(read_unsigned(b"+1", 10), Some(1));
    assert_eq!(read_unsigned(b"-1", 10), None);
    assert_eq!(
        read_unsigned(b"340282366920938463463374607431768211455", u128::MAX),
        Some(u128::MAX)
    );
    assert_eq!(read_unsigned(b"340282366920938463463374607431768211456", u128::MAX), None);
    assert_eq!(read_i64(b"-0"), Some(0));
    assert_eq!(read_i64(b"+9223372036854775807"), Some(i64::MAX));
    assert_eq!(read_i64(b"--1"), None);
}
