use redis_lite::cmd::xread::XRead;
use redis_lite::cmd::Outcome;
use redis_lite::config::{Config, ReplicaInfo, Role};
use redis_lite::resp::RespType;
use redis_lite::server::Server;
use redis_lite::slave_meta::PeerAddr;
use redis_lite::stream_entry::{StreamEntry, StreamError, StreamID, XAddId};

fn master() -> Server {
    Server::new(Config {
        service_port: 6379,
        replica_of: ReplicaInfo {
            role: Role::Master,
            master_replid: b"id".to_vec(),
            master_repl_offset: 0,
        },
        parameters: Vec::new(),
    })
}

fn frame(words: &[&str]) -> Vec<u8> {
    RespType::Array(words.iter().map(|w| RespType::BulkString(w.as_bytes().to_vec())).collect())
        .serialize()
}

fn run(server: &mut Server, words: &[&str], wall_ms: u128) -> Outcome {
    let input = frame(words);
    let (mut outs, used) =
        server.handle_client(&input, PeerAddr { host: 1, port: 1 }, 0, wall_ms);
    assert_eq!(used, input.len());
    assert_eq!(outs.len(), 1);
    outs.remove(0)
}

fn reply(server: &mut Server, words: &[&str], wall_ms: u128) -> Vec<u8> {
    match run(server, words, wall_ms) {
        Outcome::Reply(r) => r.serialize(),
        Outcome::Publish { reply, .. } => reply.serialize(),
        _ => panic!("the command asked to wait"),
    }
}

fn fields(pairs: &[(&str, &str)]) -> Vec<(Vec<u8>, Vec<u8>)> {
    pairs.iter().map(|(k, v)| (k.as_bytes().to_vec(), v.as_bytes().to_vec())).collect()
}

#[test]
fn stream_id_spellings_for_ranges() {
    assert_eq!(StreamID::to_xrange(b"-"), Some(StreamID { millis: 0, seq: 0 }));
    assert_eq!(StreamID::to_xrange(b"+"), Some(StreamID { millis: u128::MAX, seq: u64::MAX }));
    assert_eq!(StreamID::to_xrange(b"15"), Some(StreamID { millis: 15, seq: 0 }));
    assert_eq!(StreamID::to_xrange(b"15-3"), Some(StreamID { millis: 15, seq: 3 }));
    for bad in [&b""[..], b"a", b"1-", b"-1", b"1-2-3", b"1-*", b"*", b"$"] {
        assert_eq!(StreamID::to_xrange(bad), None);
    }
}

#[test]
fn stream_id_spellings_for_reads() {
    let last = StreamID { millis: 7, seq: 9 };
    assert_eq!(StreamID::to_xread(b"$", &last), Some(last));
    assert_eq!(StreamID::to_xread(b"5", &last), Some(StreamID { millis: 5, seq: 0 }));
    assert_eq!(StreamID::to_xread(b"5-6", &last), Some(StreamID { millis: 5, seq: 6 }));
    assert_eq!(StreamID::to_xread(b"-", &last), None);
    assert_eq!(StreamID::to_xread(b"x-1", &last), None);
}

#[test]
fn stream_id_spellings_for_appends() {
    assert_eq!(StreamID::to_xadd_at(b"*", 1234), Some(XAddId::OpenSeq(1234)));
    assert_eq!(StreamID::to_xadd_at(b"5-*", 1234), Some(XAddId::OpenSeq(5)));
    assert_eq!(
        StreamID::to_xadd_at(b"5-6", 1234),
        Some(XAddId::Explicit(StreamID { millis: 5, seq: 6 }))
    );
    assert_eq!(
        StreamID::to_xadd_at(b"5-18446744073709551615", 1234),
        Some(XAddId::Explicit(StreamID { millis: 5, seq: u64::MAX }))
    );
    for bad in [&b"5"[..], b"", b"*-1", b"5-6-7", b"-", b"+", b"5-"] {
        assert_eq!(StreamID::to_xadd_at(bad, 1234), None);
    }
    assert_eq!(StreamID { millis: 12, seq: 0 }.render(), b"12-0".to_vec());
    assert!(matches!(StreamID::to_xadd(b"*"), Some(XAddId::OpenSeq(t)) if t > 1_600_000_000_000));
}

#[test]
fn append_chooses_sequence_numbers() {
    let mut s = StreamEntry::new();
    assert_eq!(s.append_stream_at(b"0-*", fields(&[("a", "1")]), 99), Ok(b"0-1".to_vec()));
    assert_eq!(s.append_stream_at(b"0-*", fields(&[("a", "2")]), 99), Ok(b"0-2".to_vec()));
    assert_eq!(s.append_stream_at(b"5-*", fields(&[("a", "3")]), 99), Ok(b"5-0".to_vec()));
    assert_eq!(s.append_stream_at(b"5-*", fields(&[("a", "4")]), 99), Ok(b"5-1".to_vec()));
    assert_eq!(s.append_stream_at(b"5-7", fields(&[("a", "5")]), 99), Ok(b"5-7".to_vec()));
    assert_eq!(s.append_stream_at(b"*", fields(&[("a", "6")]), 99), Ok(b"99-0".to_vec()));
    assert_eq!(s.append_stream_at(b"*", fields(&[("a", "7")]), 99), Ok(b"99-1".to_vec()));
    assert_eq!(s.last_stream_id, StreamID { millis: 99, seq: 1 });
    assert_eq!(s.entries.len(), 7);
}

#[test]
fn append_refuses_what_does_not_grow_and_changes_nothing() {
    let mut s = StreamEntry::new();
    assert_eq!(s.append_stream_at(b"0-0", fields(&[]), 1), Err(StreamError::ZeroId));
    assert_eq!(s.entries.len(), 0);
    assert_eq!(s.append_stream_at(b"5-5", fields(&[("a", "1")]), 1), Ok(b"5-5".to_vec()));
    for bad in [&b"5-5"[..], b"5-4", b"4-9", b"4-*", b"1-1"] {
        assert_eq!(
            s.append_stream_at(bad, fields(&[("b", "2")]), 1),
            Err(StreamError::NonMonotonicId)
        );
    }
    assert_eq!(s.append_stream_at(b"*", fields(&[]), 4), Err(StreamError::NonMonotonicId));
    assert_eq!(s.append_stream_at(b"0-0", fields(&[]), 1), Err(StreamError::ZeroId));
    assert_eq!(s.append_stream_at(b"nope", fields(&[]), 1), Err(StreamError::InvalidId));
    assert_eq!(s.entries.len(), 1);
    assert_eq!(s.last_stream_id, StreamID { millis: 5, seq: 5 });
    assert_eq!(s.append_stream_at(b"*", fields(&[]), 5), Ok(b"5-6".to_vec()));
}

#[test]
fn append_when_the_sequence_numbers_are_used_up() {
    let mut s = StreamEntry::new();
    assert_eq!(
        s.append_stream_at(b"5-18446744073709551614", fields(&[]), 1),
        Ok(b"5-18446744073709551614".to_vec())
    );
    assert_eq!(
        s.append_stream_at(b"5-*", fields(&[]), 1),
        Ok(b"5-18446744073709551615".to_vec())
    );
    assert_eq!(s.append_stream_at(b"5-*", fields(&[]), 1), Err(StreamError::NonMonotonicId));
    assert_eq!(s.append_stream_at(b"6-*", fields(&[]), 1), Ok(b"6-0".to_vec()));
}

#[test]
fn stream_error_messages() {
    assert_eq!(
        StreamError::ZeroId.message(),
        "The ID specified in XADD must be greater than 0-0"
    );
    assert_eq!(
        StreamError::NonMonotonicId.message(),
        "The ID specified in XADD is equal or smaller than the target stream top item"
    );
}

#[test]
fn xadd_replies_and_errors() {
    let mut s = master();
    assert_eq!(reply(&mut s, &["XADD", "s", "1-1", "f", "v"], 0), b"$3\r\n1-1\r\n".to_vec());
    assert_eq!(
        reply(&mut s, &["XADD", "s", "1-1", "f", "v"], 0),
        b"-ERR The ID specified in XADD is equal or smaller than the target stream top item\r\n"
            .to_vec()
    );
    assert_eq!(
        reply(&mut s, &["XADD", "s", "0-0", "f", "v"], 0),
        b"-ERR The ID specified in XADD must be greater than 0-0\r\n".to_vec()
    );
    assert_eq!(
        reply(&mut s, &["XADD", "s", "abc", "f", "v"], 0),
        b"-ERR Invalid stream ID specified as stream command argument\r\n".to_vec()
    );
    assert_eq!(
        reply(&mut s, &["XADD", "fresh", "0-0", "f", "v"], 0),
        b"-ERR The ID specified in XADD must be greater than 0-0\r\n".to_vec()
    );
    assert_eq!(s.streams.list.len(), 1);
    assert_eq!(reply(&mut s, &["TYPE", "fresh"], 0), b"+none\r\n".to_vec());
}

#[test]
fn xadd_hands_the_entry_on() {
    let mut s = master();
    match run(&mut s, &["XADD", "s", "3-*", "temp", "20", "hum", "7"], 0) {
        Outcome::Publish { reply, key, entry } => {
            assert_eq!(reply.serialize(), b"$3\r\n3-0\r\n".to_vec());
            assert_eq!(key, b"s".to_vec());
            assert_eq!(
                entry.serialize(),
                b"*2\r\n$3\r\n3-0\r\n*4\r\n$4\r\ntemp\r\n$2\r\n20\r\n$3\r\nhum\r\n$1\r\n7\r\n"
                    .to_vec()
            );
        }
        _ => panic!("expected an entry to hand on"),
    }
}

#[test]
fn two_appends_then_range() {
    let mut s = master();
    assert_eq!(reply(&mut s, &["XADD", "s", "*", "f1", "v1"], 1000), b"$6\r\n1000-0\r\n".to_vec());
    assert_eq!(reply(&mut s, &["XADD", "s", "*", "f2", "v2"], 1000), b"$6\r\n1000-1\r\n".to_vec());
    assert_eq!(
        reply(&mut s, &["XRANGE", "s", "-", "+"], 0),
        b"*2\r\n*2\r\n$6\r\n1000-0\r\n*2\r\n$2\r\nf1\r\n$2\r\nv1\r\n*2\r\n$6\r\n1000-1\r\n*2\r\n$2\r\nf2\r\n$2\r\nv2\r\n"
            .to_vec()
    );
}

#[test]
fn xrange_bounds_are_inclusive() {
    let mut s = master();
    for id in ["1-1", "1-2", "2-0", "2-5", "3-1"] {
        reply(&mut s, &["XADD", "s", id, "k", id], 0);
    }
    let ids = |out: Vec<u8>| -> Vec<String> {
        let text = String::from_utf8(out).unwrap();
        text.split("\r\n").filter(|l| l.contains('-') && !l.starts_with('$')).map(String::from)
            .collect::<Vec<_>>().chunks(2).map(|c| c[0].clone()).collect()
    };
    assert_eq!(ids(reply(&mut s, &["XRANGE", "s", "1-2", "2-5"], 0)), vec!["1-2", "2-0", "2-5"]);
    assert_eq!(ids(reply(&mut s, &["XRANGE", "s", "2", "3"], 0)), vec!["2-0", "2-5"]);
    assert_eq!(ids(reply(&mut s, &["XRANGE", "s", "-", "1-1"], 0)), vec!["1-1"]);
    assert_eq!(ids(reply(&mut s, &["XRANGE", "s", "2-6", "+"], 0)), vec!["3-1"]);
    assert_eq!(reply(&mut s, &["XRANGE", "s", "9", "+"], 0), b"*0\r\n".to_vec());
    assert_eq!(reply(&mut s, &["XRANGE", "none", "-", "+"], 0), b"*0\r\n".to_vec());
    assert_eq!(
        reply(&mut s, &["XRANGE", "s", "x", "+"], 0),
        b"-ERR Invalid stream ID specified as stream command argument\r\n".to_vec()
    );
}

#[test]
fn xread_returns_entries_strictly_behind_the_id() {
    let mut s = master();
    reply(&mut s, &["XADD", "a", "1-1", "k", "v1"], 0);
    reply(&mut s, &["XADD", "a", "1-2", "k", "v2"], 0);
    reply(&mut s, &["XADD", "b", "5-0", "k", "w"], 0);
    assert_eq!(
        reply(&mut s, &["XREAD", "streams", "a", "1-1"], 0),
        b"*1\r\n*2\r\n$1\r\na\r\n*1\r\n*2\r\n$3\r\n1-2\r\n*2\r\n$1\r\nk\r\n$2\r\nv2\r\n".to_vec()
    );
    assert_eq!(
        reply(&mut s, &["XREAD", "STREAMS", "a", "b", "none", "1-2", "4", "0"], 0),
        b"*2\r\n*2\r\n$1\r\na\r\n*0\r\n*2\r\n$1\r\nb\r\n*1\r\n*2\r\n$3\r\n5-0\r\n*2\r\n$1\r\nk\r\n$1\r\nw\r\n"
            .to_vec()
    );
    assert_eq!(reply(&mut s, &["XREAD", "streams", "a", "1-2"], 0), b"$-1\r\n".to_vec());
    assert_eq!(reply(&mut s, &["XREAD", "streams", "a", "$"], 0), b"$-1\r\n".to_vec());
    assert_eq!(
        reply(&mut s, &["XREAD", "streams", "a", "what"], 0),
        b"-ERR Invalid stream ID specified as stream command argument\r\n".to_vec()
    );
}

#[test]
fn xread_block_waits_where_nothing_is_there() {
    let mut s = master();
    reply(&mut s, &["XADD", "a", "1-1", "k", "v"], 0);
    match run(&mut s, &["XREAD", "block", "250", "streams", "a", "zzz", "$", "0"], 0) {
        Outcome::AwaitStreams { keys, timeout_ms } => {
            assert_eq!(keys, vec![b"a".to_vec(), b"zzz".to_vec()]);
            assert_eq!(timeout_ms, 250);
        }
        _ => panic!("expected to wait"),
    }
    match run(&mut s, &["XREAD", "block", "250", "streams", "a", "0"], 0) {
        Outcome::Reply(r) => assert!(r.serialize().starts_with(b"*1\r\n")),
        _ => panic!("expected a reply"),
    }
    let entry = RespType::Array(vec![
        RespType::BulkString(b"2-0".to_vec()),
        RespType::Array(vec![RespType::BulkString(b"k".to_vec()), RespType::BulkString(b"v".to_vec())]),
    ]);
    assert_eq!(
        XRead::on_append(b"a", entry).serialize(),
        b"*1\r\n*2\r\n$1\r\na\r\n*2\r\n$3\r\n2-0\r\n*2\r\n$1\r\nk\r\n$1\r\nv\r\n".to_vec()
    );
    assert_eq!(XRead::on_timeout().serialize(), b"$-1\r\n".to_vec());
}

#[test]
fn read_specific_id() {
    let mut s = StreamEntry::new();
    s.append_stream_at(b"1-1", fields(&[("a", "b")]), 0).unwrap();
    let (frame, found) = s.read_specific_id_as_resp(&StreamID { millis: 1, seq: 1 });
    assert!(found);
    assert_eq!(frame.serialize(), b"*2\r\n$3\r\n1-1\r\n*2\r\n$1\r\na\r\n$1\r\nb\r\n".to_vec());
    let (frame, found) = s.read_specific_id_as_resp(&StreamID { millis: 1, seq: 2 });
    assert!(!found);
    assert_eq!(frame.serialize(), b"*2\r\n$3\r\n1-2\r\n*0\r\n".to_vec());
    let (_, any) = s.query_xrange(b"-", b"+").unwrap();
    assert!(any);
    let (_, any) = s.query_xread(b"$").unwrap();
    assert!(!any);
    assert!(s.query_xread(b"?").is_none());
    assert!(s.query_xrange(b"1", b"?").is_none());
}

#[test]
fn lower_bound_finds_the_first_entry_in_reach() {
    let mut s = StreamEntry::new();
    let id = |millis: u128, seq: u64| StreamID { millis, seq };
    assert_eq!(s.lower_bound(id(0, 0), false), 0);
    for text in ["1-1", "1-2", "3-0", "3-9", "7-7"] {
        s.append_stream_at(text.as_bytes(), fields(&[("k", "v")]), 0).unwrap();
    }
    assert_eq!(s.lower_bound(id(0, 0), false), 0);
    assert_eq!(s.lower_bound(id(1, 1), false), 0);
    assert_eq!(s.lower_bound(id(1, 1), true), 1);
    assert_eq!(s.lower_bound(id(2, 0), false), 2);
    assert_eq!(s.lower_bound(id(3, 9), false), 3);
    assert_eq!(s.lower_bound(id(3, 9), true), 4);
    assert_eq!(s.lower_bound(id(7, 7), true), 5);
    assert_eq!(s.lower_bound(id(u128::MAX, u64::MAX), false), 5);
    assert!(s.check());
}

#[test]
fn range_queries_over_a_long_log() {
    let mut s = StreamEntry::new();
    for i in 1..=200u32 {
        let text = format!("{}-{}", i / 10, i % 10 + 1);
        s.append_stream_at(text.as_bytes(), fields(&[("n", "v")]), 0).unwrap();
    }
    let count = |start: &str, end: &str| -> usize {
        match s.query_xrange(start.as_bytes(), end.as_bytes()).unwrap().0 {
            RespType::Array(items) => items.len(),
            _ => panic!("expected an array"),
        }
    };
    assert_eq!(count("-", "+"), 200);
    assert_eq!(count("5", "5-99"), 10);
    assert_eq!(count("5-3", "6-2"), 10);
    assert_eq!(count("20-1", "20-1"), 1);
    assert_eq!(count("9", "3"), 0);
    assert_eq!(count("21", "+"), 0);
    match s.query_xread(b"19-10").unwrap() {
        (RespType::Array(items), any) => {
            assert_eq!(items.len(), 1);
            assert!(any);
        }
        _ => panic!("expected an array"),
    }
}

#[test]
fn the_greatest_sequence_number_can_be_given() {
    let mut s = StreamEntry::new();
    assert_eq!(
        s.append_stream_at(b"5-18446744073709551615", fields(&[("a", "1")]), 1),
        Ok(b"5-18446744073709551615".to_vec())
    );
    assert_eq!(s.last_stream_id, StreamID { millis: 5, seq: u64::MAX });
    assert_eq!(s.append_stream_at(b"5-*", fields(&[]), 1), Err(StreamError::NonMonotonicId));
    assert_eq!(
        s.append_stream_at(b"5-18446744073709551615", fields(&[]), 1),
        Err(StreamError::NonMonotonicId)
    );
    assert_eq!(s.append_stream_at(b"6-*", fields(&[]), 1), Ok(b"6-0".to_vec()));
    let mut t = StreamEntry::new();
    assert_eq!(
        t.update_id(XAddId::Explicit(StreamID { millis: 0, seq: u64::MAX })),
        Some(StreamID { millis: 0, seq: u64::MAX })
    );
    assert_eq!(t.update_id(XAddId::OpenSeq(0)), Some(StreamID { millis: 0, seq: 1 }));
    assert_eq!(t.update_id(XAddId::OpenSeq(9)), Some(StreamID { millis: 9, seq: 0 }));
    t.append_stream_at(b"9-4", fields(&[]), 1).unwrap();
    assert_eq!(t.update_id(XAddId::OpenSeq(9)), Some(StreamID { millis: 9, seq: 5 }));
}
