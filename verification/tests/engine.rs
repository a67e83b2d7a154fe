use redis_lite::cmd::cmd_builder::{CmdBuilder, Command};
use redis_lite::cmd::{CmdError, CmdType, Outcome};
use redis_lite::command::Cmd;
use redis_lite::config::{Config, ReplicaInfo, Role};
use redis_lite::resp::RespType;
use redis_lite::server::Server;
use redis_lite::slave_meta::PeerAddr;

fn master() -> Server {
    Server::new(Config {
        service_port: 6379,
        replica_of: ReplicaInfo {
            role: Role::Master,
            master_replid: b"8371b4fb1155b71f4a04d3e1bc3e18c4a990aeeb".to_vec(),
            master_repl_offset: 0,
        },
        parameters: vec![(b"dir".to_vec(), b"/tmp/redis-files".to_vec())],
    })
}

fn peer(port: u16) -> PeerAddr {
    PeerAddr { host: 0x7f00_0001, port }
}

fn frame(words: &[&str]) -> Vec<u8> {
    RespType::Array(words.iter().map(|w| RespType::BulkString(w.as_bytes().to_vec())).collect())
        .serialize()
}

fn send_at(server: &mut Server, words: &[&str], now: u64, wall_ms: u128) -> Vec<u8> {
    let input = frame(words);
    let (outs, used) = server.handle_client(&input, peer(5000), now, wall_ms);
    assert_eq!(used, input.len());
    assert_eq!(outs.len(), 1);
    match &outs[0] {
        Outcome::Reply(r) => r.serialize(),
        Outcome::Publish { reply, .. } => reply.serialize(),
        _ => panic!("the command asked to wait"),
    }
}

fn send(server: &mut Server, words: &[&str]) -> Vec<u8> {
    send_at(server, words, 0, 1)
}

#[test]
fn ping_answers_pong() {
    let mut s = master();
    assert_eq!(send(&mut s, &["PING"]), b"+PONG\r\n".to_vec());
}

#[test]
fn echo_answers_the_message() {
    let mut s = master();
    assert_eq!(send(&mut s, &["ECHO", "hello"]), b"$5\r\nhello\r\n".to_vec());
}

#[test]
fn set_then_get() {
    let mut s = master();
    assert_eq!(send(&mut s, &["SET", "k", "v"]), b"+OK\r\n".to_vec());
    assert_eq!(send(&mut s, &["GET", "k"]), b"$1\r\nv\r\n".to_vec());
}

#[test]
fn set_with_px_expires() {
    let mut s = master();
    assert_eq!(send_at(&mut s, &["SET", "k", "v", "PX", "100"], 1000, 1), b"+OK\r\n".to_vec());
    assert_eq!(send_at(&mut s, &["GET", "k"], 1150, 1), b"$-1\r\n".to_vec());
    assert_eq!(s.dict.len(), 0);
}

#[test]
fn get_before_and_at_the_end_of_the_span_returns_the_value() {
    let mut s = master();
    send_at(&mut s, &["SET", "k", "v", "px", "100"], 1000, 1);
    assert_eq!(send_at(&mut s, &["GET", "k"], 1000, 1), b"$1\r\nv\r\n".to_vec());
    assert_eq!(send_at(&mut s, &["GET", "k"], 1100, 1), b"$1\r\nv\r\n".to_vec());
    assert_eq!(s.dict.len(), 1);
    assert_eq!(send_at(&mut s, &["GET", "k"], 1101, 1), b"$-1\r\n".to_vec());
    assert_eq!(s.dict.len(), 0);
    assert_eq!(send_at(&mut s, &["GET", "k"], 1000, 1), b"$-1\r\n".to_vec());
}

#[test]
fn set_replaces_and_resets_the_span() {
    let mut s = master();
    send_at(&mut s, &["SET", "k", "old", "px", "10"], 0, 1);
    send_at(&mut s, &["SET", "k", "new"], 5, 1);
    assert_eq!(send_at(&mut s, &["GET", "k"], 10_000, 1), b"$3\r\nnew\r\n".to_vec());
    assert_eq!(s.dict.len(), 1);
}

#[test]
fn get_of_a_missing_key_is_null() {
    let mut s = master();
    assert_eq!(send(&mut s, &["GET", "nope"]), b"$-1\r\n".to_vec());
}

#[test]
fn keys_purges_and_lists_in_order() {
    let mut s = master();
    send_at(&mut s, &["SET", "b", "1"], 0, 1);
    send_at(&mut s, &["SET", "gone", "2", "px", "5"], 0, 1);
    send_at(&mut s, &["SET", "a", "3"], 0, 1);
    send_at(&mut s, &["SET", "17", "4"], 0, 1);
    assert_eq!(
        send_at(&mut s, &["KEYS", "*"], 100, 1),
        b"*3\r\n$1\r\nb\r\n$1\r\na\r\n$2\r\n17\r\n".to_vec()
    );
    assert_eq!(s.dict.len(), 3);
}

#[test]
fn type_of_string_stream_and_nothing() {
    let mut s = master();
    send_at(&mut s, &["SET", "str", "v", "px", "10"], 0, 1);
    send_at(&mut s, &["XADD", "log", "1-1", "f", "v"], 0, 1);
    assert_eq!(send_at(&mut s, &["TYPE", "str"], 5, 1), b"+string\r\n".to_vec());
    assert_eq!(send_at(&mut s, &["TYPE", "log"], 5, 1), b"+stream\r\n".to_vec());
    assert_eq!(send_at(&mut s, &["TYPE", "none"], 5, 1), b"+none\r\n".to_vec());
    assert_eq!(send_at(&mut s, &["TYPE", "str"], 11, 1), b"+none\r\n".to_vec());
    assert_eq!(s.dict.len(), 0);
}

#[test]
fn a_key_is_a_string_or_a_stream_never_both() {
    let mut s = master();
    send(&mut s, &["SET", "str", "v"]);
    send(&mut s, &["XADD", "log", "1-1", "f", "v"]);
    assert_eq!(
        send(&mut s, &["SET", "log", "v"]),
        b"-ERR Operation against a key holding the wrong kind of value\r\n".to_vec()
    );
    assert_eq!(
        send(&mut s, &["XADD", "str", "2-1", "f", "v"]),
        b"-ERR Operation against a key holding the wrong kind of value\r\n".to_vec()
    );
    assert_eq!(s.dict.len(), 1);
    assert_eq!(s.streams.list.len(), 1);
    assert_eq!(send(&mut s, &["GET", "str"]), b"$1\r\nv\r\n".to_vec());
}

#[test]
fn info_replication_of_a_master() {
    let mut s = master();
    let text = "# Replication\nrole:master\nmaster_replid:8371b4fb1155b71f4a04d3e1bc3e18c4a990aeeb\nmaster_repl_offset:0";
    let expected = format!("${}\r\n{}\r\n", text.len(), text).into_bytes();
    assert_eq!(send(&mut s, &["INFO", "replication"]), expected);
    assert_eq!(send(&mut s, &["INFO"]), expected);
    assert_eq!(send(&mut s, &["info", " ALL "]), expected);
    assert_eq!(send(&mut s, &["INFO", "keyspace"]), b"$0\r\n\r\n".to_vec());
}

#[test]
fn info_replication_of_a_replica() {
    let mut s = master();
    s.config.replica_of.role = Role::Slave { master_host: (10, 0, 0, 255), master_port: 6380 };
    s.config.replica_of.master_repl_offset = 31;
    let text = "# Replication\nrole:slave\nmaster_host:10.0.0.255\nmaster_port:6380\nmaster_replid:8371b4fb1155b71f4a04d3e1bc3e18c4a990aeeb\nmaster_repl_offset:31";
    let expected = format!("${}\r\n{}\r\n", text.len(), text).into_bytes();
    assert_eq!(send(&mut s, &["INFO", "replication"]), expected);
}

#[test]
fn config_get_known_and_unknown() {
    let mut s = master();
    assert_eq!(
        send(&mut s, &["CONFIG", "GET", " DIR "]),
        b"*2\r\n$3\r\ndir\r\n$16\r\n/tmp/redis-files\r\n".to_vec()
    );
    assert_eq!(
        send(&mut s, &["config", "get", "dbfilename"]),
        b"*2\r\n$10\r\ndbfilename\r\n$2\r\n-1\r\n".to_vec()
    );
    assert_eq!(
        send(&mut s, &["CONFIG", "SET", "dir", "x"]),
        b"-ERR ERROR: Provided command is not implemented\r\n".to_vec()
    );
}

#[test]
fn unknown_and_malformed_commands_answer_errors_and_change_nothing() {
    let mut s = master();
    assert_eq!(
        send(&mut s, &["FLUSHALL"]),
        b"-ERR ERROR: Provided command is not implemented\r\n".to_vec()
    );
    assert_eq!(
        send(&mut s, &["SET", "k"]),
        b"-ERR ERROR: Missing arguments for current command\r\n".to_vec()
    );
    assert_eq!(
        send(&mut s, &["SET", "k", "v", "PX", "soon"]),
        b"-ERR ERROR: Invalid argument type\r\n".to_vec()
    );
    assert_eq!(
        send(&mut s, &["SET", "k", "v", "PX"]),
        b"-ERR ERROR: Missing arguments for current command\r\n".to_vec()
    );
    assert_eq!(
        send(&mut s, &["SET", "k", "v", "EX", "100"]),
        b"-ERR ERROR: Invalid argument type\r\n".to_vec()
    );
    assert_eq!(
        send(&mut s, &["SET", "k", "v", "100"]),
        b"-ERR ERROR: Invalid argument type\r\n".to_vec()
    );
    assert_eq!(s.dict.len(), 0);
    let input = b"+PING\r\n".to_vec();
    let (outs, _) = s.handle_client(&input, peer(1), 0, 0);
    assert!(matches!(&outs[0], Outcome::Reply(r)
        if r.serialize() == b"-ERR ERROR: Invalid command RESP type\r\n".to_vec()));
    let input = b"*0\r\n".to_vec();
    let (outs, _) = s.handle_client(&input, peer(1), 0, 0);
    assert!(matches!(&outs[0], Outcome::Reply(r)
        if r.serialize() == b"-ERR ERROR: No commands where provided\r\n".to_vec()));
    let input = b"*1\r\n:5\r\n".to_vec();
    let (outs, _) = s.handle_client(&input, peer(1), 0, 0);
    assert!(matches!(&outs[0], Outcome::Reply(r)
        if r.serialize() == b"-ERR ERROR: Invalid command RESP type\r\n".to_vec()));
}

#[test]
fn handle_client_runs_every_whole_frame_and_keeps_the_tail() {
    let mut s = master();
    let mut input = frame(&["SET", "a", "1"]);
    input.extend_from_slice(&frame(&["GET", "a"]));
    let whole = input.len();
    input.extend_from_slice(b"*2\r\n$4\r\nECHO\r\n$5\r\nhel");
    let (outs, used) = s.handle_client(&input, peer(1), 0, 0);
    assert_eq!(used, whole);
    assert_eq!(outs.len(), 2);
    assert!(matches!(&outs[0], Outcome::Reply(r) if r.serialize() == b"+OK\r\n".to_vec()));
    assert!(matches!(&outs[1], Outcome::Reply(r) if r.serialize() == b"$1\r\n1\r\n".to_vec()));
    let (outs, used) = s.handle_client(b"", peer(1), 0, 0);
    assert_eq!((outs.len(), used), (0, 0));
}

#[test]
fn handle_client_answers_bytes_that_are_no_frame_and_drops_them() {
    let mut s = master();
    let mut input = frame(&["PING"]);
    input.extend_from_slice(b"what is this\r\n");
    let (outs, used) = s.handle_client(&input, peer(1), 0, 0);
    assert_eq!(used, input.len());
    assert_eq!(outs.len(), 2);
    assert!(matches!(&outs[1], Outcome::Reply(r)
        if r.serialize() == b"-ERR ERROR: Unkonwn Symbol\r\n".to_vec()));
}

#[test]
fn builder_reads_names_in_any_case() {
    let ping = RespType::Array(vec![RespType::BulkString(b"pInG".to_vec())]);
    assert!(matches!(CmdBuilder::from_resp(ping), Command::Ping(_)));
    let getack = RespType::Array(vec![
        RespType::BulkString(b"REPLCONF".to_vec()),
        RespType::BulkString(b"GetAck".to_vec()),
        RespType::BulkString(b"*".to_vec()),
    ]);
    assert!(matches!(CmdBuilder::from_resp(getack), Command::GetAck(_)));
    let ack = RespType::Array(vec![
        RespType::BulkString(b"replconf".to_vec()),
        RespType::BulkString(b"ACK".to_vec()),
        RespType::BulkString(b"154".to_vec()),
    ]);
    assert!(matches!(CmdBuilder::from_resp(ack), Command::Ack(a) if a.offset == 154));
    let capa = RespType::Array(vec![
        RespType::BulkString(b"REPLCONF".to_vec()),
        RespType::BulkString(b"capa".to_vec()),
        RespType::BulkString(b"psync2".to_vec()),
    ]);
    assert!(matches!(CmdBuilder::from_resp(capa), Command::ReplConf(_)));
}

#[test]
fn builder_parse_errors() {
    let e = |v: RespType| CmdBuilder::parse(&v).err();
    assert_eq!(e(RespType::Null), Some(CmdError::InvalidCmdType));
    assert_eq!(e(RespType::Array(Vec::new())), Some(CmdError::NoCmdsProvided));
    assert_eq!(e(RespType::Array(vec![RespType::Integer(1)])), Some(CmdError::InvalidCmdType));
    let words = |w: &[&str]| {
        RespType::Array(w.iter().map(|x| RespType::BulkString(x.as_bytes().to_vec())).collect())
    };
    assert_eq!(e(words(&["GET"])), Some(CmdError::MissingArgs));
    assert_eq!(e(words(&["WAIT", "x", "1"])), Some(CmdError::InvalidArg));
    assert_eq!(e(words(&["WAIT", "1"])), Some(CmdError::MissingArgs));
    assert_eq!(e(words(&["PSYNC", "?", "x"])), Some(CmdError::InvalidArg));
    assert_eq!(e(words(&["XREAD", "nope", "a", "0"])), Some(CmdError::InvalidArg));
    assert_eq!(e(words(&["XREAD", "block", "x", "streams", "a", "0"])), Some(CmdError::InvalidArg));
    assert_eq!(e(words(&["CONFIG", "SET"])), Some(CmdError::NotImplementedCmd));
    assert_eq!(e(words(&["REPLCONF"])), Some(CmdError::MissingArgs));
    assert_eq!(e(words(&["REPLCONF", "ACK", "-1"])), Some(CmdError::InvalidArg));
    assert_eq!(e(words(&["NOPE"])), Some(CmdError::NotImplementedCmd));
    assert_eq!(CmdBuilder::cmd_type(&[]).err(), Some(CmdError::NoCmdsProvided));
    assert_eq!(
        CmdBuilder::cmd_type(&[RespType::BulkString(b"GeT".to_vec())]),
        Ok(b"GeT".to_vec())
    );
}

#[test]
fn builder_reads_arguments() {
    let words = |w: &[&str]| {
        RespType::Array(w.iter().map(|x| RespType::BulkString(x.as_bytes().to_vec())).collect())
    };
    match CmdBuilder::from_resp(words(&["SET", "k", "v", "PX", "+100"])) {
        Command::SetCmd(c) => {
            assert_eq!((c.key, c.value, c.px), (b"k".to_vec(), b"v".to_vec(), Some(100)));
        }
        _ => panic!("expected SET"),
    }
    match CmdBuilder::from_resp(words(&["XADD", "s", "1-*", "a", "1", "b", "2", "a", "3", "odd"])) {
        Command::XAdd(c) => {
            assert_eq!(c.stream_key, b"s".to_vec());
            assert_eq!(c.stream_id, b"1-*".to_vec());
            assert_eq!(
                c.stream_data,
                vec![(b"a".to_vec(), b"3".to_vec()), (b"b".to_vec(), b"2".to_vec())]
            );
        }
        _ => panic!("expected XADD"),
    }
    match CmdBuilder::from_resp(words(&["XREAD", "BLOCK", "0", "STREAMS", "a", "b", "1-0", "$"])) {
        Command::XRead(c) => {
            assert_eq!(c.timeout, Some(0));
            assert_eq!(c.keys, vec![b"a".to_vec(), b"b".to_vec()]);
            assert_eq!(c.ids, vec![b"1-0".to_vec(), b"$".to_vec()]);
        }
        _ => panic!("expected XREAD"),
    }
    match CmdBuilder::from_resp(words(&["NOPE"])) {
        Command::Error(c) => {
            assert_eq!(c.err_msg, b"ERROR: Provided command is not implemented".to_vec());
            assert_eq!(c.cmd_type(), CmdType::ERR_CMD);
        }
        _ => panic!("expected an error"),
    }
}

#[test]
fn cmd_values_from_frames() {
    let words = |w: &[&str]| {
        RespType::Array(w.iter().map(|x| RespType::BulkString(x.as_bytes().to_vec())).collect())
    };
    assert!(matches!(Cmd::from_resp(words(&["PING"])), Ok(Cmd::Ping)));
    assert!(matches!(Cmd::from_resp(words(&["echo", "x"])), Ok(Cmd::Echo(m)) if m == b"x"));
    assert!(matches!(Cmd::from_resp(words(&["WAIT", "2", "500"])),
        Ok(Cmd::Wait { num_replicas: 2, timeout: 500 })));
    assert!(matches!(Cmd::from_resp(words(&["PSYNC", "?", "-1"])),
        Ok(Cmd::Psync { replid, offset: -1 }) if replid == b"?"));
    assert!(matches!(Cmd::from_resp(words(&["INFO"])), Ok(Cmd::Info(None))));
    assert_eq!(Cmd::from_resp(words(&["GET"])).err(), Some(CmdError::MissingArgs));
    assert_eq!(Cmd::from_resp(RespType::Integer(1)).err(), Some(CmdError::InvalidCmdType));
    let set = Cmd::from_resp(words(&["set", "k", "v", "px", "7"])).unwrap();
    assert_eq!(
        set.to_resp_array_of_bulks().serialize(),
        b"*5\r\n$3\r\nSET\r\n$1\r\nk\r\n$1\r\nv\r\n$2\r\npx\r\n$1\r\n7\r\n".to_vec()
    );
    let set = Cmd::from_resp(words(&["set", "k", "v"])).unwrap();
    assert_eq!(
        set.to_resp_array_of_bulks().serialize(),
        b"*3\r\n$3\r\nSET\r\n$1\r\nk\r\n$1\r\nv\r\n".to_vec()
    );
}

#[test]
fn cmd_error_messages() {
    assert_eq!(CmdError::NoCmdsProvided.message(), "ERROR: No commands where provided");
    assert_eq!(CmdError::InvalidCmdType.message(), "ERROR: Invalid command RESP type");
    assert_eq!(CmdError::MissingArgs.message(), "ERROR: Missing arguments for current command");
    assert_eq!(CmdError::InvalidArg.message(), "ERROR: Invalid argument type");
    assert_eq!(CmdError::NotImplementedCmd.message(), "ERROR: Provided command is not implemented");
}

#[test]
fn set_takes_px_in_any_case() {
    let mut s = master();
    assert_eq!(send_at(&mut s, &["SET", "a", "1", "pX", "10"], 0, 1), b"+OK\r\n".to_vec());
    assert_eq!(send_at(&mut s, &["GET", "a"], 10, 1), b"$1\r\n1\r\n".to_vec());
    assert_eq!(send_at(&mut s, &["GET", "a"], 11, 1), b"$-1\r\n".to_vec());
}

#[test]
fn bytes_that_start_with_nul_are_answered_and_dropped() {
    let mut s = master();
    let (outs, used) = s.handle_client(b"\0\0\0\0", peer(1), 0, 0);
    assert_eq!(used, 4);
    assert_eq!(outs.len(), 1);
    assert!(matches!(&outs[0], Outcome::Reply(r)
        if r.serialize() == b"-ERR ERROR: Unkonwn Symbol\r\n".to_vec()));
}
