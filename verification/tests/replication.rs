use redis_lite::cmd::wait::AckWindow;
use redis_lite::cmd::Outcome;
use redis_lite::config::{Config, ConfigError, ReplicaInfo, Role};
use redis_lite::parser::ParseError;
use redis_lite::rdb::RDBParseError;
use redis_lite::redis::{
    add_pending_update_resp, apply_all_pending_updates, apply_all_pending_updates_with,
    incr_master_repl_offset, pending_jobs, Slaves,
};
use redis_lite::replication::{Handshake, HandshakeState, HandshakeStep, ReplicationError};
use redis_lite::resp::RespType;
use redis_lite::server::Server;
use redis_lite::slave_meta::{PeerAddr, SlaveMeta, UpdateState};
use redis_lite::utils::{gen_millis, random_string, trim};

fn config(role: Role) -> Config {
    Config {
        service_port: 6380,
        replica_of: ReplicaInfo {
            role,
            master_replid: b"75cd7bc10c49047e0d163660f3b90625b1af31dc".to_vec(),
            master_repl_offset: 0,
        },
        parameters: Vec::new(),
    }
}

fn peer(port: u16) -> PeerAddr {
    PeerAddr { host: 0x7f00_0001, port }
}

fn frame(words: &[&str]) -> Vec<u8> {
    RespType::Array(words.iter().map(|w| RespType::BulkString(w.as_bytes().to_vec())).collect())
        .serialize()
}

fn reply(server: &mut Server, from: PeerAddr, words: &[&str]) -> Vec<u8> {
    let input = frame(words);
    let (outs, used) = server.handle_client(&input, from, 0, 0);
    assert_eq!(used, input.len());
    match &outs[0] {
        Outcome::Reply(r) => r.serialize(),
        Outcome::Publish { reply, .. } => reply.serialize(),
        _ => panic!("expected a reply"),
    }
}

fn args(words: &[&str]) -> Vec<Vec<u8>> {
    words.iter().map(|w| w.as_bytes().to_vec()).collect()
}

#[test]
fn set_is_staged_for_every_replica_in_order() {
    let mut m = Server::new(config(Role::Master));
    assert_eq!(reply(&mut m, peer(1), &["REPLCONF", "listening-port", "6380"]), b"+OK\r\n".to_vec());
    assert_eq!(reply(&mut m, peer(2), &["REPLCONF", "capa", "psync2"]), b"+OK\r\n".to_vec());
    assert_eq!(m.slaves.len(), 2);
    reply(&mut m, peer(9), &["SET", "k1", "v1"]);
    reply(&mut m, peer(9), &["SET", "k2", "v2", "px", "100"]);
    reply(&mut m, peer(9), &["GET", "k1"]);
    reply(&mut m, peer(9), &["XADD", "s", "1-1", "a", "b"]);
    let mut expected = frame(&["SET", "k1", "v1"]);
    expected.extend_from_slice(&frame(&["SET", "k2", "v2", "px", "100"]));
    for slave in &m.slaves.list {
        assert_eq!(slave.pending_updates, expected);
        assert_eq!((slave.expected_offset, slave.actual_offset), (0, 0));
    }
    assert_eq!(m.slaves.len(), 2);
}

#[test]
fn refused_writes_are_not_staged() {
    let mut m = Server::new(config(Role::Master));
    reply(&mut m, peer(1), &["REPLCONF", "listening-port", "6380"]);
    reply(&mut m, peer(9), &["XADD", "s", "1-1", "a", "b"]);
    reply(&mut m, peer(9), &["SET", "s", "v"]);
    reply(&mut m, peer(9), &["SET", "k"]);
    assert!(m.slaves.list[0].pending_updates.is_empty());
}

#[test]
fn replica_counts_every_byte_it_applies() {
    let mut m = Server::new(config(Role::Master));
    reply(&mut m, peer(1), &["REPLCONF", "listening-port", "6380"]);
    reply(&mut m, peer(9), &["SET", "a", "1"]);
    let sent = m.slaves.list[0].pending_updates.clone();
    assert_eq!(sent, frame(&["SET", "a", "1"]));

    let mut r = Server::new(config(Role::Slave { master_host: (127, 0, 0, 1), master_port: 6379 }));
    let (outs, used) = r.replica_handle_master_connection(&sent, 0, 0);
    assert_eq!(used, sent.len());
    assert_eq!(outs.len(), 1);
    assert!(matches!(&outs[0], Outcome::Reply(x) if x.serialize().is_empty()));
    assert_eq!(r.config.replica_of.master_repl_offset, sent.len() as u64);
    assert_eq!(reply(&mut r, peer(7), &["GET", "a"]), b"$1\r\n1\r\n".to_vec());
    let text = format!(
        "# Replication\nrole:slave\nmaster_host:127.0.0.1\nmaster_port:6379\nmaster_replid:75cd7bc10c49047e0d163660f3b90625b1af31dc\nmaster_repl_offset:{}",
        sent.len()
    );
    assert_eq!(
        reply(&mut r, peer(7), &["INFO", "replication"]),
        format!("${}\r\n{}\r\n", text.len(), text).into_bytes()
    );
}

#[test]
fn replica_applies_in_order_and_answers_only_getack() {
    let mut r = Server::new(config(Role::Slave { master_host: (127, 0, 0, 1), master_port: 6379 }));
    r.slaves.get_or_insert(peer(3));
    let first = frame(&["SET", "k", "one"]);
    let second = frame(&["SET", "k", "two"]);
    let ask = frame(&["REPLCONF", "GETACK", "*"]);
    let ping = frame(&["PING"]);
    let mut input = Vec::new();
    for part in [&first, &second, &ping, &ask, &ping] {
        input.extend_from_slice(part);
    }
    input.extend_from_slice(b"*3\r\n$3\r\nSET");
    let whole = input.len() - 11;
    let (outs, used) = r.replica_handle_master_connection(&input, 0, 0);
    assert_eq!(used, whole);
    assert_eq!(outs.len(), 5);
    let sent: Vec<Vec<u8>> = outs
        .iter()
        .map(|o| match o {
            Outcome::Reply(x) => x.serialize(),
            _ => panic!("expected replies"),
        })
        .collect();
    let before_ask = (first.len() + second.len() + ping.len()).to_string();
    assert_eq!(sent[0], Vec::<u8>::new());
    assert_eq!(sent[1], Vec::<u8>::new());
    assert_eq!(sent[2], Vec::<u8>::new());
    assert_eq!(sent[3], frame(&["REPLCONF", "ACK", &before_ask]));
    assert_eq!(sent[4], Vec::<u8>::new());
    assert_eq!(r.config.replica_of.master_repl_offset, whole as u64);
    assert!(r.slaves.list[0].pending_updates.is_empty());
    assert_eq!(reply(&mut r, peer(7), &["GET", "k"]), b"$3\r\ntwo\r\n".to_vec());
}

#[test]
fn offsets_add_up_over_chunks() {
    let mut r = Server::new(config(Role::Slave { master_host: (127, 0, 0, 1), master_port: 6379 }));
    let mut stream = Vec::new();
    for i in 0..20 {
        stream.extend_from_slice(&frame(&["SET", &format!("key{}", i), &"x".repeat(i)]));
    }
    let mut buffer: Vec<u8> = Vec::new();
    for chunk in stream.chunks(7) {
        buffer.extend_from_slice(chunk);
        let (_, used) = r.replica_handle_master_connection(&buffer, 0, 0);
        buffer.drain(..used);
    }
    assert!(buffer.is_empty());
    assert_eq!(r.config.replica_of.master_repl_offset, stream.len() as u64);
    assert_eq!(r.dict.len(), 20);
}

#[test]
fn psync_answers_with_a_snapshot_and_registers_the_replica() {
    let mut m = Server::new(config(Role::Master));
    reply(&mut m, peer(9), &["SET", "a", "1"]);
    let out = reply(&mut m, peer(1), &["PSYNC", "?", "-1"]);
    let mut expected = b"+FULLRESYNC 75cd7bc10c49047e0d163660f3b90625b1af31dc 0\r\n$17\r\n".to_vec();
    expected.extend_from_slice(b"REDIS0003\xFE\x00\x00\x01a\xC0\x01\xFF");
    assert_eq!(out, expected);
    assert_eq!(m.slaves.len(), 1);
    assert_eq!(m.slaves.list[0].socket_addr, peer(1));
    reply(&mut m, peer(1), &["PSYNC", "?", "-1"]);
    assert_eq!(m.slaves.len(), 1);
    let mut r = Server::new(config(Role::Master));
    let (outs, _) = r.replica_handle_master_connection(&frame(&["PSYNC", "?", "-1"]), 0, 0);
    assert!(matches!(&outs[0], Outcome::Reply(x) if x.serialize().is_empty()));
    assert_eq!(r.slaves.len(), 0);
}

#[test]
fn handshake_runs_against_a_master() {
    let mut m = Server::new(config(Role::Master));
    reply(&mut m, peer(9), &["SET", "seed", "41"]);
    let (mut h, first) = Handshake::setup_replica(6380);
    assert_eq!(first, frame(&["PING"]));
    let mut to_master = first;
    let mut sent_by_replica: Vec<Vec<u8>> = Vec::new();
    let mut installed = None;
    let mut inbox: Vec<u8> = Vec::new();
    while h.state != HandshakeState::Streaming {
        if !to_master.is_empty() {
            sent_by_replica.push(to_master.clone());
            let (outs, _) = m.handle_client(&to_master, peer(1), 0, 0);
            for o in outs {
                if let Outcome::Reply(x) = o {
                    inbox.extend_from_slice(&x.serialize());
                }
            }
            to_master = Vec::new();
        }
        let (step, used) = h.on_bytes(&inbox, 500);
        inbox.drain(..used);
        match step {
            HandshakeStep::Send(bytes) => to_master = bytes,
            HandshakeStep::Proceed => {}
            HandshakeStep::Install(_, db) => installed = Some(db),
            HandshakeStep::NeedMore => panic!("the master has answered in full"),
            HandshakeStep::Failed(e) => panic!("handshake failed: {:?}", e),
        }
    }
    assert_eq!(
        sent_by_replica,
        vec![
            frame(&["PING"]),
            frame(&["REPLCONF", "listening-port", "6380"]),
            frame(&["REPLCONF", "capa", "eof", "capa", "psync2"]),
            frame(&["PSYNC", "?", "-1"]),
        ]
    );
    assert!(inbox.is_empty());
    let db = installed.unwrap();
    let mut r = Server::with_dict(
        config(Role::Slave { master_host: (127, 0, 0, 1), master_port: 6379 }),
        db,
    );
    assert_eq!(reply(&mut r, peer(7), &["GET", "seed"]), b"$2\r\n41\r\n".to_vec());
    assert_eq!(m.slaves.len(), 1);
    assert_eq!(h.on_bytes(b"anything", 0).1, 0);
}

#[test]
fn handshake_waits_for_whole_answers() {
    let (mut h, _) = Handshake::setup_replica(1);
    assert!(matches!(h.on_bytes(b"+PO", 0), (HandshakeStep::NeedMore, 0)));
    assert_eq!(h.state, HandshakeState::AwaitPong);
    assert!(matches!(h.on_bytes(b"+PONG\r\n+O", 0), (HandshakeStep::Send(_), 7)));
    assert!(matches!(h.on_bytes(b"+O", 0), (HandshakeStep::NeedMore, 0)));
    assert!(matches!(h.on_bytes(b"+OK\r\n", 0), (HandshakeStep::Send(_), 5)));
    assert!(matches!(h.on_bytes(b"+OK\r\n", 0), (HandshakeStep::Send(_), 5)));
    assert_eq!(h.state, HandshakeState::AwaitFullResync);
    assert!(matches!(h.on_bytes(b"+FULLRESYNC abc", 0), (HandshakeStep::NeedMore, 0)));
    assert!(matches!(h.on_bytes(b"+FULLRESYNC abc 0\r\n$1", 0), (HandshakeStep::Proceed, 19)));
    assert_eq!(h.state, HandshakeState::AwaitSnapshot);
    assert!(matches!(h.on_bytes(b"", 0), (HandshakeStep::NeedMore, 0)));
    assert!(matches!(h.on_bytes(b"$1", 0), (HandshakeStep::NeedMore, 0)));
    assert!(matches!(h.on_bytes(b"$10\r\nREDIS000", 0), (HandshakeStep::NeedMore, 0)));
    let whole = b"$10\r\nREDIS0003\xFF*1\r\n";
    match h.on_bytes(whole, 0) {
        (HandshakeStep::Install(header, db), used) => {
            assert_eq!(used, 15);
            assert_eq!(header.rdb_version, 3);
            assert_eq!(db.len(), 0);
        }
        _ => panic!("expected the snapshot"),
    }
    assert_eq!(h.state, HandshakeState::Streaming);
}

#[test]
fn handshake_failures() {
    let (mut h, _) = Handshake::setup_replica(1);
    assert!(matches!(
        h.on_bytes(b"+NOPE\r\n", 0),
        (HandshakeStep::Failed(ReplicationError::HandshakeMismatch), 0)
    ));
    assert!(matches!(
        h.on_bytes(b"$4\r\nPONG\r\n", 0),
        (HandshakeStep::Failed(ReplicationError::HandshakeMismatch), 0)
    ));
    assert!(matches!(
        h.on_bytes(b"?what\r\n", 0),
        (HandshakeStep::Failed(ReplicationError::Malformed(ParseError::UnkownSymbol)), 0)
    ));
    assert_eq!(h.state, HandshakeState::AwaitPong);
    let mut h = Handshake { state: HandshakeState::AwaitFullResync, service_port: 1 };
    assert!(matches!(
        h.on_bytes(b"-ERR no\r\n", 0),
        (HandshakeStep::Failed(ReplicationError::HandshakeMismatch), 0)
    ));
    let mut h = Handshake { state: HandshakeState::AwaitSnapshot, service_port: 1 };
    assert!(matches!(
        h.on_bytes(b"+OK\r\n", 0),
        (HandshakeStep::Failed(ReplicationError::Snapshot(RDBParseError::InvalidFileLength)), 0)
    ));
    assert!(matches!(
        h.on_bytes(b"$x\r\n", 0),
        (HandshakeStep::Failed(ReplicationError::Snapshot(RDBParseError::InvalidFileLength)), 0)
    ));
    assert!(matches!(
        h.on_bytes(b"$10\r\nREDOS0003\xFF", 0),
        (HandshakeStep::Failed(ReplicationError::Snapshot(RDBParseError::InvalidMagicBytes)), 0)
    ));
    assert_eq!(h.state, HandshakeState::AwaitSnapshot);
}

#[test]
fn flush_accounts_for_successes_and_failures() {
    let mut slaves = Slaves::new();
    for p in [1, 2, 3] {
        slaves.get_or_insert(peer(p));
    }
    assert!(pending_jobs(&slaves).is_empty());
    add_pending_update_resp(&mut slaves, &RespType::SimpleString(b"A".to_vec()));
    slaves.list[1].pending_updates.clear();
    let jobs = pending_jobs(&slaves);
    assert_eq!(jobs, vec![(peer(1), b"+A\r\n".to_vec()), (peer(3), b"+A\r\n".to_vec())]);
    let results = vec![
        UpdateState::Success(peer(1), 4, 4),
        UpdateState::Failed(peer(3), 4),
        UpdateState::Success(peer(77), 4, 4),
    ];
    assert_eq!(apply_all_pending_updates(&mut slaves, &results), 1);
    assert_eq!(slaves.len(), 3);
    let one = &slaves.list[0];
    assert_eq!((one.expected_offset, one.actual_offset, one.lifetime_limit), (4, 4, 0));
    assert!(one.pending_updates.is_empty());
    let three = &slaves.list[2];
    assert_eq!((three.expected_offset, three.actual_offset, three.lifetime_limit), (4, 0, 1));
    assert_eq!(three.pending_updates, b"+A\r\n".to_vec());
}

#[test]
fn three_failed_flushes_drop_the_replica() {
    let mut slaves = Slaves::new();
    slaves.get_or_insert(peer(1));
    slaves.get_or_insert(peer(2));
    add_pending_update_resp(&mut slaves, &RespType::Null);
    let fail = vec![UpdateState::Failed(peer(1), 5)];
    assert_eq!(apply_all_pending_updates(&mut slaves, &fail), 0);
    assert_eq!(apply_all_pending_updates(&mut slaves, &fail), 0);
    assert_eq!(slaves.len(), 2);
    assert_eq!(slaves.list[0].lifetime_limit, 2);
    assert_eq!(slaves.list[0].expected_offset, 10);
    assert_eq!(apply_all_pending_updates(&mut slaves, &fail), 0);
    assert_eq!(slaves.len(), 1);
    assert_eq!(slaves.list[0].socket_addr, peer(2));
    assert!(!slaves.remove(peer(1)));
    assert!(slaves.remove(peer(2)));
    assert_eq!(slaves.len(), 0);
}

#[test]
fn slave_meta_accounting() {
    let mut s = SlaveMeta::new(peer(1));
    s.append_update(&b"abc".to_vec());
    s.append_update(&b"de".to_vec());
    assert_eq!(s.pending_job(), Some(b"abcde".to_vec()));
    assert_eq!(s.apply_pending_updates(5, Some(3)), UpdateState::Success(peer(1), 5, 3));
    assert_eq!((s.expected_offset, s.actual_offset), (5, 3));
    assert_eq!(s.pending_job(), None);
    s.append_update(&b"x".to_vec());
    assert_eq!(s.apply_pending_updates(1, None), UpdateState::Failed(peer(1), 1));
    assert_eq!((s.expected_offset, s.actual_offset, s.lifetime_limit), (6, 3, 1));
    assert_eq!(s.pending_updates, b"x".to_vec());
    let ask = SlaveMeta::getack_cmd();
    assert_eq!(ask, b"*3\r\n$8\r\nREPLCONF\r\n$6\r\nGETACK\r\n$1\r\n*\r\n".to_vec());
    s.write_getack_cmd(Some(37));
    assert_eq!((s.expected_offset, s.actual_offset), (43, 40));
    s.write_getack_cmd(None);
    assert_eq!((s.expected_offset, s.actual_offset), (80, 40));
    s.expected_offset = u64::MAX - 1;
    s.write_getack_cmd(None);
    assert_eq!(s.expected_offset, u64::MAX);
}

#[test]
fn wait_counts_replicas_that_are_caught_up() {
    let mut m = Server::new(config(Role::Master));
    assert_eq!(reply(&mut m, peer(9), &["WAIT", "0", "100"]), b":0\r\n".to_vec());
    for p in [1, 2, 3] {
        reply(&mut m, peer(p), &["REPLCONF", "listening-port", "1"]);
    }
    assert_eq!(reply(&mut m, peer(9), &["WAIT", "3", "100"]), b":3\r\n".to_vec());
    assert_eq!(reply(&mut m, peer(9), &["WAIT", "9", "0"]), b":3\r\n".to_vec());
    assert!(m.slaves.list.iter().all(|s| s.pending_updates.is_empty()));
}

#[test]
fn wait_asks_lagging_replicas_and_waits() {
    let mut m = Server::new(config(Role::Master));
    for p in [1, 2, 3] {
        reply(&mut m, peer(p), &["REPLCONF", "listening-port", "1"]);
    }
    m.config.replica_of.master_repl_offset = 50;
    assert_eq!(reply(&mut m, peer(2), &["REPLCONF", "ACK", "50"]), Vec::<u8>::new());
    assert_eq!(m.slaves.list[1].actual_offset, 50);
    assert_eq!(reply(&mut m, peer(9), &["WAIT", "1", "100"]), b":1\r\n".to_vec());
    let input = frame(&["WAIT", "2", "100"]);
    let (outs, _) = m.handle_client(&input, peer(9), 0, 0);
    assert!(matches!(&outs[0], Outcome::AwaitAcks { have: 0, needed: 2, timeout_ms: 100 }));
    let ask = SlaveMeta::getack_cmd();
    assert_eq!(m.slaves.list[0].pending_updates, ask);
    assert!(m.slaves.list[1].pending_updates.is_empty());
    assert_eq!(m.slaves.list[2].pending_updates, ask);
    let mut window = AckWindow { have: 0, needed: 2 };
    assert!(window.on_ack().is_none());
    assert_eq!(window.on_timeout().serialize(), b":1\r\n".to_vec());
    assert_eq!(window.on_ack().map(|r| r.serialize()), Some(b":2\r\n".to_vec()));
}

#[test]
fn config_from_args() {
    let cfg = Config::from_args(&args(&["redis"]), b"id".to_vec()).unwrap();
    assert_eq!(cfg.service_port, 6379);
    assert!(matches!(cfg.replica_of.role, Role::Master));
    assert_eq!(cfg.replica_of.master_replid, b"id".to_vec());
    assert_eq!(cfg.replica_of.master_repl_offset, 0);
    assert!(cfg.parameters.is_empty());
    let cfg = Config::from_args(
        &args(&[
            "redis", "--port", " 7000 ", "--dir", "/data ", "--replicaof", "LocalHost", "6379",
            "--dbfilename", "dump.rdb", "--dir", "/other",
        ]),
        b"id".to_vec(),
    )
    .unwrap();
    assert_eq!(cfg.service_port, 7000);
    assert!(matches!(cfg.replica_of.role,
        Role::Slave { master_host: (127, 0, 0, 1), master_port: 6379 }));
    assert_eq!(
        cfg.parameters,
        vec![
            (b"dir".to_vec(), b"/other".to_vec()),
            (b"dbfilename".to_vec(), b"dump.rdb".to_vec()),
        ]
    );
    assert_eq!(cfg.get_db_filepath(), (b"/other".to_vec(), b"dump.rdb".to_vec()));
    assert_eq!(cfg.get_param(b"dir"), Some(b"/other".to_vec()));
    assert_eq!(cfg.get_param(b"nope"), None);
    let cfg = Config::from_args(&args(&["redis", "--replicaof", "10.1.2.250", "1"]), Vec::new());
    assert!(matches!(cfg.unwrap().replica_of.role,
        Role::Slave { master_host: (10, 1, 2, 250), master_port: 1 }));
    let empty = Config::from_args(&Vec::new(), Vec::new()).unwrap();
    assert_eq!(empty.get_db_filepath(), (Vec::new(), Vec::new()));
}

#[test]
fn config_errors() {
    let e = |w: &[&str]| Config::from_args(&args(w), Vec::new()).err();
    assert_eq!(e(&["redis", "--port"]), Some(ConfigError::MissingPort));
    assert_eq!(e(&["redis", "--port", "65536"]), Some(ConfigError::InvalidPort));
    assert_eq!(e(&["redis", "--port", "http"]), Some(ConfigError::InvalidPort));
    assert_eq!(e(&["redis", "--replicaof"]), Some(ConfigError::MissingReplicaOf));
    assert_eq!(e(&["redis", "--replicaof", "127.0.0.1"]), Some(ConfigError::MissingReplicaOf));
    for host in ["example.com", "1.2.3", "1.2.3.4.5", "256.1.1.1", "01.2.3.4", "1..2.3", ""] {
        assert_eq!(e(&["redis", "--replicaof", host, "1"]), Some(ConfigError::InvalidMasterHost));
    }
    assert_eq!(e(&["redis", "--replicaof", "1.2.3.4", "x"]), Some(ConfigError::InvalidMasterPort));
    assert_eq!(e(&["redis", "--dir"]), Some(ConfigError::MissingDir));
    assert_eq!(e(&["redis", "--dbfilename"]), Some(ConfigError::MissingDbFilename));
    assert_eq!(e(&["redis", "--verbose"]), Some(ConfigError::UnknownArgument));
    assert_eq!(e(&["redis", "--port", "1", "extra"]), Some(ConfigError::UnknownArgument));
    assert_eq!(ConfigError::MissingPort.message(), "usage --port <number:u16>");
}

#[test]
fn config_new_draws_a_replication_id() {
    let a = Config::new(&args(&["redis", "--port", "1"])).unwrap();
    let b = Config::new(&args(&["redis"])).unwrap();
    assert_eq!(a.service_port, 1);
    for id in [&a.replica_of.master_replid, &b.replica_of.master_replid] {
        assert_eq!(id.len(), 40);
        assert!(id.iter().all(|c| c.is_ascii_alphanumeric()));
    }
    assert_ne!(a.replica_of.master_replid, b.replica_of.master_replid);
    assert_eq!(Config::new(&args(&["redis", "--port"])).err(), Some(ConfigError::MissingPort));
}

#[test]
fn clock_and_random_helpers() {
    let t = gen_millis();
    assert!(t > 1_600_000_000_000);
    assert!(gen_millis() >= t);
    assert_eq!(random_string(0), Vec::<u8>::new());
    let s = random_string(64);
    assert_eq!(s.len(), 64);
    assert!(s.iter().all(|c| c.is_ascii_alphanumeric()));
    assert_eq!(trim(b" \t x y\r\n"), b"x y");
    assert_eq!(trim(b"   "), b"");
}

#[test]
fn offsets_saturate() {
    let mut cfg = config(Role::Master);
    incr_master_repl_offset(&mut cfg, 10);
    incr_master_repl_offset(&mut cfg, 5);
    assert_eq!(cfg.replica_of.master_repl_offset, 15);
    incr_master_repl_offset(&mut cfg, u64::MAX);
    assert_eq!(cfg.replica_of.master_repl_offset, u64::MAX);
}

#[test]
fn handshake_end_of_connection() {
    let (h, _) = Handshake::setup_replica(1);
    assert!(matches!(h.on_eof(), HandshakeStep::Failed(ReplicationError::PrematureEof)));
    let h = Handshake { state: HandshakeState::Streaming, service_port: 1 };
    assert!(matches!(h.on_eof(), HandshakeStep::Proceed));
}

#[test]
fn replication_id_is_forty_hex_digits() {
    let cfg = Config::new(&args(&["redis"])).unwrap();
    let id = cfg.replica_of.master_replid;
    assert_eq!(id.len(), 40);
    assert!(id.iter().all(|c| c.is_ascii_digit() || (b'a'..=b'f').contains(c)));
    assert_eq!(redis_lite::config::hex_digits(&[0, 9, 10, 15, 16, 255]), b"09af0f".to_vec());
}

#[test]
fn well_formedness_is_checked() {
    let mut s = Server::new(config(Role::Master));
    assert!(s.is_wf());
    reply(&mut s, peer(1), &["SET", "a", "1"]);
    reply(&mut s, peer(1), &["XADD", "log", "1-1", "f", "v"]);
    reply(&mut s, peer(1), &["REPLCONF", "listening-port", "1"]);
    assert!(s.is_wf());

    let mut twice = Server::new(config(Role::Master));
    reply(&mut twice, peer(1), &["SET", "a", "1"]);
    reply(&mut twice, peer(1), &["SET", "b", "2"]);
    let moved = twice.dict.entries.remove(0);
    twice.dict.entries[0].key = moved.key;
    assert!(twice.is_wf());
    reply(&mut twice, peer(1), &["SET", "c", "3"]);
    twice.dict.entries[1].key = redis_lite::data_entry::ValueType::new(b"a".to_vec());
    assert!(!twice.dict.check());
    assert!(!twice.is_wf());

    let mut both = Server::new(config(Role::Master));
    reply(&mut both, peer(1), &["XADD", "k", "1-1", "f", "v"]);
    let mut foreign = redis_lite::redis::RedisDB::new();
    foreign.set(b"k".to_vec(), b"v".to_vec(), None, 0);
    assert!(!both.install(foreign));
    assert_eq!(both.dict.len(), 0);
    let mut fine = redis_lite::redis::RedisDB::new();
    fine.set(b"other".to_vec(), b"v".to_vec(), None, 0);
    assert!(both.install(fine));
    assert_eq!(both.dict.len(), 1);
    assert!(both.is_wf());

    let mut unordered = Server::new(config(Role::Master));
    reply(&mut unordered, peer(1), &["XADD", "k", "5-1", "f", "v"]);
    reply(&mut unordered, peer(1), &["XADD", "k", "6-1", "f", "v"]);
    unordered.streams.list[0].stream.entries.swap(0, 1);
    assert!(!unordered.is_wf());

    let mut doubled = Slaves::new();
    doubled.get_or_insert(peer(1));
    doubled.list.push(SlaveMeta::new(peer(1)));
    assert!(!doubled.check());
}

#[test]
fn the_limit_of_failed_flushes_can_be_chosen() {
    let mut slaves = Slaves::new();
    slaves.get_or_insert(peer(1));
    let fail = vec![UpdateState::Failed(peer(1), 0)];
    assert_eq!(apply_all_pending_updates_with(&mut slaves, &fail, 2), 0);
    assert_eq!(slaves.len(), 1);
    assert_eq!(apply_all_pending_updates_with(&mut slaves, &fail, 2), 0);
    assert_eq!(slaves.len(), 0);
    slaves.get_or_insert(peer(1));
    assert_eq!(apply_all_pending_updates_with(&mut slaves, &fail, 1), 0);
    assert_eq!(slaves.len(), 0);
}

#[test]
fn silent_outcomes() {
    assert!(Outcome::Reply(RespType::WildCard(Vec::new())).is_silent());
    assert!(!Outcome::Reply(RespType::WildCard(b"x".to_vec())).is_silent());
    assert!(!Outcome::Reply(RespType::BulkString(Vec::new())).is_silent());
    assert!(!Outcome::AwaitAcks { have: 0, needed: 1, timeout_ms: 1 }.is_silent());
}

#[test]
fn a_flush_that_is_taken_whole_drains_every_buffer() {
    let mut slaves = Slaves::new();
    for p in [1, 2, 3, 4] {
        slaves.get_or_insert(peer(p));
    }
    slaves.list[0].append_update(&b"abc".to_vec());
    slaves.list[0].expected_offset = 10;
    slaves.list[0].actual_offset = 7;
    slaves.list[2].append_update(&b"hello".to_vec());
    slaves.list[3].append_update(&b"z".to_vec());
    slaves.list[3].actual_offset = u64::MAX;
    let jobs = pending_jobs(&slaves);
    assert_eq!(
        jobs,
        vec![
            (peer(1), b"abc".to_vec()),
            (peer(3), b"hello".to_vec()),
            (peer(4), b"z".to_vec()),
        ]
    );
    let results: Vec<UpdateState> = jobs
        .iter()
        .map(|(to, bytes)| UpdateState::Success(*to, bytes.len() as u64, bytes.len() as u64))
        .collect();
    assert_eq!(apply_all_pending_updates(&mut slaves, &results), 3);
    assert_eq!(slaves.len(), 4);
    let seen: Vec<(u64, u64, usize)> = slaves
        .list
        .iter()
        .map(|s| (s.expected_offset, s.actual_offset, s.pending_updates.len()))
        .collect();
    assert_eq!(seen, vec![(13, 10, 0), (0, 0, 0), (5, 5, 0), (1, u64::MAX, 0)]);
    assert!(pending_jobs(&slaves).is_empty());
}

#[test]
fn the_offset_stands_behind_every_frame_at_the_bytes_so_far() {
    let mut r = Server::new(config(Role::Slave { master_host: (127, 0, 0, 1), master_port: 6379 }));
    r.config.replica_of.master_repl_offset = 1000;
    let frames = [
        frame(&["SET", "a", "1"]),
        frame(&["PING"]),
        frame(&["REPLCONF", "GETACK", "*"]),
        frame(&["NOSUCHCOMMAND", "x"]),
        frame(&["REPLCONF", "GETACK", "*"]),
    ];
    let whole: Vec<u8> = frames.concat();
    let (outs, used) = r.replica_handle_master_connection(&whole, 0, 0);
    assert_eq!(used, whole.len());
    assert_eq!(outs.len(), frames.len());
    assert_eq!(r.config.replica_of.master_repl_offset, 1000 + whole.len() as u64);
    let answers: Vec<Vec<u8>> = outs
        .iter()
        .map(|o| match o {
            Outcome::Reply(x) => x.serialize(),
            _ => panic!("expected replies"),
        })
        .collect();
    let behind_two = 1000 + frames[0].len() + frames[1].len();
    let behind_four = behind_two + frames[2].len() + frames[3].len();
    assert_eq!(answers[2], frame(&["REPLCONF", "ACK", &behind_two.to_string()]));
    assert_eq!(answers[4], frame(&["REPLCONF", "ACK", &behind_four.to_string()]));
    assert!(answers[0].is_empty() && answers[1].is_empty() && answers[3].is_empty());
}
