use redis_lite::data_entry::{key_value_as_rdb, DataEntry, ValueType};
use redis_lite::rdb::{RDBHeader, RDBParseError, RDBParsedLen, RDBParser};
use redis_lite::redis::{db_as_rdb, RedisDB};
use redis_lite::utils::{dump_rdb_file, take_upto};

fn header() -> RDBHeader {
    RDBHeader { magic: b"REDIS".to_vec(), rdb_version: 3, aux_settings: Vec::new() }
}

fn packed_text() -> Vec<u8> {
    b"the quick brown fox jumps over the lazy dog and ".repeat(4)[..160].to_vec()
}

fn long_text() -> Vec<u8> {
    let mut s = Vec::new();
    for i in 0..40 {
        s.extend_from_slice(b"the quick brown fox ");
        s.push(b'a' + (i % 3) as u8);
    }
    s
}

fn pairs(db: &RedisDB) -> Vec<(Vec<u8>, Vec<u8>, Option<u64>)> {
    db.entries
        .iter()
        .map(|kv| (kv.key.as_string(), kv.entry.value.as_string(), kv.entry.expired_millis))
        .collect()
}

#[test]
fn length_encoding_boundaries() {
    let cases: Vec<(u32, usize)> =
        vec![(0, 1), (63, 1), (64, 2), (16383, 2), (16384, 5), (u32::MAX, 5)];
    for (n, size) in cases {
        let bytes = ValueType::number_to_length_encoded(n);
        assert_eq!(bytes.len(), size);
        let mut cur: &[u8] = &bytes;
        assert_eq!(RDBParser::parse_length(&mut cur), Ok(RDBParsedLen::IntOrString(n)));
        assert!(cur.is_empty());
    }
}

#[test]
fn length_encoding_exact_bytes() {
    assert_eq!(ValueType::number_to_length_encoded(10), vec![10u8]);
    assert_eq!(ValueType::number_to_length_encoded(64), vec![0x40u8, 0x40]);
    assert_eq!(ValueType::number_to_length_encoded(700), vec![0x42u8, 0xBC]);
    assert_eq!(ValueType::number_to_length_encoded(16383), vec![0x7Fu8, 0xFF]);
    assert_eq!(ValueType::number_to_length_encoded(16384), vec![0x80u8, 0x00, 0x40, 0x00, 0x00]);
    assert_eq!(
        ValueType::number_to_length_encoded(u32::MAX),
        vec![0x80u8, 0xFF, 0xFF, 0xFF, 0xFF]
    );
}

#[test]
fn parse_length_special_forms() {
    let mut cur: &[u8] = &[0xC0, 1];
    assert_eq!(RDBParser::parse_length(&mut cur), Ok(RDBParsedLen::I8Int));
    assert_eq!(cur, &[1u8][..]);
    let mut cur: &[u8] = &[0xC1];
    assert_eq!(RDBParser::parse_length(&mut cur), Ok(RDBParsedLen::I16Int));
    let mut cur: &[u8] = &[0xC2];
    assert_eq!(RDBParser::parse_length(&mut cur), Ok(RDBParsedLen::I32Int));
    let mut cur: &[u8] = &[0xC3];
    assert_eq!(RDBParser::parse_length(&mut cur), Ok(RDBParsedLen::CompressedString));
    let mut cur: &[u8] = &[0xC4, 9];
    assert_eq!(RDBParser::parse_length(&mut cur), Err(RDBParseError::InvalidLen));
    assert_eq!(cur, &[0xC4u8, 9][..]);
    let mut cur: &[u8] = &[];
    assert_eq!(RDBParser::parse_length(&mut cur), Err(RDBParseError::InvalidLen));
    let mut cur: &[u8] = &[0x41];
    assert_eq!(RDBParser::parse_length(&mut cur), Err(RDBParseError::InvalidLen));
    let mut cur: &[u8] = &[0x80, 1, 2, 3];
    assert_eq!(RDBParser::parse_length(&mut cur), Err(RDBParseError::InvalidLen));
}

#[test]
fn parse_integer_forms() {
    let mut cur: &[u8] = &[0xC0, 0xFF, 7];
    assert_eq!(RDBParser::parse_integer(&mut cur), Ok(-1));
    assert_eq!(cur, &[7u8][..]);
    let mut cur: &[u8] = &[0xC1, 0x00, 0x80];
    assert_eq!(RDBParser::parse_integer(&mut cur), Ok(-32768));
    let mut cur: &[u8] = &[0xC2, 0x15, 0xCD, 0x5B, 0x07];
    assert_eq!(RDBParser::parse_integer(&mut cur), Ok(123456789));
    let mut cur: &[u8] = &[0x80, 0xFF, 0xFF, 0xFF, 0xFF];
    assert_eq!(RDBParser::parse_integer(&mut cur), Ok(4294967295));
    let mut cur: &[u8] = &[0xC1, 0x00];
    assert_eq!(RDBParser::parse_integer(&mut cur), Err(RDBParseError::InvalidInt));
    assert_eq!(cur, &[0xC1u8, 0x00][..]);
    let mut cur: &[u8] = &[0xC3, 0x00];
    assert_eq!(RDBParser::parse_integer(&mut cur), Err(RDBParseError::InvalidInt));
}

#[test]
fn value_type_picks_the_smallest_integer() {
    assert!(matches!(ValueType::new(b"0".to_vec()), ValueType::I8Int(0)));
    assert!(matches!(ValueType::new(b"-128".to_vec()), ValueType::I8Int(-128)));
    assert!(matches!(ValueType::new(b"128".to_vec()), ValueType::I16Int(128)));
    assert!(matches!(ValueType::new(b"-32769".to_vec()), ValueType::I32Int(-32769)));
    assert!(matches!(ValueType::new(b"2147483647".to_vec()), ValueType::I32Int(2147483647)));
    assert!(matches!(ValueType::new(b"2147483648".to_vec()), ValueType::IntOrString(_)));
}

#[test]
fn value_type_keeps_texts_that_only_look_like_integers() {
    for text in ["+5", "007", "-0", " 5", "5 ", "", "1e3"] {
        let v = ValueType::new(text.as_bytes().to_vec());
        assert!(matches!(v, ValueType::IntOrString(_)));
        assert_eq!(v.as_string(), text.as_bytes().to_vec());
    }
}

#[test]
fn value_type_compresses_long_texts_and_gives_them_back() {
    let text = packed_text();
    let v = ValueType::new(text.clone());
    match &v {
        ValueType::CompressedString { real_data_len, compressed_data } => {
            assert_eq!(*real_data_len, text.len());
            assert!(compressed_data.len() < text.len());
            assert_ne!(compressed_data, &text);
        }
        _ => panic!("expected a compressed string"),
    }
    assert_eq!(v.as_string(), text);
    assert!(v.check());
    assert_eq!(v.decoded(), Some(text));
}

#[test]
fn value_type_below_the_threshold_is_not_compressed() {
    let text = vec![b'a'; 149];
    assert!(matches!(ValueType::new(text), ValueType::IntOrString(_)));
    let text = vec![b'a'; 150];
    assert!(matches!(ValueType::new(text), ValueType::CompressedString { .. }));
    let text = vec![b'a'; 164];
    assert!(matches!(ValueType::new(text), ValueType::CompressedString { .. }));
}

#[test]
fn value_type_beyond_what_the_compressor_takes_is_not_compressed() {
    let text = vec![b'a'; 165];
    let v = ValueType::new(text.clone());
    assert!(matches!(v, ValueType::IntOrString(_)));
    assert_eq!(v.as_string(), text);
    let v = ValueType::new(long_text());
    assert!(matches!(v, ValueType::IntOrString(_)));
    assert!(v.check());
}

#[test]
fn literal_runs_followed_by_a_match_are_stored_safely() {
    for tail in [[0u8, 0], [10, 11], [200, 201]] {
        let mut data: Vec<u8> = (0..160u8).collect();
        data.extend_from_slice(&[10, 11, 12]);
        data.extend_from_slice(&tail);
        assert_eq!(data.len(), 165);
        let v = ValueType::new(data.clone());
        assert!(matches!(v, ValueType::IntOrString(_)));
        assert_eq!(v.as_string(), data);
    }
    for len in 150..=164usize {
        for step in [1usize, 3, 7, 31, 32, 33] {
            let mut data: Vec<u8> = (0..len).map(|i| (i * step % 251) as u8).collect();
            let at = data.len() - 6;
            let copy = [data[10], data[11], data[12]];
            data[at..at + 3].copy_from_slice(&copy);
            let v = ValueType::new(data.clone());
            assert_eq!(v.as_string(), data);
            assert!(v.check());
            let bytes = v.as_rdb();
            let mut cur: &[u8] = &bytes;
            assert_eq!(RDBParser::parse_length_encoded_data(&mut cur), Ok(data));
        }
    }
}

#[test]
fn compressed_value_given_by_its_fields_is_written() {
    let v = ValueType::CompressedString { real_data_len: 200, compressed_data: vec![1, 2, 3] };
    assert_eq!(v.as_rdb(), vec![0xC3u8, 0x03, 0x40, 0xC8, 1, 2, 3]);
    let key = ValueType::IntOrString(b"7".to_vec());
    let entry = DataEntry { value: v, created_at: 0, expired_millis: None };
    assert_eq!(
        key_value_as_rdb(&key, &entry),
        vec![0u8, 1, b'7', 0xC3, 0x03, 0x40, 0xC8, 1, 2, 3]
    );
}

#[test]
fn value_type_check_rejects_what_new_would_not_build() {
    assert!(!ValueType::IntOrString(b"5".to_vec()).check());
    assert!(!ValueType::I16Int(5).check());
    assert!(!ValueType::CompressedString { real_data_len: 10, compressed_data: vec![1, 2, 3] }
        .check());
    assert_eq!(ValueType::I32Int(1).decoded(), None);
    assert!(ValueType::I8Int(5).check());
}

#[test]
fn value_type_as_rdb_bytes() {
    assert_eq!(ValueType::new(b"-1".to_vec()).as_rdb(), vec![0xC0u8, 0xFF]);
    assert_eq!(ValueType::new(b"300".to_vec()).as_rdb(), vec![0xC1u8, 0x2C, 0x01]);
    assert_eq!(
        ValueType::new(b"123456789".to_vec()).as_rdb(),
        vec![0xC2u8, 0x15, 0xCD, 0x5B, 0x07]
    );
    assert_eq!(ValueType::new(b"abc".to_vec()).as_rdb(), vec![3u8, b'a', b'b', b'c']);
    assert_eq!(ValueType::new(b"abc".to_vec()).as_rdb_value_type(), vec![0u8]);
    assert_eq!(ValueType::new(b"abc".to_vec()).as_length_encoded_value(), vec![3u8, b'a', b'b', b'c']);
}

#[test]
fn compressed_value_as_rdb_reads_back() {
    let text = packed_text();
    let bytes = ValueType::new(text.clone()).as_rdb();
    assert_eq!(bytes[0], 0xC3);
    let mut cur: &[u8] = &bytes;
    assert_eq!(RDBParser::parse_length_encoded_data(&mut cur), Ok(text));
    assert!(cur.is_empty());
}

#[test]
fn parse_known_compressed_block() {
    let mut bytes: Vec<u8> = vec![0xC3, 9, 0x40, 200];
    bytes.extend_from_slice(&[1, 97, 97, 224, 187, 0, 1, 97, 97]);
    bytes.push(0xEE);
    let mut cur: &[u8] = &bytes;
    assert_eq!(RDBParser::parse_length_encoded_data(&mut cur), Ok(vec![b'a'; 200]));
    assert_eq!(cur, &[0xEEu8][..]);
}

#[test]
fn parse_string_errors() {
    let mut cur: &[u8] = &[5, b'a', b'b'];
    assert_eq!(
        RDBParser::parse_length_encoded_data(&mut cur),
        Err(RDBParseError::InvalidUnCompStr)
    );
    assert_eq!(cur.len(), 3);
    let mut cur: &[u8] = &[0xC3, 9, 0x40, 200, 1, 97];
    assert_eq!(RDBParser::parse_length_encoded_data(&mut cur), Err(RDBParseError::InvalidCompStr));
    let mut cur: &[u8] = &[0xC3, 3, 10, b'x', b'y', b'z'];
    assert_eq!(RDBParser::parse_length_encoded_data(&mut cur), Err(RDBParseError::InvalidCompStr));
    let mut cur: &[u8] = &[0xC3, 0xC0, 0xFF, 10];
    assert_eq!(RDBParser::parse_length_encoded_data(&mut cur), Err(RDBParseError::InvalidCompStr));
    let mut cur: &[u8] = &[0xC0];
    assert_eq!(RDBParser::parse_length_encoded_data(&mut cur), Err(RDBParseError::InvalidInt));
}

#[test]
fn parse_magic_version_type_and_times() {
    let mut cur: &[u8] = b"REDIS0003rest";
    assert_eq!(RDBParser::parse_magic(&mut cur), Ok(b"REDIS".to_vec()));
    assert_eq!(RDBParser::parse_version(&mut cur), Ok(3));
    assert_eq!(cur, b"rest");
    let mut cur: &[u8] = b"REDIX0003";
    assert_eq!(RDBParser::parse_magic(&mut cur), Err(RDBParseError::InvalidMagicBytes));
    let mut cur: &[u8] = b"RED";
    assert_eq!(RDBParser::parse_magic(&mut cur), Err(RDBParseError::InvalidMagicBytes));
    let mut cur: &[u8] = b"00x3";
    assert_eq!(RDBParser::parse_version(&mut cur), Err(RDBParseError::InvalidVersion));
    let mut cur: &[u8] = b"003";
    assert_eq!(RDBParser::parse_version(&mut cur), Err(RDBParseError::InvalidVersion));
    let mut cur: &[u8] = &[0, 9];
    assert_eq!(RDBParser::parse_value_type(&mut cur), Ok(0));
    let mut cur: &[u8] = &[1, 9];
    assert_eq!(RDBParser::parse_value_type(&mut cur), Err(RDBParseError::InvalidValType));
    let mut cur: &[u8] = &[0x10, 0x27, 0, 0, 5];
    assert_eq!(RDBParser::parse_time_secs(&mut cur), Ok(10000));
    assert_eq!(cur, &[5u8][..]);
    let mut cur: &[u8] = &[1, 2, 3];
    assert_eq!(RDBParser::parse_time_secs(&mut cur), Err(RDBParseError::InvalidTimeSecs));
    let mut cur: &[u8] = &[0, 0, 0, 0, 1, 0, 0, 0];
    assert_eq!(RDBParser::parse_time_millis(&mut cur), Ok(1u64 << 32));
    let mut cur: &[u8] = &[1, 2, 3, 4, 5, 6, 7];
    assert_eq!(RDBParser::parse_time_millis(&mut cur), Err(RDBParseError::InvalidTimeMS));
}

#[test]
fn parse_rdb_file_length_frame() {
    let mut cur: &[u8] = b"$88\r\nREDIS";
    assert_eq!(RDBParser::parse_rdb_file_length(&mut cur), Ok(88));
    assert_eq!(cur, b"REDIS");
    for bad in [&b"88\r\n"[..], b"$88", b"$8x\r\n", b"", b"$\r\n"] {
        let mut cur: &[u8] = bad;
        assert_eq!(
            RDBParser::parse_rdb_file_length(&mut cur),
            Err(RDBParseError::InvalidFileLength)
        );
        assert_eq!(cur, bad);
    }
}

#[test]
fn header_as_rdb_bytes() {
    assert_eq!(header().as_rdb(), b"REDIS0003\xFE\x00".to_vec());
    let with_aux = RDBHeader {
        magic: b"REDIS".to_vec(),
        rdb_version: 255,
        aux_settings: vec![(ValueType::new(b"ver".to_vec()), ValueType::new(b"7".to_vec()))],
    };
    assert_eq!(with_aux.as_rdb(), b"REDIS0255\xFE\x00\xFA\x03ver\xC0\x07".to_vec());
}

#[test]
fn record_bytes_with_and_without_expiry() {
    let key = ValueType::new(b"k".to_vec());
    let plain = DataEntry::new(b"v".to_vec(), None, 77);
    assert_eq!(key_value_as_rdb(&key, &plain), vec![0u8, 1, b'k', 1, b'v']);
    let expiring = DataEntry::new(b"v".to_vec(), Some(258), 77);
    assert_eq!(
        key_value_as_rdb(&key, &expiring),
        vec![0xFCu8, 2, 1, 0, 0, 0, 0, 0, 0, 0, 1, b'k', 1, b'v']
    );
}

#[test]
fn snapshot_round_trip_keeps_keys_values_and_order() {
    let mut db = RedisDB::new();
    db.set(b"plain".to_vec(), b"value".to_vec(), None, 5);
    db.set(b"42".to_vec(), b"-7".to_vec(), None, 5);
    db.set(b"big".to_vec(), long_text(), None, 5);
    db.set(b"packed".to_vec(), packed_text(), None, 5);
    db.set(b"".to_vec(), b"70000".to_vec(), None, 5);
    db.set(b"mid".to_vec(), vec![b'z'; 100], None, 5);
    let bytes = dump_rdb_file(&header(), &db);
    let mut cur: &[u8] = &bytes;
    let (h, back) = RDBParser::from_rdb_file(&mut cur, 1000).unwrap();
    assert!(cur.is_empty());
    assert_eq!(h.magic, b"REDIS".to_vec());
    assert_eq!(h.rdb_version, 3);
    assert!(h.aux_settings.is_empty());
    assert_eq!(pairs(&back), pairs(&db));
    assert!(back.entries.iter().all(|kv| kv.entry.created_at == 1000));
    assert_eq!(dump_rdb_file(&h, &back), bytes);
}

#[test]
fn snapshot_round_trip_keeps_spans() {
    let mut db = RedisDB::new();
    db.set(b"a".to_vec(), b"1".to_vec(), Some(1500), 5);
    db.set(b"b".to_vec(), b"2".to_vec(), None, 5);
    let bytes = dump_rdb_file(&header(), &db);
    let mut cur: &[u8] = &bytes;
    let (_, back) = RDBParser::from_rdb_file(&mut cur, 9).unwrap();
    assert_eq!(
        pairs(&back),
        vec![(b"a".to_vec(), b"1".to_vec(), Some(1500)), (b"b".to_vec(), b"2".to_vec(), None)]
    );
}

#[test]
fn snapshot_of_an_empty_key_space() {
    let db = RedisDB::new();
    assert_eq!(db_as_rdb(&db), Vec::<u8>::new());
    let bytes = dump_rdb_file(&header(), &db);
    assert_eq!(bytes, b"REDIS0003\xFE\x00\xFF".to_vec());
    let mut cur: &[u8] = &bytes;
    let (_, back) = RDBParser::from_rdb_file(&mut cur, 0).unwrap();
    assert_eq!(back.len(), 0);
}

#[test]
fn snapshot_reader_takes_every_opcode() {
    let mut bytes: Vec<u8> = b"REDIS0011".to_vec();
    bytes.extend_from_slice(b"\xFA\x09redis-ver\x055.0.7");
    bytes.extend_from_slice(b"\xFE\x00");
    bytes.extend_from_slice(b"\xFB\x03\x02");
    bytes.extend_from_slice(b"\x00\x03foo\x03bar");
    bytes.extend_from_slice(b"\xFD\x02\x00\x00\x00\x00\x03sec\xC0\x05");
    bytes.extend_from_slice(b"\xFC\x10\x27\x00\x00\x00\x00\x00\x00\x00\x02ms\x01x");
    bytes.extend_from_slice(b"\x00\x03foo\x03baz");
    bytes.extend_from_slice(b"\xFFchecksum");
    let mut cur: &[u8] = &bytes;
    let (h, db) = RDBParser::from_rdb_file(&mut cur, 123).unwrap();
    assert_eq!(cur, b"checksum");
    assert_eq!(h.rdb_version, 11);
    assert_eq!(h.aux_settings.len(), 1);
    assert_eq!(h.aux_settings[0].0.as_string(), b"redis-ver".to_vec());
    assert_eq!(h.aux_settings[0].1.as_string(), b"5.0.7".to_vec());
    assert_eq!(
        pairs(&db),
        vec![
            (b"foo".to_vec(), b"baz".to_vec(), None),
            (b"sec".to_vec(), b"5".to_vec(), Some(2000)),
            (b"ms".to_vec(), b"x".to_vec(), Some(10000)),
        ]
    );
}

#[test]
fn snapshot_reader_errors() {
    let cases: Vec<(&[u8], RDBParseError)> = vec![
        (b"REDIS0003", RDBParseError::InvalidFileLength),
        (b"REDIS0003\x00\x01k", RDBParseError::InvalidLen),
        (b"REDIS0003\x07\x01k\x01v\xFF", RDBParseError::InvalidValType),
        (b"REDIS0003\xFD\x01\x02\xFF", RDBParseError::InvalidTimeSecs),
        (b"REDIS0003\xFC\x01\x02\x03\x04\xFF", RDBParseError::InvalidTimeMS),
        (b"REDIS0300\xFF", RDBParseError::InvalidVersion),
        (b"REDIS03\xFF", RDBParseError::InvalidVersion),
        (b"RODIS0003\xFF", RDBParseError::InvalidMagicBytes),
        (b"REDIS0003\x00\x05ab", RDBParseError::InvalidUnCompStr),
        (b"REDIS0003\xFB\xC1\x01", RDBParseError::InvalidInt),
        (b"REDIS0003\x00\xC3\x01\x05\x00", RDBParseError::InvalidCompStr),
    ];
    for (bytes, expected) in cases {
        let mut cur: &[u8] = bytes;
        let r = RDBParser::from_rdb_file(&mut cur, 0);
        assert_eq!(r.err(), Some(expected));
        assert_eq!(cur, bytes);
    }
}

#[test]
fn framed_snapshot_leaves_what_follows() {
    let mut db = RedisDB::new();
    db.set(b"a".to_vec(), b"1".to_vec(), None, 0);
    let payload = dump_rdb_file(&header(), &db);
    let mut wire: Vec<u8> = format!("${}\r\n", payload.len()).into_bytes();
    wire.extend_from_slice(&payload);
    wire.extend_from_slice(b"*1\r\n$4\r\nPING\r\n");
    let mut cur: &[u8] = &wire;
    let (_, back) = RDBParser::from_rdb(&mut cur, 3).unwrap();
    assert_eq!(cur, b"*1\r\n$4\r\nPING\r\n");
    assert_eq!(pairs(&back), vec![(b"a".to_vec(), b"1".to_vec(), None)]);
}

#[test]
fn framed_snapshot_errors() {
    let mut cur: &[u8] = b"$100\r\nREDIS0003\xFF";
    assert_eq!(RDBParser::from_rdb(&mut cur, 0).err(), Some(RDBParseError::InvalidFileLength));
    assert_eq!(cur.len(), 16);
    let mut cur: &[u8] = b"$9\r\nREDIS0003\xFF";
    assert_eq!(RDBParser::from_rdb(&mut cur, 0).err(), Some(RDBParseError::InvalidFileLength));
    let mut cur: &[u8] = b"REDIS0003\xFF";
    assert_eq!(RDBParser::from_rdb(&mut cur, 0).err(), Some(RDBParseError::InvalidFileLength));
}

#[test]
fn rdb_error_messages() {
    assert_eq!(RDBParseError::InvalidFileLength.message(), "ERROR: invalid RDB file length");
    assert_eq!(
        RDBParseError::InvalidMagicBytes.message(),
        "ERROR: invalid magic bytes, should be `REDIS`"
    );
    assert_eq!(RDBParseError::InvalidLen.message(), "ERROR: invalid encoded length");
    assert_eq!(
        RDBParseError::InvalidCompStr.message(),
        "ERROR: invalid encoded compressed string"
    );
}

#[test]
fn take_upto_takes_or_leaves() {
    let data = [1u8, 2, 3];
    let mut cur: &[u8] = &data;
    assert_eq!(take_upto::<2>(&mut cur), Some(&[1u8, 2][..]));
    assert_eq!(cur, &[3u8][..]);
    assert_eq!(take_upto::<2>(&mut cur), None);
    assert_eq!(cur, &[3u8][..]);
    assert_eq!(take_upto::<0>(&mut cur), Some(&[][..]));
}

#[test]
fn tagged_strings_compare_by_tag_and_contents() {
    let a = ValueType::new(b"abc".to_vec());
    assert!(a.same(&a.duplicate()));
    assert!(!a.same(&ValueType::new(b"abd".to_vec())));
    assert!(!ValueType::new(b"5".to_vec()).same(&ValueType::IntOrString(b"5".to_vec())));
    let long = ValueType::new(vec![b'q'; 160]);
    assert!(matches!(long, ValueType::CompressedString { .. }));
    assert!(long.same(&long.duplicate()));
    assert!(long.same(&ValueType::new(vec![b'q'; 160])));
    assert!(!long.same(&ValueType::new(vec![b'q'; 161])));
}

#[test]
fn entries_expire_strictly_after_their_span() {
    let e = DataEntry::new(b"v".to_vec(), Some(10), 100);
    assert!(!e.is_expired(0));
    assert!(!e.is_expired(100));
    assert!(!e.is_expired(110));
    assert!(e.is_expired(111));
    assert!(!DataEntry::new(b"v".to_vec(), None, 100).is_expired(u64::MAX));
    assert!(!DataEntry::new(b"v".to_vec(), Some(u64::MAX), 0).is_expired(u64::MAX));
}
