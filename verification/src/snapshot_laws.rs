//! What holds between the snapshot writer and the snapshot grammar: lengths,
//! strings, records and whole key-spaces that are written read back as they were.

use vstd::prelude::*;
use crate::constants::{magic, AUX, EOF, EXPIRETIMEMS, SELECTDB};
use crate::data_entry::{lemma_wf_compressed, length_encoding, EntryModel, ValueModel};
use crate::decimal::{digits_value, is_digits};
use crate::endian::{
    as_unsigned, lemma_le_u16_roundtrip, lemma_le_u32_roundtrip, lemma_le_u64_roundtrip, u16_le,
    u32_le, u64_le,
};
use crate::rdb::{
    aux_records, snapshot_bytes, spec_parse_body, spec_parse_compressed, spec_parse_fixed_int,
    spec_parse_integer, spec_parse_key_value, spec_parse_length, spec_parse_magic,
    spec_parse_snapshot, spec_parse_step, spec_parse_string, spec_parse_value_type,
    spec_parse_version, version_text, BodyStep, HeaderModel, RDBParsedLen, RDBParseError,
    SnapshotModel,
};
use crate::redis::{db_insert, db_records, db_wf, index_of, key_at, DbModel};

verus! {

/// The number of bytes that the header of a length takes.
pub open spec fn length_encoding_size(n: nat) -> int {
    if n <= 63 {
        1
    } else if n <= 16383 {
        2
    } else {
        5
    }
}

/// A length that is written and read again is the same length, and it takes
/// one byte up to 63, two bytes up to 16383 and five bytes beyond.
pub proof fn law_length_roundtrip(n: u32, rest: Seq<u8>)
    ensures
        spec_parse_length(length_encoding(n as nat) + rest) == Ok::<
            (RDBParsedLen, int),
            RDBParseError,
        >((RDBParsedLen::IntOrString(n), length_encoding_size(n as nat))),
        length_encoding(n as nat).len() == length_encoding_size(n as nat),
{
    reveal(spec_parse_length);
    let s = length_encoding(n as nat) + rest;
    if n <= 63 {
        assert(s[0] == n);
    } else if n <= 16383 {
        assert(s[0] == 64 + n / 256);
        assert(s[1] == n % 256);
    } else {
        assert(s[0] == 128);
        lemma_le_u32_roundtrip(n as nat);
        assert(s.subrange(1, 5) =~= u32_le(n as nat));
    }
}

/// A written length reads back as an integer too.
pub proof fn lemma_integer_roundtrip(n: u32, rest: Seq<u8>)
    ensures
        spec_parse_integer(length_encoding(n as nat) + rest) == Ok::<(int, int), RDBParseError>(
            (n as int, length_encoding_size(n as nat)),
        ),
{
    reveal(spec_parse_integer);
    law_length_roundtrip(n, rest);
}

/// A stored integer that is written reads back as its decimal text.
pub proof fn lemma_int_string_roundtrip(m: ValueModel, rest: Seq<u8>)
    requires
        m is I8Int || m is I16Int || m is I32Int,
    ensures
        spec_parse_string(m.rdb() + rest) == Ok::<(Seq<u8>, int), RDBParseError>(
            (m.text(), m.rdb().len() as int),
        ),
{
    reveal(spec_parse_string);
    reveal(spec_parse_length);
    reveal(spec_parse_fixed_int);
    let s = m.rdb() + rest;
    match m {
        ValueModel::I8Int(x) => {
            assert(s[0] == 0xC0);
            assert(s.skip(1)[0] == as_unsigned(x as int, 128) as u8);
        },
        ValueModel::I16Int(x) => {
            assert(s[0] == 0xC1);
            let u = as_unsigned(x as int, 32768);
            lemma_le_u16_roundtrip(u);
            assert(s.skip(1).subrange(0, 2) =~= u16_le(u));
        },
        ValueModel::I32Int(x) => {
            assert(s[0] == 0xC2);
            let u = as_unsigned(x as int, 2147483648);
            lemma_le_u32_roundtrip(u);
            assert(s.skip(1).subrange(0, 4) =~= u32_le(u));
        },
        _ => {},
    }
}

/// Stored bytes that are written read back as they were.
pub proof fn lemma_plain_string_roundtrip(t: Seq<u8>, rest: Seq<u8>)
    requires
        t.len() <= u32::MAX,
    ensures
        spec_parse_string(ValueModel::IntOrString(t).rdb() + rest) == Ok::<
            (Seq<u8>, int),
            RDBParseError,
        >((t, ValueModel::IntOrString(t).rdb().len() as int)),
{
    reveal(spec_parse_string);
    let s = ValueModel::IntOrString(t).rdb() + rest;
    let k = length_encoding_size(t.len());
    law_length_roundtrip(t.len() as u32, t + rest);
    assert(s =~= length_encoding(t.len()) + (t + rest));
    assert(s.subrange(k, k + t.len()) =~= t);
}

/// A stored compressed string that is written reads back as its text.
pub proof fn lemma_compressed_string_roundtrip(m: ValueModel, rest: Seq<u8>)
    requires
        m is CompressedString,
        m.wf(),
    ensures
        spec_parse_string(m.rdb() + rest) == Ok::<(Seq<u8>, int), RDBParseError>(
            (m.text(), m.rdb().len() as int),
        ),
{
    reveal(spec_parse_string);
    reveal(spec_parse_compressed);
    lemma_wf_compressed(m);
    let c = m->compressed_data;
    let n = m->real_data_len;
    let s = m.rdb() + rest;
    assert(s[0] == 0xC3);
    assert(spec_parse_length(s) == Ok::<(RDBParsedLen, int), RDBParseError>(
        (RDBParsedLen::CompressedString, 1),
    )) by {
        reveal(spec_parse_length);
    }
    let body = s.skip(1);
    let k1 = length_encoding_size(c.len());
    let k2 = length_encoding_size(n as nat);
    assert(body =~= length_encoding(c.len()) + (length_encoding(n as nat) + c + rest));
    lemma_integer_roundtrip(c.len() as u32, length_encoding(n as nat) + c + rest);
    law_length_roundtrip(c.len() as u32, length_encoding(n as nat) + c + rest);
    assert(body.skip(k1) =~= length_encoding(n as nat) + (c + rest));
    lemma_integer_roundtrip(n as u32, c + rest);
    law_length_roundtrip(n as u32, c + rest);
    assert(body.subrange(k1 + k2, k1 + k2 + c.len()) =~= c);
}

/// A well-formed stored string that is written reads back as its text.
pub proof fn lemma_string_roundtrip(m: ValueModel, rest: Seq<u8>)
    requires
        m.wf(),
    ensures
        spec_parse_string(m.rdb() + rest) == Ok::<(Seq<u8>, int), RDBParseError>(
            (m.text(), m.rdb().len() as int),
        ),
        m.rdb().len() > 0,
{
    match m {
        ValueModel::IntOrString(t) => {
            lemma_plain_string_roundtrip(t, rest);
        },
        ValueModel::CompressedString { .. } => {
            lemma_compressed_string_roundtrip(m, rest);
        },
        _ => {
            lemma_int_string_roundtrip(m, rest);
        },
    }
}

/// The entry as it is read back: the same value and span, stamped with `now`.
pub open spec fn restamped(entry: EntryModel, now: u64) -> EntryModel {
    EntryModel { value: entry.value, created_at: now, expired_millis: entry.expired_millis }
}

/// The key-space as it is read back: every entry stamped with `now`.
pub open spec fn restamped_all(db: DbModel, now: u64) -> DbModel {
    Seq::new(db.len(), |i: int| (db[i].0, restamped(db[i].1, now)))
}

/// A written key and value read back as they were.
pub proof fn lemma_key_value_roundtrip(
    key: ValueModel,
    value: ValueModel,
    expiry: Option<u64>,
    now: u64,
    rest: Seq<u8>,
)
    requires
        key.wf(),
        value.wf(),
    ensures
        spec_parse_key_value(seq![0u8] + key.rdb() + value.rdb() + rest, expiry, now) == Ok::<
            ((ValueModel, EntryModel), int),
            RDBParseError,
        >(
            (
                (key, EntryModel { value: value, created_at: now, expired_millis: expiry }),
                (1 + key.rdb().len() + value.rdb().len()) as int,
            ),
        ),
{
    reveal(spec_parse_key_value);
    reveal(spec_parse_value_type);
    let s = seq![0u8] + key.rdb() + value.rdb() + rest;
    assert(s[0] == 0);
    assert(s.skip(1) =~= key.rdb() + (value.rdb() + rest));
    lemma_string_roundtrip(key, value.rdb() + rest);
    assert(s.skip(1 + key.rdb().len() as int) =~= value.rdb() + rest);
    lemma_string_roundtrip(value, rest);
}

/// A written record reads back as the key and the entry, stamped with `now`.
pub proof fn lemma_record_roundtrip(key: ValueModel, entry: EntryModel, now: u64, rest: Seq<u8>)
    requires
        key.wf(),
        entry.value.wf(),
    ensures
        spec_parse_step(entry.record(key) + rest, now) == Ok::<(BodyStep, int), RDBParseError>(
            (BodyStep::Record(key, restamped(entry, now)), entry.record(key).len() as int),
        ),
        entry.record(key).len() > 0,
{
    reveal(spec_parse_step);
    let s = entry.record(key) + rest;
    match entry.expired_millis {
        Some(span) => {
            assert(s[0] == EXPIRETIMEMS);
            lemma_le_u64_roundtrip(span as nat);
            assert(s.subrange(1, 9) =~= u64_le(span as nat));
            assert(s.skip(9) =~= seq![0u8] + key.rdb() + entry.value.rdb() + rest);
            lemma_key_value_roundtrip(key, entry.value, Some(span), now, rest);
        },
        None => {
            assert(s[0] == 0);
            assert(s =~= seq![0u8] + key.rdb() + entry.value.rdb() + rest);
            lemma_key_value_roundtrip(key, entry.value, None, now, rest);
        },
    }
}

/// A written setting reads back as it was.
pub proof fn lemma_setting_roundtrip(key: ValueModel, value: ValueModel, now: u64, rest: Seq<u8>)
    requires
        key.wf(),
        value.wf(),
    ensures
        spec_parse_step(seq![AUX] + key.rdb() + value.rdb() + rest, now) == Ok::<
            (BodyStep, int),
            RDBParseError,
        >((BodyStep::Setting(key, value), (1 + key.rdb().len() + value.rdb().len()) as int)),
{
    reveal(spec_parse_step);
    let s = seq![AUX] + key.rdb() + value.rdb() + rest;
    assert(s[0] == AUX);
    assert(s.skip(1) =~= key.rdb() + (value.rdb() + rest));
    lemma_string_roundtrip(key, value.rdb() + rest);
    assert(s.skip(1 + key.rdb().len() as int) =~= value.rdb() + rest);
    lemma_string_roundtrip(value, rest);
}

/// The key-space after every entry of `items` is written into `acc`, in
/// order, each stamped with `now`.
pub open spec fn db_insert_all(acc: DbModel, items: DbModel, now: u64) -> DbModel
    decreases items.len(),
{
    if items.len() == 0 {
        acc
    } else {
        db_insert_all(
            db_insert(acc, items[0].0, restamped(items[0].1, now)),
            items.drop_first(),
            now,
        )
    }
}

/// Moves a result that was read behind `shift` bytes back to the whole input.
pub open spec fn shifted(r: Result<(SnapshotModel, int), RDBParseError>, shift: int) -> Result<
    (SnapshotModel, int),
    RDBParseError,
> {
    match r {
        Ok((snap, k)) => Ok((snap, k + shift)),
        Err(e) => Err(e),
    }
}

/// Reading written records writes each into the key-space, and goes on with
/// what follows them.
pub proof fn lemma_body_records(db: DbModel, so_far: SnapshotModel, now: u64, tail: Seq<u8>)
    requires
        forall|i: int| 0 <= i < db.len() ==> (#[trigger] db[i]).0.wf() && db[i].1.value.wf(),
    ensures
        spec_parse_body(db_records(db) + tail, so_far, now) == shifted(
            spec_parse_body(
                tail,
                SnapshotModel { aux: so_far.aux, db: db_insert_all(so_far.db, db, now) },
                now,
            ),
            db_records(db).len() as int,
        ),
    decreases db.len(),
{
    if db.len() == 0 {
        assert(db_records(db) + tail =~= tail);
    } else {
        let key = db[0].0;
        let entry = db[0].1;
        let others = db.drop_first();
        let s = db_records(db) + tail;
        let k = entry.record(key).len() as int;
        assert(s =~= entry.record(key) + (db_records(others) + tail));
        lemma_record_roundtrip(key, entry, now, db_records(others) + tail);
        assert(s.skip(k) =~= db_records(others) + tail);
        let next = SnapshotModel {
            aux: so_far.aux,
            db: db_insert(so_far.db, key, restamped(entry, now)),
        };
        assert forall|i: int| 0 <= i < others.len() implies (#[trigger] others[i]).0.wf()
            && others[i].1.value.wf() by {
            assert(others[i] == db[i + 1]);
        }
        lemma_body_records(others, next, now, tail);
    }
}

/// Reading written settings collects them in order, and goes on with what
/// follows them.
pub proof fn lemma_body_settings(
    aux: Seq<(ValueModel, ValueModel)>,
    so_far: SnapshotModel,
    now: u64,
    tail: Seq<u8>,
)
    requires
        forall|i: int| 0 <= i < aux.len() ==> (#[trigger] aux[i]).0.wf() && aux[i].1.wf(),
    ensures
        spec_parse_body(aux_records(aux) + tail, so_far, now) == shifted(
            spec_parse_body(tail, SnapshotModel { aux: so_far.aux + aux, db: so_far.db }, now),
            aux_records(aux).len() as int,
        ),
    decreases aux.len(),
{
    if aux.len() == 0 {
        assert(aux_records(aux) + tail =~= tail);
        assert(so_far.aux + aux =~= so_far.aux);
    } else {
        let key = aux[0].0;
        let value = aux[0].1;
        let others = aux.drop_first();
        let s = aux_records(aux) + tail;
        let k = (1 + key.rdb().len() + value.rdb().len()) as int;
        assert(s =~= seq![AUX] + key.rdb() + value.rdb() + (aux_records(others) + tail));
        lemma_setting_roundtrip(key, value, now, aux_records(others) + tail);
        assert(s.skip(k) =~= aux_records(others) + tail);
        let next = SnapshotModel { aux: so_far.aux.push((key, value)), db: so_far.db };
        assert forall|i: int| 0 <= i < others.len() implies (#[trigger] others[i]).0.wf()
            && others[i].1.wf() by {
            assert(others[i] == aux[i + 1]);
        }
        lemma_body_settings(others, next, now, tail);
        assert(so_far.aux.push((key, value)) + others =~= so_far.aux + aux);
    }
}

/// Writing entries with keys that are new and all different appends them in order.
pub proof fn lemma_insert_all_fresh(acc: DbModel, items: DbModel, now: u64)
    requires
        forall|i: int, j: int|
            0 <= i < items.len() && 0 <= j < items.len() && i != j ==> (#[trigger] items[i]).0 != (
            #[trigger] items[j]).0,
        forall|i: int, j: int|
            0 <= i < acc.len() && 0 <= j < items.len() ==> (#[trigger] acc[i]).0 != (
            #[trigger] items[j]).0,
    ensures
        db_insert_all(acc, items, now) == acc + restamped_all(items, now),
    decreases items.len(),
{
    if items.len() == 0 {
        assert(acc + restamped_all(items, now) =~= acc);
    } else {
        let key = items[0].0;
        let entry = restamped(items[0].1, now);
        let others = items.drop_first();
        assert(index_of(acc, key) is None) by {
            if exists|i: int| key_at(acc, key, i) {
                let i = choose|i: int| key_at(acc, key, i);
                assert(acc[i].0 != items[0].0);
            }
        }
        let next = acc.push((key, entry));
        assert(db_insert(acc, key, entry) == next);
        assert forall|i: int, j: int|
            0 <= i < others.len() && 0 <= j < others.len() && i != j implies (
        #[trigger] others[i]).0 != (#[trigger] others[j]).0 by {
            assert(others[i] == items[i + 1]);
            assert(others[j] == items[j + 1]);
        }
        assert forall|i: int, j: int| 0 <= i < next.len() && 0 <= j < others.len() implies (
        #[trigger] next[i]).0 != (#[trigger] others[j]).0 by {
            assert(others[j] == items[j + 1]);
            if i < acc.len() {
                assert(next[i] == acc[i]);
            } else {
                assert(next[i].0 == items[0].0);
            }
        }
        lemma_insert_all_fresh(next, others, now);
        assert(next + restamped_all(others, now) =~= acc + restamped_all(items, now));
    }
}

/// The four digits of a version read back as the version.
pub proof fn lemma_version_roundtrip(v: u8, rest: Seq<u8>)
    ensures
        spec_parse_version(version_text(v) + rest) == Ok::<(u32, int), RDBParseError>(
            (v as u32, 4),
        ),
{
    reveal(spec_parse_version);
    let t = version_text(v);
    assert((t + rest).take(4) =~= t);
    assert(is_digits(t));
    let t3 = t.drop_last();
    let t2 = t3.drop_last();
    let t1 = t2.drop_last();
    assert(t1.drop_last() =~= Seq::<u8>::empty());
    assert(digits_value(t1.drop_last()) == 0);
    assert(digits_value(t1) == 0);
    assert(digits_value(t2) == v / 100);
    assert(digits_value(t3) == (v / 100) * 10 + v / 10 % 10);
    assert(digits_value(t) == ((v / 100) * 10 + v / 10 % 10) * 10 + v % 10);
}

/// The selector of database 0 reads as an item without effect.
pub proof fn lemma_select_step(rest: Seq<u8>, now: u64)
    ensures
        spec_parse_step(seq![SELECTDB, 0u8] + rest, now) == Ok::<(BodyStep, int), RDBParseError>(
            (BodyStep::Skip, 2),
        ),
{
    reveal(spec_parse_step);
    reveal(spec_parse_string);
    reveal(spec_parse_length);
    let s = seq![SELECTDB, 0u8] + rest;
    assert(s[0] == SELECTDB);
    assert(s.skip(1)[0] == 0);
    assert(s.skip(1).subrange(1, 1) =~= Seq::<u8>::empty());
}

/// The end marker ends the body and leaves what was read as it is.
pub proof fn lemma_end_step(so_far: SnapshotModel, now: u64)
    ensures
        spec_parse_body(seq![EOF], so_far, now) == Ok::<(SnapshotModel, int), RDBParseError>(
            (so_far, 1),
        ),
{
    reveal(spec_parse_step);
}

/// The written body of a snapshot reads back as the settings and the
/// key-space, each entry stamped with `now`.
pub proof fn lemma_body_roundtrip(aux: Seq<(ValueModel, ValueModel)>, db: DbModel, now: u64)
    requires
        forall|i: int| 0 <= i < aux.len() ==> (#[trigger] aux[i]).0.wf() && aux[i].1.wf(),
        db_wf(db),
    ensures
        spec_parse_body(
            seq![SELECTDB, 0u8] + aux_records(aux) + db_records(db) + seq![EOF],
            SnapshotModel {
                aux: Seq::<(ValueModel, ValueModel)>::empty(),
                db: Seq::<(ValueModel, EntryModel)>::empty(),
            },
            now,
        ) == Ok::<(SnapshotModel, int), RDBParseError>(
            (
                SnapshotModel { aux: aux, db: restamped_all(db, now) },
                2int + aux_records(aux).len() + db_records(db).len() + 1,
            ),
        ),
{
    let empty = SnapshotModel {
        aux: Seq::<(ValueModel, ValueModel)>::empty(),
        db: Seq::<(ValueModel, EntryModel)>::empty(),
    };
    let body = seq![SELECTDB, 0u8] + aux_records(aux) + db_records(db) + seq![EOF];
    let after_select = aux_records(aux) + (db_records(db) + seq![EOF]);
    assert(body =~= seq![SELECTDB, 0u8] + after_select);
    lemma_select_step(after_select, now);
    assert(body.skip(2) =~= after_select);
    lemma_body_settings(aux, empty, now, db_records(db) + seq![EOF]);
    assert(empty.aux + aux =~= aux);
    let with_aux = SnapshotModel { aux: aux, db: empty.db };
    lemma_body_records(db, with_aux, now, seq![EOF]);
    lemma_insert_all_fresh(empty.db, db, now);
    assert(empty.db + restamped_all(db, now) =~= restamped_all(db, now));
    let done = SnapshotModel { aux: aux, db: restamped_all(db, now) };
    lemma_end_step(done, now);
    assert(spec_parse_body(db_records(db) + seq![EOF], with_aux, now) == Ok::<
        (SnapshotModel, int),
        RDBParseError,
    >((done, db_records(db).len() as int + 1)));
    assert(spec_parse_body(after_select, empty, now) == Ok::<(SnapshotModel, int), RDBParseError>(
        (done, aux_records(aux).len() as int + db_records(db).len() + 1),
    ));
}

/// A snapshot that is written and read again holds the same header and the
/// same keys, values and spans in the same order; every entry is stamped
/// with the moment of reading, and nothing of the input is left over.
pub proof fn law_snapshot_roundtrip(header: HeaderModel, db: DbModel, now: u64)
    requires
        header.magic == magic(),
        header.wf(),
        db_wf(db),
    ensures
        spec_parse_snapshot(snapshot_bytes(header, db), now) == Ok::<
            ((HeaderModel, DbModel), int),
            RDBParseError,
        >(((header, restamped_all(db, now)), snapshot_bytes(header, db).len() as int)),
{
    reveal(spec_parse_snapshot);
    let s = snapshot_bytes(header, db);
    let aux = header.aux_settings;
    let body = seq![SELECTDB, 0u8] + aux_records(aux) + db_records(db) + seq![EOF];
    let after_magic = version_text(header.rdb_version) + body;
    assert(s =~= magic() + after_magic);
    assert(spec_parse_magic(s) == Ok::<(Seq<u8>, int), RDBParseError>((magic(), 5))) by {
        reveal(spec_parse_magic);
        assert(s.take(5) =~= magic());
    }
    assert(s.skip(5) =~= after_magic);
    lemma_version_roundtrip(header.rdb_version, body);
    assert(s.skip(9) =~= body);
    lemma_body_roundtrip(aux, db, now);
}

} // verus!
