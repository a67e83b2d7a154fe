//! The snapshot format: its grammar as functions on bytes, the reader proved
//! against the grammar, and the writer of the header.
//!
//! ```text
//! "REDIS" <4 digits> { AUX key value | SELECTDB n | RESIZEDB n n | record } EOF <checksum>
//! record = [ EXPIRETIMEMS <u64 LE> | EXPIRETIME <u32 LE> ] <value type> <key> <value>
//! ```

use vstd::prelude::*;
use vstd::slice::slice_subrange;
use crate::compression::{lzf_decompress, lzf_decompressed};
use crate::constants::{
    magic, AUX, DOLLAR, EOF, EXPIRETIME, EXPIRETIMEMS, MAGIC_BYTES, RESIZEDB, SELECTDB,
    TIME_MILLIS_BYTES, TIME_SECS_BYTES, VERSION_BYTES,
};
use crate::data_entry::{canonical, DataEntry, EntryModel, ValueModel, ValueType};
use crate::decimal::{int_digits, parse_nat, parse_unsigned, push_int, read_nat, read_unsigned};
use crate::endian::{as_signed, le_u16, le_u32, le_u64, read_le_u16, read_le_u32, read_le_u64};
use crate::parser::{line_end, Parser};
use crate::redis::{db_encodable, db_insert, db_wf, DbModel, RedisDB};
use crate::resp::push_bytes;

verus! {

/// Why a run of bytes is not a snapshot.
#[derive(Debug, PartialEq, Eq, Clone, Copy, Structural)]
pub enum RDBParseError {
    InvalidFileLength,
    InvalidMagicBytes,
    InvalidVersion,
    InvalidLen,
    InvalidInt,
    InvalidUnCompStr,
    InvalidCompStr,
    InvalidTimeSecs,
    InvalidTimeMS,
    InvalidValType,
}

impl RDBParseError {
    /// The text shown for this error.
    pub fn message(&self) -> (text: &'static str)
        ensures
            text@ == match *self {
                RDBParseError::InvalidFileLength => "ERROR: invalid RDB file length"@,
                RDBParseError::InvalidMagicBytes => "ERROR: invalid magic bytes, should be `REDIS`"@,
                RDBParseError::InvalidVersion => "ERROR: invalid version number, should be of type `u32`"@,
                RDBParseError::InvalidLen => "ERROR: invalid encoded length"@,
                RDBParseError::InvalidInt => "ERROR: invalid encoded integer"@,
                RDBParseError::InvalidUnCompStr => "ERROR: invalid encoded uncompressed string"@,
                RDBParseError::InvalidCompStr => "ERROR: invalid encoded compressed string"@,
                RDBParseError::InvalidTimeSecs => "ERROR: invalid encoded time in secons"@,
                RDBParseError::InvalidTimeMS => "ERROR: invalid encoded time in milliseconds"@,
                RDBParseError::InvalidValType => "ERROR: invalid given value type or not implemented yet"@,
            },
    {
        match self {
            RDBParseError::InvalidFileLength => "ERROR: invalid RDB file length",
            RDBParseError::InvalidMagicBytes => "ERROR: invalid magic bytes, should be `REDIS`",
            RDBParseError::InvalidVersion => "ERROR: invalid version number, should be of type `u32`",
            RDBParseError::InvalidLen => "ERROR: invalid encoded length",
            RDBParseError::InvalidInt => "ERROR: invalid encoded integer",
            RDBParseError::InvalidUnCompStr => "ERROR: invalid encoded uncompressed string",
            RDBParseError::InvalidCompStr => "ERROR: invalid encoded compressed string",
            RDBParseError::InvalidTimeSecs => "ERROR: invalid encoded time in secons",
            RDBParseError::InvalidTimeMS => "ERROR: invalid encoded time in milliseconds",
            RDBParseError::InvalidValType => "ERROR: invalid given value type or not implemented yet",
        }
    }
}

/// What a length header says: a plain length, or which special encoding follows.
#[derive(Debug, PartialEq, Eq, Clone, Copy, Structural)]
pub enum RDBParsedLen {
    I8Int,
    I16Int,
    I32Int,
    CompressedString,
    IntOrString(u32),
}

/// The grammar of a length header: the top two bits of the first byte choose
/// between a 6-bit, a 14-bit and a 32-bit length and the special encodings.
#[verifier::opaque]
pub open spec fn spec_parse_length(s: Seq<u8>) -> Result<(RDBParsedLen, int), RDBParseError> {
    if s.len() < 1 {
        Err(RDBParseError::InvalidLen)
    } else if s[0] / 64 == 0 {
        Ok((RDBParsedLen::IntOrString((s[0] % 64) as u32), 1))
    } else if s[0] / 64 == 1 {
        if s.len() < 2 {
            Err(RDBParseError::InvalidLen)
        } else {
            Ok((RDBParsedLen::IntOrString(((s[0] % 64) * 256 + s[1]) as u32), 2))
        }
    } else if s[0] / 64 == 2 {
        if s.len() < 5 {
            Err(RDBParseError::InvalidLen)
        } else {
            Ok((RDBParsedLen::IntOrString(le_u32(s.subrange(1, 5)) as u32), 5))
        }
    } else if s[0] % 64 == 0 {
        Ok((RDBParsedLen::I8Int, 1))
    } else if s[0] % 64 == 1 {
        Ok((RDBParsedLen::I16Int, 1))
    } else if s[0] % 64 == 2 {
        Ok((RDBParsedLen::I32Int, 1))
    } else if s[0] % 64 == 3 {
        Ok((RDBParsedLen::CompressedString, 1))
    } else {
        Err(RDBParseError::InvalidLen)
    }
}

/// The grammar of the integer that a special encoding of width `kind`
/// stores at the front of `s`.
#[verifier::opaque]
pub open spec fn spec_parse_fixed_int(s: Seq<u8>, kind: RDBParsedLen) -> Result<
    (int, int),
    RDBParseError,
> {
    match kind {
        RDBParsedLen::I8Int => if s.len() < 1 {
            Err(RDBParseError::InvalidInt)
        } else {
            Ok((as_signed(s[0] as nat, 128), 1))
        },
        RDBParsedLen::I16Int => if s.len() < 2 {
            Err(RDBParseError::InvalidInt)
        } else {
            Ok((as_signed(le_u16(s.subrange(0, 2)), 32768), 2))
        },
        RDBParsedLen::I32Int => if s.len() < 4 {
            Err(RDBParseError::InvalidInt)
        } else {
            Ok((as_signed(le_u32(s.subrange(0, 4)), 2147483648), 4))
        },
        _ => Err(RDBParseError::InvalidInt),
    }
}

/// The grammar of an integer: a plain length counts as the integer itself.
#[verifier::opaque]
pub open spec fn spec_parse_integer(s: Seq<u8>) -> Result<(int, int), RDBParseError> {
    match spec_parse_length(s) {
        Ok((RDBParsedLen::IntOrString(n), k)) => Ok((n as int, k)),
        Ok((kind, k)) => match spec_parse_fixed_int(s.skip(k), kind) {
            Ok((v, m)) => Ok((v, k + m)),
            Err(e) => Err(e),
        },
        Err(e) => Err(e),
    }
}

/// The grammar of a compressed string after its marker: the compressed
/// length, the uncompressed length, and the compressed bytes.
#[verifier::opaque]
pub open spec fn spec_parse_compressed(s: Seq<u8>) -> Result<(Seq<u8>, int), RDBParseError> {
    match spec_parse_integer(s) {
        Ok((packed_len, k1)) => match spec_parse_integer(s.skip(k1)) {
            Ok((real_len, k2)) => if packed_len < 0 || real_len < 0 || real_len > i32::MAX
                || s.len() < k1 + k2 + packed_len {
                Err(RDBParseError::InvalidCompStr)
            } else {
                match lzf_decompressed(
                    s.subrange(k1 + k2, k1 + k2 + packed_len),
                    real_len as usize,
                ) {
                    Some(t) => if t.len() <= real_len {
                        Ok((t, k1 + k2 + packed_len))
                    } else {
                        Err(RDBParseError::InvalidCompStr)
                    },
                    None => Err(RDBParseError::InvalidCompStr),
                }
            },
            Err(e) => Err(e),
        },
        Err(e) => Err(e),
    }
}

/// The grammar of a string: the byte string that it stands for, whichever
/// way it is encoded.
#[verifier::opaque]
pub open spec fn spec_parse_string(s: Seq<u8>) -> Result<(Seq<u8>, int), RDBParseError> {
    match spec_parse_length(s) {
        Ok((RDBParsedLen::IntOrString(n), k)) => if s.len() < k + n {
            Err(RDBParseError::InvalidUnCompStr)
        } else {
            Ok((s.subrange(k, k + n), k + n))
        },
        Ok((RDBParsedLen::CompressedString, k)) => match spec_parse_compressed(s.skip(k)) {
            Ok((t, m)) => Ok((t, k + m)),
            Err(e) => Err(e),
        },
        Ok((kind, k)) => match spec_parse_fixed_int(s.skip(k), kind) {
            Ok((v, m)) => Ok((int_digits(v), k + m)),
            Err(e) => Err(e),
        },
        Err(e) => Err(e),
    }
}

/// The grammar of the value-type byte: only strings, type 0, are known.
#[verifier::opaque]
pub open spec fn spec_parse_value_type(s: Seq<u8>) -> Result<(u8, int), RDBParseError> {
    if s.len() < 1 || s[0] != 0 {
        Err(RDBParseError::InvalidValType)
    } else {
        Ok((0u8, 1))
    }
}

/// The grammar of a record after its expiry: value type, key and value. The
/// entry is stamped with the moment `now`.
#[verifier::opaque]
pub open spec fn spec_parse_key_value(s: Seq<u8>, expiry: Option<u64>, now: u64) -> Result<
    ((ValueModel, EntryModel), int),
    RDBParseError,
> {
    match spec_parse_value_type(s) {
        Ok((_, k0)) => match spec_parse_string(s.skip(k0)) {
            Ok((key, k1)) => match spec_parse_string(s.skip(k0 + k1)) {
                Ok((value, k2)) => Ok(
                    (
                        (
                            canonical(key),
                            EntryModel {
                                value: canonical(value),
                                created_at: now,
                                expired_millis: expiry,
                            },
                        ),
                        k0 + k1 + k2,
                    ),
                ),
                Err(e) => Err(e),
            },
            Err(e) => Err(e),
        },
        Err(e) => Err(e),
    }
}

/// What a snapshot holds: the settings of its header and the key-space.
pub struct SnapshotModel {
    pub aux: Seq<(ValueModel, ValueModel)>,
    pub db: DbModel,
}

/// What one item of the body of a snapshot does to what was read so far.
pub enum BodyStep {
    /// The end marker.
    End,
    /// An item without effect: a database selector or a size hint.
    Skip,
    /// A setting of the header.
    Setting(ValueModel, ValueModel),
    /// A key with its entry.
    Record(ValueModel, EntryModel),
}

/// The grammar of one item of the body, by its first byte.
#[verifier::opaque]
pub open spec fn spec_parse_step(s: Seq<u8>, now: u64) -> Result<(BodyStep, int), RDBParseError> {
    if s.len() < 1 {
        Err(RDBParseError::InvalidFileLength)
    } else if s[0] == EOF {
        Ok((BodyStep::End, 1))
    } else if s[0] == SELECTDB {
        match spec_parse_string(s.skip(1)) {
            Ok((_, k)) => Ok((BodyStep::Skip, 1 + k)),
            Err(e) => Err(e),
        }
    } else if s[0] == RESIZEDB {
        match spec_parse_integer(s.skip(1)) {
            Ok((_, k1)) => match spec_parse_integer(s.skip(1 + k1)) {
                Ok((_, k2)) => Ok((BodyStep::Skip, 1 + k1 + k2)),
                Err(e) => Err(e),
            },
            Err(e) => Err(e),
        }
    } else if s[0] == AUX {
        match spec_parse_string(s.skip(1)) {
            Ok((key, k1)) => match spec_parse_string(s.skip(1 + k1)) {
                Ok((value, k2)) => Ok(
                    (BodyStep::Setting(canonical(key), canonical(value)), 1 + k1 + k2),
                ),
                Err(e) => Err(e),
            },
            Err(e) => Err(e),
        }
    } else if s[0] == EXPIRETIME {
        if s.len() < 1 + TIME_SECS_BYTES {
            Err(RDBParseError::InvalidTimeSecs)
        } else {
            let secs = le_u32(s.subrange(1, 5));
            match spec_parse_key_value(s.skip(5), Some((secs * 1000) as u64), now) {
                Ok((pair, k)) => Ok((BodyStep::Record(pair.0, pair.1), 5 + k)),
                Err(e) => Err(e),
            }
        }
    } else if s[0] == EXPIRETIMEMS {
        if s.len() < 1 + TIME_MILLIS_BYTES {
            Err(RDBParseError::InvalidTimeMS)
        } else {
            let millis = le_u64(s.subrange(1, 9));
            match spec_parse_key_value(s.skip(9), Some(millis as u64), now) {
                Ok((pair, k)) => Ok((BodyStep::Record(pair.0, pair.1), 9 + k)),
                Err(e) => Err(e),
            }
        }
    } else {
        match spec_parse_key_value(s, None, now) {
            Ok((pair, k)) => Ok((BodyStep::Record(pair.0, pair.1), k)),
            Err(e) => Err(e),
        }
    }
}

/// The grammar of the body of a snapshot: items up to the end marker, read
/// into the settings and the key-space that were read so far. A key that
/// occurs again replaces its entry.
pub open spec fn spec_parse_body(s: Seq<u8>, so_far: SnapshotModel, now: u64) -> Result<
    (SnapshotModel, int),
    RDBParseError,
>
    decreases s.len(),
{
    match spec_parse_step(s, now) {
        Ok((step, k)) => if 0 < k <= s.len() {
            let next = match step {
                BodyStep::End => so_far,
                BodyStep::Skip => so_far,
                BodyStep::Setting(key, value) => SnapshotModel {
                    aux: so_far.aux.push((key, value)),
                    db: so_far.db,
                },
                BodyStep::Record(key, entry) => SnapshotModel {
                    aux: so_far.aux,
                    db: db_insert(so_far.db, key, entry),
                },
            };
            if step is End {
                Ok((next, k))
            } else {
                match spec_parse_body(s.skip(k), next, now) {
                    Ok((snap, m)) => Ok((snap, k + m)),
                    Err(e) => Err(e),
                }
            }
        } else {
            Err(RDBParseError::InvalidFileLength)
        },
        Err(e) => Err(e),
    }
}

/// The header of a snapshot.
#[derive(Debug)]
pub struct RDBHeader {
    pub magic: Vec<u8>,
    pub rdb_version: u8,
    pub aux_settings: Vec<(ValueType, ValueType)>,
}

/// The mathematical model of a header.
pub struct HeaderModel {
    pub magic: Seq<u8>,
    pub rdb_version: u8,
    pub aux_settings: Seq<(ValueModel, ValueModel)>,
}

impl View for RDBHeader {
    type V = HeaderModel;

    open spec fn view(&self) -> HeaderModel {
        HeaderModel {
            magic: self.magic@,
            rdb_version: self.rdb_version,
            aux_settings: Seq::new(
                self.aux_settings@.len(),
                |i: int| (self.aux_settings@[i].0@, self.aux_settings@[i].1@),
            ),
        }
    }
}

/// The lengths of a well-formed header fit the snapshot format.
pub proof fn lemma_header_encodable(h: HeaderModel)
    requires
        h.wf(),
    ensures
        h.encodable(),
{
    assert forall|i: int| 0 <= i < h.aux_settings.len() implies (#[trigger] h.aux_settings[i]).0.encodable()
        && h.aux_settings[i].1.encodable() by {
        crate::data_entry::lemma_wf_encodable(h.aux_settings[i].0);
        crate::data_entry::lemma_wf_encodable(h.aux_settings[i].1);
    }
}

/// A version number as the four digits that the format stores.
pub open spec fn version_text(v: u8) -> Seq<u8> {
    seq![48u8, (48 + v / 100) as u8, (48 + v / 10 % 10) as u8, (48 + v % 10) as u8]
}

/// The bytes of the settings of a header, each behind its marker.
pub open spec fn aux_records(aux: Seq<(ValueModel, ValueModel)>) -> Seq<u8>
    decreases aux.len(),
{
    if aux.len() == 0 {
        Seq::<u8>::empty()
    } else {
        seq![AUX] + aux[0].0.rdb() + aux[0].1.rdb() + aux_records(aux.drop_first())
    }
}

/// One more setting at the end appends its bytes.
pub proof fn lemma_aux_records_push(aux: Seq<(ValueModel, ValueModel)>, pair: (ValueModel, ValueModel))
    ensures
        aux_records(aux.push(pair)) == aux_records(aux) + (seq![AUX] + pair.0.rdb() + pair.1.rdb()),
    decreases aux.len(),
{
    if aux.len() == 0 {
        assert(aux.push(pair).drop_first() =~= Seq::<(ValueModel, ValueModel)>::empty());
        assert(aux_records(Seq::<(ValueModel, ValueModel)>::empty()) =~= Seq::<u8>::empty());
        assert(aux_records(aux) =~= Seq::<u8>::empty());
        assert(aux.push(pair)[0] == pair);
        assert(aux_records(aux.push(pair)) =~= aux_records(aux) + (seq![AUX] + pair.0.rdb()
            + pair.1.rdb()));
    } else {
        assert(aux.push(pair).drop_first() =~= aux.drop_first().push(pair));
        lemma_aux_records_push(aux.drop_first(), pair);
        assert(aux_records(aux.push(pair)) =~= aux_records(aux) + (seq![AUX] + pair.0.rdb()
            + pair.1.rdb()));
    }
}

impl HeaderModel {
    /// Every setting is a well-formed pair of strings.
    pub open spec fn wf(self) -> bool {
        forall|i: int|
            0 <= i < self.aux_settings.len() ==> (#[trigger] self.aux_settings[i]).0.wf()
                && self.aux_settings[i].1.wf()
    }

    /// The lengths of every setting fit the snapshot format.
    pub open spec fn encodable(self) -> bool {
        forall|i: int|
            0 <= i < self.aux_settings.len() ==> (#[trigger] self.aux_settings[i]).0.encodable()
                && self.aux_settings[i].1.encodable()
    }

    /// The bytes of the header: magic, version, the selector of database 0
    /// and the settings.
    pub open spec fn rdb(self) -> Seq<u8> {
        self.magic + version_text(self.rdb_version) + seq![SELECTDB, 0u8] + aux_records(
            self.aux_settings,
        )
    }
}

impl RDBHeader {
    /// Writes the header as a snapshot starts with it.
    pub fn as_rdb(&self) -> (out: Vec<u8>)
        requires
            self@.encodable(),
        ensures
            out@ == self@.rdb(),
    {
        let mut out: Vec<u8> = Vec::new();
        push_bytes(&mut out, self.magic.as_slice());
        let v: u8 = self.rdb_version;
        out.push(48);
        out.push(48 + v / 100);
        out.push(48 + v / 10 % 10);
        out.push(48 + v % 10);
        out.push(SELECTDB);
        out.push(0);
        let ghost head = out@;
        let ghost aux = self@.aux_settings;
        assert(head =~= self@.magic + version_text(self.rdb_version) + seq![SELECTDB, 0u8]);
        let n: usize = self.aux_settings.len();
        let mut i: usize = 0;
        assert(aux.take(0) =~= Seq::<(ValueModel, ValueModel)>::empty());
        while i < n
            invariant
                n == self.aux_settings@.len(),
                0 <= i <= n,
                aux == self@.aux_settings,
                self@.encodable(),
                out@ == head + aux_records(aux.take(i as int)),
            decreases n - i,
        {
            assert(aux[i as int] == (self.aux_settings@[i as int].0@, self.aux_settings@[i as int].1@));
            out.push(AUX);
            let key: Vec<u8> = self.aux_settings[i].0.as_rdb();
            let value: Vec<u8> = self.aux_settings[i].1.as_rdb();
            push_bytes(&mut out, key.as_slice());
            push_bytes(&mut out, value.as_slice());
            proof {
                lemma_aux_records_push(aux.take(i as int), aux[i as int]);
                assert(aux.take(i + 1) =~= aux.take(i as int).push(aux[i as int]));
                assert(out@ =~= head + aux_records(aux.take(i + 1)));
            }
            i = i + 1;
        }
        assert(aux.take(n as int) =~= aux);
        out
    }
}

/// The grammar of the magic at the front of a snapshot.
#[verifier::opaque]
pub open spec fn spec_parse_magic(s: Seq<u8>) -> Result<(Seq<u8>, int), RDBParseError> {
    if s.len() < MAGIC_BYTES || s.take(5) != magic() {
        Err(RDBParseError::InvalidMagicBytes)
    } else {
        Ok((magic(), 5))
    }
}

/// The grammar of the version: four ASCII digits.
#[verifier::opaque]
pub open spec fn spec_parse_version(s: Seq<u8>) -> Result<(u32, int), RDBParseError> {
    if s.len() < VERSION_BYTES {
        Err(RDBParseError::InvalidVersion)
    } else {
        match parse_nat(s.take(4), 9999) {
            Some(v) => Ok((v as u32, 4)),
            None => Err(RDBParseError::InvalidVersion),
        }
    }
}

/// The grammar of a whole snapshot: magic, a version up to 255 and the body.
/// Whatever follows the end marker is the checksum and is not read.
#[verifier::opaque]
pub open spec fn spec_parse_snapshot(s: Seq<u8>, now: u64) -> Result<
    ((HeaderModel, DbModel), int),
    RDBParseError,
> {
    match spec_parse_magic(s) {
        Ok((m, k0)) => match spec_parse_version(s.skip(k0)) {
            Ok((v, k1)) => if v > 255 {
                Err(RDBParseError::InvalidVersion)
            } else {
                match spec_parse_body(
                    s.skip(k0 + k1),
                    SnapshotModel {
                        aux: Seq::<(ValueModel, ValueModel)>::empty(),
                        db: Seq::<(ValueModel, EntryModel)>::empty(),
                    },
                    now,
                ) {
                    Ok((snap, k2)) => Ok(
                        (
                            (
                                HeaderModel {
                                    magic: m,
                                    rdb_version: v as u8,
                                    aux_settings: snap.aux,
                                },
                                snap.db,
                            ),
                            k0 + k1 + k2,
                        ),
                    ),
                    Err(e) => Err(e),
                }
            },
            Err(e) => Err(e),
        },
        Err(e) => Err(e),
    }
}

/// The grammar of the frame that carries a snapshot over the wire: `$`, the
/// length of the payload in decimal, and a line terminator.
#[verifier::opaque]
pub open spec fn spec_parse_rdb_file_length(s: Seq<u8>) -> Result<(usize, int), RDBParseError> {
    if s.len() < 1 || s[0] != DOLLAR {
        Err(RDBParseError::InvalidFileLength)
    } else {
        match line_end(s.skip(1)) {
            Some(e) => match parse_unsigned(s.skip(1).take(e), usize::MAX as nat) {
                Some(n) => Ok((n as usize, 1 + e + 2)),
                None => Err(RDBParseError::InvalidFileLength),
            },
            None => Err(RDBParseError::InvalidFileLength),
        }
    }
}

/// The grammar of a framed snapshot: the frame, and a snapshot within
/// exactly the bytes that the frame announces. No terminator follows.
#[verifier::opaque]
pub open spec fn spec_from_rdb(s: Seq<u8>, now: u64) -> Result<
    ((HeaderModel, DbModel), int),
    RDBParseError,
> {
    match spec_parse_rdb_file_length(s) {
        Ok((n, k)) => if s.len() < k + n {
            Err(RDBParseError::InvalidFileLength)
        } else {
            match spec_parse_snapshot(s.subrange(k, k + n), now) {
                Ok((snap, _)) => Ok((snap, k + n)),
                Err(e) => Err(e),
            }
        },
        Err(e) => Err(e),
    }
}

/// The bytes of a whole snapshot without checksum: header, records, end marker.
pub open spec fn snapshot_bytes(header: HeaderModel, db: DbModel) -> Seq<u8> {
    header.rdb() + crate::redis::db_records(db) + seq![EOF]
}

/// One item of the body of a snapshot as the reader hands it on.
pub enum Step {
    End,
    Skip,
    Setting(ValueType, ValueType),
    Record(ValueType, DataEntry),
}

impl View for Step {
    type V = BodyStep;

    open spec fn view(&self) -> BodyStep {
        match self {
            Step::End => BodyStep::End,
            Step::Skip => BodyStep::Skip,
            Step::Setting(k, v) => BodyStep::Setting(k@, v@),
            Step::Record(k, e) => BodyStep::Record(k@, e@),
        }
    }
}

impl BodyStep {
    /// The strings of the item are well formed.
    pub open spec fn wf(self) -> bool {
        match self {
            BodyStep::Setting(k, v) => k.wf() && v.wf(),
            BodyStep::Record(k, e) => k.wf() && e.value.wf(),
            _ => true,
        }
    }
}

pub struct RDBParser {}

impl RDBParser {
    /// Reads the frame that announces a snapshot on the wire and hands back
    /// the length of the payload.
    pub fn parse_rdb_file_length<'a>(data: &mut &'a [u8]) -> (r: Result<usize, RDBParseError>)
        ensures
            match spec_parse_rdb_file_length(old(data)@) {
                Ok((n, k)) => r == Ok::<usize, RDBParseError>(n) && 0 < k <= old(data)@.len()
                    && final(data)@ == old(data)@.skip(k),
                Err(e) => r == Err::<usize, RDBParseError>(e) && final(data)@ == old(data)@,
            },
    {
        proof {
            reveal(spec_parse_rdb_file_length);
        }
        let whole: &'a [u8] = *data;
        if whole.len() < 1 || whole[0] != DOLLAR {
            return Err(RDBParseError::InvalidFileLength);
        }
        let body = slice_subrange(whole, 1, whole.len());
        assert(body@ =~= whole@.skip(1));
        match Parser::parse_until_crlf(body) {
            Ok((line, rest)) => match read_unsigned(line, usize::MAX as u128) {
                Some(n) => {
                    proof {
                        let e = line_end(body@)->0;
                        assert(whole@.skip(1).skip(e + 2) =~= whole@.skip(1 + e + 2));
                    }
                    *data = rest;
                    Ok(n as usize)
                },
                None => Err(RDBParseError::InvalidFileLength),
            },
            Err(_) => Err(RDBParseError::InvalidFileLength),
        }
    }

    /// Reads the magic.
    pub fn parse_magic<'a>(data: &mut &'a [u8]) -> (r: Result<Vec<u8>, RDBParseError>)
        ensures
            match spec_parse_magic(old(data)@) {
                Ok((m, k)) => r matches Ok(v) && v@ == m && final(data)@ == old(data)@.skip(k),
                Err(e) => r matches Err(err) && err == e && final(data)@ == old(data)@,
            },
    {
        proof {
            reveal(spec_parse_magic);
        }
        let whole: &'a [u8] = *data;
        if whole.len() < MAGIC_BYTES {
            return Err(RDBParseError::InvalidMagicBytes);
        }
        let head = slice_subrange(whole, 0, MAGIC_BYTES);
        assert(head@ =~= whole@.take(5));
        if !(head[0] == 82 && head[1] == 69 && head[2] == 68 && head[3] == 73 && head[4] == 83) {
            assert(head@ != magic()) by {
                if head@ == magic() {
                    assert(magic()[0] == 82 && magic()[1] == 69 && magic()[2] == 68 && magic()[3]
                        == 73 && magic()[4] == 83);
                }
            }
            return Err(RDBParseError::InvalidMagicBytes);
        }
        assert(head@ =~= magic());
        let rest = slice_subrange(whole, MAGIC_BYTES, whole.len());
        assert(rest@ =~= whole@.skip(5));
        *data = rest;
        Ok(vstd::slice::slice_to_vec(head))
    }

    /// Reads the version.
    pub fn parse_version<'a>(data: &mut &'a [u8]) -> (r: Result<u32, RDBParseError>)
        ensures
            match spec_parse_version(old(data)@) {
                Ok((v, k)) => r == Ok::<u32, RDBParseError>(v) && final(data)@ == old(data)@.skip(
                    k,
                ),
                Err(e) => r == Err::<u32, RDBParseError>(e) && final(data)@ == old(data)@,
            },
    {
        proof {
            reveal(spec_parse_version);
        }
        let whole: &'a [u8] = *data;
        if whole.len() < VERSION_BYTES {
            return Err(RDBParseError::InvalidVersion);
        }
        let head = slice_subrange(whole, 0, VERSION_BYTES);
        assert(head@ =~= whole@.take(4));
        match read_nat(head, 9999) {
            Some(v) => {
                let rest = slice_subrange(whole, VERSION_BYTES, whole.len());
                assert(rest@ =~= whole@.skip(4));
                *data = rest;
                Ok(v as u32)
            },
            None => Err(RDBParseError::InvalidVersion),
        }
    }

    /// Reads a length header.
    pub fn parse_length<'a>(data: &mut &'a [u8]) -> (r: Result<RDBParsedLen, RDBParseError>)
        ensures
            match spec_parse_length(old(data)@) {
                Ok((len, k)) => {
                    &&& r == Ok::<RDBParsedLen, RDBParseError>(len)
                    &&& 0 < k <= old(data)@.len()
                    &&& final(data)@ == old(data)@.skip(k)
                },
                Err(e) => r == Err::<RDBParsedLen, RDBParseError>(e) && final(data)@ == old(data)@,
            },
    {
        proof {
            reveal(spec_parse_length);
        }
        let whole: &'a [u8] = *data;
        if whole.len() < 1 {
            return Err(RDBParseError::InvalidLen);
        }
        let first: u8 = whole[0];
        let kind: u8 = first / 64;
        let low: u8 = first % 64;
        if kind == 0 {
            let rest = slice_subrange(whole, 1, whole.len());
            assert(rest@ =~= whole@.skip(1));
            *data = rest;
            Ok(RDBParsedLen::IntOrString(low as u32))
        } else if kind == 1 {
            if whole.len() < 2 {
                return Err(RDBParseError::InvalidLen);
            }
            let n: u32 = (low as u32) * 256 + (whole[1] as u32);
            let rest = slice_subrange(whole, 2, whole.len());
            assert(rest@ =~= whole@.skip(2));
            *data = rest;
            Ok(RDBParsedLen::IntOrString(n))
        } else if kind == 2 {
            if whole.len() < 5 {
                return Err(RDBParseError::InvalidLen);
            }
            let n: u32 = read_le_u32(slice_subrange(whole, 1, 5));
            let rest = slice_subrange(whole, 5, whole.len());
            assert(rest@ =~= whole@.skip(5));
            *data = rest;
            Ok(RDBParsedLen::IntOrString(n))
        } else {
            let r = if low == 0 {
                RDBParsedLen::I8Int
            } else if low == 1 {
                RDBParsedLen::I16Int
            } else if low == 2 {
                RDBParsedLen::I32Int
            } else if low == 3 {
                RDBParsedLen::CompressedString
            } else {
                return Err(RDBParseError::InvalidLen);
            };
            let rest = slice_subrange(whole, 1, whole.len());
            assert(rest@ =~= whole@.skip(1));
            *data = rest;
            Ok(r)
        }
    }

    /// Reads the value-type byte.
    pub fn parse_value_type<'a>(data: &mut &'a [u8]) -> (r: Result<u8, RDBParseError>)
        ensures
            match spec_parse_value_type(old(data)@) {
                Ok((v, k)) => r == Ok::<u8, RDBParseError>(v) && 0 < k <= old(data)@.len()
                    && final(data)@ == old(data)@.skip(k),
                Err(e) => r == Err::<u8, RDBParseError>(e) && final(data)@ == old(data)@,
            },
    {
        proof {
            reveal(spec_parse_value_type);
        }
        let whole: &'a [u8] = *data;
        if whole.len() < 1 || whole[0] != 0 {
            return Err(RDBParseError::InvalidValType);
        }
        let rest = slice_subrange(whole, 1, whole.len());
        assert(rest@ =~= whole@.skip(1));
        *data = rest;
        Ok(0)
    }

    /// Reads the integer that a special encoding of width `kind` stores.
    pub fn parse_fixed_int<'a>(data: &mut &'a [u8], kind: RDBParsedLen) -> (r: Result<
        i64,
        RDBParseError,
    >)
        ensures
            match spec_parse_fixed_int(old(data)@, kind) {
                Ok((v, k)) => {
                    &&& r == Ok::<i64, RDBParseError>(v as i64)
                    &&& 0 < k <= old(data)@.len()
                    &&& final(data)@ == old(data)@.skip(k)
                    &&& -0x8000_0000 <= v <= 0x7fff_ffff
                },
                Err(e) => r == Err::<i64, RDBParseError>(e) && final(data)@ == old(data)@,
            },
    {
        proof {
            reveal(spec_parse_fixed_int);
        }
        let whole: &'a [u8] = *data;
        match kind {
            RDBParsedLen::I8Int => {
                if whole.len() < 1 {
                    return Err(RDBParseError::InvalidInt);
                }
                let b: i64 = whole[0] as i64;
                let rest = slice_subrange(whole, 1, whole.len());
                assert(rest@ =~= whole@.skip(1));
                *data = rest;
                Ok(if b >= 128 { b - 256 } else { b })
            },
            RDBParsedLen::I16Int => {
                if whole.len() < 2 {
                    return Err(RDBParseError::InvalidInt);
                }
                let b: i64 = read_le_u16(slice_subrange(whole, 0, 2)) as i64;
                let rest = slice_subrange(whole, 2, whole.len());
                assert(rest@ =~= whole@.skip(2));
                *data = rest;
                Ok(if b >= 32768 { b - 65536 } else { b })
            },
            RDBParsedLen::I32Int => {
                if whole.len() < 4 {
                    return Err(RDBParseError::InvalidInt);
                }
                let b: i64 = read_le_u32(slice_subrange(whole, 0, 4)) as i64;
                let rest = slice_subrange(whole, 4, whole.len());
                assert(rest@ =~= whole@.skip(4));
                *data = rest;
                Ok(if b >= 2147483648 { b - 4294967296 } else { b })
            },
            _ => Err(RDBParseError::InvalidInt),
        }
    }

    /// Reads an integer.
    pub fn parse_integer<'a>(data: &mut &'a [u8]) -> (r: Result<i64, RDBParseError>)
        ensures
            match spec_parse_integer(old(data)@) {
                Ok((v, k)) => {
                    &&& r == Ok::<i64, RDBParseError>(v as i64)
                    &&& 0 < k <= old(data)@.len()
                    &&& final(data)@ == old(data)@.skip(k)
                    &&& -0x8000_0000 <= v <= 0xffff_ffff
                },
                Err(e) => r == Err::<i64, RDBParseError>(e) && final(data)@ == old(data)@,
            },
    {
        proof {
            reveal(spec_parse_integer);
        }
        let mut cur: &'a [u8] = *data;
        let kind = match Self::parse_length(&mut cur) {
            Ok(kind) => kind,
            Err(e) => {
                return Err(e);
            },
        };
        let ghost k = spec_parse_length(old(data)@)->Ok_0.1;
        match kind {
            RDBParsedLen::IntOrString(n) => {
                *data = cur;
                Ok(n as i64)
            },
            _ => match Self::parse_fixed_int(&mut cur, kind) {
                Ok(v) => {
                    proof {
                        let m = spec_parse_fixed_int(old(data)@.skip(k), kind)->Ok_0.1;
                        assert(old(data)@.skip(k).skip(m) =~= old(data)@.skip(k + m));
                    }
                    *data = cur;
                    Ok(v)
                },
                Err(e) => Err(e),
            },
        }
    }

    /// Reads a compressed string after its marker and decompresses it.
    pub fn parse_compressed<'a>(data: &mut &'a [u8]) -> (r: Result<Vec<u8>, RDBParseError>)
        ensures
            match spec_parse_compressed(old(data)@) {
                Ok((t, k)) => {
                    &&& r matches Ok(v) && v@ == t
                    &&& 0 < k <= old(data)@.len()
                    &&& final(data)@ == old(data)@.skip(k)
                    &&& t.len() <= i32::MAX
                },
                Err(e) => r matches Err(err) && err == e && final(data)@ == old(data)@,
            },
    {
        proof {
            reveal(spec_parse_compressed);
        }
        let mut cur: &'a [u8] = *data;
        let packed_len: i64 = match Self::parse_integer(&mut cur) {
            Ok(n) => n,
            Err(e) => {
                return Err(e);
            },
        };
        let ghost k1 = spec_parse_integer(old(data)@)->Ok_0.1;
        let real_len: i64 = match Self::parse_integer(&mut cur) {
            Ok(n) => n,
            Err(e) => {
                return Err(e);
            },
        };
        let ghost k2 = spec_parse_integer(old(data)@.skip(k1))->Ok_0.1;
        assert(cur@ =~= old(data)@.skip(k1 + k2));
        if packed_len < 0 || real_len < 0 || real_len > 0x7fff_ffff {
            return Err(RDBParseError::InvalidCompStr);
        }
        let n: usize = packed_len as usize;
        if cur.len() < n {
            return Err(RDBParseError::InvalidCompStr);
        }
        let packed = slice_subrange(cur, 0, n);
        let rest = slice_subrange(cur, n, cur.len());
        assert(packed@ =~= old(data)@.subrange(k1 + k2, k1 + k2 + packed_len));
        assert(rest@ =~= old(data)@.skip(k1 + k2 + packed_len));
        match lzf_decompress(packed, real_len as usize) {
            Ok(text) => {
                if text.len() > real_len as usize {
                    return Err(RDBParseError::InvalidCompStr);
                }
                *data = rest;
                Ok(text)
            },
            Err(_) => Err(RDBParseError::InvalidCompStr),
        }
    }

    /// Reads a string, whichever way it is encoded, as the byte string it
    /// stands for.
    pub fn parse_length_encoded_data<'a>(data: &mut &'a [u8]) -> (r: Result<
        Vec<u8>,
        RDBParseError,
    >)
        ensures
            match spec_parse_string(old(data)@) {
                Ok((t, k)) => {
                    &&& r matches Ok(v) && v@ == t
                    &&& 0 < k <= old(data)@.len()
                    &&& final(data)@ == old(data)@.skip(k)
                    &&& t.len() <= u32::MAX
                },
                Err(e) => r matches Err(err) && err == e && final(data)@ == old(data)@,
            },
    {
        proof {
            reveal(spec_parse_string);
        }
        let mut cur: &'a [u8] = *data;
        let kind = match Self::parse_length(&mut cur) {
            Ok(kind) => kind,
            Err(e) => {
                return Err(e);
            },
        };
        let ghost k = spec_parse_length(old(data)@)->Ok_0.1;
        match kind {
            RDBParsedLen::IntOrString(len) => {
                let n: usize = len as usize;
                if cur.len() < n {
                    return Err(RDBParseError::InvalidUnCompStr);
                }
                let text = slice_subrange(cur, 0, n);
                let rest = slice_subrange(cur, n, cur.len());
                assert(text@ =~= old(data)@.subrange(k, k + n));
                assert(rest@ =~= old(data)@.skip(k + n));
                *data = rest;
                Ok(vstd::slice::slice_to_vec(text))
            },
            RDBParsedLen::CompressedString => match Self::parse_compressed(&mut cur) {
                Ok(text) => {
                    proof {
                        let m = spec_parse_compressed(old(data)@.skip(k))->Ok_0.1;
                        assert(old(data)@.skip(k).skip(m) =~= old(data)@.skip(k + m));
                    }
                    *data = cur;
                    Ok(text)
                },
                Err(e) => Err(e),
            },
            _ => match Self::parse_fixed_int(&mut cur, kind) {
                Ok(v) => {
                    proof {
                        let m = spec_parse_fixed_int(old(data)@.skip(k), kind)->Ok_0.1;
                        assert(old(data)@.skip(k).skip(m) =~= old(data)@.skip(k + m));
                        crate::data_entry::lemma_int_digits_length(v as int);
                    }
                    *data = cur;
                    let mut text: Vec<u8> = Vec::new();
                    push_int(v, &mut text);
                    assert(text@ =~= int_digits(v as int));
                    Ok(text)
                },
                Err(e) => Err(e),
            },
        }
    }

    /// Reads an expiry in seconds: four little-endian bytes.
    pub fn parse_time_secs<'a>(data: &mut &'a [u8]) -> (r: Result<u32, RDBParseError>)
        ensures
            old(data)@.len() >= TIME_SECS_BYTES ==> r == Ok::<u32, RDBParseError>(
                le_u32(old(data)@.take(4)) as u32,
            ) && final(data)@ == old(data)@.skip(4),
            old(data)@.len() < TIME_SECS_BYTES ==> r == Err::<u32, RDBParseError>(
                RDBParseError::InvalidTimeSecs,
            ) && final(data)@ == old(data)@,
    {
        let whole: &'a [u8] = *data;
        if whole.len() < TIME_SECS_BYTES {
            return Err(RDBParseError::InvalidTimeSecs);
        }
        let head = slice_subrange(whole, 0, TIME_SECS_BYTES);
        assert(head@ =~= whole@.take(4));
        let rest = slice_subrange(whole, TIME_SECS_BYTES, whole.len());
        assert(rest@ =~= whole@.skip(4));
        *data = rest;
        Ok(read_le_u32(head))
    }

    /// Reads an expiry in milliseconds: eight little-endian bytes.
    pub fn parse_time_millis<'a>(data: &mut &'a [u8]) -> (r: Result<u64, RDBParseError>)
        ensures
            old(data)@.len() >= TIME_MILLIS_BYTES ==> r == Ok::<u64, RDBParseError>(
                le_u64(old(data)@.take(8)) as u64,
            ) && final(data)@ == old(data)@.skip(8),
            old(data)@.len() < TIME_MILLIS_BYTES ==> r == Err::<u64, RDBParseError>(
                RDBParseError::InvalidTimeMS,
            ) && final(data)@ == old(data)@,
    {
        let whole: &'a [u8] = *data;
        if whole.len() < TIME_MILLIS_BYTES {
            return Err(RDBParseError::InvalidTimeMS);
        }
        let head = slice_subrange(whole, 0, TIME_MILLIS_BYTES);
        assert(head@ =~= whole@.take(8));
        let rest = slice_subrange(whole, TIME_MILLIS_BYTES, whole.len());
        assert(rest@ =~= whole@.skip(8));
        *data = rest;
        Ok(read_le_u64(head))
    }

    /// Reads a record after its expiry: value type, key and value. The entry
    /// is stamped with the moment `now`.
    pub fn parse_key_value<'a>(data: &mut &'a [u8], expiry: Option<u64>, now: u64) -> (r: Result<
        (ValueType, DataEntry),
        RDBParseError,
    >)
        ensures
            match spec_parse_key_value(old(data)@, expiry, now) {
                Ok((pair, k)) => r matches Ok(got) && got.0@ == pair.0 && got.1@ == pair.1 && 0 < k
                    <= old(data)@.len() && final(data)@ == old(data)@.skip(k) && pair.0.wf()
                    && pair.1.value.wf(),
                Err(e) => r matches Err(err) && err == e && final(data)@ == old(data)@,
            },
    {
        proof {
            reveal(spec_parse_key_value);
        }
        let mut cur: &'a [u8] = *data;
        match Self::parse_value_type(&mut cur) {
            Ok(_) => {},
            Err(e) => {
                return Err(e);
            },
        }
        let ghost k0 = spec_parse_value_type(old(data)@)->Ok_0.1;
        let key: Vec<u8> = match Self::parse_length_encoded_data(&mut cur) {
            Ok(key) => key,
            Err(e) => {
                return Err(e);
            },
        };
        let ghost k1 = spec_parse_string(old(data)@.skip(k0))->Ok_0.1;
        assert(cur@ =~= old(data)@.skip(k0 + k1));
        let value: Vec<u8> = match Self::parse_length_encoded_data(&mut cur) {
            Ok(value) => value,
            Err(e) => {
                return Err(e);
            },
        };
        let ghost k2 = spec_parse_string(old(data)@.skip(k0 + k1))->Ok_0.1;
        assert(cur@ =~= old(data)@.skip(k0 + k1 + k2));
        *data = cur;
        let entry = DataEntry {
            value: ValueType::new(value),
            created_at: now,
            expired_millis: expiry,
        };
        Ok((ValueType::new(key), entry))
    }

    /// Reads one item of the body of a snapshot.
    pub fn parse_step<'a>(data: &mut &'a [u8], now: u64) -> (r: Result<Step, RDBParseError>)
        ensures
            match spec_parse_step(old(data)@, now) {
                Ok((step, k)) => r matches Ok(got) && got@ == step && 0 < k <= old(data)@.len()
                    && final(data)@ == old(data)@.skip(k) && step.wf(),
                Err(e) => r matches Err(err) && err == e && final(data)@ == old(data)@,
            },
    {
        proof {
            reveal(spec_parse_step);
        }
        let whole: &'a [u8] = *data;
        if whole.len() < 1 {
            return Err(RDBParseError::InvalidFileLength);
        }
        let opcode: u8 = whole[0];
        let mut cur: &'a [u8] = slice_subrange(whole, 1, whole.len());
        assert(cur@ =~= whole@.skip(1));
        if opcode == EOF {
            *data = cur;
            Ok(Step::End)
        } else if opcode == SELECTDB {
            match Self::parse_length_encoded_data(&mut cur) {
                Ok(_) => {
                    proof {
                        let k = spec_parse_string(whole@.skip(1))->Ok_0.1;
                        assert(whole@.skip(1).skip(k) =~= whole@.skip(1 + k));
                    }
                    *data = cur;
                    Ok(Step::Skip)
                },
                Err(e) => Err(e),
            }
        } else if opcode == RESIZEDB {
            match Self::parse_integer(&mut cur) {
                Ok(_) => {},
                Err(e) => {
                    return Err(e);
                },
            }
            let ghost k1 = spec_parse_integer(whole@.skip(1))->Ok_0.1;
            assert(cur@ =~= whole@.skip(1 + k1));
            match Self::parse_integer(&mut cur) {
                Ok(_) => {
                    proof {
                        let k2 = spec_parse_integer(whole@.skip(1 + k1))->Ok_0.1;
                        assert(whole@.skip(1 + k1).skip(k2) =~= whole@.skip(1 + k1 + k2));
                    }
                    *data = cur;
                    Ok(Step::Skip)
                },
                Err(e) => Err(e),
            }
        } else if opcode == AUX {
            let key: Vec<u8> = match Self::parse_length_encoded_data(&mut cur) {
                Ok(key) => key,
                Err(e) => {
                    return Err(e);
                },
            };
            let ghost k1 = spec_parse_string(whole@.skip(1))->Ok_0.1;
            assert(cur@ =~= whole@.skip(1 + k1));
            match Self::parse_length_encoded_data(&mut cur) {
                Ok(value) => {
                    proof {
                        let k2 = spec_parse_string(whole@.skip(1 + k1))->Ok_0.1;
                        assert(whole@.skip(1 + k1).skip(k2) =~= whole@.skip(1 + k1 + k2));
                    }
                    *data = cur;
                    Ok(Step::Setting(ValueType::new(key), ValueType::new(value)))
                },
                Err(e) => Err(e),
            }
        } else if opcode == EXPIRETIME {
            let secs: u32 = match Self::parse_time_secs(&mut cur) {
                Ok(secs) => secs,
                Err(e) => {
                    return Err(e);
                },
            };
            assert(whole@.skip(1).take(4) =~= whole@.subrange(1, 5));
            assert(cur@ =~= whole@.skip(5));
            let span: u64 = (secs as u64) * 1000;
            match Self::parse_key_value(&mut cur, Some(span), now) {
                Ok((key, entry)) => {
                    proof {
                        let k = spec_parse_key_value(whole@.skip(5), Some(span), now)->Ok_0.1;
                        assert(whole@.skip(5).skip(k) =~= whole@.skip(5 + k));
                    }
                    *data = cur;
                    Ok(Step::Record(key, entry))
                },
                Err(e) => Err(e),
            }
        } else if opcode == EXPIRETIMEMS {
            let span: u64 = match Self::parse_time_millis(&mut cur) {
                Ok(millis) => millis,
                Err(e) => {
                    return Err(e);
                },
            };
            assert(whole@.skip(1).take(8) =~= whole@.subrange(1, 9));
            assert(cur@ =~= whole@.skip(9));
            match Self::parse_key_value(&mut cur, Some(span), now) {
                Ok((key, entry)) => {
                    proof {
                        let k = spec_parse_key_value(whole@.skip(9), Some(span), now)->Ok_0.1;
                        assert(whole@.skip(9).skip(k) =~= whole@.skip(9 + k));
                    }
                    *data = cur;
                    Ok(Step::Record(key, entry))
                },
                Err(e) => Err(e),
            }
        } else {
            let mut cur: &'a [u8] = whole;
            match Self::parse_key_value(&mut cur, None, now) {
                Ok((key, entry)) => {
                    *data = cur;
                    Ok(Step::Record(key, entry))
                },
                Err(e) => Err(e),
            }
        }
    }

    /// Reads the body of a snapshot up to its end marker, into the settings
    /// and the key-space handed in.
    pub fn parse_body<'a>(
        data: &mut &'a [u8],
        aux_settings: &mut Vec<(ValueType, ValueType)>,
        db: &mut RedisDB,
        now: u64,
    ) -> (r: Result<(), RDBParseError>)
        requires
            db_wf(old(db)@),
            forall|i: int|
                0 <= i < old(aux_settings)@.len() ==> (#[trigger] old(aux_settings)@[i]).0@.wf()
                    && old(aux_settings)@[i].1@.wf(),
        ensures
            match spec_parse_body(
                old(data)@,
                SnapshotModel { aux: aux_view(old(aux_settings)@), db: old(db)@ },
                now,
            ) {
                Ok((snap, k)) => {
                    &&& r is Ok
                    &&& aux_view(final(aux_settings)@) == snap.aux
                    &&& final(db)@ == snap.db
                    &&& 0 < k <= old(data)@.len()
                    &&& final(data)@ == old(data)@.skip(k)
                },
                Err(e) => r matches Err(err) && err == e,
            },
            db_wf(final(db)@),
            forall|i: int|
                0 <= i < final(aux_settings)@.len() ==> (#[trigger] final(aux_settings)@[i]).0@.wf()
                    && final(aux_settings)@[i].1@.wf(),
    {
        let ghost start = old(data)@;
        let ghost init = SnapshotModel { aux: aux_view(old(aux_settings)@), db: old(db)@ };
        let ghost mut used: int = 0;
        let mut cur: &'a [u8] = *data;
        assert(start.skip(0) =~= start);
        loop
            invariant
                0 <= used <= start.len(),
                cur@ == start.skip(used),
                db_wf(db@),
                forall|i: int|
                    0 <= i < aux_settings@.len() ==> (#[trigger] aux_settings@[i]).0@.wf()
                        && aux_settings@[i].1@.wf(),
                spec_parse_body(start, init, now) == match spec_parse_body(
                    cur@,
                    SnapshotModel { aux: aux_view(aux_settings@), db: db@ },
                    now,
                ) {
                    Ok((snap, m)) => Ok::<(SnapshotModel, int), RDBParseError>((snap, used + m)),
                    Err(e) => Err(e),
                },
                start == old(data)@,
                init == (SnapshotModel { aux: aux_view(old(aux_settings)@), db: old(db)@ }),
            decreases start.len() - used,
        {
            let ghost before = cur@;
            let ghost so_far = SnapshotModel { aux: aux_view(aux_settings@), db: db@ };
            let step = match Self::parse_step(&mut cur, now) {
                Ok(step) => step,
                Err(e) => {
                    return Err(e);
                },
            };
            let ghost k = spec_parse_step(before, now)->Ok_0.1;
            proof {
                assert(start.skip(used).skip(k) =~= start.skip(used + k));
                used = used + k;
            }
            match step {
                Step::End => {
                    *data = cur;
                    return Ok(());
                },
                Step::Skip => {},
                Step::Setting(key, value) => {
                    let ghost pair = (key@, value@);
                    aux_settings.push((key, value));
                    assert(aux_view(aux_settings@) =~= so_far.aux.push(pair));
                },
                Step::Record(key, entry) => {
                    db.insert(key, entry);
                },
            }
        }
    }

    /// Reads a snapshot as a file holds it: magic, version and body. The
    /// bytes behind the end marker, the checksum, are left unread.
    pub fn from_rdb_file<'a>(data: &mut &'a [u8], now: u64) -> (r: Result<
        (RDBHeader, RedisDB),
        RDBParseError,
    >)
        ensures
            match spec_parse_snapshot(old(data)@, now) {
                Ok((snap, k)) => {
                    &&& r matches Ok(got) && got.0@ == snap.0 && got.1@ == snap.1
                    &&& 0 < k <= old(data)@.len()
                    &&& final(data)@ == old(data)@.skip(k)
                    &&& db_wf(snap.1) && snap.0.wf()
                    &&& db_encodable(snap.1) && snap.0.encodable()
                },
                Err(e) => r matches Err(err) && err == e && final(data)@ == old(data)@,
            },
    {
        proof {
            reveal(spec_parse_snapshot);
            reveal(spec_parse_magic);
            reveal(spec_parse_version);
        }
        let mut cur: &'a [u8] = *data;
        let magic: Vec<u8> = match Self::parse_magic(&mut cur) {
            Ok(m) => m,
            Err(e) => {
                return Err(e);
            },
        };
        let version: u32 = match Self::parse_version(&mut cur) {
            Ok(v) => v,
            Err(e) => {
                return Err(e);
            },
        };
        if version > 255 {
            return Err(RDBParseError::InvalidVersion);
        }
        assert(cur@ =~= old(data)@.skip(9));
        let mut aux_settings: Vec<(ValueType, ValueType)> = Vec::new();
        let mut db = RedisDB::new();
        assert(aux_view(aux_settings@) =~= Seq::<(ValueModel, ValueModel)>::empty());
        match Self::parse_body(&mut cur, &mut aux_settings, &mut db, now) {
            Ok(()) => {},
            Err(e) => {
                return Err(e);
            },
        }
        proof {
            let k2 = spec_parse_body(
                old(data)@.skip(9),
                SnapshotModel {
                    aux: Seq::<(ValueModel, ValueModel)>::empty(),
                    db: Seq::<(ValueModel, EntryModel)>::empty(),
                },
                now,
            )->Ok_0.1;
            assert(old(data)@.skip(9).skip(k2) =~= old(data)@.skip(9 + k2));
        }
        *data = cur;
        let header = RDBHeader { magic, rdb_version: version as u8, aux_settings };
        proof {
            assert(header@.aux_settings =~= aux_view(header.aux_settings@));
            lemma_header_encodable(header@);
            crate::redis::lemma_db_encodable(db@);
        }
        Ok((header, db))
    }

    /// Reads a snapshot as the wire carries it: the frame with the length of
    /// the payload, and a snapshot within exactly that many bytes. What
    /// follows the payload is left in `data`.
    pub fn from_rdb<'a>(data: &mut &'a [u8], now: u64) -> (r: Result<
        (RDBHeader, RedisDB),
        RDBParseError,
    >)
        ensures
            match spec_from_rdb(old(data)@, now) {
                Ok((snap, k)) => {
                    &&& r matches Ok(got) && got.0@ == snap.0 && got.1@ == snap.1
                    &&& 0 < k <= old(data)@.len()
                    &&& final(data)@ == old(data)@.skip(k)
                    &&& db_wf(snap.1) && snap.0.wf()
                    &&& db_encodable(snap.1) && snap.0.encodable()
                },
                Err(e) => r matches Err(err) && err == e && final(data)@ == old(data)@,
            },
    {
        proof {
            reveal(spec_from_rdb);
        }
        let mut cur: &'a [u8] = *data;
        let file_length: usize = match Self::parse_rdb_file_length(&mut cur) {
            Ok(n) => n,
            Err(e) => {
                return Err(e);
            },
        };
        let ghost k = spec_parse_rdb_file_length(old(data)@)->Ok_0.1;
        if cur.len() < file_length {
            return Err(RDBParseError::InvalidFileLength);
        }
        let mut payload: &'a [u8] = slice_subrange(cur, 0, file_length);
        let rest: &'a [u8] = slice_subrange(cur, file_length, cur.len());
        assert(payload@ =~= old(data)@.subrange(k, k + file_length));
        assert(rest@ =~= old(data)@.skip(k + file_length));
        match Self::from_rdb_file(&mut payload, now) {
            Ok(got) => {
                *data = rest;
                Ok(got)
            },
            Err(e) => Err(e),
        }
    }
}

/// The models of the settings of a header, in order.
pub open spec fn aux_view(aux: Seq<(ValueType, ValueType)>) -> Seq<(ValueModel, ValueModel)> {
    Seq::new(aux.len(), |i: int| (aux[i].0@, aux[i].1@))
}

} // verus!
