//! Stored strings: how a byte string is tagged for the snapshot format, how
//! a tagged string is written there, and entries with their expiry.

use vstd::prelude::*;
use crate::compression::{lzf_compress, lzf_compressed, lzf_decompress, lzf_decompressed};
use crate::constants::{COMPRESS_AT_LENGTH, COMPRESS_UP_TO, EXPIRETIMEMS};
use crate::decimal::{int_digits, lemma_parse_int_digits, parse_signed, push_int, read_i64};
use crate::endian::{as_unsigned, push_le_u16, push_le_u32, push_le_u64, u16_le, u32_le, u64_le};
use crate::resp::{copy_bytes, push_bytes};
use crate::utils::bytes_eq;

verus! {

/// A byte string as the snapshot format tags it: a small integer where the
/// string is the canonical decimal text of one, the bytes themselves, or the
/// bytes LZF-compressed.
#[derive(Debug)]
pub enum ValueType {
    I8Int(i8),
    I16Int(i16),
    I32Int(i32),
    IntOrString(Vec<u8>),
    CompressedString { real_data_len: usize, compressed_data: Vec<u8> },
}

/// The mathematical model of a tagged string.
pub enum ValueModel {
    I8Int(i8),
    I16Int(i16),
    I32Int(i32),
    IntOrString(Seq<u8>),
    CompressedString { real_data_len: usize, compressed_data: Seq<u8> },
}

impl View for ValueType {
    type V = ValueModel;

    open spec fn view(&self) -> ValueModel {
        match self {
            ValueType::I8Int(x) => ValueModel::I8Int(*x),
            ValueType::I16Int(x) => ValueModel::I16Int(*x),
            ValueType::I32Int(x) => ValueModel::I32Int(*x),
            ValueType::IntOrString(s) => ValueModel::IntOrString(s@),
            ValueType::CompressedString { real_data_len, compressed_data } => {
                ValueModel::CompressedString {
                    real_data_len: *real_data_len,
                    compressed_data: compressed_data@,
                }
            },
        }
    }
}

/// The integer whose canonical decimal text is exactly `s`, if it fits 32 bits.
pub open spec fn canonical_int(s: Seq<u8>) -> Option<int> {
    match parse_signed(s, 0x8000_0000, 0x7fff_ffff) {
        Some(v) => if int_digits(v) == s {
            Some(v)
        } else {
            None
        },
        None => None,
    }
}

/// Whether compression is tried on a string of this length: not on short
/// strings, and not on strings longer than the compressor takes.
pub open spec fn compressible_length(len: nat) -> bool {
    COMPRESS_AT_LENGTH <= len <= COMPRESS_UP_TO
}

/// Compressing `s` pays and can be undone: the compressed bytes are no
/// longer than `s`, and decompressing them with the length of `s` as the
/// limit gives `s` back.
pub open spec fn packs(s: Seq<u8>) -> bool {
    match lzf_compressed(s) {
        Some(c) => c.len() <= s.len() && lzf_decompressed(c, s.len() as usize) == Some(s),
        None => false,
    }
}

/// The tag under which the byte string `s` is stored: the smallest integer
/// width where `s` is the canonical text of an integer, else compressed where
/// it is long enough and compressing it pays and can be undone, else the
/// bytes as they are.
pub open spec fn canonical(s: Seq<u8>) -> ValueModel {
    match canonical_int(s) {
        Some(v) => if -128 <= v <= 127 {
            ValueModel::I8Int(v as i8)
        } else if -32768 <= v <= 32767 {
            ValueModel::I16Int(v as i16)
        } else {
            ValueModel::I32Int(v as i32)
        },
        None => if compressible_length(s.len()) && packs(s) {
            ValueModel::CompressedString {
                real_data_len: s.len() as usize,
                compressed_data: lzf_compressed(s)->0,
            }
        } else {
            ValueModel::IntOrString(s)
        },
    }
}

/// The length header of the snapshot format for `n` below 2^32: one byte up
/// to 63, two bytes up to 16383, else a marker byte and four little-endian bytes.
pub open spec fn length_encoding(n: nat) -> Seq<u8> {
    if n <= 63 {
        seq![n as u8]
    } else if n <= 16383 {
        seq![(64 + n / 256) as u8, (n % 256) as u8]
    } else {
        seq![128u8] + u32_le(n)
    }
}

impl ValueModel {
    /// The byte string that this tagged string stands for.
    pub open spec fn text(self) -> Seq<u8> {
        match self {
            ValueModel::I8Int(x) => int_digits(x as int),
            ValueModel::I16Int(x) => int_digits(x as int),
            ValueModel::I32Int(x) => int_digits(x as int),
            ValueModel::IntOrString(s) => s,
            ValueModel::CompressedString { real_data_len, compressed_data } => {
                match lzf_decompressed(compressed_data, real_data_len) {
                    Some(t) => t,
                    None => Seq::<u8>::empty(),
                }
            },
        }
    }

    /// The tag is the one under which its own text is stored, and the
    /// text fits the format's 32-bit lengths.
    pub open spec fn wf(self) -> bool {
        &&& self.text().len() <= u32::MAX
        &&& canonical(self.text()) == self
    }

    /// The lengths that the snapshot format writes for this tagged string
    /// fit its 32 bits.
    pub open spec fn encodable(self) -> bool {
        match self {
            ValueModel::IntOrString(s) => s.len() <= u32::MAX,
            ValueModel::CompressedString { real_data_len, compressed_data } => real_data_len
                <= u32::MAX && compressed_data.len() <= u32::MAX,
            _ => true,
        }
    }

    /// The bytes that stand for this tagged string in a snapshot.
    pub open spec fn rdb(self) -> Seq<u8> {
        match self {
            ValueModel::I8Int(x) => seq![0xC0u8, as_unsigned(x as int, 128) as u8],
            ValueModel::I16Int(x) => seq![0xC1u8] + u16_le(as_unsigned(x as int, 32768)),
            ValueModel::I32Int(x) => seq![0xC2u8] + u32_le(as_unsigned(x as int, 2147483648)),
            ValueModel::IntOrString(s) => length_encoding(s.len()) + s,
            ValueModel::CompressedString { real_data_len, compressed_data } => seq![0xC3u8]
                + length_encoding(compressed_data.len()) + length_encoding(real_data_len as nat)
                + compressed_data,
        }
    }
}

/// The text of an integer within 32 bits is canonical, and it is short.
pub proof fn lemma_canonical_int_digits(v: int)
    requires
        -0x8000_0000 <= v <= 0x7fff_ffff,
    ensures
        canonical_int(int_digits(v)) == Some(v),
        int_digits(v).len() < COMPRESS_AT_LENGTH,
{
    lemma_parse_int_digits(v, 0x8000_0000, 0x7fff_ffff);
    lemma_int_digits_length(v);
}

/// The text of an integer within 32 bits has at most eleven bytes.
pub proof fn lemma_int_digits_length(v: int)
    requires
        -0x8000_0000 <= v <= 0x7fff_ffff,
    ensures
        int_digits(v).len() <= 11,
{
    let m: nat = if v < 0 {
        (-v) as nat
    } else {
        v as nat
    };
    reveal_with_fuel(crate::decimal::nat_digits, 11);
}

/// The tag of a byte string that fits the format's 32-bit lengths is well
/// formed and stands for that byte string.
pub proof fn lemma_canonical_text(s: Seq<u8>)
    requires
        s.len() <= u32::MAX,
    ensures
        canonical(s).wf(),
        canonical(s).text() == s,
{
    match canonical_int(s) {
        Some(v) => {
            lemma_int_digits_length(v);
        },
        None => {},
    }
}

/// The lengths of a well-formed tagged string fit the snapshot format.
pub proof fn lemma_wf_encodable(m: ValueModel)
    requires
        m.wf(),
    ensures
        m.encodable(),
{
    if m is CompressedString {
        lemma_wf_compressed(m);
    }
}

/// A well-formed tagged string that is compressed decompresses to its text.
pub proof fn lemma_wf_compressed(m: ValueModel)
    requires
        m.wf(),
        m is CompressedString,
    ensures
        m->real_data_len <= i32::MAX,
        m->compressed_data.len() <= m->real_data_len,
        lzf_decompressed(m->compressed_data, m->real_data_len) == Some(m.text()),
        m.text().len() == m->real_data_len,
{
}

/// Two well-formed tagged strings are the same exactly where they stand
/// for the same byte string: equality of keys is equality of their texts.
pub proof fn law_same_text_same_tag(a: ValueModel, b: ValueModel)
    requires
        a.wf(),
        b.wf(),
    ensures
        (a == b) == (a.text() == b.text()),
{
}

impl ValueType {
    /// Tags a byte string for storage. A long byte string is stored
    /// compressed only after its compressed form was tried out: it must be
    /// no longer and decompress to the very same bytes.
    pub fn new(data: Vec<u8>) -> (r: Self)
        requires
            data@.len() <= u32::MAX,
        ensures
            r@ == canonical(data@),
            r@.wf(),
            r@.text() == data@,
    {
        let as_int: Option<i64> = read_i64(data.as_slice());
        match as_int {
            Some(v) => {
                if -2147483648 <= v && v <= 2147483647 {
                    let mut text: Vec<u8> = Vec::new();
                    push_int(v, &mut text);
                    assert(text@ =~= int_digits(v as int));
                    if bytes_eq(text.as_slice(), data.as_slice()) {
                        proof {
                            lemma_canonical_int_digits(v as int);
                        }
                        if -128 <= v && v <= 127 {
                            return ValueType::I8Int(v as i8);
                        } else if -32768 <= v && v <= 32767 {
                            return ValueType::I16Int(v as i16);
                        } else {
                            return ValueType::I32Int(v as i32);
                        }
                    }
                }
            },
            None => {},
        }
        assert(canonical_int(data@) is None);
        if data.len() < COMPRESS_AT_LENGTH as usize || data.len() > COMPRESS_UP_TO {
            return ValueType::IntOrString(data);
        }
        let compressed_data: Vec<u8> = match lzf_compress(data.as_slice()) {
            Ok(compressed_data) => compressed_data,
            Err(_) => {
                return ValueType::IntOrString(data);
            },
        };
        if compressed_data.len() > data.len() {
            return ValueType::IntOrString(data);
        }
        let undone: bool = match lzf_decompress(compressed_data.as_slice(), data.len()) {
            Ok(back) => bytes_eq(back.as_slice(), data.as_slice()),
            Err(_) => false,
        };
        if undone {
            ValueType::CompressedString { real_data_len: data.len(), compressed_data }
        } else {
            ValueType::IntOrString(data)
        }
    }

    /// The byte string that this tagged string stands for.
    pub fn as_string(&self) -> (r: Vec<u8>)
        requires
            self@.wf(),
        ensures
            r@ == self@.text(),
    {
        match self {
            ValueType::I8Int(x) => {
                let mut out: Vec<u8> = Vec::new();
                push_int(*x as i64, &mut out);
                assert(out@ =~= self@.text());
                out
            },
            ValueType::I16Int(x) => {
                let mut out: Vec<u8> = Vec::new();
                push_int(*x as i64, &mut out);
                assert(out@ =~= self@.text());
                out
            },
            ValueType::I32Int(x) => {
                let mut out: Vec<u8> = Vec::new();
                push_int(*x as i64, &mut out);
                assert(out@ =~= self@.text());
                out
            },
            ValueType::IntOrString(x) => copy_bytes(x),
            ValueType::CompressedString { real_data_len, compressed_data } => {
                proof {
                    lemma_wf_compressed(self@);
                }
                match lzf_decompress(compressed_data.as_slice(), *real_data_len) {
                    Ok(text) => text,
                    Err(_) => Vec::new(),
                }
            },
        }
    }

    /// Whether this tagged string is well formed; decided by decoding it and
    /// tagging the result again.
    pub fn check(&self) -> (ok: bool)
        ensures
            ok == self@.wf(),
    {
        let text: Vec<u8> = match self {
            ValueType::I8Int(x) => {
                let mut out: Vec<u8> = Vec::new();
                push_int(*x as i64, &mut out);
                assert(out@ =~= self@.text());
                out
            },
            ValueType::I16Int(x) => {
                let mut out: Vec<u8> = Vec::new();
                push_int(*x as i64, &mut out);
                assert(out@ =~= self@.text());
                out
            },
            ValueType::I32Int(x) => {
                let mut out: Vec<u8> = Vec::new();
                push_int(*x as i64, &mut out);
                assert(out@ =~= self@.text());
                out
            },
            ValueType::IntOrString(x) => copy_bytes(x),
            ValueType::CompressedString { real_data_len, compressed_data } => {
                if *real_data_len > 0x7fff_ffff {
                    return false;
                }
                match lzf_decompress(compressed_data.as_slice(), *real_data_len) {
                    Ok(text) => text,
                    Err(_) => {
                        return false;
                    },
                }
            },
        };
        if text.len() > 0xffff_ffff {
            return false;
        }
        let again = ValueType::new(text);
        self.same(&again)
    }

    /// The byte string that this tagged string stands for, or `None` where
    /// the tagged string is not well formed.
    pub fn decoded(&self) -> (r: Option<Vec<u8>>)
        ensures
            r is Some <==> self@.wf(),
            r matches Some(text) ==> text@ == self@.text(),
    {
        if self.check() {
            Some(self.as_string())
        } else {
            None
        }
    }

    /// Whether two tagged strings have the same tag and the same contents.
    pub fn same(&self, other: &ValueType) -> (r: bool)
        ensures
            r == (self@ == other@),
    {
        match (self, other) {
            (ValueType::I8Int(a), ValueType::I8Int(b)) => *a == *b,
            (ValueType::I16Int(a), ValueType::I16Int(b)) => *a == *b,
            (ValueType::I32Int(a), ValueType::I32Int(b)) => *a == *b,
            (ValueType::IntOrString(a), ValueType::IntOrString(b)) => bytes_eq(
                a.as_slice(),
                b.as_slice(),
            ),
            (
                ValueType::CompressedString { real_data_len: n1, compressed_data: c1 },
                ValueType::CompressedString { real_data_len: n2, compressed_data: c2 },
            ) => *n1 == *n2 && bytes_eq(c1.as_slice(), c2.as_slice()),
            _ => false,
        }
    }

    /// A copy of this tagged string.
    pub fn duplicate(&self) -> (r: ValueType)
        ensures
            r@ == self@,
    {
        match self {
            ValueType::I8Int(x) => ValueType::I8Int(*x),
            ValueType::I16Int(x) => ValueType::I16Int(*x),
            ValueType::I32Int(x) => ValueType::I32Int(*x),
            ValueType::IntOrString(x) => ValueType::IntOrString(copy_bytes(x)),
            ValueType::CompressedString { real_data_len, compressed_data } => {
                ValueType::CompressedString {
                    real_data_len: *real_data_len,
                    compressed_data: copy_bytes(compressed_data),
                }
            },
        }
    }

    /// Writes a length below 2^32 as the snapshot format's length header.
    pub fn number_to_length_encoded(number: u32) -> (r: Vec<u8>)
        ensures
            r@ == length_encoding(number as nat),
    {
        let mut out: Vec<u8> = Vec::new();
        if number <= 63 {
            out.push(number as u8);
            assert(out@ =~= length_encoding(number as nat));
        } else if number <= 16383 {
            out.push((64 + number / 256) as u8);
            out.push((number % 256) as u8);
            assert(out@ =~= length_encoding(number as nat));
        } else {
            out.push(128);
            push_le_u32(number, &mut out);
            assert(out@ =~= length_encoding(number as nat));
        }
        out
    }

    /// Writes an integer or an uncompressed string as the snapshot format
    /// stores it.
    pub fn as_length_encoded_value(&self) -> (r: Vec<u8>)
        requires
            !(self is CompressedString),
            self is IntOrString ==> self->IntOrString_0@.len() <= u32::MAX,
        ensures
            r@ == self@.rdb(),
    {
        let mut out: Vec<u8> = Vec::new();
        match self {
            ValueType::I8Int(x) => {
                out.push(0xC0);
                let u: u8 = if *x < 0 {
                    (*x as i16 + 256) as u8
                } else {
                    *x as u8
                };
                out.push(u);
                assert(out@ =~= self@.rdb());
            },
            ValueType::I16Int(x) => {
                out.push(0xC1);
                let u: u16 = if *x < 0 {
                    (*x as i32 + 65536) as u16
                } else {
                    *x as u16
                };
                push_le_u16(u, &mut out);
                assert(out@ =~= self@.rdb());
            },
            ValueType::I32Int(x) => {
                out.push(0xC2);
                let u: u32 = if *x < 0 {
                    (*x as i64 + 4294967296) as u32
                } else {
                    *x as u32
                };
                push_le_u32(u, &mut out);
                assert(out@ =~= self@.rdb());
            },
            ValueType::IntOrString(x) => {
                let head: Vec<u8> = Self::number_to_length_encoded(x.len() as u32);
                push_bytes(&mut out, head.as_slice());
                push_bytes(&mut out, x.as_slice());
                assert(out@ =~= self@.rdb());
            },
            ValueType::CompressedString { .. } => {},
        }
        out
    }

    /// The value-type byte of a record. Every value is stored as a string.
    pub fn as_rdb_value_type(&self) -> (r: Vec<u8>)
        ensures
            r@ == seq![0u8],
    {
        let mut out: Vec<u8> = Vec::new();
        out.push(0);
        assert(out@ =~= seq![0u8]);
        out
    }

    /// Writes the tagged string as the snapshot format stores it.
    pub fn as_rdb(&self) -> (r: Vec<u8>)
        requires
            self@.encodable(),
        ensures
            r@ == self@.rdb(),
    {
        match self {
            ValueType::CompressedString { real_data_len, compressed_data } => {
                let mut out: Vec<u8> = Vec::new();
                out.push(0xC3);
                let packed_len: Vec<u8> = Self::number_to_length_encoded(
                    compressed_data.len() as u32,
                );
                let real_len: Vec<u8> = Self::number_to_length_encoded(*real_data_len as u32);
                push_bytes(&mut out, packed_len.as_slice());
                push_bytes(&mut out, real_len.as_slice());
                push_bytes(&mut out, compressed_data.as_slice());
                assert(out@ =~= self@.rdb());
                out
            },
            _ => self.as_length_encoded_value(),
        }
    }
}

/// A stored string with the moment it was written and, where it expires, for
/// how long it lives. Moments and spans are milliseconds on one monotonic clock.
#[derive(Debug)]
pub struct DataEntry {
    pub value: ValueType,
    pub created_at: u64,
    pub expired_millis: Option<u64>,
}

/// The mathematical model of an entry.
pub struct EntryModel {
    pub value: ValueModel,
    pub created_at: u64,
    pub expired_millis: Option<u64>,
}

impl View for DataEntry {
    type V = EntryModel;

    open spec fn view(&self) -> EntryModel {
        EntryModel {
            value: self.value@,
            created_at: self.created_at,
            expired_millis: self.expired_millis,
        }
    }
}

impl EntryModel {
    /// The entry has outlived its span at the moment `now`: strictly more
    /// time than the span has passed since it was written.
    pub open spec fn is_expired(self, now: u64) -> bool {
        match self.expired_millis {
            Some(span) => now > self.created_at && now - self.created_at > span,
            None => false,
        }
    }

    /// The bytes of the record that stores this entry under `key`.
    pub open spec fn record(self, key: ValueModel) -> Seq<u8> {
        let head = match self.expired_millis {
            Some(span) => seq![EXPIRETIMEMS] + u64_le(span as nat),
            None => Seq::<u8>::empty(),
        };
        head + seq![0u8] + key.rdb() + self.value.rdb()
    }
}

impl DataEntry {
    /// An entry written at the moment `now`.
    pub fn new(data: Vec<u8>, expired_millis: Option<u64>, now: u64) -> (r: Self)
        requires
            data@.len() <= u32::MAX,
        ensures
            r@.value == canonical(data@),
            r@.value.wf(),
            r@.value.text() == data@,
            r@.created_at == now,
            r@.expired_millis == expired_millis,
    {
        DataEntry { value: ValueType::new(data), expired_millis, created_at: now }
    }

    /// Whether the entry has outlived its span at the moment `now`.
    pub fn is_expired(&self, now: u64) -> (r: bool)
        ensures
            r == self@.is_expired(now),
    {
        match self.expired_millis {
            Some(span) => now > self.created_at && now - self.created_at > span,
            None => false,
        }
    }
}

/// Writes the record that stores `value` under `key`: the expiry, where
/// there is one, the value type, the key and the value.
pub fn key_value_as_rdb(key: &ValueType, value: &DataEntry) -> (out: Vec<u8>)
    requires
        key@.encodable(),
        value@.value.encodable(),
    ensures
        out@ == value@.record(key@),
{
    let mut out: Vec<u8> = Vec::new();
    match value.expired_millis {
        Some(span) => {
            out.push(EXPIRETIMEMS);
            push_le_u64(span, &mut out);
        },
        None => {},
    }
    let kind: Vec<u8> = value.value.as_rdb_value_type();
    out.push(kind[0]);
    let key_bytes: Vec<u8> = key.as_rdb();
    let value_bytes: Vec<u8> = value.value.as_rdb();
    push_bytes(&mut out, key_bytes.as_slice());
    push_bytes(&mut out, value_bytes.as_slice());
    assert(out@ =~= value@.record(key@));
    out
}

} // verus!
