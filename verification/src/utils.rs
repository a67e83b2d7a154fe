//! Small helpers shared by the codecs and the command engine.

use vstd::prelude::*;
use vstd::slice::slice_subrange;
use vstd::string::StringSliceAdditionalSpecFns;
use crate::cmd::CmdError;
use crate::constants::EOF;
use crate::rdb::{snapshot_bytes, RDBHeader};
use crate::redis::{db_as_rdb, db_encodable, RedisDB};
use crate::resp::{copy_bytes, RespType, RespValue};

verus! {

/// Whether a byte is an ASCII letter or digit.
pub open spec fn is_alphanumeric(b: u8) -> bool {
    (48 <= b <= 57) || (65 <= b <= 90) || (97 <= b <= 122)
}

#[verifier::external_type_specification]
#[verifier::external_body]
pub struct ExSystemTime(std::time::SystemTime);

/// Calls `std::time::SystemTime::now`.
///
/// Trusted, and nothing is promised of the result: it is the machine's
/// clock at the moment of the call.
#[verifier::external_body]
fn system_now() -> (r: std::time::SystemTime) {
    std::time::SystemTime::now()
}

/// Calls `std::time::SystemTime::duration_since` with the Unix epoch:
/// the time that has passed since, or `None` for a clock set before it.
///
/// Trusted, and nothing is promised of the result.
#[verifier::external_body]
fn since_epoch(t: &std::time::SystemTime) -> (r: Option<std::time::Duration>) {
    t.duration_since(std::time::UNIX_EPOCH).ok()
}

/// Calls `std::time::Duration::as_millis`.
///
/// Trusted, and nothing is stated of the result: a span of time is
/// opaque to the verifier.
#[verifier::external_body]
fn duration_millis(d: &std::time::Duration) -> (r: u128) {
    d.as_millis()
}

/// The wall clock in milliseconds since the Unix epoch. A clock set
/// before the epoch reads as 0. Nothing is promised of the result: two calls
/// may differ.
pub fn gen_millis() -> (r: u128) {
    let now = system_now();
    match since_epoch(&now) {
        Some(d) => duration_millis(&d),
        None => 0,
    }
}

/// `length` random bytes, each an ASCII letter or digit, drawn through
/// `rand::Rng::sample_iter` with `rand::distributions::Alphanumeric` from
/// `rand::thread_rng`.
///
/// Trusted: the distribution samples from the 62 letters and digits only,
/// and the iterator is cut after `length` samples. Which bytes come out
/// depends on chance: two calls may differ.
#[verifier::external_body]
pub fn random_string(length: usize) -> (r: Vec<u8>)
    ensures
        r@.len() == length,
        forall|i: int| 0 <= i < r@.len() ==> is_alphanumeric(#[trigger] r@[i]),
{
    rand::Rng::sample_iter(rand::thread_rng(), &rand::distributions::Alphanumeric).take(length).collect()
}

/// Takes the first `N` bytes off the front of `data`, if it holds that many;
/// otherwise leaves `data` as it is.
pub fn take_upto<'a, const N: usize>(data: &mut &'a [u8]) -> (r: Option<&'a [u8]>)
    ensures
        old(data)@.len() >= N ==> (r matches Some(chunk) && chunk@ == old(data)@.take(N as int)
            && final(data)@ == old(data)@.skip(N as int)),
        old(data)@.len() < N ==> r is None && final(data)@ == old(data)@,
{
    let whole: &'a [u8] = *data;
    if whole.len() >= N {
        let left = slice_subrange(whole, 0, N);
        let right = slice_subrange(whole, N, whole.len());
        *data = right;
        assert(left@ =~= whole@.take(N as int));
        assert(right@ =~= whole@.skip(N as int));
        Some(left)
    } else {
        None
    }
}

/// Whether two runs of bytes are the same.
pub fn bytes_eq(a: &[u8], b: &[u8]) -> (r: bool)
    ensures
        r == (a@ == b@),
{
    if a.len() != b.len() {
        return false;
    }
    let n: usize = a.len();
    let mut i: usize = 0;
    while i < n
        invariant
            n == a@.len(),
            n == b@.len(),
            0 <= i <= n,
            forall|j: int| 0 <= j < i ==> a@[j] == b@[j],
        decreases n - i,
    {
        if a[i] != b[i] {
            return false;
        }
        i = i + 1;
    }
    assert(a@ =~= b@);
    true
}

/// The bytes of a text.
pub open spec fn ascii(s: &str) -> Seq<u8> {
    s.spec_bytes()
}

/// ASCII white space.
pub open spec fn is_space(b: u8) -> bool {
    b == 32 || (9 <= b <= 13)
}

/// The lower-case form of an ASCII letter; any other byte as it is.
pub open spec fn lower(b: u8) -> u8 {
    if 65 <= b <= 90 {
        (b + 32) as u8
    } else {
        b
    }
}

/// `s` with every ASCII letter in lower case.
pub open spec fn lowercase(s: Seq<u8>) -> Seq<u8> {
    Seq::new(s.len(), |i: int| lower(s[i]))
}

/// `s` without the white space at its front.
pub open spec fn trim_start(s: Seq<u8>) -> Seq<u8>
    decreases s.len(),
{
    if s.len() > 0 && is_space(s[0]) {
        trim_start(s.drop_first())
    } else {
        s
    }
}

/// `s` without the white space at its end.
pub open spec fn trim_end(s: Seq<u8>) -> Seq<u8>
    decreases s.len(),
{
    if s.len() > 0 && is_space(s.last()) {
        trim_end(s.drop_last())
    } else {
        s
    }
}

/// `s` without the white space at either end.
pub open spec fn trimmed(s: Seq<u8>) -> Seq<u8> {
    trim_end(trim_start(s))
}

/// `s` with every ASCII letter in lower case.
pub fn to_lowercase(s: &[u8]) -> (r: Vec<u8>)
    ensures
        r@ == lowercase(s@),
{
    let mut out: Vec<u8> = Vec::new();
    let n: usize = s.len();
    let mut i: usize = 0;
    while i < n
        invariant
            n == s@.len(),
            0 <= i <= n,
            out@.len() == i,
            forall|j: int| 0 <= j < i ==> out@[j] == lower(s@[j]),
        decreases n - i,
    {
        let b: u8 = s[i];
        if 65 <= b && b <= 90 {
            out.push(b + 32);
        } else {
            out.push(b);
        }
        i = i + 1;
    }
    assert(out@ =~= lowercase(s@));
    out
}

/// Whether `s`, in lower case, is `word`.
pub fn is_word(s: &[u8], word: &[u8]) -> (r: bool)
    ensures
        r == (lowercase(s@) == word@),
{
    let low: Vec<u8> = to_lowercase(s);
    bytes_eq(low.as_slice(), word)
}

/// `s` without the white space at either end.
pub fn trim<'a>(s: &'a [u8]) -> (r: &'a [u8])
    ensures
        r@ == trimmed(s@),
{
    let n: usize = s.len();
    let mut start: usize = 0;
    assert(s@.skip(0) =~= s@);
    while start < n && (s[start] == 32 || (9 <= s[start] && s[start] <= 13))
        invariant
            n == s@.len(),
            0 <= start <= n,
            trim_start(s@) == trim_start(s@.skip(start as int)),
        decreases n - start,
    {
        assert(s@.skip(start as int).drop_first() =~= s@.skip(start + 1));
        start = start + 1;
    }
    let ghost front = s@.skip(start as int);
    assert(trim_start(s@) == front);
    let mut end: usize = n;
    assert(s@.subrange(start as int, n as int) =~= front);
    while end > start && (s[end - 1] == 32 || (9 <= s[end - 1] && s[end - 1] <= 13))
        invariant
            n == s@.len(),
            0 <= start <= end <= n,
            trim_end(front) == trim_end(s@.subrange(start as int, end as int)),
        decreases end,
    {
        assert(s@.subrange(start as int, end as int).drop_last() =~= s@.subrange(
            start as int,
            end - 1,
        ));
        end = end - 1;
    }
    slice_subrange(s, start, end)
}

/// The first byte `b` of `s` stands at index `i`.
pub open spec fn first_at(s: Seq<u8>, b: u8, i: int) -> bool {
    0 <= i < s.len() && s[i] == b && forall|j: int| 0 <= j < i ==> s[j] != b
}

/// Where the first byte `b` of `s` stands, if it holds one.
pub open spec fn index_of_byte(s: Seq<u8>, b: u8) -> Option<int> {
    if exists|i: int| first_at(s, b, i) {
        Some(choose|i: int| first_at(s, b, i))
    } else {
        None
    }
}

/// Where the first byte `b` of `s` stands, if it holds one.
pub fn find_byte(s: &[u8], b: u8) -> (r: Option<usize>)
    ensures
        r matches Some(idx) ==> index_of_byte(s@, b) == Some(idx as int) && idx < s@.len(),
        r is None ==> index_of_byte(s@, b) is None,
{
    let n: usize = s.len();
    let mut i: usize = 0;
    while i < n
        invariant
            n == s@.len(),
            0 <= i <= n,
            forall|j: int| 0 <= j < i ==> s@[j] != b,
        decreases n - i,
    {
        if s[i] == b {
            proof {
                assert(first_at(s@, b, i as int));
                let c = choose|k: int| first_at(s@, b, k);
                if c < i {
                    assert(s@[c] != b);
                } else if i < c {
                    assert(s@[i as int] != b);
                }
            }
            return Some(i);
        }
        i = i + 1;
    }
    proof {
        assert forall|k: int| !first_at(s@, b, k) by {}
    }
    None
}

/// The payload of a frame that is a bulk string; any other frame is the
/// wrong kind of frame for an argument.
pub open spec fn bulk_of(v: RespValue) -> Result<Seq<u8>, CmdError> {
    match v {
        RespValue::BulkString(s) => Ok(s),
        _ => Err(CmdError::InvalidCmdType),
    }
}

/// The payload of a frame that is a bulk string.
pub fn unpack_bulk_string(resp: &RespType) -> (r: Result<Vec<u8>, CmdError>)
    ensures
        match bulk_of(resp@) {
            Ok(s) => r matches Ok(got) && got@ == s,
            Err(e) => r matches Err(err) && err == e,
        },
{
    match resp {
        RespType::BulkString(s) => Ok(copy_bytes(s)),
        _ => Err(CmdError::InvalidCmdType),
    }
}

/// Writes a whole snapshot: the header, a record for every entry of the
/// key-space in order, and the end marker. No checksum follows.
pub fn dump_rdb_file(header: &RDBHeader, redis: &RedisDB) -> (out: Vec<u8>)
    requires
        header@.encodable(),
        db_encodable(redis@),
    ensures
        out@ == snapshot_bytes(header@, redis@),
{
    let mut out: Vec<u8> = header.as_rdb();
    let records: Vec<u8> = db_as_rdb(redis);
    crate::resp::push_bytes(&mut out, records.as_slice());
    out.push(EOF);
    assert(out@ =~= snapshot_bytes(header@, redis@));
    out
}

} // verus!
