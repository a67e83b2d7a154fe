//! Decimal numbers as ASCII bytes: what a digit string denotes, how a number
//! is written, and the executable readers and writers proved against both.

use vstd::prelude::*;
use crate::constants::{MINUS, PLUS};

verus! {

pub open spec fn is_digit(b: u8) -> bool {
    48 <= b <= 57
}

/// `s` is a non-empty run of ASCII digits.
pub open spec fn is_digits(s: Seq<u8>) -> bool {
    s.len() > 0 && forall|i: int| 0 <= i < s.len() ==> is_digit(#[trigger] s[i])
}

/// The value of one digit byte; zero for any other byte.
pub open spec fn digit_of(b: u8) -> nat {
    if is_digit(b) {
        (b - 48) as nat
    } else {
        0
    }
}

/// The number a run of digits denotes, most significant digit first.
pub open spec fn digits_value(s: Seq<u8>) -> nat
    decreases s.len(),
{
    if s.len() == 0 {
        0
    } else {
        digits_value(s.drop_last()) * 10 + digit_of(s.last())
    }
}

/// The shortest digit string that denotes `n`.
pub open spec fn nat_digits(n: nat) -> Seq<u8>
    decreases n,
{
    if n < 10 {
        seq![(48 + n) as u8]
    } else {
        nat_digits(n / 10).push((48 + n % 10) as u8)
    }
}

/// The canonical decimal text of an integer: a minus sign only where it is negative.
pub open spec fn int_digits(i: int) -> Seq<u8> {
    if i < 0 {
        seq![MINUS] + nat_digits((-i) as nat)
    } else {
        nat_digits(i as nat)
    }
}

/// What an unsigned decimal text denotes: digits only, value at most `max`.
pub open spec fn parse_nat(s: Seq<u8>, max: nat) -> Option<nat> {
    if is_digits(s) && digits_value(s) <= max {
        Some(digits_value(s))
    } else {
        None
    }
}

/// What an unsigned decimal text with an optional leading `+` denotes.
pub open spec fn parse_unsigned(s: Seq<u8>, max: nat) -> Option<nat> {
    if s.len() > 0 && s[0] == PLUS {
        parse_nat(s.skip(1), max)
    } else {
        parse_nat(s, max)
    }
}

/// What a signed decimal text denotes: an optional `+` or `-`, digits, and a
/// value within `-neg_max ..= max`.
pub open spec fn parse_signed(s: Seq<u8>, neg_max: nat, max: nat) -> Option<int> {
    if s.len() > 0 && s[0] == MINUS {
        match parse_nat(s.skip(1), neg_max) {
            Some(n) => Some(-(n as int)),
            None => None,
        }
    } else {
        match parse_unsigned(s, max) {
            Some(n) => Some(n as int),
            None => None,
        }
    }
}

/// The value of a prefix never exceeds the value of the whole.
pub proof fn lemma_digits_value_prefix(s: Seq<u8>, i: int)
    requires
        0 <= i <= s.len(),
    ensures
        digits_value(s.take(i)) <= digits_value(s),
    decreases s.len(),
{
    if i == s.len() {
        assert(s.take(i) =~= s);
    } else {
        assert(s.drop_last().take(i) =~= s.take(i));
        lemma_digits_value_prefix(s.drop_last(), i);
    }
}

/// Reading one more digit multiplies by ten and adds it.
pub proof fn lemma_digits_value_step(s: Seq<u8>, i: int)
    requires
        0 <= i < s.len(),
    ensures
        digits_value(s.take(i + 1)) == digits_value(s.take(i)) * 10 + digit_of(s[i]),
{
    assert(s.take(i + 1).drop_last() =~= s.take(i));
    assert(s.take(i + 1).last() == s[i]);
}

/// Writing a number gives digits that denote it, with no leading zero but for zero itself.
pub proof fn lemma_nat_digits(n: nat)
    ensures
        is_digits(nat_digits(n)),
        digits_value(nat_digits(n)) == n,
        n > 0 ==> nat_digits(n)[0] != 48,
        n == 0 ==> nat_digits(n) =~= seq![48u8],
    decreases n,
{
    if n < 10 {
        let s = nat_digits(n);
        assert(s.drop_last() =~= Seq::<u8>::empty());
        assert(digits_value(s.drop_last()) == 0);
        assert(digit_of(s.last()) == n);
    } else {
        lemma_nat_digits(n / 10);
        let p = nat_digits(n / 10);
        let d = (48 + n % 10) as u8;
        assert(p.push(d).drop_last() =~= p);
        assert(p.push(d).last() == d);
        assert(p.push(d)[0] == p[0]);
    }
}

/// Reading back what `int_digits` wrote gives the number again.
pub proof fn lemma_parse_int_digits(v: int, neg_max: nat, max: nat)
    requires
        -(neg_max as int) <= v <= max,
    ensures
        parse_signed(int_digits(v), neg_max, max) == Some(v),
        v >= 0 ==> parse_unsigned(int_digits(v), max) == Some(v as nat),
        v >= 0 ==> parse_nat(int_digits(v), max) == Some(v as nat),
{
    if v < 0 {
        let m = (-v) as nat;
        lemma_nat_digits(m);
        assert(int_digits(v).skip(1) =~= nat_digits(m));
        assert(int_digits(v)[0] == MINUS);
    } else {
        lemma_nat_digits(v as nat);
        assert(is_digit(int_digits(v)[0]));
    }
}

/// No byte of a written integer is a carriage return or a line feed.
pub proof fn lemma_int_digits_bytes(v: int)
    ensures
        int_digits(v).len() > 0,
        forall|i: int| 0 <= i < int_digits(v).len() ==> {
            let b = #[trigger] int_digits(v)[i];
            b == MINUS || is_digit(b)
        },
        v >= 0 ==> is_digits(int_digits(v)),
        v < 0 ==> int_digits(v)[0] == MINUS,
{
    if v < 0 {
        lemma_nat_digits((-v) as nat);
    } else {
        lemma_nat_digits(v as nat);
    }
}

/// Reads an unsigned decimal text of digits only, up to `max`.
pub fn read_nat(s: &[u8], max: u128) -> (r: Option<u128>)
    ensures
        match parse_nat(s@, max as nat) {
            Some(n) => r == Some(n as u128),
            None => r is None,
        },
{
    let len: usize = s.len();
    if len == 0 {
        return None;
    }
    let mut acc: u128 = 0;
    let mut i: usize = 0;
    while i < len
        invariant
            len == s@.len(),
            0 <= i <= len,
            forall|j: int| 0 <= j < i ==> is_digit(#[trigger] s@[j]),
            acc == digits_value(s@.take(i as int)),
            acc <= max,
        decreases len - i,
    {
        let b: u8 = s[i];
        if b < 48 || b > 57 {
            return None;
        }
        let d: u128 = (b - 48) as u128;
        proof {
            lemma_digits_value_step(s@, i as int);
            lemma_digits_value_prefix(s@, i + 1);
        }
        if d > max || acc > (max - d) / 10 {
            return None;
        }
        acc = acc * 10 + d;
        i = i + 1;
    }
    proof {
        assert(s@.take(len as int) =~= s@);
    }
    Some(acc)
}

/// Reads an unsigned decimal text that may start with `+`.
pub fn read_unsigned(s: &[u8], max: u128) -> (r: Option<u128>)
    ensures
        match parse_unsigned(s@, max as nat) {
            Some(n) => r == Some(n as u128),
            None => r is None,
        },
{
    if s.len() > 0 && s[0] == PLUS {
        read_nat(vstd::slice::slice_subrange(s, 1, s.len()), max)
    } else {
        read_nat(s, max)
    }
}

/// Reads a signed decimal text within the range of `i64`.
pub fn read_i64(s: &[u8]) -> (r: Option<i64>)
    ensures
        match parse_signed(s@, 0x8000_0000_0000_0000, 0x7fff_ffff_ffff_ffff) {
            Some(n) => r == Some(n as i64),
            None => r is None,
        },
{
    if s.len() > 0 && s[0] == MINUS {
        match read_nat(vstd::slice::slice_subrange(s, 1, s.len()), 0x8000_0000_0000_0000) {
            Some(n) => {
                if n == 0x8000_0000_0000_0000 {
                    Some(i64::MIN)
                } else {
                    let m: i64 = n as i64;
                    Some(-m)
                }
            },
            None => None,
        }
    } else {
        match read_unsigned(s, 0x7fff_ffff_ffff_ffff) {
            Some(n) => Some(n as i64),
            None => None,
        }
    }
}

/// Appends the canonical digits of `n` to `out`.
pub fn push_nat(n: u128, out: &mut Vec<u8>)
    ensures
        final(out)@ == old(out)@ + nat_digits(n as nat),
    decreases n,
{
    if n < 10 {
        out.push(48 + (n as u8));
        assert(final(out)@ =~= old(out)@ + nat_digits(n as nat));
    } else {
        push_nat(n / 10, out);
        out.push(48 + ((n % 10) as u8));
        assert(out@ =~= old(out)@ + nat_digits(n as nat));
    }
}

/// Appends the canonical decimal text of `v` to `out`.
pub fn push_int(v: i64, out: &mut Vec<u8>)
    ensures
        final(out)@ == old(out)@ + int_digits(v as int),
{
    if v < 0 {
        out.push(MINUS);
        let m: u128 = if v == i64::MIN {
            0x8000_0000_0000_0000
        } else {
            (-v) as u128
        };
        push_nat(m, out);
        assert(out@ =~= old(out)@ + int_digits(v as int));
    } else {
        push_nat(v as u128, out);
    }
}

/// The canonical digits of `n` as a fresh vector.
pub fn nat_to_bytes(n: u128) -> (r: Vec<u8>)
    ensures
        r@ == nat_digits(n as nat),
{
    let mut out: Vec<u8> = Vec::new();
    push_nat(n, &mut out);
    assert(out@ =~= nat_digits(n as nat));
    out
}

} // verus!
