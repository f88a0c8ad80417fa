//! Numbers written in decimal digits.

use crate::text;
use vstd::prelude::*;
use vstd::slice::slice_subrange;

verus! {

/// Whether `c` is one of the ten digits.
pub open spec fn is_digit(c: char) -> bool {
    '0' <= c <= '9'
}

/// The digit that stands for `n`, which is below ten.
pub open spec fn digit(n: nat) -> char {
    ('0' as u32 + n) as char
}

/// `n` in digits, without leading zeros.
pub open spec fn digits(n: nat) -> Seq<char>
    decreases n,
{
    if n < 10 {
        seq![digit(n)]
    } else {
        digits(n / 10).push(digit(n % 10))
    }
}

/// `n` in digits, with zeros before it up to `width` digits.
pub open spec fn padded_digits(n: nat, width: nat) -> Seq<char> {
    let d = digits(n);
    if d.len() < width {
        Seq::new((width - d.len()) as nat, |i: int| '0') + d
    } else {
        d
    }
}

/// Whether `s` is made of digits alone.
pub open spec fn all_digits(s: Seq<char>) -> bool {
    forall|i: int| 0 <= i < s.len() ==> is_digit(#[trigger] s[i])
}

/// The number that the digits of `s` stand for.
pub open spec fn value_of(s: Seq<char>) -> nat
    decreases s.len(),
{
    if s.len() == 0 {
        0
    } else {
        value_of(s.drop_last()) * 10 + (s.last() as u32 - '0' as u32) as nat
    }
}

/// `s` without one plus sign at its start.
pub open spec fn without_plus(s: Seq<char>) -> Seq<char> {
    if s.len() > 0 && s[0] == '+' {
        s.skip(1)
    } else {
        s
    }
}

/// The number that `s` writes: digits, which a plus sign may precede, with a
/// value of at most `max`.
pub open spec fn unsigned_value(s: Seq<char>, max: nat) -> Option<nat> {
    let d = without_plus(s);
    if d.len() > 0 && all_digits(d) && value_of(d) <= max {
        Some(value_of(d))
    } else {
        None
    }
}

/// The integer that `s` writes: digits, which a sign may precede, with a value
/// from `-max - 1` to `max`.
pub open spec fn signed_value(s: Seq<char>, max: nat) -> Option<int> {
    if s.len() > 0 && s[0] == '-' {
        let d = s.skip(1);
        if d.len() > 0 && all_digits(d) && value_of(d) <= max + 1 {
            Some(-value_of(d))
        } else {
            None
        }
    } else {
        match unsigned_value(s, max) {
            Some(n) => Some(n as int),
            None => None,
        }
    }
}

/// Digits read back as the number that they were written for.
pub proof fn digits_read_back(n: nat)
    ensures
        digits(n).len() > 0,
        all_digits(digits(n)),
        value_of(digits(n)) == n,
    decreases n,
{
    if n < 10 {
        assert(seq![digit(n)].drop_last() =~= Seq::<char>::empty());
        assert(value_of(Seq::<char>::empty()) == 0);
    } else {
        digits_read_back(n / 10);
        assert(digits(n).drop_last() =~= digits(n / 10));
    }
}

/// A number that fits is read back from its own digits.
pub proof fn unsigned_reads_back(n: nat, max: nat)
    requires
        n <= max,
    ensures
        unsigned_value(digits(n), max) == Some(n),
{
    digits_read_back(n);
    assert(is_digit(digits(n)[0]));
}

/// The first digits of a number stand for no more than all of them.
proof fn lemma_prefix_value(s: Seq<char>, i: int)
    requires
        0 <= i <= s.len(),
        all_digits(s),
    ensures
        value_of(s.take(i)) <= value_of(s),
    decreases s.len() - i,
{
    if i < s.len() {
        lemma_prefix_value(s, i + 1);
        assert(s.take(i + 1).drop_last() =~= s.take(i));
        assert(is_digit(s[i]));
    } else {
        assert(s.take(i) =~= s);
    }
}

/// The number that the digits of `s` stand for, where it is at most `max`.
pub fn parse_digits(s: &[char], max: u64) -> (r: Option<u64>)
    ensures
        match r {
            Some(n) => s@.len() > 0 && all_digits(s@) && value_of(s@) == n && n <= max,
            None => !(s@.len() > 0 && all_digits(s@) && value_of(s@) <= max),
        },
{
    if s.len() == 0 {
        return None;
    }
    let mut n: u64 = 0;
    let mut i: usize = 0;
    while i < s.len()
        invariant
            i <= s.len(),
            n <= max,
            n == value_of(s@.take(i as int)),
            forall|j: int| 0 <= j < i ==> is_digit(#[trigger] s@[j]),
        decreases s.len() - i,
    {
        let c = s[i];
        if c < '0' || c > '9' {
            assert(!is_digit(s@[i as int]));
            return None;
        }
        let d: u64 = (c as u64) - 48u64;
        assert(s@.take(i + 1).drop_last() =~= s@.take(i as int));
        assert(value_of(s@.take(i + 1)) == n * 10 + d);
        if n > max / 10 || d > max - n * 10 {
            proof {
                if all_digits(s@) {
                    lemma_prefix_value(s@, i + 1);
                }
            }
            return None;
        }
        n = n * 10 + d;
        i = i + 1;
    }
    assert(s@.take(i as int) =~= s@);
    Some(n)
}

/// The number that `s` writes, where it is at most `max`.
pub fn parse_unsigned(s: &[char], max: u64) -> (r: Option<u64>)
    ensures
        match r {
            Some(n) => unsigned_value(s@, max as nat) == Some(n as nat) && n <= max,
            None => unsigned_value(s@, max as nat) is None,
        },
{
    if s.len() > 0 && s[0] == '+' {
        parse_digits(slice_subrange(s, 1, s.len()), max)
    } else {
        parse_digits(s, max)
    }
}

/// The `u32` that `s` writes.
pub fn parse_u32(s: &[char]) -> (r: Option<u32>)
    ensures
        match r {
            Some(n) => unsigned_value(s@, u32::MAX as nat) == Some(n as nat),
            None => unsigned_value(s@, u32::MAX as nat) is None,
        },
{
    match parse_unsigned(s, 4_294_967_295u64) {
        Some(n) => Some(n as u32),
        None => None,
    }
}

/// The `u8` that `s` writes.
pub fn parse_u8(s: &[char]) -> (r: Option<u8>)
    ensures
        match r {
            Some(n) => unsigned_value(s@, u8::MAX as nat) == Some(n as nat),
            None => unsigned_value(s@, u8::MAX as nat) is None,
        },
{
    match parse_unsigned(s, 255u64) {
        Some(n) => Some(n as u8),
        None => None,
    }
}

/// The `i64` that `s` writes.
pub fn parse_i64(s: &[char]) -> (r: Option<i64>)
    ensures
        match r {
            Some(n) => signed_value(s@, i64::MAX as nat) == Some(n as int),
            None => signed_value(s@, i64::MAX as nat) is None,
        },
{
    if s.len() > 0 && s[0] == '-' {
        match parse_digits(slice_subrange(s, 1, s.len()), 9_223_372_036_854_775_808u64) {
            Some(n) => {
                if n == 9_223_372_036_854_775_808u64 {
                    Some(i64::MIN)
                } else {
                    Some(-(n as i64))
                }
            },
            None => None,
        }
    } else {
        match parse_unsigned(s, 9_223_372_036_854_775_807u64) {
            Some(n) => Some(n as i64),
            None => None,
        }
    }
}

/// The `i32` that `s` writes.
pub fn parse_i32(s: &[char]) -> (r: Option<i32>)
    ensures
        match r {
            Some(n) => signed_value(s@, i32::MAX as nat) == Some(n as int),
            None => signed_value(s@, i32::MAX as nat) is None,
        },
{
    if s.len() > 0 && s[0] == '-' {
        match parse_digits(slice_subrange(s, 1, s.len()), 2_147_483_648u64) {
            Some(n) => Some((-(n as i64)) as i32),
            None => None,
        }
    } else {
        match parse_unsigned(s, 2_147_483_647u64) {
            Some(n) => Some(n as i32),
            None => None,
        }
    }
}

/// Appends `n` in digits.
pub fn push_digits(out: &mut String, n: u64)
    ensures
        final(out)@ == old(out)@ + digits(n as nat),
    decreases n,
{
    if n >= 10 {
        push_digits(out, n / 10);
    }
    let d: u8 = (n % 10) as u8;
    out.push((48u8 + d) as char);
    assert(final(out)@ =~= old(out)@ + digits(n as nat));
}

/// `n` in digits.
pub fn to_digits(n: u64) -> (r: String)
    ensures
        r@ == digits(n as nat),
{
    let mut out = String::new();
    push_digits(&mut out, n);
    assert(out@ =~= digits(n as nat));
    out
}

/// Appends a number below a hundred in two digits.
pub fn push_two_digits(out: &mut String, n: u64)
    requires
        n < 100,
    ensures
        final(out)@ == old(out)@ + padded_digits(n as nat, 2),
{
    proof {
        reveal_with_fuel(digits, 3);
    }
    assert(n >= 10 ==> n / 10 < 10);
    if n < 10 {
        out.push('0');
    }
    push_digits(out, n);
    assert(final(out)@ =~= old(out)@ + padded_digits(n as nat, 2));
}

/// Zeros before digits do not change the number that they stand for.
proof fn lemma_leading_zeros(zeros: nat, d: Seq<char>)
    requires
        all_digits(d),
    ensures
        all_digits(text::repeated('0', zeros) + d),
        value_of(text::repeated('0', zeros) + d) == value_of(d),
    decreases zeros, d.len(),
{
    let s = text::repeated('0', zeros) + d;
    assert forall|i: int| 0 <= i < s.len() implies is_digit(#[trigger] s[i]) by {
        if i >= zeros {
            assert(is_digit(d[i - zeros]));
        }
    }
    if d.len() > 0 {
        let rest = d.drop_last();
        assert forall|i: int| 0 <= i < rest.len() implies is_digit(#[trigger] rest[i]) by {
            assert(is_digit(d[i]));
        }
        lemma_leading_zeros(zeros, rest);
        assert(s.drop_last() =~= text::repeated('0', zeros) + rest);
        assert(s.last() == d.last());
    } else if zeros > 0 {
        lemma_leading_zeros((zeros - 1) as nat, d);
        assert(s.drop_last() =~= text::repeated('0', (zeros - 1) as nat) + d);
        assert(s.last() == '0');
    } else {
        assert(s =~= d);
    }
}

/// A number is read wherever it fits, and only there, with zeros before it, with
/// a plus sign, and with a minus sign where it may have one.
pub proof fn numbers_are_read_up_to_the_limit(n: nat, zeros: nat, max: nat)
    ensures
        ({
            let written = text::repeated('0', zeros) + digits(n);
            &&& unsigned_value(written, max) == (if n <= max {
                Some(n)
            } else {
                None
            })
            &&& unsigned_value(seq!['+'] + written, max) == unsigned_value(written, max)
            &&& unsigned_value(seq!['-'] + written, max) is None
            &&& signed_value(written, max) == (if n <= max {
                Some(n as int)
            } else {
                None
            })
            &&& signed_value(seq!['-'] + written, max) == (if n <= max + 1 {
                Some(-n)
            } else {
                None
            })
        }),
{
    let written = text::repeated('0', zeros) + digits(n);
    digits_read_back(n);
    lemma_leading_zeros(zeros, digits(n));
    assert(is_digit(written[0]));
    assert((seq!['+'] + written).skip(1) =~= written);
    assert((seq!['-'] + written).skip(1) =~= written);
    assert(!is_digit((seq!['-'] + written)[0]));
}

/// A text with anything but digits behind its sign is no number.
pub proof fn only_digits_are_a_number(s: Seq<char>, i: int, max: nat)
    requires
        0 <= i < s.len(),
        !is_digit(s[i]),
        i > 0 || (s[0] != '+' && s[0] != '-'),
    ensures
        unsigned_value(s, max) is None,
        signed_value(s, max) is None,
{
    let d = without_plus(s);
    if d.len() < s.len() {
        assert(d[i - 1] == s[i]);
    }
    if s[0] == '-' {
        assert(s.skip(1)[i - 1] == s[i]);
    }
}

/// A number in a fixed number of places reads back as itself.
pub proof fn padded_digits_read_back(n: nat, width: nat, max: nat)
    ensures
        padded_digits(n, width).len() >= width,
        padded_digits(n, width).len() > 0,
        all_digits(padded_digits(n, width)),
        unsigned_value(padded_digits(n, width), max) == (if n <= max {
            Some(n)
        } else {
            None
        }),
{
    let d = digits(n);
    let zeros = if d.len() < width {
        (width - d.len()) as nat
    } else {
        0
    };
    digits_read_back(n);
    numbers_are_read_up_to_the_limit(n, zeros, max);
    lemma_leading_zeros(zeros, d);
    assert(padded_digits(n, width) =~= text::repeated('0', zeros) + d);
}

} // verus!
