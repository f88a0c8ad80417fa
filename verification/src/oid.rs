//! Object ids of twenty bytes, and the ones that stand for changelists.

use crate::text;
use vstd::prelude::*;

verus! {

/// An object id.
#[derive(Debug, Clone, Copy, PartialEq, Eq, Hash)]
pub struct Oid {
    bytes: [u8; 20],
}

impl View for Oid {
    type V = Seq<u8>;

    closed spec fn view(&self) -> Seq<u8> {
        self.bytes@
    }
}

/// The number that the first four bytes make, the highest byte first.
pub open spec fn leading_number(bytes: Seq<u8>) -> int {
    bytes[0] * 0x100_0000 + bytes[1] * 0x1_0000 + bytes[2] * 0x100 + bytes[3]
}

/// The bytes of the id that stands for a change: its number in the first four
/// bytes, the highest first, and zeros after them.
pub open spec fn change_bytes(change: u32) -> Seq<u8> {
    Seq::new(
        20,
        |i: int|
            if i == 0 {
                (change / 0x100_0000) as u8
            } else if i == 1 {
                (change / 0x1_0000 % 0x100) as u8
            } else if i == 2 {
                (change / 0x100 % 0x100) as u8
            } else if i == 3 {
                (change % 0x100) as u8
            } else {
                0u8
            },
    )
}

/// The value of a hexadecimal digit of either case.
pub open spec fn hex_digit(c: char) -> Option<u8> {
    if '0' <= c <= '9' {
        Some((c as u32 - '0' as u32) as u8)
    } else if 'a' <= c <= 'f' {
        Some((c as u32 - 'a' as u32 + 10) as u8)
    } else if 'A' <= c <= 'F' {
        Some((c as u32 - 'A' as u32 + 10) as u8)
    } else {
        None
    }
}

/// The value of the digit at `i`; zero past the end.
pub open spec fn digit_at(s: Seq<char>, i: int) -> int {
    if i < s.len() {
        hex_digit(s[i])->0 as int
    } else {
        0
    }
}

/// The bytes that hexadecimal digits write: one to forty digits, and zeros
/// where they run out.
pub open spec fn hex_bytes(s: Seq<char>) -> Option<Seq<u8>> {
    if 1 <= s.len() <= 40 && forall|i: int| 0 <= i < s.len() ==> hex_digit(#[trigger] s[i]) is Some {
        Some(Seq::new(20, |i: int| (16 * digit_at(s, 2 * i) + digit_at(s, 2 * i + 1)) as u8))
    } else {
        None
    }
}

/// The value of a hexadecimal digit of either case.
fn parse_hex_digit(c: char) -> (r: Option<u8>)
    ensures
        r == hex_digit(c),
        r matches Some(d) ==> d < 16,
{
    if '0' <= c && c <= '9' {
        Some((c as u8) - 48u8)
    } else if 'a' <= c && c <= 'f' {
        Some((c as u8) - 97u8 + 10u8)
    } else if 'A' <= c && c <= 'F' {
        Some((c as u8) - 65u8 + 10u8)
    } else {
        None
    }
}

impl Oid {
    /// The id that hexadecimal digits write.
    pub fn parse(s: &str) -> (r: Option<Oid>)
        ensures
            text::option_view(r) == hex_bytes(s@),
    {
        let chars = text::to_chars(s);
        if chars.len() == 0 || chars.len() > 40 {
            return None;
        }
        let mut bytes: [u8; 20] = [0u8;20];
        let mut i: usize = 0;
        while i < chars.len()
            invariant
                i <= chars@.len(),
                chars@ == s@,
                chars@.len() <= 40,
                bytes@.len() == 20,
                forall|k: int| 0 <= k < i ==> hex_digit(#[trigger] chars@[k]) is Some,
                forall|k: int|
                    0 <= k < 20 ==> #[trigger] bytes@[k] == 16 * digit_at(
                        chars@.take(i as int),
                        2 * k,
                    ) + digit_at(chars@.take(i as int), 2 * k + 1),
            decreases chars.len() - i,
        {
            match parse_hex_digit(chars[i]) {
                None => {
                    assert(hex_digit(chars@[i as int]) is None);
                    return None;
                },
                Some(d) => {
                    let ghost before = bytes@;
                    let ghost earlier = chars@.take(i as int);
                    let ghost now = chars@.take(i + 1);
                    let at: usize = i / 2;
                    assert(before[at as int] == 16 * digit_at(earlier, 2 * at) + digit_at(
                        earlier,
                        2 * at + 1,
                    ));
                    if i % 2 == 0 {
                        assert(bytes@[at as int] == 0);
                        bytes[at] = 16 * d;
                    } else {
                        assert(hex_digit(chars@[i - 1]) is Some);
                        assert(bytes@[at as int] <= 240) by {
                            lemma_hex_digit(chars@[i - 1]);
                        }
                        bytes[at] = bytes[at] + d;
                    }
                    assert forall|k: int| 0 <= k < 20 implies #[trigger] bytes@[k] == 16 * digit_at(
                        now,
                        2 * k,
                    ) + digit_at(now, 2 * k + 1) by {
                        assert(before[k] == 16 * digit_at(earlier, 2 * k) + digit_at(
                            earlier,
                            2 * k + 1,
                        ));
                        if k != at {
                            assert(bytes@[k] == before[k]);
                        }
                    }
                },
            }
            i = i + 1;
        }
        assert(chars@.take(i as int) =~= chars@);
        let oid = Oid { bytes };
        assert(oid@ =~= hex_bytes(chars@)->0);
        Some(oid)
    }

    /// Whether the two ids are the same.
    pub fn same(&self, other: &Oid) -> (r: bool)
        ensures
            r == (self@ == other@),
    {
        let mut i: usize = 0;
        while i < 20
            invariant
                i <= 20,
                forall|k: int| 0 <= k < i ==> #[trigger] self.bytes@[k] == other.bytes@[k],
            decreases 20 - i,
        {
            if self.bytes[i] != other.bytes[i] {
                assert(self.bytes@[i as int] != other.bytes@[i as int]);
                return false;
            }
            i = i + 1;
        }
        assert(self@ =~= other@);
        true
    }
}

/// A hexadecimal digit is below sixteen.
proof fn lemma_hex_digit(c: char)
    ensures
        hex_digit(c) matches Some(d) ==> d < 16,
{
}

/// The id that stands for a change. Ids have a fixed width and cannot hold a
/// decimal number, so the number goes into the leading bytes.
pub fn change_to_oid(change: u32) -> (r: Oid)
    ensures
        r@ == change_bytes(change),
{
    let mut bytes: [u8; 20] = [0u8;20];
    bytes[0] = (change / 0x100_0000) as u8;
    bytes[1] = (change / 0x1_0000 % 0x100) as u8;
    bytes[2] = (change / 0x100 % 0x100) as u8;
    bytes[3] = (change % 0x100) as u8;
    let oid = Oid { bytes };
    assert(oid@ =~= change_bytes(change));
    oid
}

/// The number of the change that an id stands for: what its first four bytes
/// make.
pub fn oid_to_change(oid: &Oid) -> (r: u32)
    ensures
        r == leading_number(oid@),
{
    oid.bytes[0] as u32 * 0x100_0000 + oid.bytes[1] as u32 * 0x1_0000 + oid.bytes[2] as u32 * 0x100
        + oid.bytes[3] as u32
}

/// The change is read back from the id that stands for it.
pub proof fn change_reads_back(change: u32)
    ensures
        leading_number(change_bytes(change)) == change,
{
}

/// Different changes have different ids.
pub proof fn changes_have_their_own_ids(a: u32, b: u32)
    requires
        change_bytes(a) == change_bytes(b),
    ensures
        a == b,
{
    change_reads_back(a);
    change_reads_back(b);
}

/// The hexadecimal digit that stands for a number below sixteen.
pub open spec fn hex_char(n: int) -> char {
    if n < 10 {
        ('0' as u32 + n) as char
    } else {
        ('a' as u32 + (n - 10)) as char
    }
}

/// An id in hexadecimal digits, two for each byte, the higher first.
pub open spec fn hex_text(bytes: Seq<u8>) -> Seq<char> {
    Seq::new(
        2 * bytes.len(),
        |i: int|
            if i % 2 == 0 {
                hex_char(bytes[i / 2] as int / 16)
            } else {
                hex_char(bytes[i / 2] as int % 16)
            },
    )
}

/// An id is read back from its forty hexadecimal digits.
pub proof fn hex_text_reads_back(bytes: Seq<u8>)
    requires
        bytes.len() == 20,
    ensures
        hex_bytes(hex_text(bytes)) == Some(bytes),
{
    let s = hex_text(bytes);
    assert forall|i: int| 0 <= i < s.len() implies hex_digit(#[trigger] s[i]) is Some by {
        assert(0 <= bytes[i / 2] as int / 16 < 16);
        assert(0 <= bytes[i / 2] as int % 16 < 16);
    }
    let r = hex_bytes(s)->0;
    assert forall|k: int| 0 <= k < 20 implies r[k] == bytes[k] by {
        let b = bytes[k] as int;
        assert((2 * k) / 2 == k && (2 * k) % 2 == 0);
        assert((2 * k + 1) / 2 == k && (2 * k + 1) % 2 == 1);
        assert(s[2 * k] == hex_char(b / 16));
        assert(s[2 * k + 1] == hex_char(b % 16));
        assert(digit_at(s, 2 * k) == b / 16);
        assert(digit_at(s, 2 * k + 1) == b % 16);
        assert(16 * (b / 16) + b % 16 == b);
    }
    assert(r =~= bytes);
}

/// The change is named by the id's text: what is read from it is the change.
pub proof fn change_is_named_by_its_id(change: u32)
    ensures
        hex_bytes(hex_text(change_bytes(change))) matches Some(bytes) && leading_number(bytes)
            == change,
{
    hex_text_reads_back(change_bytes(change));
    change_reads_back(change);
}

} // verus!
