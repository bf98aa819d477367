//! Numbers as text: decimal and hexadecimal, written and read.

use vstd::prelude::*;
use crate::strings::to_chars;

verus! {

/// The character of a decimal digit.
pub open spec fn digit_char(d: int) -> char {
    (48 + d) as u8 as char
}

/// A number in decimal.
pub open spec fn decimal_text(n: nat) -> Seq<char>
    decreases n,
{
    if n < 10 {
        seq![digit_char(n as int)]
    } else {
        decimal_text(n / 10).push(digit_char((n % 10) as int))
    }
}

/// A number in decimal.
pub fn decimal(n: u128) -> (r: String)
    ensures
        r@ == decimal_text(n as nat),
    decreases n,
{
    if n < 10 {
        let mut s = String::new();
        s.push((48 + n as u8) as char);
        assert(s@ =~= decimal_text(n as nat));
        s
    } else {
        let mut s = decimal(n / 10);
        s.push((48 + (n % 10) as u8) as char);
        s
    }
}

/// The value of a character as a hexadecimal digit.
pub open spec fn hex_value(c: char) -> Option<nat> {
    if '0' <= c <= '9' {
        Some((c as u32 - 48) as nat)
    } else if 'a' <= c <= 'f' {
        Some((c as u32 - 87) as nat)
    } else if 'A' <= c <= 'F' {
        Some((c as u32 - 55) as nat)
    } else {
        None
    }
}

/// The value of a character as a digit in base ten or sixteen.
pub open spec fn digit_value(c: char, base: nat) -> Option<nat> {
    match hex_value(c) {
        Some(v) => if v < base {
            Some(v)
        } else {
            None
        },
        None => None,
    }
}

/// Whether all characters are digits in `base`.
pub open spec fn all_digits(s: Seq<char>, base: nat) -> bool {
    forall|i: int| 0 <= i < s.len() ==> (#[trigger] digit_value(s[i], base)) is Some
}

/// The number that digits in `base` write.
pub open spec fn value(s: Seq<char>, base: nat) -> nat
    decreases s.len(),
{
    if s.len() == 0 {
        0
    } else {
        value(s.drop_last(), base) * base + (match digit_value(s.last(), base) {
            Some(v) => v,
            None => 0,
        })
    }
}

/// `s` without the plus sign it may start with.
pub open spec fn unsigned(s: Seq<char>) -> Seq<char> {
    if s.len() > 0 && s[0] == '+' {
        s.skip(1)
    } else {
        s
    }
}

/// The number up to `max` that `s` writes in `base`, perhaps behind a plus
/// sign.
pub open spec fn parsed(s: Seq<char>, base: nat, max: nat) -> Option<nat> {
    let digits = unsigned(s);
    if digits.len() > 0 && all_digits(digits, base) && value(digits, base) <= max {
        Some(value(digits, base))
    } else {
        None
    }
}

fn digit(c: char, base: u8) -> (r: Option<u8>)
    requires
        base <= 16,
    ensures
        r is Some <==> digit_value(c, base as nat) is Some,
        r is Some ==> r->0 as nat == digit_value(c, base as nat)->0 && r->0 < base,
{
    let v: u8 = if '0' <= c && c <= '9' {
        (c as u32 - 48) as u8
    } else if 'a' <= c && c <= 'f' {
        (c as u32 - 87) as u8
    } else if 'A' <= c && c <= 'F' {
        (c as u32 - 55) as u8
    } else {
        return None;
    };
    if v < base {
        Some(v)
    } else {
        None
    }
}

proof fn value_grows(s: Seq<char>, base: nat, n: int)
    requires
        0 <= n <= s.len(),
        base >= 1,
    ensures
        value(s.take(n), base) <= value(s, base),
    decreases s.len(),
{
    if n == s.len() {
        assert(s.take(n) =~= s);
    } else {
        value_grows(s.drop_last(), base, n);
        assert(s.drop_last().take(n) =~= s.take(n));
        let v = value(s.drop_last(), base);
        assert(v <= v * base) by (nonlinear_arith)
            requires
                base >= 1,
        ;
    }
}

/// Reads a number up to `max` in base ten or sixteen, perhaps behind a plus
/// sign.
pub fn parse(s: &str, base: u8, max: u64) -> (r: Option<u64>)
    requires
        2 <= base <= 16,
    ensures
        match r {
            Some(n) => parsed(s@, base as nat, max as nat) == Some(n as nat),
            None => parsed(s@, base as nat, max as nat) is None,
        },
{
    let chars = to_chars(s);
    let n: usize = chars.len();
    let start: usize = if n > 0 && chars[0] == '+' {
        1
    } else {
        0
    };
    let ghost digits = unsigned(s@);
    assert(digits =~= s@.skip(start as int));
    if start == n {
        return None;
    }
    let mut v: u64 = 0;
    let mut i: usize = start;
    assert(digits.take(0) =~= seq![]);
    while i < n
        invariant
            start <= i <= n,
            start <= 1,
            n == chars@.len(),
            chars@ == s@,
            2 <= base <= 16,
            digits == s@.skip(start as int),
            digits == unsigned(s@),
            v <= max,
            v == value(digits.take(i - start), base as nat),
            forall|j: int|
                0 <= j < i - start ==> (#[trigger] digit_value(digits[j], base as nat)) is Some,
        decreases n - i,
    {
        let ghost k = i - start;
        assert(digits[k] == chars@[i as int]);
        assert(digits.take(k + 1).drop_last() =~= digits.take(k));
        match digit(chars[i], base) {
            None => {
                assert(digit_value(digits[k], base as nat) is None);
                return None;
            },
            Some(d) => {
                assert(v * base <= 0xffff_ffff_ffff_ffff * 16) by (nonlinear_arith)
                    requires
                        v <= 0xffff_ffff_ffff_ffff,
                        base <= 16,
                ;
                let next: u128 = v as u128 * base as u128 + d as u128;
                if next > max as u128 {
                    proof {
                        value_grows(digits, base as nat, k + 1);
                    }
                    return None;
                }
                v = next as u64;
            },
        }
        i = i + 1;
    }
    assert(digits.take(i - start) =~= digits);
    Some(v)
}

/// A lowercase hexadecimal digit.
pub open spec fn hex_char(d: int) -> char {
    if d < 10 {
        (48 + d) as u8 as char
    } else {
        (87 + d) as u8 as char
    }
}

/// The last `n` hexadecimal digits of a number, in lowercase.
pub open spec fn hex_text(v: nat, n: nat) -> Seq<char>
    decreases n,
{
    if n == 0 {
        seq![]
    } else {
        hex_text(v / 16, (n - 1) as nat).push(hex_char((v % 16) as int))
    }
}

/// The last `n` hexadecimal digits of a number, in lowercase.
pub fn hex(v: u64, n: u8) -> (r: String)
    ensures
        r@ == hex_text(v as nat, n as nat),
    decreases n,
{
    if n == 0 {
        String::new()
    } else {
        let mut s = hex(v / 16, n - 1);
        let d: u8 = (v % 16) as u8;
        s.push(
            if d < 10 {
                (48 + d) as char
            } else {
                (87 + d) as char
            },
        );
        s
    }
}

proof fn decimal_digits(n: nat)
    ensures
        decimal_text(n).len() > 0,
        all_digits(decimal_text(n), 10),
        value(decimal_text(n), 10) == n,
        decimal_text(n)[0] != '+',
    decreases n,
{
    let s = decimal_text(n);
    if n < 10 {
        assert(s.drop_last() =~= seq![]);
        assert(value(s.drop_last(), 10) == 0);
        assert(digit_value(digit_char(n as int), 10) == Some(n));
    } else {
        decimal_digits(n / 10);
        let d = decimal_text(n / 10);
        assert(s.drop_last() =~= d);
        assert(digit_value(digit_char((n % 10) as int), 10) == Some(n % 10));
        assert forall|i: int| 0 <= i < s.len() implies (#[trigger] digit_value(s[i], 10)) is Some by {
            if i < d.len() {
                assert(digit_value(d[i], 10) is Some);
            }
        }
        assert(s[0] == d[0]);
    }
}

/// A number written in decimal reads back as itself.
pub proof fn decimal_reads_back(n: nat, max: nat)
    requires
        n <= max,
    ensures
        parsed(decimal_text(n), 10, max) == Some(n),
{
    decimal_digits(n);
}

} // verus!
