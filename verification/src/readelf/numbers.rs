//! Integers written in text: the rules of `from_str_radix` for unsigned
//! integers, and the hexadecimal fields of `readelf` reports.

use vstd::prelude::*;
use vstd::string::*;
use vstd::slice::slice_subrange;
use crate::text::chars_of;

verus! {

/// Why a text is not an integer of the asked type.
#[derive(PartialEq, Eq, Structural, Clone, Copy, Debug)]
pub enum IntErrorKind {
    /// The text is empty.
    Empty,
    /// The text holds a character that is not a digit of the radix.
    InvalidDigit,
    /// The number is larger than the type can hold.
    PosOverflow,
}

/// The value of `c` as a digit in `radix` (`0-9`, then letters of either case),
/// if it is one.
pub open spec fn digit_of(c: char, radix: nat) -> Option<nat> {
    let v = c as u32;
    let d: nat = if 48 <= v <= 57 {
        (v - 48) as nat
    } else if 97 <= v <= 122 {
        (v - 87) as nat
    } else if 65 <= v <= 90 {
        (v - 55) as nat
    } else {
        99
    };
    if d < radix {
        Some(d)
    } else {
        None
    }
}

/// Reads the digits of `s` from the left; the first character that is no digit,
/// or the first digit after which the value exceeds `max`, decides the error.
pub open spec fn scan_digits(s: Seq<char>, radix: nat, max: nat) -> Result<nat, IntErrorKind>
    decreases s.len(),
{
    if s.len() == 0 {
        Ok(0)
    } else {
        match scan_digits(s.drop_last(), radix, max) {
            Err(e) => Err(e),
            Ok(v) => match digit_of(s.last(), radix) {
                None => Err(IntErrorKind::InvalidDigit),
                Some(d) => if v * radix + d > max {
                    Err(IntErrorKind::PosOverflow)
                } else {
                    Ok(v * radix + d)
                },
            },
        }
    }
}

/// What `from_str_radix` gives for an unsigned type whose largest value is `max`:
/// an empty text is `Empty`; a lone sign is `InvalidDigit`; one leading `+` is
/// allowed; then the digits are read from the left.
pub open spec fn from_str_radix(s: Seq<char>, radix: nat, max: nat) -> Result<nat, IntErrorKind> {
    if s.len() == 0 {
        Err(IntErrorKind::Empty)
    } else if s.len() == 1 && (s[0] == '+' || s[0] == '-') {
        Err(IntErrorKind::InvalidDigit)
    } else if s[0] == '+' {
        scan_digits(s.drop_first(), radix, max)
    } else {
        scan_digits(s, radix, max)
    }
}

/// Every successful scan stays within `max`.
pub proof fn lemma_scan_bound(s: Seq<char>, radix: nat, max: nat)
    ensures
        scan_digits(s, radix, max) matches Ok(v) ==> v <= max,
    decreases s.len(),
{
    if s.len() > 0 {
        lemma_scan_bound(s.drop_last(), radix, max);
    }
}

/// Every successful reading stays within `max`.
pub proof fn lemma_radix_bound(s: Seq<char>, radix: nat, max: nat)
    ensures
        from_str_radix(s, radix, max) matches Ok(v) ==> v <= max,
{
    if s.len() > 0 {
        lemma_scan_bound(s.drop_first(), radix, max);
        lemma_scan_bound(s, radix, max);
    }
}

fn digit_value(c: char, radix: u32) -> (r: Option<u32>)
    requires
        2 <= radix <= 36,
    ensures
        r matches Some(d) ==> digit_of(c, radix as nat) == Some(d as nat),
        r is None ==> digit_of(c, radix as nat) is None,
{
    let v = c as u32;
    let d: u32 = if 48 <= v && v <= 57 {
        v - 48
    } else if 97 <= v && v <= 122 {
        v - 87
    } else if 65 <= v && v <= 90 {
        v - 55
    } else {
        99
    };
    if d < radix {
        Some(d)
    } else {
        None
    }
}

/// Reads `s` as `from_str_radix` does, for a type whose largest value is `max`.
pub fn parse_radix(s: &[char], radix: u32, max: u64) -> (r: Result<u64, IntErrorKind>)
    requires
        2 <= radix <= 36,
    ensures
        match from_str_radix(s@, radix as nat, max as nat) {
            Ok(v) => r == Ok::<u64, IntErrorKind>(v as u64),
            Err(e) => r == Err::<u64, IntErrorKind>(e),
        },
{
    let n = s.len();
    if n == 0 {
        return Err(IntErrorKind::Empty);
    }
    if n == 1 && (s[0] == '+' || s[0] == '-') {
        return Err(IntErrorKind::InvalidDigit);
    }
    let start: usize = if s[0] == '+' {
        1
    } else {
        0
    };
    let ghost digits = s@.subrange(start as int, n as int);
    assert(start == 1 ==> digits =~= s@.drop_first());
    assert(start == 0 ==> digits =~= s@);
    let mut v: u64 = 0;
    let mut i: usize = start;
    while i < n
        invariant
            start <= i <= n,
            n == s@.len(),
            2 <= radix <= 36,
            digits == s@.subrange(start as int, n as int),
            from_str_radix(s@, radix as nat, max as nat) == scan_digits(digits, radix as nat, max as nat),
            scan_digits(digits.take(i - start), radix as nat, max as nat) == Ok::<nat, IntErrorKind>(
                v as nat,
            ),
            v <= max,
        decreases n - i,
    {
        let ghost pre = digits.take(i - start);
        assert(digits.take(i + 1 - start).drop_last() =~= pre);
        assert(digits.take(i + 1 - start).last() == s@[i as int]);
        match digit_value(s[i], radix) {
            None => {
                assert(scan_digits(digits, radix as nat, max as nat) == Err::<nat, IntErrorKind>(
                    IntErrorKind::InvalidDigit,
                )) by {
                    lemma_scan_error_extends(digits, (i + 1 - start) as nat, radix as nat, max as nat);
                }
                return Err(IntErrorKind::InvalidDigit);
            },
            Some(d) => {
                let d64 = d as u64;
                let over = if d64 > max {
                    true
                } else {
                    v > (max - d64) / (radix as u64)
                };
                let r64 = radix as u64;
                assert(over <==> v * r64 + d64 > max) by (nonlinear_arith)
                    requires
                        over == (if d64 > max {
                            true
                        } else {
                            v as int > (max - d64) as int / r64 as int
                        }),
                        r64 >= 2,
                ;
                if over {
                    assert(scan_digits(digits, radix as nat, max as nat) == Err::<nat, IntErrorKind>(
                        IntErrorKind::PosOverflow,
                    )) by {
                        lemma_scan_error_extends(
                            digits,
                            (i + 1 - start) as nat,
                            radix as nat,
                            max as nat,
                        );
                    }
                    return Err(IntErrorKind::PosOverflow);
                }
                assert(v * radix + d <= max);
                v = v * (radix as u64) + d64;
            },
        }
        i = i + 1;
    }
    assert(digits.take(n - start) =~= digits);
    Ok(v)
}

/// Once a prefix of the digits fails, the whole scan fails the same way.
proof fn lemma_scan_error_extends(s: Seq<char>, k: nat, radix: nat, max: nat)
    requires
        k <= s.len(),
        scan_digits(s.take(k as int), radix, max) is Err,
    ensures
        scan_digits(s, radix, max) == scan_digits(s.take(k as int), radix, max),
    decreases s.len() - k,
{
    if k < s.len() {
        assert(s.take(k as int + 1).drop_last() =~= s.take(k as int));
        lemma_scan_error_extends(s, k + 1, radix, max);
    } else {
        assert(s.take(k as int) =~= s);
    }
}

/// What a hexadecimal text reads as, with or without a `0x` / `0X` prefix:
/// the digits after the prefix, by the rules of `from_str_radix`.
pub open spec fn hex_value(s: Seq<char>, max: nat) -> Result<nat, IntErrorKind> {
    from_str_radix(hex_digits_part(s), 16, max)
}

/// The characters of `c` after a leading `0x` or `0X`, if there is one.
fn digits_after_prefix(c: &Vec<char>) -> (d: &[char])
    ensures
        d@ == hex_digits_part(c@),
{
    if c.len() >= 2 && c[0] == '0' && (c[1] == 'x' || c[1] == 'X') {
        slice_subrange(c.as_slice(), 2, c.len())
    } else {
        c.as_slice()
    }
}

/// Integer types that a hexadecimal field of a report can be read into.
pub trait IntField: Sized {
    /// The largest value of the type.
    spec fn max_value() -> nat;

    /// The number a value stands for.
    spec fn value_of(v: Self) -> nat;

    /// Reads `hex` as hexadecimal digits, with or without a `0x` / `0X` prefix.
    fn parse(hex: &str) -> (r: Result<Self, IntErrorKind>)
        ensures
            match hex_value(hex@, Self::max_value()) {
                Ok(v) => r matches Ok(x) && Self::value_of(x) == v,
                Err(e) => r matches Err(e2) && e2 == e,
            },
    ;
}

impl IntField for u32 {
    open spec fn max_value() -> nat {
        u32::MAX as nat
    }

    open spec fn value_of(v: u32) -> nat {
        v as nat
    }

    fn parse(hex: &str) -> (r: Result<u32, IntErrorKind>) {
        let chars = chars_of(hex);
        let digits = digits_after_prefix(&chars);
        match parse_radix(digits, 16, u32::MAX as u64) {
            Ok(v) => {
                proof {
                    lemma_radix_bound(hex_digits_part(hex@), 16, u32::MAX as nat);
                }
                Ok(v as u32)
            },
            Err(e) => Err(e),
        }
    }
}

impl IntField for u64 {
    open spec fn max_value() -> nat {
        u64::MAX as nat
    }

    open spec fn value_of(v: u64) -> nat {
        v as nat
    }

    fn parse(hex: &str) -> (r: Result<u64, IntErrorKind>) {
        let chars = chars_of(hex);
        parse_radix(digits_after_prefix(&chars), 16, u64::MAX)
    }
}

/// The number of bytes that character `c` takes in UTF-8.
pub open spec fn utf8_width(c: char) -> nat {
    let v = c as u32;
    if v < 0x80 {
        1
    } else if v < 0x800 {
        2
    } else if v < 0x10000 {
        3
    } else {
        4
    }
}

/// The text is shorter than two bytes, or its first two bytes end a character,
/// so that the two-byte prefix of a field can be cut off.
pub open spec fn prefix_cuttable(s: Seq<char>) -> bool {
    s.len() == 0 || utf8_width(s[0]) == 2 || (utf8_width(s[0]) == 1 && (s.len() == 1
        || utf8_width(s[1]) == 1))
}

/// `s` without a leading `0x` or `0X`.
pub open spec fn hex_digits_part(s: Seq<char>) -> Seq<char> {
    if s.len() >= 2 && s[0] == '0' && (s[1] == 'x' || s[1] == 'X') {
        s.subrange(2, s.len() as int)
    } else {
        s
    }
}

/// A field reads the same digits with a `0x` prefix as without it.
pub proof fn lemma_prefix_ignored(d: Seq<char>)
    ensures
        hex_digits_part(seq!['0', 'x'] + d) == d,
        hex_digits_part(seq!['0', 'X'] + d) == d,
{
    assert((seq!['0', 'x'] + d).subrange(2, d.len() as int + 2) =~= d);
    assert((seq!['0', 'X'] + d).subrange(2, d.len() as int + 2) =~= d);
}

/// The text of a hexadecimal field without its `0x` or `0X` prefix, if it has one.
pub fn strip_hex_prefix(hex: &str) -> (r: String)
    requires
        prefix_cuttable(hex@),
    ensures
        r@ == hex_digits_part(hex@),
{
    let n = hex.unicode_len();
    if n >= 2 {
        let c0 = hex.get_char(0);
        let c1 = hex.get_char(1);
        if c0 == '0' && (c1 == 'x' || c1 == 'X') {
            return String::from_str(hex.substring_char(2, n));
        }
    }
    String::from_str(hex)
}

/// Reads a hexadecimal field of a report: a leading `0x` / `0X` is cut off,
/// and the rest is read by `IntField::parse`.
pub fn parse_str_hex_repr<I: IntField>(hex: &str) -> (r: Result<I, IntErrorKind>)
    requires
        prefix_cuttable(hex@),
    ensures
        match hex_value(hex_digits_part(hex@), I::max_value()) {
            Ok(v) => r matches Ok(x) && I::value_of(x) == v,
            Err(e) => r matches Err(e2) && e2 == e,
        },
{
    let digits = strip_hex_prefix(hex);
    I::parse(digits.as_str())
}

/// Reads a decimal count, as `str::parse::<usize>` does.
pub fn parse_usize(s: &[char]) -> (r: Result<usize, IntErrorKind>)
    ensures
        match from_str_radix(s@, 10, usize::MAX as nat) {
            Ok(v) => r == Ok::<usize, IntErrorKind>(v as usize),
            Err(e) => r == Err::<usize, IntErrorKind>(e),
        },
{
    match parse_radix(s, 10, usize::MAX as u64) {
        Ok(v) => {
            proof {
                lemma_radix_bound(s@, 10, usize::MAX as nat);
            }
            Ok(v as usize)
        },
        Err(e) => Err(e),
    }
}

} // verus!
