//! GUIDs and their textual form.

use vstd::prelude::*;
use vstd::utf8::encode_utf8;
use crate::error::{OsoLoaderError, Rslt};
use crate::text::chars_of;

verus! {

/// A GUID as the loader stores it. Each field holds the hexadecimal digits of
/// the corresponding textual group, one digit value (`0..16`) per byte.
#[derive(PartialEq, Eq, Clone, Copy, Debug)]
pub struct Guid {
    pub time_low: [u8; 4],
    pub time_mid: [u8; 2],
    pub time_high_and_version: [u8; 2],
    pub clock_seq_high_and_reserved: u8,
    pub clock_seq_low: u8,
    pub node: [u8; 6],
}

/// The GUID whose sixteen digit values are the first sixteen of `n`.
pub open spec fn guid_from_digits(g: Guid, n: Seq<u8>) -> bool {
    &&& g.time_low@ == n.subrange(0, 4)
    &&& g.time_mid@ == n.subrange(4, 6)
    &&& g.time_high_and_version@ == n.subrange(6, 8)
    &&& g.clock_seq_high_and_reserved == n[8]
    &&& g.clock_seq_low == n[9]
    &&& g.node@ == n.subrange(10, 16)
}

/// A hexadecimal digit.
#[derive(PartialEq, Eq, Structural, Clone, Copy, Debug)]
pub enum Hex {
    Zero,
    One,
    Two,
    Three,
    Four,
    Five,
    Six,
    Seven,
    Eight,
    Nine,
    Ten,
    Eleven,
    Twelve,
    Thirteen,
    Fourteen,
    Fifteen,
}

/// `0-9`, `a-f` or `A-F` as an ASCII byte.
pub open spec fn is_hex_byte(b: u8) -> bool {
    (48 <= b <= 57) || (97 <= b <= 102) || (65 <= b <= 70)
}

/// The value of hexadecimal digit byte `b`.
pub open spec fn hex_value(b: u8) -> u8 {
    if 48 <= b <= 57 {
        (b - 48) as u8
    } else if 97 <= b <= 102 {
        (b - 87) as u8
    } else {
        (b - 55) as u8
    }
}

/// The low byte of a character's code point (what `c as u8` gives).
pub open spec fn char_byte(c: char) -> u8 {
    (c as u32 % 256) as u8
}

/// The digit values of the characters of `s` whose low byte is a hexadecimal digit.
pub open spec fn hex_digits_of_chars(s: Seq<char>) -> Seq<u8>
    decreases s.len(),
{
    if s.len() == 0 {
        seq![]
    } else {
        let rest = hex_digits_of_chars(s.drop_last());
        let b = char_byte(s.last());
        if is_hex_byte(b) {
            rest.push(hex_value(b))
        } else {
            rest
        }
    }
}

/// The digit values of the hexadecimal digit bytes of `s`.
pub open spec fn hex_digits_of_bytes(s: Seq<u8>) -> Seq<u8>
    decreases s.len(),
{
    if s.len() == 0 {
        seq![]
    } else {
        let rest = hex_digits_of_bytes(s.drop_last());
        if is_hex_byte(s.last()) {
            rest.push(hex_value(s.last()))
        } else {
            rest
        }
    }
}

/// The digit with value `v` (`Fifteen` for anything larger).
pub open spec fn hex_of_value(v: u8) -> Hex {
    if v == 0 {
        Hex::Zero
    } else if v == 1 {
        Hex::One
    } else if v == 2 {
        Hex::Two
    } else if v == 3 {
        Hex::Three
    } else if v == 4 {
        Hex::Four
    } else if v == 5 {
        Hex::Five
    } else if v == 6 {
        Hex::Six
    } else if v == 7 {
        Hex::Seven
    } else if v == 8 {
        Hex::Eight
    } else if v == 9 {
        Hex::Nine
    } else if v == 10 {
        Hex::Ten
    } else if v == 11 {
        Hex::Eleven
    } else if v == 12 {
        Hex::Twelve
    } else if v == 13 {
        Hex::Thirteen
    } else if v == 14 {
        Hex::Fourteen
    } else {
        Hex::Fifteen
    }
}

/// The value of digit `h`.
pub open spec fn spec_hex_value(h: Hex) -> u8 {
    match h {
        Hex::Zero => 0,
        Hex::One => 1,
        Hex::Two => 2,
        Hex::Three => 3,
        Hex::Four => 4,
        Hex::Five => 5,
        Hex::Six => 6,
        Hex::Seven => 7,
        Hex::Eight => 8,
        Hex::Nine => 9,
        Hex::Ten => 10,
        Hex::Eleven => 11,
        Hex::Twelve => 12,
        Hex::Thirteen => 13,
        Hex::Fourteen => 14,
        Hex::Fifteen => 15,
    }
}

impl Hex {
    /// The digit for an ASCII hexadecimal digit byte (either case).
    pub fn to_hex(byte: u8) -> (h: Hex)
        requires
            is_hex_byte(byte),
        ensures
            h == hex_of_value(hex_value(byte)),
            spec_hex_value(h) == hex_value(byte),
    {
        let v: u8 = if byte >= 48 && byte <= 57 {
            byte - 48
        } else if byte >= 97 && byte <= 102 {
            byte - 87
        } else {
            byte - 55
        };
        Hex::from_value(v)
    }

    fn from_value(v: u8) -> (h: Hex)
        requires
            v < 16,
        ensures
            h == hex_of_value(v),
            spec_hex_value(h) == v,
    {
        if v == 0 {
            Hex::Zero
        } else if v == 1 {
            Hex::One
        } else if v == 2 {
            Hex::Two
        } else if v == 3 {
            Hex::Three
        } else if v == 4 {
            Hex::Four
        } else if v == 5 {
            Hex::Five
        } else if v == 6 {
            Hex::Six
        } else if v == 7 {
            Hex::Seven
        } else if v == 8 {
            Hex::Eight
        } else if v == 9 {
            Hex::Nine
        } else if v == 10 {
            Hex::Ten
        } else if v == 11 {
            Hex::Eleven
        } else if v == 12 {
            Hex::Twelve
        } else if v == 13 {
            Hex::Thirteen
        } else if v == 14 {
            Hex::Fourteen
        } else {
            Hex::Fifteen
        }
    }

    /// Whether `byte` is an ASCII hexadecimal digit.
    pub fn is_valid_hex(byte: u8) -> (b: bool)
        ensures
            b == is_hex_byte(byte),
    {
        (byte >= 48 && byte <= 57) || (byte >= 97 && byte <= 102) || (byte >= 65 && byte <= 70)
    }

    /// The value of the digit.
    pub fn value(&self) -> (v: u8)
        ensures
            v == spec_hex_value(*self),
            v < 16,
    {
        match self {
            Hex::Zero => 0,
            Hex::One => 1,
            Hex::Two => 2,
            Hex::Three => 3,
            Hex::Four => 4,
            Hex::Five => 5,
            Hex::Six => 6,
            Hex::Seven => 7,
            Hex::Eight => 8,
            Hex::Nine => 9,
            Hex::Ten => 10,
            Hex::Eleven => 11,
            Hex::Twelve => 12,
            Hex::Thirteen => 13,
            Hex::Fourteen => 14,
            Hex::Fifteen => 15,
        }
    }

    /// The digit for a character: its code point is truncated to a byte, which
    /// must then be an ASCII hexadecimal digit.
    pub fn try_from(value: char) -> (r: Rslt<Hex>)
        ensures
            is_hex_byte(char_byte(value)) ==> r == Ok::<Hex, OsoLoaderError>(
                hex_of_value(hex_value(char_byte(value))),
            ),
            !is_hex_byte(char_byte(value)) ==> r matches Err(OsoLoaderError::Uefi(_)),
    {
        let value = (value as u32 % 256) as u8;
        if Hex::is_valid_hex(value) {
            Ok(Hex::to_hex(value))
        } else {
            Err(OsoLoaderError::Uefi(String::from_str("invalid hex char. 0~f are expected")))
        }
    }
}

/// `sum_i digits[i] * 16^i`.
pub open spec fn digits_le_value(d: Seq<u8>) -> nat
    decreases d.len(),
{
    if d.len() == 0 {
        0
    } else {
        d[0] as nat + 16 * digits_le_value(d.drop_first())
    }
}

/// `16^n`.
pub open spec fn pow16(n: nat) -> nat
    decreases n,
{
    if n == 0 {
        1
    } else {
        16 * pow16((n - 1) as nat)
    }
}

proof fn lemma_pow16_mono(a: nat, b: nat)
    requires
        a <= b,
    ensures
        pow16(a) <= pow16(b),
    decreases b,
{
    if a < b {
        lemma_pow16_mono(a, (b - 1) as nat);
    }
}

/// The sixteen digits `fix_by` builds a GUID from: the hexadecimal digit
/// bytes of `s` in order, missing ones counting as zero.
pub open spec fn fix_by_digits(s: Seq<char>) -> Seq<u8> {
    Seq::new(
        16,
        |k: int|
            if k < hex_digits_of_bytes(encode_utf8(s)).len() {
                hex_digits_of_bytes(encode_utf8(s))[k]
            } else {
                0u8
            },
    )
}

/// For ASCII text the digits read from its characters and from its bytes are
/// the same.
pub proof fn lemma_ascii_digits(s: Seq<char>)
    requires
        vstd::utf8::is_ascii_chars(s),
    ensures
        hex_digits_of_bytes(encode_utf8(s)) == hex_digits_of_chars(s),
    decreases s.len(),
{
    vstd::utf8::is_ascii_chars_encode_utf8(s);
    if s.len() > 0 {
        let t = s.drop_last();
        assert(vstd::utf8::is_ascii_chars(t));
        vstd::utf8::is_ascii_chars_encode_utf8(t);
        lemma_ascii_digits(t);
        let e = encode_utf8(s);
        assert(e.drop_last() =~= encode_utf8(t));
        assert(e.last() == s.last() as u8);
        assert(char_byte(s.last()) == s.last() as u8);
    } else {
        assert(encode_utf8(s).len() == 0);
    }
}

/// For ASCII text with at least 16 and at most 32 hexadecimal digits,
/// `Guid::fix_by` and `Guid::from_str` give the same GUID: what `fix_by`
/// builds is what `from_str` reads, field by field.
pub proof fn lemma_fix_by_agrees_with_from_str(s: Seq<char>, g1: Guid, g2: Guid)
    requires
        vstd::utf8::is_ascii_chars(s),
        16 <= hex_digits_of_chars(s).len() <= 32,
        guid_from_digits(g1, hex_digits_of_chars(s)),
        guid_from_digits(g2, fix_by_digits(s)),
    ensures
        guid_from_digits(g2, hex_digits_of_chars(s)),
        g1 == g2,
        g1.time_low@ == g2.time_low@,
        g1.time_mid@ == g2.time_mid@,
        g1.time_high_and_version@ == g2.time_high_and_version@,
        g1.clock_seq_high_and_reserved == g2.clock_seq_high_and_reserved,
        g1.clock_seq_low == g2.clock_seq_low,
        g1.node@ == g2.node@,
{
    lemma_ascii_digits(s);
    let d = hex_digits_of_chars(s);
    let n = Seq::new(16, |k: int| if k < d.len() { d[k] } else { 0u8 });
    assert(n.subrange(0, 4) =~= d.subrange(0, 4));
    assert(n.subrange(4, 6) =~= d.subrange(4, 6));
    assert(n.subrange(6, 8) =~= d.subrange(6, 8));
    assert(n.subrange(10, 16) =~= d.subrange(10, 16));
    assert(g1.time_low =~= g2.time_low) by {
        assert forall|i: int| 0 <= i < 4 implies g1.time_low[i] == g2.time_low[i] by {
            assert(g1.time_low@[i] == g2.time_low@[i]);
        }
    }
    assert(g1.time_mid =~= g2.time_mid) by {
        assert forall|i: int| 0 <= i < 2 implies g1.time_mid[i] == g2.time_mid[i] by {
            assert(g1.time_mid@[i] == g2.time_mid@[i]);
        }
    }
    assert(g1.time_high_and_version =~= g2.time_high_and_version) by {
        assert forall|i: int| 0 <= i < 2 implies g1.time_high_and_version[i]
            == g2.time_high_and_version[i] by {
            assert(g1.time_high_and_version@[i] == g2.time_high_and_version@[i]);
        }
    }
    assert(g1.node =~= g2.node) by {
        assert forall|i: int| 0 <= i < 6 implies g1.node[i] == g2.node[i] by {
            assert(g1.node@[i] == g2.node@[i]);
        }
    }
}

/// Digit sequences that read as one little-endian number.
pub trait BytesToInt {
    /// The digits fit in a `u128` (at most 32 of them).
    spec fn within_limit(&self) -> bool;

    /// The number the digits stand for, least significant digit first.
    spec fn spec_le_u128(&self) -> nat;

    fn le_u128(&self) -> (v: u128)
        requires
            self.within_limit(),
        ensures
            v as nat == self.spec_le_u128(),
    ;
}

/// The digit values of `h`.
pub open spec fn digit_values(h: Seq<Hex>) -> Seq<u8> {
    h.map_values(|x: Hex| spec_hex_value(x))
}

impl BytesToInt for Vec<Hex> {
    open spec fn within_limit(&self) -> bool {
        self@.len() <= 32
    }

    open spec fn spec_le_u128(&self) -> nat {
        digits_le_value(digit_values(self@))
    }

    fn le_u128(&self) -> (v: u128) {
        let n = self.len();
        let ghost d = digit_values(self@);
        let mut v: u128 = 0;
        let mut k: usize = n;
        proof {
            reveal_with_fuel(pow16, 33);
            assert(pow16(32) == 0x1_0000_0000_0000_0000_0000_0000_0000_0000);
        }
        while k > 0
            invariant
                n == self@.len(),
                n <= 32,
                k <= n,
                d == digit_values(self@),
                v as nat == digits_le_value(d.subrange(k as int, n as int)),
                (v as nat) < pow16((n - k) as nat),
                pow16(32) == 0x1_0000_0000_0000_0000_0000_0000_0000_0000,
            decreases k,
        {
            let ghost old_k = k;
            k = k - 1;
            assert(d.subrange(k as int, n as int).drop_first() =~= d.subrange(old_k as int, n as int));
            assert(pow16((n - k) as nat) == 16 * pow16((n - old_k) as nat));
            proof {
                lemma_pow16_mono((n - k) as nat, 32);
            }
            let digit = self[k].value();
            v = (digit as u128) + 16 * v;
        }
        assert(d.subrange(0, n as int) =~= d);
        v
    }
}

/// Digit sequences that can be turned into their values.
pub trait AsBytes {
    spec fn spec_as_bytes(&self) -> Seq<u8>;

    fn as_bytes(&self) -> (v: Vec<u8>)
        ensures
            v@ == self.spec_as_bytes(),
    ;
}

impl AsBytes for Vec<Hex> {
    open spec fn spec_as_bytes(&self) -> Seq<u8> {
        digit_values(self@)
    }

    fn as_bytes(&self) -> (v: Vec<u8>) {
        let mut v: Vec<u8> = Vec::new();
        let mut i: usize = 0;
        while i < self.len()
            invariant
                i <= self@.len(),
                v@ == digit_values(self@.take(i as int)),
            decreases self@.len() - i,
        {
            v.push(self[i].value());
            assert(v@ =~= digit_values(self@.take(i + 1)));
            i = i + 1;
        }
        assert(self@.take(self@.len() as int) =~= self@);
        v
    }
}

/// Marker of a compile-time condition on digit array sizes.
pub trait BytesCondition {}

impl Guid {
    pub fn new(
        time_low: [u8; 4],
        time_mid: [u8; 2],
        time_high_and_version: [u8; 2],
        clock_seq_high_and_reserved: u8,
        clock_seq_low: u8,
        node: [u8; 6],
    ) -> (g: Guid)
        ensures
            g == (Guid {
                time_low,
                time_mid,
                time_high_and_version,
                clock_seq_high_and_reserved,
                clock_seq_low,
                node,
            }),
    {
        Guid {
            time_low,
            time_mid,
            time_high_and_version,
            clock_seq_high_and_reserved,
            clock_seq_low,
            node,
        }
    }

    fn from_digits(n: &Vec<u8>) -> (g: Guid)
        requires
            n@.len() >= 16,
        ensures
            guid_from_digits(g, n@),
    {
        let g = Guid::new(
            [n[0], n[1], n[2], n[3]],
            [n[4], n[5]],
            [n[6], n[7]],
            n[8],
            n[9],
            [n[10], n[11], n[12], n[13], n[14], n[15]],
        );
        assert(g.time_low@ =~= n@.subrange(0, 4));
        assert(g.time_mid@ =~= n@.subrange(4, 6));
        assert(g.time_high_and_version@ =~= n@.subrange(6, 8));
        assert(g.node@ =~= n@.subrange(10, 16));
        g
    }

    /// Reads a GUID from text: every character whose low byte is a hexadecimal
    /// digit contributes a digit, others are skipped, and the first sixteen
    /// digits fill the GUID. The text must hold at least sixteen digits.
    pub fn from_str(s: &str) -> (r: Rslt<Guid>)
        requires
            hex_digits_of_chars(s@).len() >= 16,
        ensures
            r matches Ok(g) && guid_from_digits(g, hex_digits_of_chars(s@)),
    {
        let chars = chars_of(s);
        let mut digits: Vec<u8> = Vec::new();
        let mut i: usize = 0;
        while i < chars.len()
            invariant
                i <= chars@.len(),
                chars@ == s@,
                digits@ == hex_digits_of_chars(chars@.take(i as int)),
            decreases chars@.len() - i,
        {
            assert(chars@.take(i + 1).drop_last() =~= chars@.take(i as int));
            match Hex::try_from(chars[i]) {
                Ok(h) => {
                    digits.push(h.value());
                },
                Err(_) => {},
            }
            i = i + 1;
        }
        assert(chars@.take(chars@.len() as int) =~= chars@);
        Ok(Guid::from_digits(&digits))
    }

    /// Builds a GUID from the bytes of `s`: every ASCII hexadecimal digit byte
    /// contributes a digit, at most 32 may occur, and the first sixteen fill the
    /// GUID, missing ones counting as zero.
    pub fn fix_by(s: &str) -> (g: Guid)
        requires
            hex_digits_of_bytes(encode_utf8(s@)).len() <= 32,
        ensures
            guid_from_digits(g, fix_by_digits(s@)),
    {
        let bytes = s.as_bytes();
        let mut digits: Vec<u8> = Vec::new();
        let mut i: usize = 0;
        while i < bytes.len()
            invariant
                i <= bytes@.len(),
                bytes@ == encode_utf8(s@),
                digits@ == hex_digits_of_bytes(bytes@.take(i as int)),
            decreases bytes@.len() - i,
        {
            assert(bytes@.take(i + 1).drop_last() =~= bytes@.take(i as int));
            if Hex::is_valid_hex(bytes[i]) {
                digits.push(Hex::to_hex(bytes[i]).value());
            }
            i = i + 1;
        }
        assert(bytes@.take(bytes@.len() as int) =~= bytes@);
        let ghost found = digits@;
        while digits.len() < 16
            invariant
                digits@.len() <= 32,
                found.len() <= 32,
                digits@.len() >= found.len(),
                forall|k: int| 0 <= k < digits@.len() ==> digits@[k] == (if k < found.len() {
                    found[k]
                } else {
                    0u8
                }),
            decreases 16 - digits@.len(),
        {
            digits.push(0);
        }
        let g = Guid::from_digits(&digits);
        let ghost target = Seq::new(
            16,
            |k: int| if k < found.len() { found[k] } else { 0u8 },
        );
        assert(digits@.subrange(0, 4) =~= target.subrange(0, 4));
        assert(digits@.subrange(4, 6) =~= target.subrange(4, 6));
        assert(digits@.subrange(6, 8) =~= target.subrange(6, 8));
        assert(digits@[8] == target[8]);
        assert(digits@[9] == target[9]);
        assert(digits@.subrange(10, 16) =~= target.subrange(10, 16));
        g
    }
}

} // verus!
