//! Bitmap fonts written as text: `.` is an empty pixel and `@` a filled one.
//! A font file holds 256 glyphs of 16 lines each; every glyph is packed into
//! one `u128`: pixel `k` of a line is bit `k` of the line's number, and line
//! `i` is placed at bit `8 * i` (line 0 in the lowest byte, line 15 in the
//! highest).

use vstd::prelude::*;
use vstd::slice::slice_subrange;
use vstd::utf8::encode_utf8;
use crate::strs::{views, split_char, split_chars, lemma_split_char_len, contains, contains_chars};
use crate::text::{chars_of, string_of};

verus! {

/// Number of glyphs in a font.
pub const CHARACTER_COUNT: usize = 256;

/// Number of text lines of one glyph in a font file.
pub const GLYPH_LINES: usize = 16;

/// `2` to the power `n`.
pub open spec fn two_pow(n: nat) -> nat
    decreases n,
{
    if n == 0 {
        1
    } else {
        2 * two_pow((n - 1) as nat)
    }
}

/// The bit of one pixel character: `@` (or the digit `1`) is set, `.` (or the
/// digit `0`) is clear.
pub open spec fn pixel(c: char) -> nat {
    if c == '@' || c == '1' {
        1
    } else {
        0
    }
}

/// A character that a line of pixels may hold.
pub open spec fn is_pixel_char(c: char) -> bool {
    c == '.' || c == '@' || c == '0' || c == '1'
}

/// The bits of a line of pixels: pixel `k` is bit `k`.
pub open spec fn line_bits(l: Seq<char>) -> nat
    decreases l.len(),
{
    if l.len() == 0 {
        0
    } else {
        pixel(l[0]) + 2 * line_bits(l.drop_first())
    }
}

/// The pixels of a line: a final `+` (which reads as the sign of the reversed
/// binary number) is not one of them.
pub open spec fn line_digits(l: Seq<char>) -> Seq<char> {
    if l.len() >= 2 && l.last() == '+' {
        l.drop_last()
    } else {
        l
    }
}

/// The number a line of pixels stands for.
pub open spec fn line_number(l: Seq<char>) -> nat {
    line_bits(line_digits(l))
}

/// A line holds pixels only, at least one, and their number fits in 128 bits.
pub open spec fn is_pixel_line(l: Seq<char>) -> bool {
    let d = line_digits(l);
    &&& d.len() >= 1
    &&& forall|k: int| 0 <= k < d.len() ==> is_pixel_char(#[trigger] d[k])
    &&& line_bits(d) < two_pow(128)
}

/// The lines of a glyph text (pieces between line feeds).
pub open spec fn glyph_lines(s: Seq<char>) -> Seq<Seq<char>> {
    split_char(s, '\n')
}

/// Line `i` of a glyph placed at bit `8 * i` of a `u128`; bits shifted past
/// the top are lost.
pub open spec fn placed_line(l: Seq<char>, i: nat) -> nat {
    (line_number(l) * two_pow(8 * i)) % two_pow(128)
}

/// The sum of the lines placed in turn: line 0 in the lowest byte, line 15 in
/// the highest.
pub open spec fn glyph_sum(ls: Seq<Seq<char>>) -> nat
    decreases ls.len(),
{
    if ls.len() == 0 {
        0
    } else {
        glyph_sum(ls.drop_last()) + placed_line(ls.last(), (ls.len() - 1) as nat)
    }
}

/// The packed value of a glyph text.
pub open spec fn glyph_value(s: Seq<char>) -> nat {
    glyph_sum(glyph_lines(s))
}

/// A glyph of one line (no line feed) packs to the number of that line: pixel
/// `k` is bit `k`.
pub proof fn lemma_single_line_glyph(s: Seq<char>)
    requires
        forall|k: int| 0 <= k < s.len() ==> s[k] != '\n',
        line_number(s) < two_pow(128),
    ensures
        glyph_value(s) == line_number(s),
{
    crate::strs::lemma_split_without_sep(s, '\n');
    let ls = glyph_lines(s);
    assert(ls.drop_last() =~= Seq::<Seq<char>>::empty());
    assert(glyph_sum(ls.drop_last()) == 0);
    assert(ls.last() == s);
    assert(two_pow(0) == 1);
    assert(8 * 0nat == 0);
    vstd::arithmetic::div_mod::lemma_small_mod(line_number(s), two_pow(128));
    assert(glyph_sum(ls) == glyph_sum(ls.drop_last()) + placed_line(s, 0));
}

/// A glyph text can be packed: at most 16 lines (line 15 is placed at bit
/// 120), each of pixels only, and the placed lines add up within 128 bits.
pub open spec fn glyph_convertible(s: Seq<char>) -> bool {
    let ls = glyph_lines(s);
    &&& ls.len() <= 16
    &&& forall|i: int| 0 <= i < ls.len() ==> is_pixel_line(#[trigger] ls[i])
    &&& glyph_value(s) < two_pow(128)
}

proof fn lemma_two_pow_add(a: nat, b: nat)
    ensures
        two_pow(a + b) == two_pow(a) * two_pow(b),
    decreases a,
{
    if a > 0 {
        lemma_two_pow_add((a - 1) as nat, b);
        assert(two_pow(a + b) == 2 * two_pow((a - 1 + b) as nat));
        assert(2 * (two_pow((a - 1) as nat) * two_pow(b)) == (2 * two_pow((a - 1) as nat))
            * two_pow(b)) by (nonlinear_arith);
        assert(two_pow(a) == 2 * two_pow((a - 1) as nat));
    } else {
        assert(two_pow(0) == 1);
        assert(a + b == b);
    }
}

proof fn lemma_two_pow_128()
    ensures
        two_pow(128) == 0x1_0000_0000_0000_0000_0000_0000_0000_0000,
{
    reveal_with_fuel(two_pow, 17);
    assert(two_pow(16) == 0x1_0000);
    lemma_two_pow_add(16, 16);
    assert(two_pow(32) == 0x1_0000_0000);
    lemma_two_pow_add(32, 32);
    assert(two_pow(64) == 0x1_0000_0000_0000_0000);
    lemma_two_pow_add(64, 64);
}

proof fn lemma_line_bits_suffix(l: Seq<char>, k: int)
    requires
        0 < k <= l.len(),
    ensures
        line_bits(l.subrange(k - 1, l.len() as int)) == pixel(l[k - 1]) + 2 * line_bits(
            l.subrange(k, l.len() as int),
        ),
{
    assert(l.subrange(k - 1, l.len() as int).drop_first() =~= l.subrange(k, l.len() as int));
}

proof fn lemma_line_bits_grows(l: Seq<char>, k: int)
    requires
        0 <= k <= l.len(),
    ensures
        line_bits(l.subrange(k, l.len() as int)) <= line_bits(l),
    decreases k,
{
    if k > 0 {
        lemma_line_bits_suffix(l, k);
        lemma_line_bits_grows(l, k - 1);
    } else {
        assert(l.subrange(0, l.len() as int) =~= l);
    }
}

proof fn lemma_glyph_sum_prefix(ls: Seq<Seq<char>>, j: int)
    requires
        0 <= j <= ls.len(),
    ensures
        glyph_sum(ls.take(j)) <= glyph_sum(ls),
    decreases ls.len() - j,
{
    if j < ls.len() {
        assert(ls.take(j + 1).drop_last() =~= ls.take(j));
        lemma_glyph_sum_prefix(ls, j + 1);
    } else {
        assert(ls.take(j) =~= ls);
    }
}

/// The bits of a run of pixels.
fn bits_of(l: &[char]) -> (v: u128)
    requires
        line_bits(l@) < two_pow(128),
    ensures
        v == line_bits(l@),
{
    proof {
        lemma_two_pow_128();
    }
    let n = l.len();
    let mut v: u128 = 0;
    let mut k: usize = n;
    assert(l@.subrange(n as int, n as int) =~= Seq::<char>::empty());
    while k > 0
        invariant
            k <= n,
            n == l@.len(),
            v == line_bits(l@.subrange(k as int, n as int)),
            line_bits(l@) < two_pow(128),
            two_pow(128) == 0x1_0000_0000_0000_0000_0000_0000_0000_0000,
        decreases k,
    {
        proof {
            lemma_line_bits_suffix(l@, k as int);
            lemma_line_bits_grows(l@, k - 1);
        }
        let p: u128 = if l[k - 1] == '@' || l[k - 1] == '1' {
            1
        } else {
            0
        };
        v = 2 * v + p;
        k = k - 1;
    }
    assert(l@.subrange(0, n as int) =~= l@);
    v
}

/// The number one line of pixels stands for.
fn line_value(l: &Vec<char>) -> (v: u128)
    requires
        is_pixel_line(l@),
    ensures
        v == line_number(l@),
{
    let n = l.len();
    if n >= 2 && l[n - 1] == '+' {
        let d = slice_subrange(l.as_slice(), 0, n - 1);
        assert(d@ =~= l@.drop_last());
        bits_of(d)
    } else {
        bits_of(l.as_slice())
    }
}

/// `v` placed `8 * i` bits up, the bits past the top dropped.
fn place(v: u128, i: usize) -> (t: u128)
    requires
        i < 16,
    ensures
        t as int == (v * two_pow(8 * i as nat)) % (two_pow(128) as int),
{
    proof {
        lemma_two_pow_128();
    }
    let ghost m: int = two_pow(128) as int;
    let mut t: u128 = v;
    let mut j: usize = 0;
    assert(two_pow(0) == 1);
    proof {
        vstd::arithmetic::div_mod::lemma_small_mod(v as nat, two_pow(128));
    }
    while j < 8 * i
        invariant
            j <= 8 * i,
            i < 16,
            m == two_pow(128),
            two_pow(128) == 0x1_0000_0000_0000_0000_0000_0000_0000_0000,
            t as int == (v * two_pow(j as nat)) % m,
        decreases 8 * i - j,
    {
        let ghost a: int = v * two_pow(j as nat);
        let ghost old_t: int = t as int;
        assert(two_pow(j as nat + 1) == 2 * two_pow(j as nat));
        assert(v * two_pow(j as nat + 1) == 2 * a) by (nonlinear_arith)
            requires
                two_pow(j as nat + 1) == 2 * two_pow(j as nat),
                a == v * two_pow(j as nat),
        {
        }
        proof {
            vstd::arithmetic::div_mod::lemma_mul_mod_noop_right(2, a, m);
        }
        if t >= 0x8000_0000_0000_0000_0000_0000_0000_0000 {
            t = (t - 0x8000_0000_0000_0000_0000_0000_0000_0000) * 2;
            assert(t as int == (2 * old_t) % m) by {
                vstd::arithmetic::div_mod::lemma_fundamental_div_mod_converse(
                    2 * old_t,
                    m,
                    1,
                    t as int,
                );
            }
        } else {
            t = t * 2;
            proof {
                vstd::arithmetic::div_mod::lemma_small_mod((2 * old_t) as nat, m as nat);
            }
        }
        j = j + 1;
    }
    t
}

/// The packed value of one glyph text.
pub fn convert_glyph(s: &[char]) -> (v: u128)
    requires
        glyph_convertible(s@),
    ensures
        v == glyph_value(s@),
{
    proof {
        lemma_two_pow_128();
    }
    let ls = split_chars(s, '\n');
    let ghost lv = views(ls@);
    let mut sum: u128 = 0;
    let mut i: usize = 0;
    while i < ls.len()
        invariant
            i <= ls@.len(),
            lv == views(ls@),
            lv == glyph_lines(s@),
            glyph_convertible(s@),
            sum == glyph_sum(lv.take(i as int)),
            two_pow(128) == 0x1_0000_0000_0000_0000_0000_0000_0000_0000,
        decreases ls@.len() - i,
    {
        assert(lv.take(i + 1).drop_last() =~= lv.take(i as int));
        assert(lv.take(i + 1).last() == lv[i as int]);
        proof {
            lemma_glyph_sum_prefix(lv, i + 1);
        }
        assert(ls[i as int]@ == lv[i as int]);
        assert(is_pixel_line(lv[i as int]));
        let line = line_value(&ls[i]);
        let t = place(line, i);
        assert(t == placed_line(lv[i as int], i as nat));
        sum = sum + t;
        i = i + 1;
    }
    assert(lv.take(ls@.len() as int) =~= lv);
    sum
}

/// Packs every glyph text of `fonts` into a `u128`.
pub fn convert_bitfield(fonts: &Vec<String>) -> (r: Vec<u128>)
    requires
        forall|k: int| 0 <= k < fonts@.len() ==> glyph_convertible(#[trigger] fonts@[k]@),
    ensures
        r@.len() == fonts@.len(),
        forall|k: int| 0 <= k < r@.len() ==> #[trigger] r@[k] == glyph_value(fonts@[k]@),
{
    let mut r: Vec<u128> = Vec::new();
    let mut k: usize = 0;
    while k < fonts.len()
        invariant
            k <= fonts@.len(),
            forall|j: int| 0 <= j < fonts@.len() ==> glyph_convertible(#[trigger] fonts@[j]@),
            r@.len() == k,
            forall|j: int| 0 <= j < k ==> #[trigger] r@[j] == glyph_value(fonts@[j]@),
        decreases fonts@.len() - k,
    {
        let chars = chars_of(fonts[k].as_str());
        assert(glyph_convertible(fonts@[k as int]@));
        r.push(convert_glyph(chars.as_slice()));
        k = k + 1;
    }
    r
}

/// A line of a font file that carries pixels: not empty, and no `0x` in it
/// (lines naming a character code are skipped).
pub open spec fn is_glyph_row(l: Seq<char>) -> bool {
    l.len() > 0 && !contains(l, "0x"@)
}

/// The lines of `p` that carry pixels, in order.
pub open spec fn glyph_rows(p: Seq<Seq<char>>) -> Seq<Seq<char>>
    decreases p.len(),
{
    if p.len() == 0 {
        seq![]
    } else if is_glyph_row(p.last()) {
        glyph_rows(p.drop_last()).push(p.last())
    } else {
        glyph_rows(p.drop_last())
    }
}

/// The pixel lines of a font file.
pub open spec fn font_rows(data: Seq<char>) -> Seq<Seq<char>> {
    glyph_rows(split_char(data, '\n'))
}

/// The concatenation of `ls`.
pub open spec fn concat(ls: Seq<Seq<char>>) -> Seq<char>
    decreases ls.len(),
{
    if ls.len() == 0 {
        seq![]
    } else {
        concat(ls.drop_last()) + ls.last()
    }
}

/// Glyph `k` of a font file: its 16 pixel lines joined.
pub open spec fn glyph_text(data: Seq<char>, k: int) -> Seq<char> {
    concat(font_rows(data).subrange(16 * k, 16 * k + 16))
}

/// A font file holds 256 glyphs of 16 pixel lines, each glyph 128 bytes long.
pub open spec fn font_file_valid(data: Seq<char>) -> bool {
    &&& font_rows(data).len() >= 4096
    &&& forall|k: int| 0 <= k < 256 ==> #[trigger] encode_utf8(glyph_text(data, k)).len() == 128
}

/// Reads the glyph texts of a font file: pixel lines (not empty, no `0x`) are
/// taken in order, and every 16 of them form one glyph.
pub fn font_glyphs(data: &str) -> (r: Vec<String>)
    requires
        font_file_valid(data@),
    ensures
        r@.len() == 256,
        forall|k: int| 0 <= k < 256 ==> #[trigger] r@[k]@ == glyph_text(data@, k),
{
    let chars = chars_of(data);
    let pieces = split_chars(chars.as_slice(), '\n');
    let ghost pv = views(pieces@);
    let zx = chars_of("0x");
    let mut rows: Vec<Vec<char>> = Vec::new();
    let mut i: usize = 0;
    while i < pieces.len()
        invariant
            i <= pieces@.len(),
            pv == views(pieces@),
            zx@ == "0x"@,
            views(rows@) == glyph_rows(pv.take(i as int)),
        decreases pieces@.len() - i,
    {
        assert(pv.take(i + 1).drop_last() =~= pv.take(i as int));
        assert(pv.take(i + 1).last() == pv[i as int]);
        assert(pieces[i as int]@ == pv[i as int]);
        if pieces[i].len() > 0 && !contains_chars(pieces[i].as_slice(), zx.as_slice()) {
            let c = crate::strs::copy_range(pieces[i].as_slice(), 0, pieces[i].len());
            assert(c@ =~= pv[i as int]);
            let ghost before = views(rows@);
            rows.push(c);
            assert(views(rows@) =~= before.push(pv[i as int]));
        }
        i = i + 1;
    }
    assert(pv.take(pieces@.len() as int) =~= pv);
    let ghost fr = views(rows@);
    assert(fr == font_rows(data@));
    let mut r: Vec<String> = Vec::new();
    let mut k: usize = 0;
    while k < CHARACTER_COUNT
        invariant
            k <= 256,
            fr == views(rows@),
            fr == font_rows(data@),
            fr.len() >= 4096,
            r@.len() == k,
            forall|j: int| 0 <= j < k ==> #[trigger] r@[j]@ == glyph_text(data@, j),
        decreases 256 - k,
    {
        let mut g: Vec<char> = Vec::new();
        let mut j: usize = 0;
        while j < GLYPH_LINES
            invariant
                j <= 16,
                k < 256,
                fr == views(rows@),
                fr.len() >= 4096,
                g@ == concat(fr.subrange(16 * k, 16 * k + j)),
            decreases 16 - j,
        {
            let idx = 16 * k + j;
            assert(fr.subrange(16 * k, 16 * k + j + 1).drop_last() =~= fr.subrange(
                16 * k,
                16 * k + j,
            ));
            assert(rows[idx as int]@ == fr[idx as int]);
            let mut line = crate::strs::copy_range(rows[idx].as_slice(), 0, rows[idx].len());
            assert(line@ =~= fr[idx as int]);
            let ghost before = g@;
            g.append(&mut line);
            assert(g@ =~= before + fr[idx as int]);
            j = j + 1;
        }
        r.push(string_of(g.as_slice()));
        k = k + 1;
    }
    r
}

} // verus!
