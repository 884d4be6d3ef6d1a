//! String tables: runs of delimiter-terminated strings inside the image.

use vstd::prelude::*;
use vstd::slice::{slice_subrange, slice_to_vec};
use vstd::utf8::{decode_utf8, encode_utf8, valid_utf8};
use crate::error::{OsoLoaderError, Rslt};
use crate::text::message_with_number;

verus! {

/// What `String::from_utf8_lossy` makes of `bytes`.
pub uninterp spec fn lossy_utf8(bytes: Seq<u8>) -> Seq<char>;

/// `String::from_utf8_lossy(bytes).into_owned()`. The result is named
/// `lossy_utf8`; the contract adds what std documents plainly: valid UTF-8 is
/// decoded unchanged, and a `String` never holds more than `isize::MAX` bytes.
/// Which replacement characters stand for invalid input is left unsaid.
#[verifier::external_body]
fn utf8_lossy(bytes: &[u8]) -> (s: String)
    ensures
        s@ == lossy_utf8(bytes@),
        valid_utf8(bytes@) ==> s@ == decode_utf8(bytes@),
        encode_utf8(s@).len() <= isize::MAX,
{
    String::from_utf8_lossy(bytes).into_owned()
}

/// Index of the first `d` in `s`.
pub open spec fn index_of_byte(s: Seq<u8>, d: u8) -> Option<int>
    decreases s.len(),
{
    if s.len() == 0 {
        None
    } else if s[0] == d {
        Some(0)
    } else {
        match index_of_byte(s.drop_first(), d) {
            Some(k) => Some(k + 1),
            None => None,
        }
    }
}

pub proof fn lemma_index_of_byte(s: Seq<u8>, d: u8, i: int)
    requires
        0 <= i <= s.len(),
        forall|j: int| 0 <= j < i ==> s[j] != d,
    ensures
        i < s.len() && s[i] == d ==> index_of_byte(s, d) == Some(i),
        i == s.len() ==> index_of_byte(s, d) is None,
    decreases i,
{
    if i > 0 {
        lemma_index_of_byte(s.drop_first(), d, i - 1);
    } else if s.len() > 0 {
    }
}

/// How a string is delimited in the bytes it is read from.
#[derive(PartialEq, Eq, Structural, Clone, Copy, Debug)]
pub enum StringContext {
    /// Up to (not including) the first occurrence of the byte.
    Delimiter(u8),
    /// Up to the byte, or at most the given length (not supported by `read_bytes`).
    DelimiterUntil(u8, usize),
    /// Exactly the given number of bytes.
    Length(usize),
}

/// The raw bytes a string is read from, or `None` where no delimiter follows.
pub open spec fn spec_read_raw(ctx: StringContext, bytes: Seq<u8>) -> Option<Seq<u8>> {
    match ctx {
        StringContext::Delimiter(d) => match index_of_byte(bytes, d) {
            Some(k) => Some(bytes.subrange(0, k)),
            None => None,
        },
        StringContext::Length(l) => Some(bytes.subrange(0, l as int)),
        StringContext::DelimiterUntil(_, _) => None,
    }
}

/// `read_bytes` is defined on `bytes`: delimiter searches need a byte to look at,
/// fixed lengths must fit, and the bounded delimiter form is not supported.
pub open spec fn read_bytes_defined(ctx: StringContext, bytes: Seq<u8>) -> bool {
    match ctx {
        StringContext::Delimiter(_) => bytes.len() > 0,
        StringContext::Length(l) => l <= bytes.len(),
        StringContext::DelimiterUntil(_, _) => false,
    }
}

impl StringContext {
    /// A null delimiter.
    pub fn default() -> (c: StringContext)
        ensures
            c == StringContext::Delimiter(0),
    {
        StringContext::Delimiter(0)
    }

    /// Reads one string from the start of `bytes`.
    pub fn read_bytes(&self, bytes: &[u8]) -> (r: Rslt<String>)
        requires
            read_bytes_defined(*self, bytes@),
        ensures
            spec_read_raw(*self, bytes@) matches Some(raw) ==> (r matches Ok(s) && s@ == lossy_utf8(
                raw,
            )),
            spec_read_raw(*self, bytes@) is None ==> r matches Err(OsoLoaderError::EfiParse(_)),
            spec_read_raw(*self, bytes@) matches Some(raw) ==> (valid_utf8(raw) ==> (r matches Ok(s)
                && s@ == decode_utf8(raw))),
            r matches Ok(s) ==> byte_len(s@) <= isize::MAX,
    {
        match self {
            StringContext::Delimiter(delimiter) => {
                let d = *delimiter;
                let mut i: usize = 0;
                while bytes[i] != d
                    invariant
                        *self == StringContext::Delimiter(d),
                        i < bytes@.len(),
                        forall|j: int| 0 <= j < i ==> bytes@[j] != d,
                    decreases bytes@.len() - i,
                {
                    i = i + 1;
                    if i >= bytes.len() {
                        proof {
                            assert forall|j: int| 0 <= j < i implies bytes@[j] != d by {}
                            lemma_index_of_byte(bytes@, d, i as int);
                        }
                        return Err(
                            OsoLoaderError::EfiParse(
                                message_with_number("delimiter not found: ", d as u64),
                            ),
                        );
                    }
                }
                proof {
                    lemma_index_of_byte(bytes@, d, i as int);
                }
                Ok(utf8_lossy(slice_subrange(bytes, 0, i)))
            },
            StringContext::DelimiterUntil(_, _) => {
                Err(OsoLoaderError::EfiParse(message_with_number("unsupported context: ", 0)))
            },
            StringContext::Length(l) => Ok(utf8_lossy(slice_subrange(bytes, 0, *l))),
        }
    }
}

/// A string table: its raw bytes and the strings found in them, each with its
/// offset inside the table.
pub struct StringTable {
    pub delimitor: StringContext,
    pub bytes: Vec<u8>,
    pub strings: Vec<(usize, String)>,
}

/// Number of bytes of the UTF-8 encoding of `s` (what `String::len` reports).
pub open spec fn byte_len(s: Seq<char>) -> nat {
    encode_utf8(s).len()
}

/// The strings of table `t` from offset `i` on: each string runs up to the next
/// `d`, and the next one starts one byte past the end of its (decoded) text.
/// `None` where some string has no terminating `d`.
pub open spec fn spec_table_strings(t: Seq<u8>, d: u8, i: int) -> Option<Seq<(usize, Seq<char>)>>
    decreases (if 0 <= i < t.len() { t.len() - i } else { 0 }),
{
    if i < 0 || i >= t.len() {
        Some(seq![])
    } else {
        let rest = t.subrange(i, t.len() as int);
        match index_of_byte(rest, d) {
            None => None,
            Some(k) => {
                let s = lossy_utf8(rest.subrange(0, k));
                match spec_table_strings(t, d, i + byte_len(s) + 1) {
                    Some(tail) => Some(seq![(i as usize, s)] + tail),
                    None => None,
                }
            },
        }
    }
}

/// The raw bytes of the string at offset `off` of table `t`: up to the next `d`.
pub open spec fn raw_string(t: Seq<u8>, d: u8, off: int) -> Seq<u8> {
    let rest = t.subrange(off, t.len() as int);
    rest.subrange(0, index_of_byte(rest, d)->Some_0)
}

/// Each string of `strs` that is valid UTF-8 in table `t` reads unchanged.
pub open spec fn valid_strings_unchanged(strs: Seq<(usize, String)>, t: Seq<u8>, d: u8) -> bool {
    forall|j: int|
        0 <= j < strs.len() && valid_utf8(raw_string(t, d, (#[trigger] strs[j]).0 as int))
            ==> strs[j].1@ == decode_utf8(raw_string(t, d, strs[j].0 as int))
}

/// The strings of a table as (offset, characters) pairs.
pub open spec fn strings_view(v: Seq<(usize, String)>) -> Seq<(usize, Seq<char>)> {
    v.map_values(|p: (usize, String)| (p.0, p.1@))
}

/// The region `[offset, offset + len)` lies within a buffer of `n` bytes.
pub open spec fn region_fits(offset: int, len: int, n: int) -> bool {
    offset + len <= usize::MAX && offset + len <= n
}

/// Whether `t` holds the string table made of the `len` bytes at `offset` of
/// `b`: those bytes, and the null-terminated strings they split into. An empty
/// region stands for the empty table.
pub open spec fn table_holds(t: StringTable, b: Seq<u8>, offset: int, len: int) -> bool {
    let region = b.subrange(offset, offset + len);
    &&& t.delimitor == StringContext::Delimiter(0)
    &&& t.bytes@ == region
    &&& strings_view(t.strings@) == spec_table_strings(region, 0, 0)->Some_0
}

/// The `len` bytes at `offset` of `b` lie within `b` and split into strings
/// each ended by `delimiter`.
pub open spec fn table_parses(b: Seq<u8>, offset: int, len: int, delimiter: u8) -> bool {
    &&& region_fits(offset, len, b.len() as int)
    &&& spec_table_strings(b.subrange(offset, offset + len), delimiter, 0) is Some
}

impl StringTable {
    /// An empty table with a null delimiter.
    pub fn default() -> (t: StringTable)
        ensures
            t.delimitor == StringContext::Delimiter(0),
            t.bytes@.len() == 0,
            t.strings@.len() == 0,
    {
        StringTable { delimitor: StringContext::default(), bytes: Vec::new(), strings: Vec::new() }
    }

    /// A table over `bytes` with no strings read yet.
    pub fn from_slice(bytes: &[u8], delimiter: u8) -> (t: StringTable)
        ensures
            t.delimitor == StringContext::Delimiter(delimiter),
            t.bytes@ == bytes@,
            t.strings@.len() == 0,
    {
        StringTable {
            delimitor: StringContext::Delimiter(delimiter),
            bytes: slice_to_vec(bytes),
            strings: Vec::new(),
        }
    }

    /// Reads the string table of `len` bytes at `offset` in `binary` (the whole
    /// file), splitting it into strings ended by `delimiter`. Fails when the
    /// region lies outside `binary` or when a string has no terminating delimiter.
    pub fn parse(binary: &Vec<u8>, offset: usize, len: usize, delimiter: u8) -> (r: Rslt<
        StringTable,
    >)
        requires
            binary@.len() <= isize::MAX,
        ensures
            !region_fits(offset as int, len as int, binary@.len() as int) ==> r matches Err(
                OsoLoaderError::EfiParse(_),
            ),
            region_fits(offset as int, len as int, binary@.len() as int) ==> {
                let t = binary@.subrange(offset as int, offset + len);
                match spec_table_strings(t, delimiter, 0) {
                    Some(strs) => r matches Ok(tbl) && tbl.bytes@ == t && tbl.delimitor
                        == StringContext::Delimiter(delimiter) && strings_view(tbl.strings@)
                        == strs && valid_strings_unchanged(tbl.strings@, t, delimiter),
                    None => r matches Err(OsoLoaderError::EfiParse(_)),
                }
            },
    {
        let fits = match offset.checked_add(len) {
            Some(end) => end <= binary.len(),
            None => false,
        };
        if !fits {
            return Err(
                OsoLoaderError::EfiParse(
                    message_with_number(
                        "string table is out of bounds for the file; its size is ",
                        len as u64,
                    ),
                ),
            );
        }
        let region = slice_subrange(binary.as_slice(), offset, offset + len);
        let mut rslt = StringTable::from_slice(region, delimiter);
        let ghost t = region@;
        let mut i: usize = 0;
        while i < rslt.bytes.len()
            invariant
                region_fits(offset as int, len as int, binary@.len() as int),
                t == binary@.subrange(offset as int, offset + len),
                rslt.bytes@ == t,
                t.len() <= isize::MAX,
                rslt.delimitor == StringContext::Delimiter(delimiter),
                valid_strings_unchanged(rslt.strings@, t, delimiter),
                spec_table_strings(t, delimiter, 0) == (match spec_table_strings(t, delimiter, i as int) {
                    Some(tail) => Some(strings_view(rslt.strings@) + tail),
                    None => None::<Seq<(usize, Seq<char>)>>,
                }),
            decreases (if i < t.len() { t.len() - i } else { 0 }),
        {
            let tail = slice_subrange(rslt.bytes.as_slice(), i, rslt.bytes.len());
            let ghost rest = t.subrange(i as int, t.len() as int);
            assert(tail@ == rest);
            let s = match rslt.delimitor.read_bytes(tail) {
                Ok(s) => s,
                Err(e) => {
                    assert(spec_table_strings(t, delimiter, i as int) is None);
                    return Err(e);
                },
            };
            let s_len = s.as_str().len();
            assert(s_len == byte_len(s@));
            assert(i + s_len + 1 <= usize::MAX);
            let ghost before = strings_view(rslt.strings@);
            assert(spec_read_raw(StringContext::Delimiter(delimiter), rest) == Some(raw_string(t, delimiter, i as int)));
            rslt.strings.push((i, s));
            assert(strings_view(rslt.strings@) =~= before + seq![(i, s@)]);
            i = i + s_len + 1;
        }
        proof {
            assert(strings_view(rslt.strings@) + seq![] =~= strings_view(rslt.strings@));
        }
        Ok(rslt)
    }
}

} // verus!
