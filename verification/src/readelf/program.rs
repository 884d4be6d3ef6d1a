//! The program headers as `readelf -l` reports them.

use vstd::prelude::*;
use crate::readelf::numbers::{
    IntErrorKind, from_str_radix, hex_digits_part, hex_value, prefix_cuttable, parse_str_hex_repr,
    parse_usize,
};
use crate::strs::{
    views, split_char, split_chars, lemma_split_char_len, lines, lines_of, fields, fields_of,
    contains, contains_chars, split_pat, split_pattern,
};
use crate::text::{chars_of, string_of};

verus! {

/// One program header of the report.
#[derive(Debug)]
pub struct ReadElfL {
    /// Segment type (e.g., "LOAD", "INTERP", "DYNAMIC")
    pub ty: String,
    /// File offset where the segment begins
    pub offset: u64,
    /// Virtual address where the segment should be loaded
    pub virtual_address: u64,
    /// Physical address where the segment should be loaded
    pub physical_address: u64,
    /// Size of the segment in the file
    pub file_size: u64,
    /// Size of the segment in memory
    pub memory_size: u64,
    /// Segment flags (read 4, write 2, execute 1)
    pub flags: u32,
    /// Required alignment of the segment
    pub align: u64,
}

/// A program header of the report, with its type as characters.
pub struct SegmentText {
    pub ty: Seq<char>,
    pub offset: u64,
    pub virtual_address: u64,
    pub physical_address: u64,
    pub file_size: u64,
    pub memory_size: u64,
    pub flags: u32,
    pub align: u64,
}

impl View for ReadElfL {
    type V = SegmentText;

    open spec fn view(&self) -> SegmentText {
        SegmentText {
            ty: self.ty@,
            offset: self.offset,
            virtual_address: self.virtual_address,
            physical_address: self.physical_address,
            file_size: self.file_size,
            memory_size: self.memory_size,
            flags: self.flags,
            align: self.align,
        }
    }
}

impl Default for ReadElfL {
    fn default() -> (h: ReadElfL)
        ensures
            h@ == (SegmentText {
                ty: seq![],
                offset: 0,
                virtual_address: 0,
                physical_address: 0,
                file_size: 0,
                memory_size: 0,
                flags: 0,
                align: 0,
            }),
    {
        ReadElfL {
            ty: String::new(),
            offset: 0,
            virtual_address: 0,
            physical_address: 0,
            file_size: 0,
            memory_size: 0,
            flags: 0,
            align: 0,
        }
    }
}

/// Why a program header report could not be read.
#[derive(PartialEq, Eq, Structural, Clone, Copy, Debug)]
pub enum ReadElfLError {
    /// A number of the report is malformed.
    Int(IntErrorKind),
    /// A program header row has this many fields, where 8 or 9 are expected.
    FieldCount(usize),
}

/// The views of a vector of strings.
pub open spec fn string_views(v: Seq<String>) -> Seq<Seq<char>> {
    v.map_values(|x: String| x@)
}

/// The views of a vector of program headers.
pub open spec fn segment_views(v: Seq<ReadElfL>) -> Seq<SegmentText> {
    v.map_values(|x: ReadElfL| x@)
}

/// The description before the program headers can be read for a count: it has
/// at least two lines, and its second-to-last line has at least three words.
pub open spec fn count_readable(info: Seq<char>) -> bool {
    let ls = lines(info);
    ls.len() >= 2 && split_char(ls[ls.len() - 2], ' ').len() >= 3
}

/// The third word of the second-to-last line of the description: the number of
/// program headers.
pub open spec fn count_word(info: Seq<char>) -> Seq<char> {
    let ls = lines(info);
    split_char(ls[ls.len() - 2], ' ')[2]
}

/// Reads the number of program headers from the description before them.
pub fn program_headers_count(info: &str) -> (r: Result<usize, IntErrorKind>)
    requires
        count_readable(info@),
    ensures
        match from_str_radix(count_word(info@), 10, usize::MAX as nat) {
            Ok(v) => r == Ok::<usize, IntErrorKind>(v as usize),
            Err(e) => r == Err::<usize, IntErrorKind>(e),
        },
{
    let chars = chars_of(info);
    program_headers_count_chars(&chars)
}

fn program_headers_count_chars(info: &Vec<char>) -> (r: Result<usize, IntErrorKind>)
    requires
        count_readable(info@),
    ensures
        match from_str_radix(count_word(info@), 10, usize::MAX as nat) {
            Ok(v) => r == Ok::<usize, IntErrorKind>(v as usize),
            Err(e) => r == Err::<usize, IntErrorKind>(e),
        },
{
    let ls = lines_of(info.as_slice());
    let n = ls.len();
    assert(ls[n - 2]@ == lines(info@)[n - 2]);
    let words = split_chars(ls[n - 2].as_slice(), ' ');
    assert(words[2]@ == count_word(info@));
    parse_usize(words[2].as_slice())
}

/// The lines of all the texts of `infos`, one text after the other.
pub open spec fn flat_lines(infos: Seq<Seq<char>>) -> Seq<Seq<char>>
    decreases infos.len(),
{
    if infos.len() == 0 {
        seq![]
    } else {
        flat_lines(infos.drop_last()) + lines(infos.last())
    }
}

/// Consecutive pairs of lines joined; an odd last line is left out.
pub open spec fn pair_rows(ls: Seq<Seq<char>>) -> Seq<Seq<char>> {
    Seq::new(ls.len() / 2, |k: int| ls[2 * k] + ls[2 * k + 1])
}

/// The rows of program headers: after the first three lines, every two lines
/// form one row, and at most `count` rows are taken.
pub open spec fn header_rows(infos: Seq<Seq<char>>, count: nat) -> Seq<Seq<char>> {
    let ls = flat_lines(infos);
    let body = if ls.len() <= 3 {
        seq![]
    } else {
        ls.subrange(3, ls.len() as int)
    };
    let rows = pair_rows(body);
    if count < rows.len() {
        rows.take(count as int)
    } else {
        rows
    }
}

fn append_lines(acc: &mut Vec<Vec<char>>, text: &Vec<char>)
    ensures
        views(final(acc)@) == views(old(acc)@) + lines(text@),
{
    let mut ls = lines_of(text.as_slice());
    let ghost l = views(ls@);
    let ghost start = views(acc@);
    let mut i: usize = 0;
    let n = ls.len();
    let mut moved: Vec<Vec<char>> = Vec::new();
    while i < n
        invariant
            i <= n,
            n == l.len(),
            views(moved@) == l.take(i as int),
            views(ls@) == l,
        decreases n - i,
    {
        let c = crate::strs::copy_range(ls[i].as_slice(), 0, ls[i].len());
        assert(c@ =~= l[i as int]);
        let ghost before = views(moved@);
        moved.push(c);
        assert(views(moved@) =~= before.push(l[i as int]));
        assert(l.take(i + 1) =~= l.take(i as int).push(l[i as int]));
        i = i + 1;
    }
    assert(l.take(n as int) =~= l);
    acc.append(&mut moved);
    assert(views(acc@) =~= start + l);
}

fn header_rows_chars(infos: &Vec<Vec<char>>, count: usize) -> (r: Vec<Vec<char>>)
    ensures
        views(r@) == header_rows(views(infos@), count as nat),
{
    let ghost iv = views(infos@);
    let mut ls: Vec<Vec<char>> = Vec::new();
    let mut i: usize = 0;
    while i < infos.len()
        invariant
            i <= infos@.len(),
            iv == views(infos@),
            views(ls@) == flat_lines(iv.take(i as int)),
        decreases infos@.len() - i,
    {
        assert(iv.take(i + 1).drop_last() =~= iv.take(i as int));
        assert(infos[i as int]@ == iv[i as int]);
        append_lines(&mut ls, &infos[i]);
        i = i + 1;
    }
    assert(iv.take(infos@.len() as int) =~= iv);
    let ghost all = views(ls@);
    let ghost body = if all.len() <= 3 {
        Seq::<Seq<char>>::empty()
    } else {
        all.subrange(3, all.len() as int)
    };
    let ghost rows = pair_rows(body);
    let mut r: Vec<Vec<char>> = Vec::new();
    let mut k: usize = 0;
    let avail: usize = if ls.len() <= 3 {
        0
    } else {
        (ls.len() - 3) / 2
    };
    assert(avail == rows.len());
    let ln = ls.len();
    while k < avail && k < count
        invariant
            ln == ls@.len(),
            k <= avail,
            k <= count,
            avail == rows.len(),
            all == views(ls@),
            ls@.len() > 3 ==> avail == (ls@.len() - 3) / 2,
            ls@.len() <= 3 ==> avail == 0,
            body == (if all.len() <= 3 {
                Seq::<Seq<char>>::empty()
            } else {
                all.subrange(3, all.len() as int)
            }),
            rows == pair_rows(body),
            views(r@) == rows.take(k as int),
        decreases avail - k,
    {
        assert(3 + 2 * k + 1 < ls@.len()) by (nonlinear_arith)
            requires
                k < avail,
                ln > 3 ==> avail == (ln - 3) / 2,
                ln <= 3 ==> avail == 0,
                ln == ls@.len(),
        ;
        let a = 3 + 2 * k;
        assert(ls[a as int]@ == body[2 * k as int]);
        assert(ls[a + 1]@ == body[2 * k + 1]);
        let mut row = crate::strs::copy_range(ls[a].as_slice(), 0, ls[a].len());
        let mut second = crate::strs::copy_range(ls[a + 1].as_slice(), 0, ls[a + 1].len());
        row.append(&mut second);
        assert(row@ =~= rows[k as int]);
        let ghost before = views(r@);
        r.push(row);
        assert(views(r@) =~= before.push(rows[k as int]));
        assert(rows.take(k + 1) =~= rows.take(k as int).push(rows[k as int]));
        k = k + 1;
    }
    if k < avail {
        assert(k == count);
    } else {
        assert(rows.take(k as int) =~= rows);
    }
    assert(views(r@) =~= header_rows(views(infos@), count as nat));
    r
}

/// The rows of program headers in `infos`: the lines of all its texts, after
/// the first three, joined two by two, at most `count` of them.
pub fn program_headers_fields(infos: &Vec<String>, count: usize) -> (r: Vec<String>)
    ensures
        string_views(r@) == header_rows(string_views(infos@), count as nat),
{
    let mut cs: Vec<Vec<char>> = Vec::new();
    let mut i: usize = 0;
    while i < infos.len()
        invariant
            i <= infos@.len(),
            views(cs@) == string_views(infos@).take(i as int),
        decreases infos@.len() - i,
    {
        let c = chars_of(infos[i].as_str());
        let ghost before = views(cs@);
        cs.push(c);
        assert(views(cs@) =~= before.push(infos@[i as int]@));
        assert(string_views(infos@).take(i + 1) =~= string_views(infos@).take(i as int).push(
            infos@[i as int]@,
        ));
        i = i + 1;
    }
    assert(string_views(infos@).take(infos@.len() as int) =~= string_views(infos@));
    let rows = header_rows_chars(&cs, count);
    let mut r: Vec<String> = Vec::new();
    let mut k: usize = 0;
    while k < rows.len()
        invariant
            k <= rows@.len(),
            views(rows@) == header_rows(string_views(infos@), count as nat),
            string_views(r@) == views(rows@).take(k as int),
        decreases rows@.len() - k,
    {
        let s = string_of(rows[k].as_slice());
        let ghost before = string_views(r@);
        r.push(s);
        assert(string_views(r@) =~= before.push(rows@[k as int]@));
        assert(views(rows@).take(k + 1) =~= views(rows@).take(k as int).push(rows@[k as int]@));
        k = k + 1;
    }
    assert(views(rows@).take(rows@.len() as int) =~= views(rows@));
    r
}

/// A hexadecimal field read as a `u64`.
pub open spec fn hex64(s: Seq<char>) -> Result<nat, IntErrorKind> {
    hex_value(hex_digits_part(s), u64::MAX as nat)
}

/// Read 4, write 2, execute 1, by the letters `R`, `W` and `E` in `s`, as
/// `readelf` prints them.
pub open spec fn rwx_flags(s: Seq<char>) -> u32 {
    ((if contains(s, seq!['R']) {
        4u32
    } else {
        0u32
    }) + (if contains(s, seq!['W']) {
        2u32
    } else {
        0u32
    }) + (if contains(s, seq!['E']) {
        1u32
    } else {
        0u32
    })) as u32
}

/// The flags and the alignment of a row of fields: with 8 fields they are the
/// seventh (letters) and the eighth; with 9 (a flag field split by a space) the
/// flags are read and execute and the alignment is the ninth.
pub open spec fn flags_and_align(f: Seq<Seq<char>>) -> Result<(u32, nat), ReadElfLError> {
    if f.len() == 8 {
        match hex64(f[7]) {
            Ok(a) => Ok((rwx_flags(f[6]), a)),
            Err(e) => Err(ReadElfLError::Int(e)),
        }
    } else if f.len() == 9 {
        match hex64(f[8]) {
            Ok(a) => Ok((5u32, a)),
            Err(e) => Err(ReadElfLError::Int(e)),
        }
    } else {
        Err(ReadElfLError::FieldCount(f.len() as usize))
    }
}

/// The alignment field can have its prefix cut off.
pub open spec fn align_readable(f: Seq<Seq<char>>) -> bool {
    &&& f.len() == 8 ==> prefix_cuttable(f[7])
    &&& f.len() == 9 ==> prefix_cuttable(f[8])
}

fn letter_in(s: &Vec<char>, c: char) -> (b: bool)
    ensures
        b == contains(s@, seq![c]),
{
    let mut p: Vec<char> = Vec::new();
    p.push(c);
    assert(p@ =~= seq![c]);
    contains_chars(s.as_slice(), p.as_slice())
}

fn hex_field(s: &Vec<char>) -> (r: Result<u64, ReadElfLError>)
    requires
        prefix_cuttable(s@),
    ensures
        match hex64(s@) {
            Ok(v) => r == Ok::<u64, ReadElfLError>(v as u64),
            Err(e) => r == Err::<u64, ReadElfLError>(ReadElfLError::Int(e)),
        },
{
    let t = string_of(s.as_slice());
    match parse_str_hex_repr::<u64>(t.as_str()) {
        Ok(v) => Ok(v),
        Err(e) => Err(ReadElfLError::Int(e)),
    }
}

/// The flags and the alignment of a row of fields.
pub fn parse_flags_and_align(f: &Vec<Vec<char>>) -> (r: Result<(u32, u64), ReadElfLError>)
    requires
        align_readable(views(f@)),
    ensures
        match flags_and_align(views(f@)) {
            Ok((fl, a)) => r == Ok::<(u32, u64), ReadElfLError>((fl, a as u64)),
            Err(e) => r == Err::<(u32, u64), ReadElfLError>(e),
        },
{
    let ghost v = views(f@);
    if f.len() == 8 {
        assert(f[6]@ == v[6] && f[7]@ == v[7]);
        let mut flags: u32 = 0;
        if letter_in(&f[6], 'R') {
            flags = flags + 4;
        }
        if letter_in(&f[6], 'W') {
            flags = flags + 2;
        }
        if letter_in(&f[6], 'E') {
            flags = flags + 1;
        }
        let align = hex_field(&f[7])?;
        Ok((flags, align))
    } else if f.len() == 9 {
        assert(f[8]@ == v[8]);
        let align = hex_field(&f[8])?;
        Ok((5, align))
    } else {
        Err(ReadElfLError::FieldCount(f.len()))
    }
}

/// The program header that a row of fields describes: its type, five
/// hexadecimal numbers, then flags and alignment; the first malformed field
/// decides the error.
pub open spec fn row_of_fields(f: Seq<Seq<char>>) -> Result<SegmentText, ReadElfLError> {
    match hex64(f[1]) {
        Err(e) => Err(ReadElfLError::Int(e)),
        Ok(offset) => match hex64(f[2]) {
            Err(e) => Err(ReadElfLError::Int(e)),
            Ok(va) => match hex64(f[3]) {
                Err(e) => Err(ReadElfLError::Int(e)),
                Ok(pa) => match hex64(f[4]) {
                    Err(e) => Err(ReadElfLError::Int(e)),
                    Ok(fsz) => match hex64(f[5]) {
                        Err(e) => Err(ReadElfLError::Int(e)),
                        Ok(msz) => match flags_and_align(f) {
                            Err(e) => Err(e),
                            Ok((fl, al)) => Ok(
                                SegmentText {
                                    ty: f[0],
                                    offset: offset as u64,
                                    virtual_address: va as u64,
                                    physical_address: pa as u64,
                                    file_size: fsz as u64,
                                    memory_size: msz as u64,
                                    flags: fl,
                                    align: al as u64,
                                },
                            ),
                        },
                    },
                },
            },
        },
    }
}

/// A row of fields can be read without cutting a character: it has six fields
/// at least, and each number that is reached can have its prefix cut off.
pub open spec fn row_readable(f: Seq<Seq<char>>) -> bool {
    &&& f.len() >= 6
    &&& prefix_cuttable(f[1])
    &&& hex64(f[1]) is Ok ==> prefix_cuttable(f[2])
    &&& hex64(f[1]) is Ok && hex64(f[2]) is Ok ==> prefix_cuttable(f[3])
    &&& hex64(f[1]) is Ok && hex64(f[2]) is Ok && hex64(f[3]) is Ok ==> prefix_cuttable(f[4])
    &&& hex64(f[1]) is Ok && hex64(f[2]) is Ok && hex64(f[3]) is Ok && hex64(f[4]) is Ok
        ==> prefix_cuttable(f[5])
    &&& hex64(f[1]) is Ok && hex64(f[2]) is Ok && hex64(f[3]) is Ok && hex64(f[4]) is Ok
        && hex64(f[5]) is Ok ==> align_readable(f)
}

/// Reads one row of the program header table.
pub fn parse_row(row: &Vec<char>) -> (r: Result<ReadElfL, ReadElfLError>)
    requires
        row_readable(fields(row@)),
    ensures
        match row_of_fields(fields(row@)) {
            Ok(t) => r matches Ok(h) && h@ == t,
            Err(e) => r matches Err(e2) && e2 == e,
        },
{
    let f = fields_of(row.as_slice());
    let ghost v = views(f@);
    assert(f[0]@ == v[0] && f[1]@ == v[1] && f[2]@ == v[2] && f[3]@ == v[3]);
    assert(f[4]@ == v[4] && f[5]@ == v[5]);
    let ty = string_of(f[0].as_slice());
    let offset = hex_field(&f[1])?;
    let virtual_address = hex_field(&f[2])?;
    let physical_address = hex_field(&f[3])?;
    let file_size = hex_field(&f[4])?;
    let memory_size = hex_field(&f[5])?;
    let (flags, align) = parse_flags_and_align(&f)?;
    Ok(
        ReadElfL {
            ty,
            offset,
            virtual_address,
            physical_address,
            file_size,
            memory_size,
            flags,
            align,
        },
    )
}

/// The program headers of the rows, in order, or the error of the first row
/// that cannot be read.
pub open spec fn rows_result(rows: Seq<Seq<char>>) -> Result<Seq<SegmentText>, ReadElfLError>
    decreases rows.len(),
{
    if rows.len() == 0 {
        Ok(seq![])
    } else {
        match rows_result(rows.drop_last()) {
            Err(e) => Err(e),
            Ok(rs) => match row_of_fields(fields(rows.last())) {
                Err(e) => Err(e),
                Ok(r) => Ok(rs.push(r)),
            },
        }
    }
}

/// Every row that is reached can be read.
pub open spec fn rows_readable(rows: Seq<Seq<char>>) -> bool
    decreases rows.len(),
{
    rows.len() == 0 || (rows_readable(rows.drop_last()) && (rows_result(rows.drop_last()) is Ok
        ==> row_readable(fields(rows.last()))))
}

proof fn lemma_rows_readable_prefix(rows: Seq<Seq<char>>, k: int)
    requires
        0 <= k <= rows.len(),
        rows_readable(rows),
    ensures
        rows_readable(rows.take(k)),
    decreases rows.len() - k,
{
    if k < rows.len() {
        assert(rows.take(k + 1).drop_last() =~= rows.take(k));
        lemma_rows_readable_prefix(rows, k + 1);
    } else {
        assert(rows.take(k) =~= rows);
    }
}

/// The texts before and between the occurrences of `Program Headers:`.
pub open spec fn report_sections(report: Seq<char>) -> Seq<Seq<char>> {
    split_pat(report, "Program Headers:"@)
}

/// The program headers that the report of `readelf -l` lists.
pub open spec fn readelf_l_result(report: Seq<char>) -> Result<Seq<SegmentText>, ReadElfLError> {
    let infos = report_sections(report);
    match from_str_radix(count_word(infos[0]), 10, usize::MAX as nat) {
        Err(e) => Err(ReadElfLError::Int(e)),
        Ok(c) => rows_result(header_rows(infos.skip(1), c)),
    }
}

/// The report can be read: its count line is there, and when the count is a
/// number, the program header table follows and its rows can be read.
pub open spec fn readelf_l_readable(report: Seq<char>) -> bool {
    let infos = report_sections(report);
    &&& count_readable(infos[0])
    &&& from_str_radix(count_word(infos[0]), 10, usize::MAX as nat) matches Ok(c) ==> infos.len()
        >= 2 && rows_readable(header_rows(infos.skip(1), c))
}

/// Reads the report of `readelf -l`: the count of program headers from the
/// description, then one program header per row of the table that follows
/// `Program Headers:`.
pub fn readelf_l(report: &str) -> (r: Result<Vec<ReadElfL>, ReadElfLError>)
    requires
        readelf_l_readable(report@),
    ensures
        match readelf_l_result(report@) {
            Ok(hs) => r matches Ok(v) && segment_views(v@) == hs,
            Err(e) => r matches Err(e2) && e2 == e,
        },
{
    let chars = chars_of(report);
    let marker = chars_of("Program Headers:");
    proof {
        reveal_strlit("Program Headers:");
    }
    let infos = split_pattern(chars.as_slice(), marker.as_slice());
    let ghost iv = views(infos@);
    assert(iv == report_sections(report@));
    assert(iv.len() >= 1);
    assert(infos[0]@ == iv[0]);
    let count = match program_headers_count_chars(&infos[0]) {
        Ok(c) => c,
        Err(e) => {
            return Err(ReadElfLError::Int(e));
        },
    };
    proof {
        crate::readelf::numbers::lemma_radix_bound(count_word(iv[0]), 10, usize::MAX as nat);
    }
    assert(from_str_radix(count_word(iv[0]), 10, usize::MAX as nat) == Ok::<nat, IntErrorKind>(
        count as nat,
    ));
    let mut rest: Vec<Vec<char>> = Vec::new();
    let mut i: usize = 1;
    while i < infos.len()
        invariant
            1 <= i <= infos@.len(),
            iv == views(infos@),
            views(rest@) == iv.subrange(1, i as int),
        decreases infos@.len() - i,
    {
        let c = crate::strs::copy_range(infos[i].as_slice(), 0, infos[i].len());
        assert(c@ =~= iv[i as int]);
        let ghost before = views(rest@);
        rest.push(c);
        assert(views(rest@) =~= before.push(iv[i as int]));
        assert(iv.subrange(1, i + 1) =~= iv.subrange(1, i as int).push(iv[i as int]));
        i = i + 1;
    }
    assert(iv.subrange(1, iv.len() as int) =~= iv.skip(1));
    let rows = header_rows_chars(&rest, count);
    let ghost rv = views(rows@);
    assert(rv == header_rows(iv.skip(1), count as nat));
    assert(readelf_l_result(report@) == rows_result(rv));
    let mut out: Vec<ReadElfL> = Vec::new();
    let mut k: usize = 0;
    assert(rv.take(0) =~= Seq::<Seq<char>>::empty());
    assert(segment_views(out@) =~= Seq::<SegmentText>::empty());
    while k < rows.len()
        invariant
            k <= rows@.len(),
            rv == views(rows@),
            rows_readable(rv),
            readelf_l_result(report@) == rows_result(rv),
            rows_result(rv.take(k as int)) == Ok::<Seq<SegmentText>, ReadElfLError>(
                segment_views(out@),
            ),
        decreases rows@.len() - k,
    {
        assert(rv.take(k + 1).drop_last() =~= rv.take(k as int));
        assert(rv.take(k + 1).last() == rv[k as int]);
        proof {
            lemma_rows_readable_prefix(rv, k + 1);
        }
        assert(rows[k as int]@ == rv[k as int]);
        match parse_row(&rows[k]) {
            Ok(h) => {
                let ghost before = segment_views(out@);
                out.push(h);
                assert(segment_views(out@) =~= before.push(h@));
            },
            Err(e) => {
                assert(rows_result(rv.take(k + 1)) == Err::<Seq<SegmentText>, ReadElfLError>(e));
                proof {
                    lemma_rows_error_extends(rv, (k + 1) as nat);
                }
                return Err(e);
            },
        }
        k = k + 1;
    }
    assert(rv.take(rows@.len() as int) =~= rv);
    Ok(out)
}

proof fn lemma_rows_error_extends(rows: Seq<Seq<char>>, k: nat)
    requires
        k <= rows.len(),
        rows_result(rows.take(k as int)) is Err,
    ensures
        rows_result(rows) == rows_result(rows.take(k as int)),
    decreases rows.len() - k,
{
    if k < rows.len() {
        assert(rows.take(k as int + 1).drop_last() =~= rows.take(k as int));
        lemma_rows_error_extends(rows, k + 1);
    } else {
        assert(rows.take(k as int) =~= rows);
    }
}

} // verus!
