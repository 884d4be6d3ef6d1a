//! The ELF header as `readelf -h` reports it.

use vstd::prelude::*;
use vstd::string::*;
use crate::strs::{
    views, split_char, split_chars, lemma_split_char_len, copy_range, trim, trim_chars, lines,
    lines_of, contains, contains_chars, chars_eq, lemma_first_piece_stable,
};
use crate::text::{chars_of, string_of};

verus! {

/// The fields of an ELF header report, as text.
#[derive(Debug)]
pub struct ReadElfH {
    /// ELF file class (32-bit or 64-bit)
    pub file_class: String,
    /// Data encoding (little-endian or big-endian)
    pub endianness: String,
    /// ELF version number
    pub elf_version: String,
    /// Target OS/ABI identification
    pub target_os_abi: String,
    /// ABI version number
    pub abi_version: String,
    /// Object file type (executable, shared object, etc.)
    pub ty: String,
    /// Target machine architecture
    pub machine: String,
    /// Object file version
    pub version: String,
    /// Entry point virtual address
    pub entry: String,
    /// Program header table file offset
    pub program_header_offset: String,
    /// Section header table file offset
    pub section_header_offset: String,
    /// Processor-specific flags
    pub flags: String,
    /// ELF header size in bytes
    pub elf_header_size: String,
    /// Program header table entry size
    pub program_header_entry_size: String,
    /// Number of program header table entries
    pub program_header_count: String,
    /// Section header table entry size
    pub section_header_entry_size: String,
    /// Number of section header table entries
    pub section_header_count: String,
    /// Section header string table index
    pub section_header_index_of_section_name_string_table: String,
}

/// The characters of each field of a `ReadElfH`.
#[verifier::ext_equal]
pub struct HeaderText {
    pub file_class: Seq<char>,
    pub endianness: Seq<char>,
    pub elf_version: Seq<char>,
    pub target_os_abi: Seq<char>,
    pub abi_version: Seq<char>,
    pub ty: Seq<char>,
    pub machine: Seq<char>,
    pub version: Seq<char>,
    pub entry: Seq<char>,
    pub program_header_offset: Seq<char>,
    pub section_header_offset: Seq<char>,
    pub flags: Seq<char>,
    pub elf_header_size: Seq<char>,
    pub program_header_entry_size: Seq<char>,
    pub program_header_count: Seq<char>,
    pub section_header_entry_size: Seq<char>,
    pub section_header_count: Seq<char>,
    pub section_header_index_of_section_name_string_table: Seq<char>,
}

impl View for ReadElfH {
    type V = HeaderText;

    open spec fn view(&self) -> HeaderText {
        HeaderText {
            file_class: self.file_class@,
            endianness: self.endianness@,
            elf_version: self.elf_version@,
            target_os_abi: self.target_os_abi@,
            abi_version: self.abi_version@,
            ty: self.ty@,
            machine: self.machine@,
            version: self.version@,
            entry: self.entry@,
            program_header_offset: self.program_header_offset@,
            section_header_offset: self.section_header_offset@,
            flags: self.flags@,
            elf_header_size: self.elf_header_size@,
            program_header_entry_size: self.program_header_entry_size@,
            program_header_count: self.program_header_count@,
            section_header_entry_size: self.section_header_entry_size@,
            section_header_count: self.section_header_count@,
            section_header_index_of_section_name_string_table:
                self.section_header_index_of_section_name_string_table@,
        }
    }
}

/// A report with every field empty.
pub open spec fn empty_header_text() -> HeaderText {
    HeaderText {
        file_class: seq![],
        endianness: seq![],
        elf_version: seq![],
        target_os_abi: seq![],
        abi_version: seq![],
        ty: seq![],
        machine: seq![],
        version: seq![],
        entry: seq![],
        program_header_offset: seq![],
        section_header_offset: seq![],
        flags: seq![],
        elf_header_size: seq![],
        program_header_entry_size: seq![],
        program_header_count: seq![],
        section_header_entry_size: seq![],
        section_header_count: seq![],
        section_header_index_of_section_name_string_table: seq![],
    }
}

impl Default for ReadElfH {
    fn default() -> (h: ReadElfH)
        ensures
            h@ == empty_header_text(),
    {
        ReadElfH {
            file_class: String::new(),
            endianness: String::new(),
            elf_version: String::new(),
            target_os_abi: String::new(),
            abi_version: String::new(),
            ty: String::new(),
            machine: String::new(),
            version: String::new(),
            entry: String::new(),
            program_header_offset: String::new(),
            section_header_offset: String::new(),
            flags: String::new(),
            elf_header_size: String::new(),
            program_header_entry_size: String::new(),
            program_header_count: String::new(),
            section_header_entry_size: String::new(),
            section_header_count: String::new(),
            section_header_index_of_section_name_string_table: String::new(),
        }
    }
}

/// The text before the first space (all of it when there is none).
pub open spec fn first_word(s: Seq<char>) -> Seq<char> {
    split_char(s, ' ')[0]
}

/// Every field but the OS/ABI cut to its first word.
pub open spec fn fixed(h: HeaderText) -> HeaderText {
    HeaderText {
        file_class: first_word(h.file_class),
        endianness: first_word(h.endianness),
        elf_version: first_word(h.elf_version),
        target_os_abi: h.target_os_abi,
        abi_version: first_word(h.abi_version),
        ty: first_word(h.ty),
        machine: first_word(h.machine),
        version: first_word(h.version),
        entry: first_word(h.entry),
        program_header_offset: first_word(h.program_header_offset),
        section_header_offset: first_word(h.section_header_offset),
        flags: first_word(h.flags),
        elf_header_size: first_word(h.elf_header_size),
        program_header_entry_size: first_word(h.program_header_entry_size),
        program_header_count: first_word(h.program_header_count),
        section_header_entry_size: first_word(h.section_header_entry_size),
        section_header_count: first_word(h.section_header_count),
        section_header_index_of_section_name_string_table: first_word(
            h.section_header_index_of_section_name_string_table,
        ),
    }
}

/// The first word of a first word is itself.
pub proof fn lemma_first_word_stable(s: Seq<char>)
    ensures
        first_word(first_word(s)) == first_word(s),
{
    lemma_first_piece_stable(s, ' ');
}

/// Cutting the fields of a report to their first words a second time changes
/// nothing: `fix` is idempotent.
pub proof fn lemma_fix_idempotent(h: HeaderText)
    ensures
        fixed(fixed(h)) == fixed(h),
{
    lemma_first_word_stable(h.file_class);
    lemma_first_word_stable(h.endianness);
    lemma_first_word_stable(h.elf_version);
    lemma_first_word_stable(h.abi_version);
    lemma_first_word_stable(h.ty);
    lemma_first_word_stable(h.machine);
    lemma_first_word_stable(h.version);
    lemma_first_word_stable(h.entry);
    lemma_first_word_stable(h.program_header_offset);
    lemma_first_word_stable(h.section_header_offset);
    lemma_first_word_stable(h.flags);
    lemma_first_word_stable(h.elf_header_size);
    lemma_first_word_stable(h.program_header_entry_size);
    lemma_first_word_stable(h.program_header_count);
    lemma_first_word_stable(h.section_header_entry_size);
    lemma_first_word_stable(h.section_header_count);
    lemma_first_word_stable(h.section_header_index_of_section_name_string_table);
}

/// The first word of `s`.
pub fn first_word_chars(s: &[char]) -> (r: Vec<char>)
    ensures
        r@ == first_word(s@),
{
    let words = split_chars(s, ' ');
    proof {
        lemma_split_char_len(s@, ' ');
    }
    assert(words[0]@ == first_word(s@));
    copy_range(words[0].as_slice(), 0, words[0].len())
}

/// The text of `s` before its first space.
pub fn first_word_string(s: &str) -> (r: String)
    ensures
        r@ == first_word(s@),
{
    let chars = chars_of(s);
    let w = first_word_chars(chars.as_slice());
    string_of(w.as_slice())
}

fn cut_to_first_word(s: &mut String)
    ensures
        final(s)@ == first_word(old(s)@),
{
    let w = first_word_string(s.as_str());
    *s = w;
}

impl ReadElfH {
    /// Cuts every field but the OS/ABI to its first word, dropping the
    /// explanations that `readelf` puts after the values.
    pub fn fix(&mut self)
        ensures
            final(self)@ == fixed(old(self)@),
    {
        cut_to_first_word(&mut self.file_class);
        cut_to_first_word(&mut self.endianness);
        cut_to_first_word(&mut self.elf_version);
        cut_to_first_word(&mut self.abi_version);
        cut_to_first_word(&mut self.ty);
        cut_to_first_word(&mut self.machine);
        cut_to_first_word(&mut self.version);
        cut_to_first_word(&mut self.entry);
        cut_to_first_word(&mut self.program_header_offset);
        cut_to_first_word(&mut self.section_header_offset);
        cut_to_first_word(&mut self.flags);
        cut_to_first_word(&mut self.elf_header_size);
        cut_to_first_word(&mut self.program_header_entry_size);
        cut_to_first_word(&mut self.program_header_count);
        cut_to_first_word(&mut self.section_header_entry_size);
        cut_to_first_word(&mut self.section_header_count);
        cut_to_first_word(&mut self.section_header_index_of_section_name_string_table);
    }
}

/// Key-value pairs of a report: whether the pair's key is `key`.
pub trait Property {
    /// The key of the pair.
    spec fn key_of(&self) -> Seq<char>;

    /// Whether the pair has at least a key.
    spec fn has_key(&self) -> bool;

    /// Whether the key of the pair is `key`.
    fn is_peoperty_of(&self, key: &str) -> (b: bool)
        requires
            self.has_key(),
        ensures
            b == (self.key_of() == key@),
    ;
}

impl<'a> Property for Vec<&'a str> {
    open spec fn key_of(&self) -> Seq<char> {
        self@[0]@
    }

    open spec fn has_key(&self) -> bool {
        self@.len() >= 1
    }

    fn is_peoperty_of(&self, key: &str) -> (b: bool) {
        let k = chars_of(self[0]);
        let want = chars_of(key);
        chars_eq(k.as_slice(), want.as_slice())
    }
}

/// Each piece of `p` trimmed.
pub open spec fn trim_each(p: Seq<Seq<char>>) -> Seq<Seq<char>> {
    p.map_values(|x: Seq<char>| trim(x))
}

/// The pieces of a report line between colons, trimmed: the key, then the value.
pub open spec fn key_values(line: Seq<char>) -> Seq<Seq<char>> {
    trim_each(split_char(line, ':'))
}

/// The trimmed pieces of `line` between colons.
pub fn key_value_chars(line: &[char]) -> (r: Vec<Vec<char>>)
    ensures
        views(r@) == key_values(line@),
        r@.len() >= 1,
{
    let p = split_chars(line, ':');
    proof {
        lemma_split_char_len(line@, ':');
    }
    let ghost ps = split_char(line@, ':');
    let mut r: Vec<Vec<char>> = Vec::new();
    let mut i: usize = 0;
    while i < p.len()
        invariant
            i <= p@.len(),
            views(p@) == ps,
            views(r@) == trim_each(ps.take(i as int)),
        decreases p@.len() - i,
    {
        assert(p[i as int]@ == ps[i as int]);
        let t = trim_chars(p[i].as_slice());
        let ghost before = views(r@);
        r.push(t);
        assert(views(r@) =~= before.push(trim(ps[i as int])));
        assert(trim_each(ps.take(i + 1)) =~= trim_each(ps.take(i as int)).push(trim(ps[i as int])));
        i = i + 1;
    }
    assert(ps.take(p@.len() as int) =~= ps);
    r
}

/// The trimmed pieces of `line` between colons, as strings.
pub fn key_value(line: &str) -> (r: Vec<String>)
    ensures
        r@.len() == key_values(line@).len(),
        forall|k: int| 0 <= k < r@.len() ==> #[trigger] r@[k]@ == key_values(line@)[k],
{
    let chars = chars_of(line);
    let kv = key_value_chars(chars.as_slice());
    let mut r: Vec<String> = Vec::new();
    let mut i: usize = 0;
    while i < kv.len()
        invariant
            i <= kv@.len(),
            views(kv@) == key_values(line@),
            r@.len() == i,
            forall|k: int| 0 <= k < i ==> #[trigger] r@[k]@ == key_values(line@)[k],
        decreases kv@.len() - i,
    {
        assert(kv[i as int]@ == key_values(line@)[i as int]);
        r.push(string_of(kv[i].as_slice()));
        i = i + 1;
    }
    r
}

/// Whether `pat` occurs in `s`.
pub fn contains_text(s: &str, pat: &str) -> (b: bool)
    ensures
        b == contains(s@, pat@),
{
    let a = chars_of(s);
    let p = chars_of(pat);
    contains_chars(a.as_slice(), p.as_slice())
}

/// Whether `k` is one of the keys that the header report is read for.
pub open spec fn is_header_key(k: Seq<char>) -> bool {
    ||| k == "Class"@
    ||| k == "Data"@
    ||| k == "Version"@
    ||| k == "OS/ABI"@
    ||| k == "ABI Version"@
    ||| k == "Type"@
    ||| k == "Machine"@
    ||| k == "Entry point address"@
    ||| k == "Start of program headers"@
    ||| k == "Start of section headers"@
    ||| k == "Flags"@
    ||| k == "Size of this header"@
    ||| k == "Size of program headers"@
    ||| k == "Number of program headers"@
    ||| k == "Size of section headers"@
    ||| k == "Number of section headers"@
    ||| k == "Section header string table index"@
}

/// A line of the report that can be read: a known key has a value, and the
/// data encoding has at least three words.
pub open spec fn line_readable(kv: Seq<Seq<char>>) -> bool {
    &&& is_header_key(kv[0]) ==> kv.len() >= 2
    &&& kv[0] == "Data"@ ==> split_char(kv[1], ' ').len() >= 3
}

/// Every line of the report can be read.
pub open spec fn report_readable(text: Seq<char>) -> bool {
    forall|i: int| 0 <= i < lines(text).len() ==> line_readable(#[trigger] key_values(lines(text)[i]))
}

/// What one line of the report sets.
pub open spec fn apply_line(h: HeaderText, kv: Seq<Seq<char>>) -> HeaderText {
    let k = kv[0];
    let v = kv[1];
    if k == "Class"@ {
        HeaderText { file_class: v, ..h }
    } else if k == "Data"@ {
        HeaderText { endianness: split_char(v, ' ')[2], ..h }
    } else if k == "Version"@ {
        if contains(v, "0x"@) {
            HeaderText { version: v, ..h }
        } else {
            HeaderText { elf_version: first_word(v), ..h }
        }
    } else if k == "OS/ABI"@ {
        HeaderText { target_os_abi: v, ..h }
    } else if k == "ABI Version"@ {
        HeaderText { abi_version: v, ..h }
    } else if k == "Type"@ {
        HeaderText { ty: first_word(v), ..h }
    } else if k == "Machine"@ {
        HeaderText { machine: v, ..h }
    } else if k == "Entry point address"@ {
        HeaderText { entry: v, ..h }
    } else if k == "Start of program headers"@ {
        HeaderText { program_header_offset: first_word(v), ..h }
    } else if k == "Start of section headers"@ {
        HeaderText { section_header_offset: v, ..h }
    } else if k == "Flags"@ {
        HeaderText { flags: v, ..h }
    } else if k == "Size of this header"@ {
        HeaderText { elf_header_size: first_word(v), ..h }
    } else if k == "Size of program headers"@ {
        HeaderText { program_header_entry_size: first_word(v), ..h }
    } else if k == "Number of program headers"@ {
        HeaderText { program_header_count: v, ..h }
    } else if k == "Size of section headers"@ {
        HeaderText { section_header_entry_size: v, ..h }
    } else if k == "Number of section headers"@ {
        HeaderText { section_header_count: v, ..h }
    } else if k == "Section header string table index"@ {
        HeaderText { section_header_index_of_section_name_string_table: v, ..h }
    } else {
        h
    }
}

/// The fields that the lines `ls` set, one after the other, from an empty report.
pub open spec fn header_of_lines(ls: Seq<Seq<char>>) -> HeaderText
    decreases ls.len(),
{
    if ls.len() == 0 {
        empty_header_text()
    } else {
        apply_line(header_of_lines(ls.drop_last()), key_values(ls.last()))
    }
}

/// The header that the report `text` describes.
pub open spec fn header_of_report(text: Seq<char>) -> HeaderText {
    fixed(header_of_lines(lines(text)))
}

fn is_key(k: &Vec<char>, name: &str) -> (b: bool)
    ensures
        b == (k@ == name@),
{
    let n = chars_of(name);
    chars_eq(k.as_slice(), n.as_slice())
}

fn word_at(s: &Vec<char>, k: usize) -> (r: Vec<char>)
    requires
        k < split_char(s@, ' ').len(),
    ensures
        r@ == split_char(s@, ' ')[k as int],
{
    let words = split_chars(s.as_slice(), ' ');
    assert(words[k as int]@ == split_char(s@, ' ')[k as int]);
    copy_range(words[k].as_slice(), 0, words[k].len())
}

impl ReadElfH {
    /// Sets the field that the report line `kv` gives.
    fn apply(&mut self, kv: &Vec<Vec<char>>)
        requires
            kv@.len() >= 1,
            line_readable(views(kv@)),
        ensures
            final(self)@ == apply_line(old(self)@, views(kv@)),
    {
        let ghost v = views(kv@);
        assert(kv[0]@ == v[0]);
        let k = &kv[0];
        if is_key(k, "Class") {
            assert(kv[1]@ == v[1]);
            self.file_class = string_of(kv[1].as_slice());
        } else if is_key(k, "Data") {
            assert(kv[1]@ == v[1]);
            self.endianness = string_of(word_at(&kv[1], 2).as_slice());
        } else if is_key(k, "Version") {
            assert(kv[1]@ == v[1]);
            let zx = chars_of("0x");
            if contains_chars(kv[1].as_slice(), zx.as_slice()) {
                self.version = string_of(kv[1].as_slice());
            } else {
                self.elf_version = string_of(first_word_chars(kv[1].as_slice()).as_slice());
            }
        } else if is_key(k, "OS/ABI") {
            assert(kv[1]@ == v[1]);
            self.target_os_abi = string_of(kv[1].as_slice());
        } else if is_key(k, "ABI Version") {
            assert(kv[1]@ == v[1]);
            self.abi_version = string_of(kv[1].as_slice());
        } else if is_key(k, "Type") {
            assert(kv[1]@ == v[1]);
            self.ty = string_of(first_word_chars(kv[1].as_slice()).as_slice());
        } else if is_key(k, "Machine") {
            assert(kv[1]@ == v[1]);
            self.machine = string_of(kv[1].as_slice());
        } else if is_key(k, "Entry point address") {
            assert(kv[1]@ == v[1]);
            self.entry = string_of(kv[1].as_slice());
        } else if is_key(k, "Start of program headers") {
            assert(kv[1]@ == v[1]);
            self.program_header_offset = string_of(first_word_chars(kv[1].as_slice()).as_slice());
        } else if is_key(k, "Start of section headers") {
            assert(kv[1]@ == v[1]);
            self.section_header_offset = string_of(kv[1].as_slice());
        } else if is_key(k, "Flags") {
            assert(kv[1]@ == v[1]);
            self.flags = string_of(kv[1].as_slice());
        } else if is_key(k, "Size of this header") {
            assert(kv[1]@ == v[1]);
            self.elf_header_size = string_of(first_word_chars(kv[1].as_slice()).as_slice());
        } else if is_key(k, "Size of program headers") {
            assert(kv[1]@ == v[1]);
            self.program_header_entry_size = string_of(
                first_word_chars(kv[1].as_slice()).as_slice(),
            );
        } else if is_key(k, "Number of program headers") {
            assert(kv[1]@ == v[1]);
            self.program_header_count = string_of(kv[1].as_slice());
        } else if is_key(k, "Size of section headers") {
            assert(kv[1]@ == v[1]);
            self.section_header_entry_size = string_of(kv[1].as_slice());
        } else if is_key(k, "Number of section headers") {
            assert(kv[1]@ == v[1]);
            self.section_header_count = string_of(kv[1].as_slice());
        } else if is_key(k, "Section header string table index") {
            assert(kv[1]@ == v[1]);
            self.section_header_index_of_section_name_string_table = string_of(
                kv[1].as_slice(),
            );
        }
        assert(self@ =~= apply_line(old(self)@, v));
    }
}

/// Reads the report of `readelf -h`: every line is split at colons and
/// trimmed, the value of each known key is kept (the data encoding as its third
/// word, the version by whether it is hexadecimal), and finally every field but
/// the OS/ABI is cut to its first word.
pub fn parse_readelf_h(text: &str) -> (h: ReadElfH)
    requires
        report_readable(text@),
    ensures
        h@ == header_of_report(text@),
{
    let chars = chars_of(text);
    let ls = lines_of(chars.as_slice());
    let ghost l = lines(text@);
    let mut h = ReadElfH::default();
    let mut i: usize = 0;
    while i < ls.len()
        invariant
            i <= ls@.len(),
            views(ls@) == l,
            report_readable(text@),
            l == lines(text@),
            h@ == header_of_lines(l.take(i as int)),
        decreases ls@.len() - i,
    {
        assert(l.take(i + 1).drop_last() =~= l.take(i as int));
        assert(ls[i as int]@ == l[i as int]);
        let kv = key_value_chars(ls[i].as_slice());
        assert(line_readable(key_values(l[i as int])));
        h.apply(&kv);
        i = i + 1;
    }
    assert(l.take(ls@.len() as int) =~= l);
    h.fix();
    h
}

} // verus!
