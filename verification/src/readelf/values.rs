//! The values of an ELF header, read from the text fields of a `readelf -h`
//! report: the identification, the type, the name of the machine constant, and
//! the numbers.

use vstd::prelude::*;
use vstd::string::*;
use crate::elf::header::{
    AbiVersion, ElfHeaderIdent, ElfType, ElfVersion, Endian, FileClass, TargetOsAbi,
};
use crate::naming::{machine_const, machine_const_name};
use crate::readelf::header::ReadElfH;
use crate::readelf::numbers::{IntErrorKind, from_str_radix, parse_radix, utf8_width};
use crate::strs::{contains, contains_chars};
use crate::text::chars_of;

verus! {

/// The header values that a report describes.
pub struct HeaderValues {
    pub ident: ElfHeaderIdent,
    pub ty: ElfType,
    /// The name of the machine constant, such as `EM_AARCH64`.
    pub machine: String,
    pub version: u32,
    pub entry: u64,
    pub program_header_offset: u64,
    pub section_header_offset: u64,
    pub flags: u32,
    pub elf_header_size: u16,
    pub program_header_entry_size: u16,
    pub program_header_count: u16,
    pub section_header_entry_size: u16,
    pub section_header_count: u16,
    pub section_header_index_of_section_name_string_table: u16,
}

/// The field of the report that could not be read.
#[derive(Debug, PartialEq, Eq, Structural, Clone, Copy)]
pub enum HeaderField {
    FileClass,
    Endianness,
    ElfVersion,
    TargetOsAbi,
    AbiVersion,
    Type,
    Version,
    Entry,
    ProgramHeaderOffset,
    SectionHeaderOffset,
    Flags,
    ElfHeaderSize,
    ProgramHeaderEntrySize,
    ProgramHeaderCount,
    SectionHeaderEntrySize,
    SectionHeaderCount,
    SectionNameTableIndex,
}

/// The file class a report names (`ELF64` or `ELF32`).
pub open spec fn class_of(s: Seq<char>) -> Option<FileClass> {
    if s == "ELF64"@ {
        Some(FileClass::Bit64)
    } else if s == "ELF32"@ {
        Some(FileClass::Bit32)
    } else {
        None
    }
}

/// The byte order a report names (`little` or `big`).
pub open spec fn endian_of(s: Seq<char>) -> Option<Endian> {
    if s == "little"@ {
        Some(Endian::Little)
    } else if s == "big"@ {
        Some(Endian::Big)
    } else {
        None
    }
}

/// A version byte: `1`, or any other decimal number that fits in a byte.
pub open spec fn version_byte(s: Seq<char>) -> Option<u8> {
    if s == "1"@ {
        Some(1u8)
    } else {
        match from_str_radix(s, 10, 255) {
            Ok(v) => Some(v as u8),
            Err(_) => None,
        }
    }
}

/// The OS ABI a report names, by the first of the names it contains.
pub open spec fn os_abi_of(s: Seq<char>) -> Option<TargetOsAbi> {
    if contains(s, "UNIX - System V"@) {
        Some(TargetOsAbi::SysV)
    } else if contains(s, "Arm"@) {
        Some(TargetOsAbi::Arm)
    } else if contains(s, "Standalone"@) {
        Some(TargetOsAbi::Standalone)
    } else {
        None
    }
}

/// `s` without its first two bytes, when they end a character.
pub open spec fn after_two_bytes(s: Seq<char>) -> Option<Seq<char>> {
    if s.len() >= 1 && utf8_width(s[0]) == 2 {
        Some(s.drop_first())
    } else if s.len() >= 2 && utf8_width(s[0]) == 1 && utf8_width(s[1]) == 1 {
        Some(s.subrange(2, s.len() as int))
    } else {
        None
    }
}

/// A hexadecimal field written with a two-character prefix, read up to `max`.
pub open spec fn prefixed_hex(s: Seq<char>, max: nat) -> Option<nat> {
    match after_two_bytes(s) {
        Some(t) => match from_str_radix(t, 16, max) {
            Ok(v) => Some(v),
            Err(_) => None,
        },
        None => None,
    }
}

/// A decimal field, read up to `max`.
pub open spec fn decimal_field(s: Seq<char>, max: nat) -> Option<nat> {
    match from_str_radix(s, 10, max) {
        Ok(v) => Some(v),
        Err(_) => None,
    }
}

/// The first field of the report, in the order the header is built, that
/// cannot be read.
pub open spec fn first_bad_field(h: crate::readelf::header::HeaderText) -> Option<HeaderField> {
    if class_of(h.file_class) is None {
        Some(HeaderField::FileClass)
    } else if endian_of(h.endianness) is None {
        Some(HeaderField::Endianness)
    } else if version_byte(h.elf_version) is None {
        Some(HeaderField::ElfVersion)
    } else if os_abi_of(h.target_os_abi) is None {
        Some(HeaderField::TargetOsAbi)
    } else if version_byte(h.abi_version) is None {
        Some(HeaderField::AbiVersion)
    } else if h.ty != "EXEC"@ {
        Some(HeaderField::Type)
    } else if prefixed_hex(h.version, u32::MAX as nat) is None {
        Some(HeaderField::Version)
    } else if prefixed_hex(h.entry, u64::MAX as nat) is None {
        Some(HeaderField::Entry)
    } else if decimal_field(h.program_header_offset, u64::MAX as nat) is None {
        Some(HeaderField::ProgramHeaderOffset)
    } else if decimal_field(h.section_header_offset, u64::MAX as nat) is None {
        Some(HeaderField::SectionHeaderOffset)
    } else if prefixed_hex(h.flags, u32::MAX as nat) is None {
        Some(HeaderField::Flags)
    } else if decimal_field(h.elf_header_size, u16::MAX as nat) is None {
        Some(HeaderField::ElfHeaderSize)
    } else if decimal_field(h.program_header_entry_size, u16::MAX as nat) is None {
        Some(HeaderField::ProgramHeaderEntrySize)
    } else if decimal_field(h.program_header_count, u16::MAX as nat) is None {
        Some(HeaderField::ProgramHeaderCount)
    } else if decimal_field(h.section_header_entry_size, u16::MAX as nat) is None {
        Some(HeaderField::SectionHeaderEntrySize)
    } else if decimal_field(h.section_header_count, u16::MAX as nat) is None {
        Some(HeaderField::SectionHeaderCount)
    } else if decimal_field(h.section_header_index_of_section_name_string_table, u16::MAX as nat)
        is None {
        Some(HeaderField::SectionNameTableIndex)
    } else {
        None
    }
}

/// The text of field `f` of a report.
pub open spec fn field_text(h: crate::readelf::header::HeaderText, f: HeaderField) -> Seq<char> {
    match f {
        HeaderField::FileClass => h.file_class,
        HeaderField::Endianness => h.endianness,
        HeaderField::ElfVersion => h.elf_version,
        HeaderField::TargetOsAbi => h.target_os_abi,
        HeaderField::AbiVersion => h.abi_version,
        HeaderField::Type => h.ty,
        HeaderField::Version => h.version,
        HeaderField::Entry => h.entry,
        HeaderField::ProgramHeaderOffset => h.program_header_offset,
        HeaderField::SectionHeaderOffset => h.section_header_offset,
        HeaderField::Flags => h.flags,
        HeaderField::ElfHeaderSize => h.elf_header_size,
        HeaderField::ProgramHeaderEntrySize => h.program_header_entry_size,
        HeaderField::ProgramHeaderCount => h.program_header_count,
        HeaderField::SectionHeaderEntrySize => h.section_header_entry_size,
        HeaderField::SectionHeaderCount => h.section_header_count,
        HeaderField::SectionNameTableIndex => h.section_header_index_of_section_name_string_table,
    }
}

/// The values read from a report whose fields can all be read.
pub open spec fn values_match(v: HeaderValues, h: crate::readelf::header::HeaderText) -> bool {
    &&& v.ident.file_class == class_of(h.file_class).unwrap()
    &&& v.ident.endianness == endian_of(h.endianness).unwrap()
    &&& v.ident.elf_version == ElfVersion(version_byte(h.elf_version).unwrap())
    &&& v.ident.target_os_abi == os_abi_of(h.target_os_abi).unwrap()
    &&& v.ident.abi_version == AbiVersion(version_byte(h.abi_version).unwrap())
    &&& v.ty == ElfType::Executable
    &&& v.machine@ == machine_const(h.machine)
    &&& v.version == prefixed_hex(h.version, u32::MAX as nat).unwrap()
    &&& v.entry == prefixed_hex(h.entry, u64::MAX as nat).unwrap()
    &&& v.program_header_offset == decimal_field(h.program_header_offset, u64::MAX as nat).unwrap()
    &&& v.section_header_offset == decimal_field(h.section_header_offset, u64::MAX as nat).unwrap()
    &&& v.flags == prefixed_hex(h.flags, u32::MAX as nat).unwrap()
    &&& v.elf_header_size == decimal_field(h.elf_header_size, u16::MAX as nat).unwrap()
    &&& v.program_header_entry_size == decimal_field(
        h.program_header_entry_size,
        u16::MAX as nat,
    ).unwrap()
    &&& v.program_header_count == decimal_field(h.program_header_count, u16::MAX as nat).unwrap()
    &&& v.section_header_entry_size == decimal_field(
        h.section_header_entry_size,
        u16::MAX as nat,
    ).unwrap()
    &&& v.section_header_count == decimal_field(h.section_header_count, u16::MAX as nat).unwrap()
    &&& v.section_header_index_of_section_name_string_table == decimal_field(
        h.section_header_index_of_section_name_string_table,
        u16::MAX as nat,
    ).unwrap()
}

fn text_is(s: &String, lit: &str) -> (b: bool)
    ensures
        b == (s@ == lit@),
{
    let a = chars_of(s.as_str());
    let b = chars_of(lit);
    crate::strs::chars_eq(a.as_slice(), b.as_slice())
}

fn read_class(s: &String) -> (r: Option<FileClass>)
    ensures
        r == class_of(s@),
{
    if text_is(s, "ELF64") {
        Some(FileClass::Bit64)
    } else if text_is(s, "ELF32") {
        Some(FileClass::Bit32)
    } else {
        None
    }
}

fn read_endian(s: &String) -> (r: Option<Endian>)
    ensures
        r == endian_of(s@),
{
    if text_is(s, "little") {
        Some(Endian::Little)
    } else if text_is(s, "big") {
        Some(Endian::Big)
    } else {
        None
    }
}

fn read_number(s: &[char], radix: u32, max: u64) -> (r: Option<u64>)
    requires
        2 <= radix <= 36,
    ensures
        match from_str_radix(s@, radix as nat, max as nat) {
            Ok(v) => r == Some(v as u64),
            Err(_) => r is None,
        },
{
    match parse_radix(s, radix, max) {
        Ok(v) => Some(v),
        Err(_) => None,
    }
}

fn read_version(s: &String) -> (r: Option<u8>)
    ensures
        r == version_byte(s@),
{
    if text_is(s, "1") {
        return Some(1);
    }
    let c = chars_of(s.as_str());
    match read_number(c.as_slice(), 10, 255) {
        Some(v) => {
            proof {
                crate::readelf::numbers::lemma_radix_bound(s@, 10, 255);
            }
            Some(v as u8)
        },
        None => None,
    }
}

fn read_os_abi(s: &String) -> (r: Option<TargetOsAbi>)
    ensures
        r == os_abi_of(s@),
{
    let c = chars_of(s.as_str());
    let sysv = chars_of("UNIX - System V");
    let arm = chars_of("Arm");
    let standalone = chars_of("Standalone");
    if contains_chars(c.as_slice(), sysv.as_slice()) {
        Some(TargetOsAbi::SysV)
    } else if contains_chars(c.as_slice(), arm.as_slice()) {
        Some(TargetOsAbi::Arm)
    } else if contains_chars(c.as_slice(), standalone.as_slice()) {
        Some(TargetOsAbi::Standalone)
    } else {
        None
    }
}

fn utf8_width_of(c: char) -> (w: u8)
    ensures
        w == utf8_width(c),
{
    let v = c as u32;
    if v < 0x80 {
        1
    } else if v < 0x800 {
        2
    } else if v < 0x10000 {
        3
    } else {
        4
    }
}

fn read_prefixed_hex(s: &String, max: u64) -> (r: Option<u64>)
    ensures
        match prefixed_hex(s@, max as nat) {
            Some(v) => r == Some(v as u64),
            None => r is None,
        },
{
    let c = chars_of(s.as_str());
    let n = c.len();
    let start: usize = if n >= 1 && utf8_width_of(c[0]) == 2 {
        1
    } else if n >= 2 && utf8_width_of(c[0]) == 1 && utf8_width_of(c[1]) == 1 {
        2
    } else {
        return None;
    };
    let rest = crate::strs::copy_range(c.as_slice(), start, n);
    assert(start == 1 ==> rest@ =~= s@.drop_first());
    read_number(rest.as_slice(), 16, max)
}

fn read_decimal(s: &String, max: u64) -> (r: Option<u64>)
    ensures
        match decimal_field(s@, max as nat) {
            Some(v) => r == Some(v as u64),
            None => r is None,
        },
{
    let c = chars_of(s.as_str());
    read_number(c.as_slice(), 10, max)
}

/// Reads the header values from the fields of a report (already cut to their
/// first words): the class, byte order and OS ABI by name, the versions as
/// bytes, the type (which must be `EXEC`), the machine as the name of its
/// constant, the version, entry and flags as hexadecimal after a two-character
/// prefix, and the offsets and sizes as decimal numbers. The first field that
/// cannot be read, in that order, is the error, with its text.
pub fn elf_header_values(h: &ReadElfH) -> (r: Result<HeaderValues, (HeaderField, String)>)
    ensures
        match first_bad_field(h@) {
            Some(f) => r matches Err(e) && e.0 == f && e.1@ == field_text(h@, f),
            None => r matches Ok(v) && values_match(v, h@),
        },
{
    let file_class = match read_class(&h.file_class) {
        Some(c) => c,
        None => { return Err((HeaderField::FileClass, h.file_class.clone())); },
    };
    let endianness = match read_endian(&h.endianness) {
        Some(e) => e,
        None => { return Err((HeaderField::Endianness, h.endianness.clone())); },
    };
    let elf_version = match read_version(&h.elf_version) {
        Some(v) => v,
        None => { return Err((HeaderField::ElfVersion, h.elf_version.clone())); },
    };
    let target_os_abi = match read_os_abi(&h.target_os_abi) {
        Some(a) => a,
        None => { return Err((HeaderField::TargetOsAbi, h.target_os_abi.clone())); },
    };
    let abi_version = match read_version(&h.abi_version) {
        Some(v) => v,
        None => { return Err((HeaderField::AbiVersion, h.abi_version.clone())); },
    };
    if !text_is(&h.ty, "EXEC") {
        return Err((HeaderField::Type, h.ty.clone()));
    }
    let machine = machine_const_name(h.machine.as_str());
    let version = match read_prefixed_hex(&h.version, u32::MAX as u64) {
        Some(v) => v,
        None => { return Err((HeaderField::Version, h.version.clone())); },
    };
    let entry = match read_prefixed_hex(&h.entry, u64::MAX) {
        Some(v) => v,
        None => { return Err((HeaderField::Entry, h.entry.clone())); },
    };
    let program_header_offset = match read_decimal(&h.program_header_offset, u64::MAX) {
        Some(v) => v,
        None => { return Err((HeaderField::ProgramHeaderOffset, h.program_header_offset.clone())); },
    };
    let section_header_offset = match read_decimal(&h.section_header_offset, u64::MAX) {
        Some(v) => v,
        None => { return Err((HeaderField::SectionHeaderOffset, h.section_header_offset.clone())); },
    };
    let flags = match read_prefixed_hex(&h.flags, u32::MAX as u64) {
        Some(v) => v,
        None => { return Err((HeaderField::Flags, h.flags.clone())); },
    };
    let elf_header_size = match read_decimal(&h.elf_header_size, u16::MAX as u64) {
        Some(v) => v,
        None => { return Err((HeaderField::ElfHeaderSize, h.elf_header_size.clone())); },
    };
    let program_header_entry_size = match read_decimal(&h.program_header_entry_size, u16::MAX as u64) {
        Some(v) => v,
        None => {
            return Err((HeaderField::ProgramHeaderEntrySize, h.program_header_entry_size.clone()));
        },
    };
    let program_header_count = match read_decimal(&h.program_header_count, u16::MAX as u64) {
        Some(v) => v,
        None => { return Err((HeaderField::ProgramHeaderCount, h.program_header_count.clone())); },
    };
    let section_header_entry_size = match read_decimal(&h.section_header_entry_size, u16::MAX as u64) {
        Some(v) => v,
        None => {
            return Err((HeaderField::SectionHeaderEntrySize, h.section_header_entry_size.clone()));
        },
    };
    let section_header_count = match read_decimal(&h.section_header_count, u16::MAX as u64) {
        Some(v) => v,
        None => { return Err((HeaderField::SectionHeaderCount, h.section_header_count.clone())); },
    };
    let shstrndx = match read_decimal(
        &h.section_header_index_of_section_name_string_table,
        u16::MAX as u64,
    ) {
        Some(v) => v,
        None => {
            return Err(
                (
                    HeaderField::SectionNameTableIndex,
                    h.section_header_index_of_section_name_string_table.clone(),
                ),
            );
        },
    };
    proof {
        let t = h@;
        crate::readelf::numbers::lemma_radix_bound(after_two_bytes(t.version).unwrap(), 16, u32::MAX as nat);
        crate::readelf::numbers::lemma_radix_bound(after_two_bytes(t.flags).unwrap(), 16, u32::MAX as nat);
        crate::readelf::numbers::lemma_radix_bound(t.elf_header_size, 10, u16::MAX as nat);
        crate::readelf::numbers::lemma_radix_bound(t.program_header_entry_size, 10, u16::MAX as nat);
        crate::readelf::numbers::lemma_radix_bound(t.program_header_count, 10, u16::MAX as nat);
        crate::readelf::numbers::lemma_radix_bound(t.section_header_entry_size, 10, u16::MAX as nat);
        crate::readelf::numbers::lemma_radix_bound(t.section_header_count, 10, u16::MAX as nat);
        crate::readelf::numbers::lemma_radix_bound(
            t.section_header_index_of_section_name_string_table,
            10,
            u16::MAX as nat,
        );
    }
    Ok(
        HeaderValues {
            ident: ElfHeaderIdent {
                file_class,
                endianness,
                elf_version: ElfVersion(elf_version),
                target_os_abi,
                abi_version: AbiVersion(abi_version),
            },
            ty: ElfType::Executable,
            machine,
            version: version as u32,
            entry,
            program_header_offset,
            section_header_offset,
            flags: flags as u32,
            elf_header_size: elf_header_size as u16,
            program_header_entry_size: program_header_entry_size as u16,
            program_header_count: program_header_count as u16,
            section_header_entry_size: section_header_entry_size as u16,
            section_header_count: section_header_count as u16,
            section_header_index_of_section_name_string_table: shstrndx as u16,
        },
    )
}

} // verus!
