//! ELF64 section headers.

use vstd::prelude::*;
use crate::bytes::{le_at, read_le_u32, read_le_u64};
use crate::elf::strtab::{
    StringContext, StringTable, region_fits, spec_table_strings, strings_view, table_holds,
    table_parses,
};
use crate::error::{OsoLoaderError, Rslt};

verus! {

/// Undefined section.
pub const SHN_UNDEF: u32 = 0;
/// Start of reserved indices.
pub const SHN_LORESERVE: u32 = 0xff00;
/// Start of processor-specific.
pub const SHN_LOPROC: u32 = 0xff00;
/// Order section before all others (Solaris).
pub const SHN_BEFORE: u32 = 0xff00;
/// Order section after all others (Solaris).
pub const SHN_AFTER: u32 = 0xff01;
/// End of processor-specific.
pub const SHN_HIPROC: u32 = 0xff1f;
/// Start of OS-specific.
pub const SHN_LOOS: u32 = 0xff20;
/// End of OS-specific.
pub const SHN_HIOS: u32 = 0xff3f;
/// Associated symbol is absolute.
pub const SHN_ABS: u32 = 0xfff1;
/// Associated symbol is common.
pub const SHN_COMMON: u32 = 0xfff2;
/// Index is in extra table.
pub const SHN_XINDEX: u32 = 0xffff;
/// End of reserved indices.
pub const SHN_HIRESERVE: u32 = 0xffff;
/// Section type of a symbol table.
pub const SHT_SYMTAB: u32 = 2;

/// Size of one ELF64 section header.
pub const SECTION_HEADER_SIZE_64: usize = 64;

/// One section description.
#[derive(PartialEq, Eq, Structural, Clone, Copy, Debug)]
pub struct SectionHeader {
    pub name: usize,
    pub ty: u32,
    pub flags: u64,
    pub address: u64,
    pub offset: u64,
    pub size: u64,
    pub link: u64,
    pub info: u64,
    pub section_align: u64,
    pub entry_size: u64,
}

/// The section header whose 64 bytes start at `b[off]` (ELF64 layout: the name
/// offset, type, link and info are 4-byte fields, the others 8-byte fields).
pub open spec fn spec_section_header(b: Seq<u8>, off: int) -> SectionHeader {
    SectionHeader {
        name: le_at(b, off, 4) as usize,
        ty: le_at(b, off + 4, 4) as u32,
        flags: le_at(b, off + 8, 8) as u64,
        address: le_at(b, off + 16, 8) as u64,
        offset: le_at(b, off + 24, 8) as u64,
        size: le_at(b, off + 32, 8) as u64,
        link: le_at(b, off + 40, 4) as u64,
        info: le_at(b, off + 44, 4) as u64,
        section_align: le_at(b, off + 48, 8) as u64,
        entry_size: le_at(b, off + 56, 8) as u64,
    }
}

/// The `count` consecutive section headers starting at `b[off]`.
pub open spec fn spec_section_headers(b: Seq<u8>, off: int, count: nat) -> Seq<SectionHeader> {
    Seq::new(count, |i: int| spec_section_header(b, off + 64 * i))
}

impl SectionHeader {
    /// Reads `count` section headers from `binary` starting at `*offset`, and
    /// leaves `*offset` just past them. The table must lie within `binary`.
    pub fn parse(binary: &[u8], offset: &mut usize, count: usize) -> (r: Rslt<Vec<SectionHeader>>)
        requires
            count <= binary@.len() / 64,
            *old(offset) + 64 * count <= binary@.len(),
        ensures
            r matches Ok(v) && v@ == spec_section_headers(binary@, *old(offset) as int, count as nat),
            *final(offset) == *old(offset) + 64 * count,
    {
        let ghost start = *offset as int;
        let mut section_headers: Vec<SectionHeader> = Vec::new();
        let mut k: usize = 0;
        while k < count
            invariant
                k <= count,
                start + 64 * count <= binary@.len(),
                *offset == start + 64 * k,
                section_headers@ =~= spec_section_headers(binary@, start, k as nat),
            decreases count - k,
        {
            let name = read_le_u32(offset, binary);
            let ty = read_le_u32(offset, binary);
            let flags = read_le_u64(offset, binary);
            let address = read_le_u64(offset, binary);
            let segment_offset = read_le_u64(offset, binary);
            let size = read_le_u64(offset, binary);
            let link = read_le_u32(offset, binary);
            let info = read_le_u32(offset, binary);
            let section_align = read_le_u64(offset, binary);
            let entry_size = read_le_u64(offset, binary);
            let section_header = SectionHeader {
                name: name as usize,
                ty,
                flags,
                address,
                offset: segment_offset,
                size,
                link: link as u64,
                info: info as u64,
                section_align,
                entry_size,
            };
            section_headers.push(section_header);
            k = k + 1;
        }
        Ok(section_headers)
    }
}

/// The index of the section holding a string table, after following the
/// extended-index convention: `SHN_XINDEX` means the index is the link field of
/// the first section header. `None` when there are no section headers to follow.
pub open spec fn resolved_string_table_index(headers: Seq<SectionHeader>, idx: int) -> Option<int> {
    if idx == SHN_XINDEX {
        if headers.len() == 0 {
            None
        } else {
            Some(headers[0].link as usize as int)
        }
    } else {
        Some(idx)
    }
}

/// Whether the string table that section `idx` of `headers` describes reads
/// from `b` without error.
pub open spec fn string_table_parses(headers: Seq<SectionHeader>, idx: int, b: Seq<u8>) -> bool {
    match resolved_string_table_index(headers, idx) {
        None => true,
        Some(i) => i >= headers.len() || table_parses(
            b,
            headers[i].offset as usize as int,
            headers[i].size as usize as int,
            0,
        ),
    }
}

/// Whether `t` holds the string table that section `idx` of `headers`
/// describes in `b`; the empty table where no section is named.
pub open spec fn string_table_holds(t: StringTable, headers: Seq<SectionHeader>, idx: int, b: Seq<u8>) -> bool {
    match resolved_string_table_index(headers, idx) {
        Some(i) if i < headers.len() => table_holds(
            t,
            b,
            headers[i].offset as usize as int,
            headers[i].size as usize as int,
        ),
        _ => t.bytes@.len() == 0 && t.strings@.len() == 0 && t.delimitor == StringContext::Delimiter(0),
    }
}

/// Reads the string table that section `idx` of `section_headers` describes.
/// An index past the end of the table (or `SHN_XINDEX` with no sections) gives
/// an empty table; a section whose bytes lie outside `binary` is an error.
pub fn get_string_table(section_headers: &[SectionHeader], idx: usize, binary: &Vec<u8>) -> (r:
    Rslt<StringTable>)
    requires
        binary@.len() <= isize::MAX,
    ensures
        ({
            let headers = section_headers@;
            match resolved_string_table_index(headers, idx as int) {
                None => (r matches Ok(t) && t.bytes@.len() == 0 && t.strings@.len() == 0 && t.delimitor
                    == StringContext::Delimiter(0)),
                Some(i) => if i >= headers.len() {
                    r matches Ok(t) && t.bytes@.len() == 0 && t.strings@.len() == 0 && t.delimitor
                        == StringContext::Delimiter(0)
                } else {
                    let off = headers[i].offset as usize as int;
                    let len = headers[i].size as usize as int;
                    if !region_fits(off, len, binary@.len() as int) {
                        r matches Err(OsoLoaderError::EfiParse(_))
                    } else {
                        match spec_table_strings(binary@.subrange(off, off + len), 0, 0) {
                            Some(strs) => r matches Ok(t) && t.bytes@ == binary@.subrange(
                                off,
                                off + len,
                            ) && strings_view(t.strings@) == strs && t.delimitor
                                == StringContext::Delimiter(0),
                            None => r matches Err(OsoLoaderError::EfiParse(_)),
                        }
                    }
                },
            }
        }),
{
    let mut idx = idx;
    if idx == SHN_XINDEX as usize {
        if section_headers.len() == 0 {
            return Ok(StringTable::default());
        }
        idx = section_headers[0].link as usize;
    }
    if idx >= section_headers.len() {
        Ok(StringTable::default())
    } else {
        let header = &section_headers[idx];
        StringTable::parse(binary, header.offset as usize, header.size as usize, 0)
    }
}

} // verus!
