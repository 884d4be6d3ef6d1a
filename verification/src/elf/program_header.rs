//! ELF64 program headers (segment descriptions).

use vstd::prelude::*;
use crate::bytes::{le_at, read_le_u32, read_le_u64};
use crate::error::Rslt;

verus! {

/// Unused entry.
pub const PT_NULL: u32 = 0;
/// Loadable segment.
pub const PT_LOAD: u32 = 1;
/// Dynamic linking information.
pub const PT_DYNAMIC: u32 = 2;
/// Path of the program interpreter.
pub const PT_INTERP: u32 = 3;
/// Auxiliary information.
pub const PT_NOTE: u32 = 4;
/// The program header table itself.
pub const PT_PHDR: u32 = 6;

/// Size of one ELF64 program header.
pub const PROGRAM_HEADER_SIZE_64: usize = 56;

/// One segment description.
#[derive(PartialEq, Eq, Structural, Clone, Copy, Debug)]
pub struct ProgramHeader {
    pub ty: u32,
    pub flags: u32,
    pub offset: u64,
    pub virtual_address: u64,
    pub physical_address: u64,
    pub file_size: u64,
    pub memory_size: u64,
    pub align: u64,
}

/// The program header whose 56 bytes start at `b[off]`.
pub open spec fn spec_program_header(b: Seq<u8>, off: int) -> ProgramHeader {
    ProgramHeader {
        ty: le_at(b, off, 4) as u32,
        flags: le_at(b, off + 4, 4) as u32,
        offset: le_at(b, off + 8, 8) as u64,
        virtual_address: le_at(b, off + 16, 8) as u64,
        physical_address: le_at(b, off + 24, 8) as u64,
        file_size: le_at(b, off + 32, 8) as u64,
        memory_size: le_at(b, off + 40, 8) as u64,
        align: le_at(b, off + 48, 8) as u64,
    }
}

/// The `count` consecutive program headers starting at `b[off]`.
pub open spec fn spec_program_headers(b: Seq<u8>, off: int, count: nat) -> Seq<ProgramHeader> {
    Seq::new(count, |i: int| spec_program_header(b, off + 56 * i))
}

impl ProgramHeader {
    /// Reads `count` program headers from `binary` starting at `*offset`, and
    /// leaves `*offset` just past them. The table must lie within `binary`.
    pub fn parse(binary: &[u8], offset: &mut usize, count: usize) -> (r: Rslt<Vec<ProgramHeader>>)
        requires
            count <= binary@.len() / 56,
            *old(offset) + 56 * count <= binary@.len(),
        ensures
            r matches Ok(v) && v@ == spec_program_headers(binary@, *old(offset) as int, count as nat),
            *final(offset) == *old(offset) + 56 * count,
    {
        let ghost start = *offset as int;
        let mut program_headers: Vec<ProgramHeader> = Vec::new();
        let mut k: usize = 0;
        while k < count
            invariant
                k <= count,
                start + 56 * count <= binary@.len(),
                *offset == start + 56 * k,
                program_headers@ =~= spec_program_headers(binary@, start, k as nat),
            decreases count - k,
        {
            let ty = read_le_u32(offset, binary);
            let flags = read_le_u32(offset, binary);
            let segment_offset = read_le_u64(offset, binary);
            let virtual_address = read_le_u64(offset, binary);
            let physical_address = read_le_u64(offset, binary);
            let file_size = read_le_u64(offset, binary);
            let memory_size = read_le_u64(offset, binary);
            let align = read_le_u64(offset, binary);
            let program_header = ProgramHeader {
                ty,
                flags,
                offset: segment_offset,
                virtual_address,
                physical_address,
                file_size,
                memory_size,
                align,
            };
            program_headers.push(program_header);
            k = k + 1;
        }
        Ok(program_headers)
    }
}

} // verus!
