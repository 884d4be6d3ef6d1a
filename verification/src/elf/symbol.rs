//! Parsing context and symbol / relocation section descriptions.

use vstd::prelude::*;
use vstd::slice::{slice_subrange, slice_to_vec};
use crate::elf::header::Endian;
use crate::error::{OsoLoaderError, Rslt};
use crate::text::message_with_number;

verus! {

/// The size of a binary container: `Big` is the 64-bit layout.
#[derive(PartialEq, Eq, Structural, Clone, Copy, Debug)]
pub enum Container {
    Little,
    Big,
}

impl Container {
    /// The 64-bit layout, the only one the loader reads.
    pub fn default() -> (c: Container)
        ensures
            c == Container::Big,
    {
        Container::Big
    }
}

/// Layout and byte order used to read a table.
#[derive(PartialEq, Eq, Structural, Clone, Copy, Debug)]
pub struct Context {
    pub container: Container,
    pub le: Endian,
}

impl Context {
    pub fn default() -> (c: Context)
        ensures
            c == (Context { container: Container::Big, le: Endian::Big }),
    {
        Context { container: Container::default(), le: Endian::default() }
    }
}

/// A copy of the bytes of a symbol table and where they were found.
pub struct SymbolTable {
    pub bytes: Vec<u8>,
    pub count: usize,
    pub ctx: Context,
    pub start: usize,
    pub end: usize,
}

/// Size of one ELF64 symbol entry.
pub const SIZE_OF_SYMBOL_64: usize = 24;

impl SymbolTable {
    /// An empty table.
    pub fn default() -> (t: SymbolTable)
        ensures
            t.bytes@.len() == 0,
            t.count == 0,
            t.ctx == (Context { container: Container::Big, le: Endian::Big }),
            t.start == 0,
            t.end == 0,
    {
        SymbolTable { bytes: Vec::new(), count: 0, ctx: Context::default(), start: 0, end: 0 }
    }

    /// Copies the `count` 64-bit symbol entries at `offset` in `binary`. Fails
    /// when their total size does not fit in a `usize`; the entries must
    /// otherwise lie within `binary`.
    pub fn parse(binary: &Vec<u8>, offset: usize, count: usize, context: Context) -> (r: Rslt<
        SymbolTable,
    >)
        requires
            context.container == Container::Big,
            count * 24 <= usize::MAX ==> offset + count * 24 <= binary@.len(),
        ensures
            count * 24 > usize::MAX ==> r matches Err(OsoLoaderError::EfiParse(_)),
            count * 24 <= usize::MAX ==> (r matches Ok(t) && t.bytes@ == binary@.subrange(
                offset as int,
                offset + count * 24,
            ) && t.count == count && t.ctx == context && t.start == offset && t.end == offset
                + count * 24),
    {
        let size = match count.checked_mul(SIZE_OF_SYMBOL_64) {
            Some(size) => size,
            None => {
                return Err(
                    OsoLoaderError::EfiParse(
                        message_with_number("too many elf symbols, count ", count as u64),
                    ),
                );
            },
        };
        let _n = binary.len();
        let bytes = slice_to_vec(slice_subrange(binary.as_slice(), offset, offset + size));
        Ok(SymbolTable { bytes, count, ctx: context, start: offset, end: offset + size })
    }
}

/// Whether relocations carry addends, and the layout they are read with.
pub type RelocationContext = (bool, Context);

/// A copy of the bytes of a relocation section.
pub struct RelocationSection {
    pub bytes: Vec<u8>,
    pub count: usize,
    pub context: RelocationContext,
    pub start: usize,
    pub end: usize,
}

impl RelocationSection {
    /// An empty section.
    pub fn default() -> (s: RelocationSection)
        ensures
            s.bytes@.len() == 0,
            s.count == 0,
            s.context == (false, Context { container: Container::Big, le: Endian::Big }),
            s.start == 0,
            s.end == 0,
    {
        RelocationSection {
            bytes: Vec::new(),
            count: 0,
            context: (false, Context { container: Container::Big, le: Endian::Big }),
            start: 0,
            end: 0,
        }
    }
}

/// The bytes of a symbol version section.
pub struct SymbolVersionSection {
    pub bytes: Vec<u8>,
    pub context: Context,
}

/// The bytes of a version definition section.
pub struct VersionDefinitionSection {
    pub bytes: Vec<u8>,
    pub count: usize,
    pub context: Context,
}

/// The bytes of a version requirement section.
pub struct VersionNeededSection {
    pub bytes: Vec<u8>,
    pub count: usize,
    pub context: Context,
}

} // verus!
