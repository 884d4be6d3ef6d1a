//! ELF64 image parsing.

pub mod header;
pub mod program_header;
pub mod strtab;
pub mod section_header;
pub mod symbol;
pub mod dynamic;
pub mod image;
pub mod hash;
