//! Verified core of the oso boot loader: ELF image parsing, UEFI helper types,
//! `readelf` report parsing and the small utilities around them.

pub mod bytes;
pub mod text;
pub mod error;
pub mod elf;
pub mod uefi;
pub mod guid;
pub mod strs;
pub mod readelf;
pub mod font;
pub mod naming;
pub mod status;
pub mod graphic;
pub mod parser;
pub mod tree;
pub mod integer;
pub mod dom;
pub mod html;
pub mod macro_input;

use vstd::prelude::*;

verus! {
} // verus!
