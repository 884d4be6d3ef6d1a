//! Parsers for the reports of `readelf`: the ELF header (`-h`) and the
//! program headers (`-l`).

pub mod numbers;
pub mod header;
pub mod program;
pub mod values;
