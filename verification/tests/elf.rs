use oso::elf::header::{ElfHeader, ElfType, FileClass, Endian, TargetOsAbi};
use oso::elf::image::{elf_address_range, segment_image, Elf};
use oso::elf::program_header::ProgramHeader;
use oso::elf::section_header::{get_string_table, SectionHeader};
use oso::elf::dynamic::{Dyn, DynamicInfo, DT_NEEDED, DT_NULL, DT_STRSZ, DT_VERDEF, DT_VERDEFNUM};
use oso::elf::strtab::{StringContext, StringTable};
use oso::error::OsoLoaderError;

fn le(v: u64, n: usize) -> Vec<u8> {
    (0..n).map(|i| (v >> (8 * i)) as u8).collect()
}

fn phdr(ty: u32, flags: u32, off: u64, va: u64, fs: u64, ms: u64, align: u64) -> Vec<u8> {
    let mut b = Vec::new();
    b.extend(le(ty as u64, 4));
    b.extend(le(flags as u64, 4));
    b.extend(le(off, 8));
    b.extend(le(va, 8));
    b.extend(le(va, 8));
    b.extend(le(fs, 8));
    b.extend(le(ms, 8));
    b.extend(le(align, 8));
    b
}

fn header(phnum: u16, shoff: u64, shnum: u16, shstrndx: u16) -> Vec<u8> {
    let mut b = vec![0x7f, b'E', b'L', b'F', 2, 1, 1, 0, 0, 0, 0, 0, 0, 0, 0, 0];
    b.extend(le(2, 2));
    b.extend(le(0x3e, 2));
    b.extend(le(1, 4));
    b.extend(le(0x401000, 8));
    b.extend(le(64, 8));
    b.extend(le(shoff, 8));
    b.extend(le(0, 4));
    b.extend(le(64, 2));
    b.extend(le(56, 2));
    b.extend(le(phnum as u64, 2));
    b.extend(le(64, 2));
    b.extend(le(shnum as u64, 2));
    b.extend(le(shstrndx as u64, 2));
    b
}

fn image() -> Vec<u8> {
    let mut b = header(2, 0, 0, 0);
    b.extend(phdr(1, 5, 0, 0x400000, 0xb0, 0x1000, 0x1000));
    b.extend(phdr(1, 6, 0xb0, 0x401000, 0x10, 0x20, 0x1000));
    while b.len() < 0xc0 {
        b.push(0xaa);
    }
    b
}

#[test]
fn header_fields_are_read_little_endian() {
    let h = ElfHeader::parse(&image()).unwrap();
    assert_eq!(h.ident.file_class, FileClass::Bit64);
    assert_eq!(h.ident.endianness, Endian::Little);
    assert_eq!(h.ident.target_os_abi, TargetOsAbi::SysV);
    assert_eq!(h.ty, ElfType::Executable);
    assert_eq!(h.machine, 0x3e);
    assert_eq!(h.entry, 0x401000);
    assert_eq!(h.program_header_offset, 64);
    assert_eq!(h.program_header_count, 2);
    assert!(h.is_64());
    assert!(h.is_little_endian());
    assert!(!h.is_lib());
}

#[test]
fn bad_magic_is_an_error() {
    let mut b = image();
    b[1] = b'X';
    match ElfHeader::parse(&b) {
        Err(OsoLoaderError::EfiParse(m)) => assert!(m.contains("magic")),
        _ => panic!("expected a parse error"),
    }
}

#[test]
fn unknown_type_is_an_error() {
    let mut b = image();
    b[16] = 9;
    assert!(ElfHeader::parse(&b).is_err());
}

#[test]
fn program_headers_are_read_in_order() {
    let b = image();
    let mut off = 64usize;
    let phs = ProgramHeader::parse(&b, &mut off, 2).unwrap();
    assert_eq!(off, 64 + 2 * 56);
    assert_eq!(phs[0].ty, 1);
    assert_eq!(phs[0].flags, 5);
    assert_eq!(phs[0].memory_size, 0x1000);
    assert_eq!(phs[1].offset, 0xb0);
    assert_eq!(phs[1].virtual_address, 0x401000);
    assert_eq!(phs[1].file_size, 0x10);
}

#[test]
fn whole_image_parses() {
    let elf = Elf::parse(&image()).unwrap();
    assert_eq!(elf.program_headers.len(), 2);
    assert_eq!(elf.section_headers.len(), 0);
    assert_eq!(elf.entry_point_address, 0x401000);
    assert!(elf.is_64);
    assert!(elf.little_endian);
    assert!(!elf.is_shared_object);
    assert!(elf.interpreter.is_none());
    assert_eq!(elf_address_range(&elf), (0x400000, 0x401020));
}

#[test]
fn segment_image_pads_with_zeros() {
    let b = image();
    let elf = Elf::parse(&b).unwrap();
    let img = segment_image(&elf.program_headers[1], &b);
    assert_eq!(img.len(), 0x20);
    assert_eq!(&img[..0x10], &b[0xb0..0xc0]);
    assert!(img[0x10..].iter().all(|x| *x == 0));
}

#[test]
fn string_table_splits_at_delimiter() {
    let mut b = vec![0u8; 8];
    b.extend_from_slice(b"\0.text\0.data\0");
    let t = StringTable::parse(&b, 8, 13, 0).unwrap();
    let strs: Vec<(usize, String)> = t.strings.clone();
    assert_eq!(strs, vec![(0, "".to_string()), (1, ".text".to_string()), (7, ".data".to_string())]);
    assert!(StringTable::parse(&b, 8, 100, 0).is_err());
    assert!(StringTable::parse(&b, 8, 12, b'#').is_err());
}

#[test]
fn string_table_of_section_headers() {
    let mut b = vec![0u8; 4];
    b.extend_from_slice(b"\0abc\0");
    let sh = SectionHeader {
        name: 0,
        ty: 3,
        flags: 0,
        address: 0,
        offset: 4,
        size: 5,
        link: 0,
        info: 0,
        section_align: 1,
        entry_size: 0,
    };
    let t = get_string_table(&[sh], 0, &b).unwrap();
    assert_eq!(t.strings.len(), 2);
    assert_eq!(t.strings[1], (1, "abc".to_string()));
    let none = get_string_table(&[sh], 5, &b).unwrap();
    assert_eq!(none.strings.len(), 0);
}

fn parse_error(r: Result<Elf, OsoLoaderError>) -> String {
    match r {
        Err(OsoLoaderError::EfiParse(m)) => m,
        _ => panic!("expected a parse error"),
    }
}

#[test]
fn elf_parse_passes_on_the_header_error() {
    let mut b = image();
    b[1] = b'X';
    assert_eq!(parse_error(Elf::parse(&b)), "bad magic number: [127, 88, 76, 70]");
    let mut b = image();
    b[16] = 9;
    assert_eq!(parse_error(Elf::parse(&b)), "unknown type: 9");
    let mut b = image();
    b[4] = 7;
    assert_eq!(parse_error(Elf::parse(&b)), "invalid file class: 7");
    assert_eq!(parse_error(Elf::parse(&vec![0u8; 3])), "file too small: 3");
}

#[test]
fn dynamic_entries_update_their_own_field() {
    let load = ProgramHeader {
        ty: oso::elf::program_header::PT_LOAD,
        flags: 5,
        offset: 0x1000,
        virtual_address: 0x40_0000,
        physical_address: 0x40_0000,
        file_size: 0x2000,
        memory_size: 0x2000,
        align: 0x1000,
    };
    let phdrs = vec![load];
    let mut info = DynamicInfo::default();
    info.update(&phdrs, &Dyn { tag: DT_NEEDED, val: 7 });
    info.update(&phdrs, &Dyn { tag: DT_NEEDED, val: 9 });
    assert_eq!(info.required_shared_lib_count, 2);
    assert_eq!(info.version_need_count, 0);
    info.update(&phdrs, &Dyn { tag: DT_VERDEF, val: 0x40_0100 });
    assert_eq!(info.virsion_definition_table_address, 0x1100);
    assert_eq!(info.version_definition_count, 0);
    info.update(&phdrs, &Dyn { tag: DT_VERDEFNUM, val: 3 });
    assert_eq!(info.version_definition_count, 3);
    assert_eq!(info.virsion_definition_table_address, 0x1100);
    let before = info;
    info.update(&phdrs, &Dyn { tag: DT_NULL, val: 1 });
    assert_eq!(info, before);
    info.update(&phdrs, &Dyn { tag: DT_STRSZ, val: 40 });
    assert_eq!(info, DynamicInfo { string_table_size: 40, ..before });
}

#[test]
fn read_bytes_stops_at_the_delimiter() {
    assert_eq!(StringContext::Delimiter(0).read_bytes(b"\0ab").unwrap(), "");
    assert_eq!(StringContext::Delimiter(0).read_bytes(b"ab\0cd").unwrap(), "ab");
    assert!(StringContext::Delimiter(0).read_bytes(b"ab").is_err());
    assert_eq!(StringContext::Length(2).read_bytes(b"abc").unwrap(), "ab");
}

#[test]
fn default_string_table_has_a_null_delimiter() {
    let t = get_string_table(&[], 0xffff, &vec![]).unwrap();
    assert!(t.bytes.is_empty() && t.strings.is_empty());
    assert_eq!(t.delimitor, StringContext::Delimiter(0));
}
