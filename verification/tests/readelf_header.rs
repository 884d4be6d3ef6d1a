use oso::elf::header::{ElfType, Endian, FileClass, TargetOsAbi};
use oso::readelf::values::{elf_header_values, HeaderField};
use oso::readelf::header::{
    first_word_string, key_value, contains_text, parse_readelf_h, Property, ReadElfH,
};

#[test]
fn test_readelf_h_default() {
    let header = ReadElfH::default();

    assert_eq!(header.file_class, "");
    assert_eq!(header.endianness, "");
    assert_eq!(header.elf_version, "");
    assert_eq!(header.target_os_abi, "");
    assert_eq!(header.abi_version, "");
    assert_eq!(header.ty, "");
    assert_eq!(header.machine, "");
    assert_eq!(header.version, "");
    assert_eq!(header.entry, "");
    assert_eq!(header.program_header_offset, "");
    assert_eq!(header.section_header_offset, "");
    assert_eq!(header.flags, "");
    assert_eq!(header.elf_header_size, "");
    assert_eq!(header.program_header_entry_size, "");
    assert_eq!(header.program_header_count, "");
    assert_eq!(header.section_header_entry_size, "");
    assert_eq!(header.section_header_count, "");
    assert_eq!(header.section_header_index_of_section_name_string_table, "");
}

#[test]
fn test_readelf_h_fix_method() {
    let mut header = ReadElfH {
        file_class: "ELF64 (64-bit)".to_string(),
        endianness: "little endian".to_string(),
        elf_version: "1 (current)".to_string(),
        target_os_abi: "UNIX - System V".to_string(),
        abi_version: "0 (default)".to_string(),
        ty: "EXEC (Executable file)".to_string(),
        machine: "Advanced Micro Devices X86-64".to_string(),
        version: "0x1 (current)".to_string(),
        entry: "0x401000 (entry point)".to_string(),
        program_header_offset: "64 (bytes into file)".to_string(),
        section_header_offset: "1234 (bytes into file)".to_string(),
        flags: "0x0 (no flags)".to_string(),
        elf_header_size: "64 (bytes)".to_string(),
        program_header_entry_size: "56 (bytes)".to_string(),
        program_header_count: "2 (program headers)".to_string(),
        section_header_entry_size: "64 (bytes)".to_string(),
        section_header_count: "10 (section headers)".to_string(),
        section_header_index_of_section_name_string_table: "9 (string table index)".to_string(),
    };

    header.fix();

    assert_eq!(header.file_class, "ELF64");
    assert_eq!(header.endianness, "little");
    assert_eq!(header.elf_version, "1");
    assert_eq!(header.target_os_abi, "UNIX - System V");
    assert_eq!(header.abi_version, "0");
    assert_eq!(header.ty, "EXEC");
    assert_eq!(header.machine, "Advanced");
    assert_eq!(header.version, "0x1");
    assert_eq!(header.entry, "0x401000");
    assert_eq!(header.program_header_offset, "64");
    assert_eq!(header.section_header_offset, "1234");
    assert_eq!(header.flags, "0x0");
    assert_eq!(header.elf_header_size, "64");
    assert_eq!(header.program_header_entry_size, "56");
    assert_eq!(header.program_header_count, "2");
    assert_eq!(header.section_header_entry_size, "64");
    assert_eq!(header.section_header_count, "10");
    assert_eq!(header.section_header_index_of_section_name_string_table, "9");
}

#[test]
fn test_property_trait_positive() {
    let key_value = vec!["Class", "ELF64"];
    assert!(key_value.is_peoperty_of("Class"));
}

#[test]
fn test_property_trait_negative() {
    let key_value = vec!["Class", "ELF64"];
    assert!(!key_value.is_peoperty_of("Data"));
}

#[test]
fn test_property_trait_empty_vec() {
    let key_value: Vec<&str> = vec![];
    // An empty pair has no key to compare; the call is not made.
    assert!(key_value.is_empty());
}

#[test]
fn test_property_trait_single_element() {
    let key_value = vec!["Class"];
    assert!(key_value.is_peoperty_of("Class"));
}

#[test]
fn test_property_trait_multiple_elements() {
    let key_value = vec!["Entry point address", "0x401000", "additional", "info"];
    assert!(key_value.is_peoperty_of("Entry point address"));
    assert!(!key_value.is_peoperty_of("0x401000"));
}

#[test]
fn test_debug_trait_implementation() {
    let header = ReadElfH::default();

    let debug_str = format!("{:?}", header);
    assert!(debug_str.contains("ReadElfH"));
}

#[test]
fn test_readelf_h_field_parsing_simulation() {
    let test_cases = vec![
        ("Class:                             ELF64", "Class", "ELF64"),
        ("Data:                              2's complement, little endian", "Data", "2's"),
        ("Version:                           1 (current)", "Version", "1"),
        ("OS/ABI:                            UNIX - System V", "OS/ABI", "UNIX - System V"),
        ("Type:                              EXEC (Executable file)", "Type", "EXEC"),
        ("Machine:                           Advanced Micro Devices X86-64", "Machine", "Advanced"),
        ("Entry point address:               0x401000", "Entry point address", "0x401000"),
    ];

    for (line, expected_key, expected_first_word) in test_cases {
        let key_value = key_value(line);

        if key_value.len() >= 2 {
            assert_eq!(key_value[0], expected_key);

            if expected_key != "OS/ABI" {
                let first_word = first_word_string(&key_value[1]);
                assert_eq!(first_word, expected_first_word);
            }
        }
    }
}

#[test]
fn test_readelf_h_version_field_handling() {
    let elf_version_line = "Version:                           1 (current)";
    let object_version_line = "Version:                           0x1";

    let elf_key_value = key_value(elf_version_line);
    let obj_key_value = key_value(object_version_line);

    assert!(!contains_text(&elf_key_value[1], "0x"));

    assert!(contains_text(&obj_key_value[1], "0x"));
}

const REPORT: &str = "ELF Header:
  Magic:   7f 45 4c 46 02 01 01 00 00 00 00 00 00 00 00 00 
  Class:                             ELF64
  Data:                              2's complement, little endian
  Version:                           1 (current)
  OS/ABI:                            UNIX - System V
  ABI Version:                       0
  Type:                              EXEC (Executable file)
  Machine:                           Advanced Micro Devices X86-64
  Version:                           0x1
  Entry point address:               0x401000
  Start of program headers:          64 (bytes into file)
  Start of section headers:          8624 (bytes into file)
  Flags:                             0x0
  Size of this header:               64 (bytes)
  Size of program headers:           56 (bytes)
  Number of program headers:         4
  Size of section headers:           64 (bytes)
  Number of section headers:         12
  Section header string table index: 11
";

#[test]
fn parse_full_header_report() {
    let h = parse_readelf_h(REPORT);
    assert_eq!(h.file_class, "ELF64");
    assert_eq!(h.endianness, "little");
    assert_eq!(h.elf_version, "1");
    assert_eq!(h.target_os_abi, "UNIX - System V");
    assert_eq!(h.abi_version, "0");
    assert_eq!(h.ty, "EXEC");
    assert_eq!(h.machine, "Advanced");
    assert_eq!(h.version, "0x1");
    assert_eq!(h.entry, "0x401000");
    assert_eq!(h.program_header_offset, "64");
    assert_eq!(h.section_header_offset, "8624");
    assert_eq!(h.flags, "0x0");
    assert_eq!(h.elf_header_size, "64");
    assert_eq!(h.program_header_entry_size, "56");
    assert_eq!(h.program_header_count, "4");
    assert_eq!(h.section_header_entry_size, "64");
    assert_eq!(h.section_header_count, "12");
    assert_eq!(h.section_header_index_of_section_name_string_table, "11");
}

#[test]
fn parse_report_ignores_unknown_lines_and_crlf() {
    let h = parse_readelf_h("Something: else\r\n  Class:   ELF32\r\n\r\n");
    assert_eq!(h.file_class, "ELF32");
    assert_eq!(h.machine, "");
}

#[test]
fn key_value_trims_every_piece() {
    let kv = key_value("  a : b :c  ");
    assert_eq!(kv, vec!["a".to_string(), "b".to_string(), "c".to_string()]);
    let kv = key_value("");
    assert_eq!(kv, vec!["".to_string()]);
}

#[test]
fn first_word_without_space_is_whole_text() {
    assert_eq!(first_word_string("ELF64"), "ELF64");
    assert_eq!(first_word_string(" lead"), "");
    assert_eq!(first_word_string(""), "");
}

#[test]
fn header_values_from_report() {
    let h = parse_readelf_h(REPORT);
    let v = elf_header_values(&h).unwrap();
    assert_eq!(v.ident.file_class, FileClass::Bit64);
    assert_eq!(v.ident.endianness, Endian::Little);
    assert_eq!(v.ident.elf_version.0, 1);
    assert_eq!(v.ident.target_os_abi, TargetOsAbi::SysV);
    assert_eq!(v.ident.abi_version.0, 0);
    assert_eq!(v.ty, ElfType::Executable);
    assert_eq!(v.machine, "EM_ADVANCED");
    assert_eq!(v.version, 1);
    assert_eq!(v.entry, 0x401000);
    assert_eq!(v.program_header_offset, 64);
    assert_eq!(v.section_header_offset, 8624);
    assert_eq!(v.flags, 0);
    assert_eq!(v.elf_header_size, 64);
    assert_eq!(v.program_header_entry_size, 56);
    assert_eq!(v.program_header_count, 4);
    assert_eq!(v.section_header_entry_size, 64);
    assert_eq!(v.section_header_count, 12);
    assert_eq!(v.section_header_index_of_section_name_string_table, 11);
}

#[test]
fn header_values_report_first_bad_field() {
    let mut h = parse_readelf_h(REPORT);
    h.ty = "DYN".to_string();
    h.flags = "zz".to_string();
    let e = elf_header_values(&h).err().unwrap();
    assert_eq!(e, (HeaderField::Type, "DYN".to_string()));
    let mut h = parse_readelf_h(REPORT);
    h.elf_header_size = "70000".to_string();
    let e = elf_header_values(&h).err().unwrap();
    assert_eq!(e.0, HeaderField::ElfHeaderSize);
}
