use oso::readelf::numbers::{parse_str_hex_repr, strip_hex_prefix, IntErrorKind, IntField};
use oso::readelf::program::{
    parse_flags_and_align, program_headers_count, program_headers_fields, readelf_l, ReadElfL,
    ReadElfLError,
};

#[test]
fn test_slice_range() {
    let a = strip_hex_prefix("0x1");
    assert_eq!(a, "1");
}

#[test]
fn test_int_field_u32_parse_valid_hex() {
    let result = u32::parse("1a2b").unwrap();
    assert_eq!(result, 0x1a2b);
}

#[test]
fn test_int_field_u32_parse_zero() {
    let result = u32::parse("0").unwrap();
    assert_eq!(result, 0);
}

#[test]
fn test_int_field_u32_parse_max_value() {
    let result = u32::parse("ffffffff").unwrap();
    assert_eq!(result, u32::MAX);
}

#[test]
fn test_int_field_u32_parse_invalid() {
    let result = u32::parse("invalid");
    assert!(result.is_err());
}

#[test]
fn test_int_field_u32_parse_overflow() {
    let result = u32::parse("100000000");
    assert!(result.is_err());
}

#[test]
fn test_int_field_u64_parse_valid_hex() {
    let result = u64::parse("1a2b3c4d5e6f").unwrap();
    assert_eq!(result, 0x1a2b3c4d5e6f);
}

#[test]
fn test_int_field_u64_parse_zero() {
    let result = u64::parse("0").unwrap();
    assert_eq!(result, 0);
}

#[test]
fn test_int_field_u64_parse_max_value() {
    let result = u64::parse("ffffffffffffffff").unwrap();
    assert_eq!(result, u64::MAX);
}

#[test]
fn test_int_field_u64_parse_invalid() {
    let result = u64::parse("invalid");
    assert!(result.is_err());
}

#[test]
fn test_readelf_l_default() {
    let header = ReadElfL::default();

    assert_eq!(header.ty, "");
    assert_eq!(header.offset, 0);
    assert_eq!(header.virtual_address, 0);
    assert_eq!(header.physical_address, 0);
    assert_eq!(header.file_size, 0);
    assert_eq!(header.memory_size, 0);
    assert_eq!(header.flags, 0);
    assert_eq!(header.align, 0);
}

#[test]
fn test_readelf_l_debug() {
    let header = ReadElfL {
        ty: "LOAD".to_string(),
        offset: 0x1000,
        virtual_address: 0x401000,
        physical_address: 0x401000,
        file_size: 0x2000,
        memory_size: 0x2000,
        flags: 5,
        align: 0x1000,
    };

    let debug_str = format!("{:?}", header);
    assert!(debug_str.contains("ReadElfL"));
    assert!(debug_str.contains("LOAD"));
}

#[test]
fn test_parse_str_hex_repr_with_0x_prefix() {
    let result: u64 = parse_str_hex_repr("0x1000").unwrap();
    assert_eq!(result, 0x1000);
}

#[test]
fn test_parse_str_hex_repr_without_0x_prefix() {
    let result: u64 = parse_str_hex_repr("1000").unwrap();
    assert_eq!(result, 0x1000);
}

#[test]
fn test_parse_str_hex_repr_zero() {
    let result: u64 = parse_str_hex_repr("0x0").unwrap();
    assert_eq!(result, 0);
}

#[test]
fn test_parse_str_hex_repr_invalid() {
    let result: Result<u64, IntErrorKind> = parse_str_hex_repr("invalid");
    assert!(result.is_err());
}

#[test]
fn test_parse_str_hex_repr_empty() {
    let result: Result<u64, IntErrorKind> = parse_str_hex_repr("");
    assert!(result.is_err());
}

#[test]
fn test_parse_str_hex_repr_only_0x() {
    let result: Result<u64, IntErrorKind> = parse_str_hex_repr("0x");
    assert!(result.is_err());
}

#[test]
fn test_program_headers_count_parsing() {
    let test_line = "There are 4 program headers, starting at offset 64\n\n".to_string();
    let count = program_headers_count(&test_line).unwrap();
    assert_eq!(count, 4);
}

#[test]
fn test_program_headers_count_different_format() {
    let test_line = "There are 2 program headers, starting at offset 128\n\n".to_string();
    let count = program_headers_count(&test_line).unwrap();
    assert_eq!(count, 2);
}

#[test]
fn test_program_headers_count_invalid_format() {
    let test_line = "Invalid format without numbers\n\n".to_string();
    let result = program_headers_count(&test_line);
    assert!(result.is_err());
}

#[test]
fn test_program_headers_count_no_numbers() {
    let test_line = "There are no program headers\n\n".to_string();
    let result = program_headers_count(&test_line);
    assert!(result.is_err());
}

#[test]
fn test_program_headers_fields_iterator() {
    let test_lines = vec![
        "Program Headers:".to_string(),
        "  Type           Offset             VirtAddr           PhysAddr".to_string(),
        "                 FileSiz            MemSiz              Flags  Align".to_string(),
        "  LOAD           0x0000000000001000 0x0000000000401000 0x0000000000401000".to_string(),
        "                 0x0000000000002000 0x0000000000002000  R E    0x1000".to_string(),
        "  LOAD           0x0000000000003000 0x0000000000403000 0x0000000000403000".to_string(),
        "                 0x0000000000001000 0x0000000000001000  RW     0x1000".to_string(),
    ];

    let collected = program_headers_fields(&test_lines, 2);

    assert_eq!(collected.len(), 2, "{collected:?}");
    assert!(collected[0].contains("LOAD"));
    assert!(collected[1].contains("LOAD"));
}

#[test]
fn test_program_headers_fields_empty_input() {
    let test_lines = vec![];
    let collected = program_headers_fields(&test_lines, 0);

    assert_eq!(collected.len(), 0);
}

#[test]
fn test_program_headers_fields_insufficient_lines() {
    let test_lines = vec![
        "Program Headers:".to_string(),
        "  Type           Offset             VirtAddr           PhysAddr".to_string(),
    ];

    let collected = program_headers_fields(&test_lines, 2);

    assert!(collected.len() <= 2);
}

#[test]
fn test_readelf_l_out_simulation() {
    // The report text comes from running `readelf`; reading it is shown by the
    // other tests.
}

#[test]
fn test_hex_string_edge_cases() {
    let test_cases = vec![
        ("0x0", 0u64),
        ("0x1", 1u64),
        ("0xa", 10u64),
        ("0xA", 10u64),
        ("0xff", 255u64),
        ("0xFF", 255u64),
        ("0x1000", 4096u64),
    ];

    for (input, expected) in test_cases {
        let result: u64 = parse_str_hex_repr(input).unwrap();
        assert_eq!(result, expected, "Failed for input: {}", input);
    }
}

#[test]
fn test_program_header_parsing_complete_flow() {
    let mock_readelf_output = vec![
        "".to_string(),
        "Elf file type is EXEC (Executable file)".to_string(),
        "Entry point 0x401000".to_string(),
        "There are 2 program headers, starting at offset 64\n\n".to_string(),
        "".to_string(),
        "Program Headers:".to_string(),
        "  Type           Offset             VirtAddr           PhysAddr".to_string(),
        "                 FileSiz            MemSiz              Flags  Align".to_string(),
        "  LOAD           0x0000000000001000 0x0000000000401000 0x0000000000401000".to_string(),
        "                 0x0000000000002000 0x0000000000002000  R E    0x1000".to_string(),
        "  LOAD           0x0000000000003000 0x0000000000403000 0x0000000000403000".to_string(),
        "                 0x0000000000001000 0x0000000000001000  RW     0x1000".to_string(),
    ];

    let count = program_headers_count(&mock_readelf_output[3]).unwrap();
    assert_eq!(count, 2);

    let collected = program_headers_fields(&mock_readelf_output, count);
    assert_eq!(collected.len(), 2);
}

const REPORT: &str = "
Elf file type is EXEC (Executable file)
Entry point 0x401000
There are 3 program headers, starting at offset 64

Program Headers:
  Type           Offset             VirtAddr           PhysAddr
                 FileSiz            MemSiz              Flags  Align
  LOAD           0x0000000000001000 0x0000000000401000 0x0000000000401000
                 0x0000000000002000 0x0000000000002000  R E    0x1000
  LOAD           0x0000000000003000 0x0000000000403000 0x0000000000403000
                 0x0000000000001000 0x0000000000001800  RW     0x1000
  GNU_STACK      0x0000000000000000 0x0000000000000000 0x0000000000000000
                 0x0000000000000000 0x0000000000000000  RW     0x10

 Section to Segment mapping:
";

#[test]
fn readelf_l_reads_every_row() {
    let hs = readelf_l(REPORT).unwrap();
    assert_eq!(hs.len(), 3);
    assert_eq!(hs[0].ty, "LOAD");
    assert_eq!(hs[0].offset, 0x1000);
    assert_eq!(hs[0].virtual_address, 0x401000);
    assert_eq!(hs[0].physical_address, 0x401000);
    assert_eq!(hs[0].file_size, 0x2000);
    assert_eq!(hs[0].memory_size, 0x2000);
    assert_eq!(hs[0].flags, 5);
    assert_eq!(hs[0].align, 0x1000);
    assert_eq!(hs[1].flags, 6);
    assert_eq!(hs[1].memory_size, 0x1800);
    assert_eq!(hs[2].ty, "GNU_STACK");
    assert_eq!(hs[2].align, 0x10);
}

#[test]
fn readelf_l_stops_at_count() {
    let report = REPORT.replace("There are 3", "There are 1");
    let hs = readelf_l(&report).unwrap();
    assert_eq!(hs.len(), 1);
}

#[test]
fn readelf_l_reports_bad_count() {
    let report = REPORT.replace("There are 3", "There are x");
    assert_eq!(readelf_l(&report).unwrap_err(), ReadElfLError::Int(IntErrorKind::InvalidDigit));
}

#[test]
fn readelf_l_reports_field_count() {
    let report = REPORT.replace("RW     0x1000", "RW");
    assert_eq!(readelf_l(&report).unwrap_err(), ReadElfLError::FieldCount(7));
}

#[test]
fn readelf_l_reports_bad_hex() {
    let report = REPORT.replace("0x0000000000003000 0x0000000000403000", "0x000000000000300g 0x0000000000403000");
    assert_eq!(readelf_l(&report).unwrap_err(), ReadElfLError::Int(IntErrorKind::InvalidDigit));
}

#[test]
fn int_parse_error_kinds() {
    assert_eq!(u32::parse(""), Err(IntErrorKind::Empty));
    assert_eq!(u32::parse("+"), Err(IntErrorKind::InvalidDigit));
    assert_eq!(u32::parse("-1"), Err(IntErrorKind::InvalidDigit));
    assert_eq!(u32::parse("+1f"), Ok(0x1f));
    assert_eq!(u32::parse("100000000"), Err(IntErrorKind::PosOverflow));
    assert_eq!(u64::parse("10000000000000000"), Err(IntErrorKind::PosOverflow));
    assert_eq!(u64::parse("fffffffffffffffffg"), Err(IntErrorKind::PosOverflow));
    assert_eq!(u64::parse("g0"), Err(IntErrorKind::InvalidDigit));
}

#[test]
fn strip_hex_prefix_cases() {
    assert_eq!(strip_hex_prefix("0X1f"), "1f");
    assert_eq!(strip_hex_prefix("0"), "0");
    assert_eq!(strip_hex_prefix("x0"), "x0");
    assert_eq!(strip_hex_prefix("0x"), "");
}

#[test]
fn int_fields_read_with_or_without_prefix() {
    assert_eq!(u64::parse("0x1a2b3c4d5e6f"), Ok(0x1a2b3c4d5e6f));
    assert_eq!(u64::parse("0X1A"), Ok(0x1a));
    assert_eq!(u32::parse("0xffffffff"), Ok(u32::MAX));
    assert_eq!(u32::parse("0x"), Err(IntErrorKind::Empty));
}

fn row(fields: &[&str]) -> Vec<Vec<char>> {
    fields.iter().map(|f| f.chars().collect()).collect()
}

#[test]
fn flags_read_r_w_and_e() {
    let f = row(&["LOAD", "0x0", "0x0", "0x0", "0x10", "0x10", "RWE", "0x10"]);
    assert_eq!(parse_flags_and_align(&f), Ok((7, 0x10)));
    let f = row(&["LOAD", "0x0", "0x0", "0x0", "0x10", "0x10", "R", "0x1000"]);
    assert_eq!(parse_flags_and_align(&f), Ok((4, 0x1000)));
}
