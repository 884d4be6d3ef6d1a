use oso::integer::Integer;
use oso::status::{mark_errors, ok_or, status_code_tables, status_codes_info, StatusCodeInfo, StatusError};
use oso::uefi::Status;

fn row(m: &str, v: &str, d: &str) -> Vec<String> {
    vec![m.to_string(), v.to_string(), d.to_string()]
}

#[test]
fn rows_become_codes() {
    let codes = status_codes_info(vec![row("EFI_SUCCESS", "0", "ok"), row("EFI_WARN_X", "3", "w")]);
    assert_eq!(codes.len(), 2);
    assert_eq!(codes[1].mnemonic, "EFI_WARN_X");
    assert_eq!(codes[1].value, 3);
    assert_eq!(codes[1].desc, "w");
}

#[test]
fn error_codes_get_the_high_bit() {
    let bit = StatusCodeInfo::error_bit();
    assert_eq!(bit, 1usize << (usize::BITS - 1));
    let mut codes = status_codes_info(vec![row("EFI_LOAD_ERROR", "1", "load")]);
    mark_errors(&mut codes);
    assert_eq!(codes[0].value, bit | 1);
}

#[test]
fn verdicts() {
    let t = status_code_tables(
        vec![row("EFI_SUCCESS", "0", "done")],
        vec![row("EFI_LOAD_ERROR", "1", "Image failed to load.")],
        vec![row("EFI_WARN_UNKNOWN_GLYPH", "1", "glyph")],
    );
    let bit = StatusCodeInfo::error_bit();
    assert_eq!(ok_or(Status(0), &t).unwrap(), Status(0));
    assert_eq!(ok_or(Status(1), &t).unwrap(), Status(1));
    match ok_or(Status(bit | 1), &t) {
        Err(StatusError::ErrorStatus(m)) => assert_eq!(m, "EFI_LOAD_ERROR: Image failed to load."),
        _ => panic!("expected an error status"),
    }
    assert!(matches!(ok_or(Status(42), &t), Err(StatusError::CustomStatus)));
}

#[test]
fn digits_of_integers() {
    assert_eq!(0u64.digit_count(), 0);
    assert_eq!(7u64.digit_count(), 1);
    assert_eq!(u64::MAX.digit_count(), 20);
    assert_eq!(12345u32.digit_count(), 5);
    assert_eq!(12345u64.nth_digit(1), 5);
    assert_eq!(12345u64.nth_digit(5), 1);
    assert_eq!(12345u64.nth_digit(6), 0);
    let mut n = 907u32;
    assert_eq!(n.shift_right(), 7);
    assert_eq!(n, 90);
}
