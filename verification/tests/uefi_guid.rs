use oso::guid::{Guid, Hex};
use oso::uefi::{into_null_terminated_utf16, required_pages, Boolean, MemoryType, Status, PAGE_SIZE};

#[test]
fn pages_round_up_plus_one() {
    assert_eq!(required_pages(0), 1);
    assert_eq!(required_pages(PAGE_SIZE - 1), 1);
    assert_eq!(required_pages(PAGE_SIZE), 2);
    assert_eq!(required_pages(3 * PAGE_SIZE + 5), 4);
}

#[test]
fn status_and_boolean() {
    assert!(Status(0).is_success());
    assert!(!Status(5).is_success());
    assert!(Boolean(2).is_true());
    assert!(!Boolean(0).is_true());
    assert_eq!(MemoryType::custom(0x8000_0001), MemoryType(0x8000_0001));
}

#[test]
fn utf16_path_is_null_terminated() {
    assert_eq!(into_null_terminated_utf16("a\\b"), vec![0x61, 0x5c, 0x62, 0]);
    assert_eq!(into_null_terminated_utf16("\u{1f980}"), vec![0xd83e, 0xdd80, 0]);
    assert_eq!(into_null_terminated_utf16(""), vec![0]);
}

#[test]
fn hex_digits() {
    assert!(Hex::is_valid_hex(b'f'));
    assert!(Hex::is_valid_hex(b'A'));
    assert!(!Hex::is_valid_hex(b'g'));
    assert_eq!(Hex::to_hex(b'c').value(), 12);
    assert_eq!(Hex::to_hex(b'7').value(), 7);
    assert!(Hex::try_from('x').is_err());
    assert_eq!(Hex::try_from('E').unwrap().value(), 14);
}

#[test]
fn guid_from_text() {
    let g = Guid::from_str("964e5b22-6459-11d2-8e39-00a0c969723b").unwrap();
    assert_eq!(g.time_low, [9, 6, 4, 14]);
    assert_eq!(g.time_mid, [5, 11]);
    assert_eq!(g.time_high_and_version, [2, 2]);
    assert_eq!(g.clock_seq_high_and_reserved, 6);
    assert_eq!(g.clock_seq_low, 4);
    assert_eq!(g.node, [5, 9, 1, 1, 13, 2]);
    assert_eq!(Guid::fix_by("964e5b22-6459-11d2-8e39-00a0c969723b"), g);
}

#[test]
fn guid_fix_by_pads_with_zero() {
    let g = Guid::fix_by("ab");
    assert_eq!(g.time_low, [10, 11, 0, 0]);
    assert_eq!(g.node, [0; 6]);
}
