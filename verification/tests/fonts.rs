use oso::font::{convert_bitfield, font_glyphs};

#[test]
fn test_convert_bitfield_returns_correct_count() {
    let test_fonts = vec!["........".repeat(16); 256];
    let bitfields = convert_bitfield(&test_fonts);

    assert_eq!(bitfields.len(), 256);
}

#[test]
fn test_convert_bitfield_empty_pattern() {
    let empty_pattern = "........".repeat(16);
    let test_fonts = vec![empty_pattern; 1];
    let bitfields = convert_bitfield(&test_fonts);

    assert_eq!(bitfields[0], 0);
}

#[test]
fn test_convert_bitfield_full_pattern() {
    let full_pattern = "@@@@@@@@".repeat(16);
    let test_fonts = vec![full_pattern; 1];
    let bitfields = convert_bitfield(&test_fonts);

    assert_ne!(bitfields[0], 0);
}

#[test]
fn test_convert_bitfield_specific_pattern() {
    let mut pattern = String::new();
    pattern.push_str("@.......");
    for _ in 1..16 {
        pattern.push_str("........");
    }

    let test_fonts = vec![pattern; 1];
    let bitfields = convert_bitfield(&test_fonts);

    assert_eq!(bitfields[0] & 1, 1);
}

#[test]
fn test_convert_bitfield_line_positioning() {
    let mut patterns = Vec::new();

    for line in 0..16 {
        let mut pattern = String::new();
        for i in 0..16 {
            if i == line {
                pattern.push_str("@.......");
            } else {
                pattern.push_str("........");
            }
        }
        patterns.push(pattern);
    }

    let bitfields = convert_bitfield(&patterns);

    for i in 0..15 {
        for j in (i + 1)..16 {
            assert_ne!(
                bitfields[i], bitfields[j],
                "Patterns {} and {} produced the same bitfield",
                i, j
            );
        }
    }
}

#[test]
fn full_pattern_sets_every_bit() {
    let bitfields = convert_bitfield(&vec!["@@@@@@@@".repeat(16)]);
    assert_eq!(bitfields[0], u128::MAX);
}

#[test]
fn pixel_k_is_bit_k() {
    let mut s = ".".repeat(128);
    s.replace_range(9..10, "@");
    assert_eq!(convert_bitfield(&vec![s])[0], 1u128 << 9);
}

#[test]
fn lines_are_placed_a_byte_apart() {
    // Two lines: the second is placed at bit 8.
    let bitfields = convert_bitfield(&vec!["@.\n.@".to_string()]);
    assert_eq!(bitfields[0], 1 + (2 << 8));
}

#[test]
fn sixteen_lines_fill_the_bytes_in_order() {
    let lines: Vec<String> = (0..16).map(|i| if i == 15 { "@@@@@@@@" } else { "@......." }.to_string()).collect();
    let bitfields = convert_bitfield(&vec![lines.join("\n")]);
    let mut expected: u128 = 0;
    for i in 0..15 {
        expected |= 1u128 << (8 * i);
    }
    expected |= 0xffu128 << 120;
    assert_eq!(bitfields[0], expected);
}

#[test]
fn digits_read_as_pixels_and_high_bits_are_dropped() {
    assert_eq!(convert_bitfield(&vec!["1.0@".to_string()])[0], 0b1001);
    // A nine-pixel line 1 keeps its ninth pixel at bit 16.
    assert_eq!(convert_bitfield(&vec!["........\n.......@@".to_string()])[0], 0b11 << 15);
    // The ninth pixel of line 15 would be bit 128: it is dropped.
    let mut lines = vec!["........"; 15];
    lines.push("........@");
    assert_eq!(convert_bitfield(&vec![lines.join("\n")])[0], 0);
}

fn font_file(with_codes: bool) -> String {
    let glyph = "
........
...@@...
..@..@..
..@..@..
..@..@..
..@@@@..
..@..@..
..@..@..
..@..@..
..@..@..
........
........
........
........
........
........";
    let mut data = String::new();
    for k in 0..256 {
        if with_codes {
            data.push_str(&format!("\n0x{:02x}", k));
        }
        data.push_str(glyph);
        data.push('\n');
    }
    data
}

#[test]
fn font_file_gives_256_glyphs_of_128_characters() {
    let glyphs = font_glyphs(&font_file(false));
    assert_eq!(glyphs.len(), 256);
    for g in &glyphs {
        assert_eq!(g.len(), 128);
    }
    assert_eq!(&glyphs[0][8..16], "...@@...");
}

#[test]
fn font_file_skips_code_lines() {
    let glyphs = font_glyphs(&font_file(true));
    assert_eq!(glyphs.len(), 256);
    assert_eq!(glyphs, font_glyphs(&font_file(false)));
    let values = convert_bitfield(&glyphs);
    assert_eq!(values.len(), 256);
    assert_ne!(values[0], 0);
}
