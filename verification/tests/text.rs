use converter::text::{chars_of, find_char, trim, trim_bounds, whitespace};

#[test]
fn whitespace_is_the_unicode_property() {
    for code in 0..=0x10ffff_u32 {
        if let Some(c) = char::from_u32(code) {
            assert_eq!(whitespace(c), c.is_whitespace(), "U+{:04X}", code);
        }
    }
}

#[test]
fn trim_agrees_with_the_standard_library() {
    let samples = [
        "",
        " ",
        "a",
        " a",
        "a ",
        "  a b  ",
        "\t\n a \r\n",
        "\u{a0}x\u{3000}",
        "\u{2003}\u{e9}t\u{e9} \u{2605}\u{2028}",
        "   ",
        "a\u{200b}",
        "\u{85}\u{1680}word\u{205f}\u{202f}",
    ];
    for s in samples {
        assert_eq!(trim(s), s.trim());
    }
}

#[test]
fn chars_are_read_in_order() {
    assert_eq!(chars_of("a\u{e9}\u{2605}:"), vec!['a', '\u{e9}', '\u{2605}', ':']);
    assert_eq!(chars_of(""), Vec::<char>::new());
}

#[test]
fn find_char_counts_characters_not_bytes() {
    assert_eq!(find_char(&chars_of("\u{e9}t\u{e9}: x"), ':'), 3);
    assert_eq!(find_char(&chars_of("a:b:c"), ':'), 1);
    assert_eq!(find_char(&chars_of(":"), ':'), 0);
    assert_eq!(find_char(&chars_of("abc"), ':'), 3);
    assert_eq!(find_char(&chars_of(""), ':'), 0);
}

#[test]
fn trim_bounds_stay_within_the_stretch() {
    let chars = chars_of("  ab  cd  ");
    assert_eq!(trim_bounds(&chars, 0, chars.len()), (2, 8));
    assert_eq!(trim_bounds(&chars, 0, 5), (2, 4));
    assert_eq!(trim_bounds(&chars, 3, 7), (3, 7));
    assert_eq!(trim_bounds(&chars, 4, 6), (6, 6));
    assert_eq!(trim_bounds(&chars, 4, 4), (4, 4));
    assert_eq!(trim_bounds(&chars, 8, 10), (10, 10));
}
