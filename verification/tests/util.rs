use viiru_core::spec::Decimal;
use viiru_core::util::{
    assume_string, char_is_alphanum, char_is_digit, char_is_hex_digit, chars_of, decimal_string,
    joined, parse_radix16, parse_rgb, rgb_string, str_eq, try_parse_rgb, without_last,
};

#[test]
fn parse_rgb_takes_the_three_low_bytes() {
    assert_eq!(parse_rgb("AABBCC"), (0xAA, 0xBB, 0xCC));
    assert_eq!(parse_rgb("aabbcc"), (0xAA, 0xBB, 0xCC));
    assert_eq!(parse_rgb("0"), (0, 0, 0));
    assert_eq!(parse_rgb("5AFF"), (0x00, 0x5A, 0xFF));
    assert_eq!(parse_rgb("12345678"), (0x34, 0x56, 0x78));
    assert_eq!(parse_rgb("+FF0001"), (0xFF, 0x00, 0x01));
    assert_eq!(parse_rgb("000000000F"), (0, 0, 0x0F));
}

#[test]
fn try_parse_rgb_refuses_what_is_no_number() {
    assert_eq!(try_parse_rgb("3D7088"), Some((0x3D, 0x70, 0x88)));
    assert_eq!(try_parse_rgb(""), None);
    assert_eq!(try_parse_rgb("+"), None);
    assert_eq!(try_parse_rgb("-1"), None);
    assert_eq!(try_parse_rgb("12G4"), None);
    assert_eq!(try_parse_rgb("1_000"), None);
    assert_eq!(try_parse_rgb(" 12"), None);
    // one more than fits 32 bits
    assert_eq!(try_parse_rgb("100000000"), None);
    assert_eq!(parse_radix16("FFFFFFFF"), Some(u32::MAX));
    assert_eq!(parse_radix16("ffffffff"), Some(u32::MAX));
}

#[test]
fn assume_string_decodes_utf8() {
    assert_eq!(assume_string(vec![]), "");
    assert_eq!(assume_string(b"say ".to_vec()), "say ");
    assert_eq!(assume_string(vec![0xe2, 0x96, 0xb8]), "\u{25b8}");
}

#[test]
fn character_classes() {
    for c in ['0', '9'] {
        assert!(char_is_digit(c) && char_is_alphanum(c) && char_is_hex_digit(c));
    }
    for c in ['a', 'f', 'A', 'F'] {
        assert!(!char_is_digit(c) && char_is_alphanum(c) && char_is_hex_digit(c));
    }
    for c in ['g', 'z', 'G', 'Z'] {
        assert!(!char_is_digit(c) && char_is_alphanum(c) && !char_is_hex_digit(c));
    }
    for c in ['_', ' ', '/', ':', '@', '[', '`', '{', '\u{e9}', '\u{661}'] {
        assert!(!char_is_digit(c) && !char_is_alphanum(c) && !char_is_hex_digit(c));
    }
}

#[test]
fn texts_compare_by_their_characters() {
    assert!(str_eq("", ""));
    assert!(str_eq("viiru-1", "viiru-1"));
    assert!(!str_eq("viiru-1", "viiru-10"));
    assert!(!str_eq("viiru-1", "viiru-2"));
    assert!(str_eq("\u{21bb}", "\u{21bb}"));
    assert!(!str_eq("\u{21bb}", "\u{21ba}"));
    assert_eq!(chars_of("a\u{21bb}b"), vec!['a', '\u{21bb}', 'b']);
}

#[test]
fn numbers_are_written_in_base_ten() {
    assert_eq!(decimal_string(0), "0");
    assert_eq!(decimal_string(7), "7");
    assert_eq!(decimal_string(10), "10");
    assert_eq!(decimal_string(1234567890), "1234567890");
    assert_eq!(decimal_string(usize::MAX), usize::MAX.to_string());
}

#[test]
fn colours_are_written_with_two_digits_a_part() {
    assert_eq!(rgb_string((0x3D, 0x70, 0x88)), "#3D7088");
    assert_eq!(rgb_string((0x05, 0x0A, 0xFF)), "#050AFF");
    assert_eq!(rgb_string((0x0A, 0x00, 0xFF)), "#0A00FF");
    assert_eq!(rgb_string((0, 0, 0)), "#000000");
    assert_eq!(rgb_string((0xab, 0x10, 0x0f)), "#AB100F");
}

#[test]
fn a_written_colour_reads_back() {
    for rgb in [(0u8, 0u8, 0u8), (0x0A, 0x00, 0xFF), (0x05, 0x0A, 0xFF), (255, 255, 255), (1, 2, 3)] {
        let text = rgb_string(rgb);
        assert_eq!(text.chars().count(), 7);
        assert!(text.starts_with('#'));
        assert_eq!(parse_rgb(&text[1..]), rgb);
    }
}

#[test]
fn decimals_are_written_shortest() {
    let d = |negative: bool, whole: &str, fraction: &str| Decimal {
        negative,
        whole: whole.to_string(),
        fraction: fraction.to_string(),
    };
    assert_eq!(d(false, "10", "0").render(), "10");
    assert_eq!(d(true, "10", "0").render(), "-10");
    assert_eq!(d(false, "0", "5").render(), "0.5");
    assert_eq!(d(false, "007", "250").render(), "7.25");
    assert_eq!(d(true, "0", "0").render(), "-0");
    assert_eq!(d(false, "000", "000").render(), "0");
    assert_eq!(d(false, "15", "0").render(), 15.0_f64.to_string());
    assert_eq!(d(true, "12", "50").render(), (-12.5_f64).to_string());
}

#[test]
fn text_helpers() {
    assert_eq!(without_last("abc"), "ab");
    assert_eq!(without_last("a\u{21bb}"), "a");
    assert_eq!(without_last(""), "");
    assert_eq!(joined("Opened ", "x.sb3"), "Opened x.sb3");
}
