use wristvault::field::{fit_to_width, format_field, uppercase_text, FieldWidth};
use wristvault::text::{chars_of, decimal, find_char, is_whitespace, string_of, text_of, trim_bounds};

fn chars(s: &str) -> Vec<char> {
    s.chars().collect()
}

#[test]
fn short_label_is_padded_to_the_width() {
    let field = format_field("abc", FieldWidth::Eight);
    assert_eq!(field.text, "ABC     ");
    assert_eq!(field.width, FieldWidth::Eight);
    assert_eq!(format_field("abc", FieldWidth::Six).text, "ABC   ");
}

#[test]
fn long_label_is_cut_to_the_width() {
    assert_eq!(format_field("verylongname", FieldWidth::Six).text, "VERYLO");
    assert_eq!(format_field("verylongname", FieldWidth::Eight).text, "VERYLONG");
}

#[test]
fn label_of_exact_width_is_kept() {
    assert_eq!(format_field("github", FieldWidth::Six).text, "GITHUB");
    assert_eq!(format_field("abcd1234", FieldWidth::Eight).text, "ABCD1234");
}

#[test]
fn empty_label_gives_spaces() {
    assert_eq!(format_field("", FieldWidth::Six).text, "      ");
    assert_eq!(format_field("", FieldWidth::Eight).text, "        ");
}

#[test]
fn field_has_the_width_of_its_slot() {
    for label in ["", "a", "abcdef", "abcdefg", "abcdefgh", "abcdefghi", "stra\u{df}e", "\u{fb03}\u{fb03}\u{fb03}"] {
        assert_eq!(format_field(label, FieldWidth::Six).text.chars().count(), 6);
        assert_eq!(format_field(label, FieldWidth::Eight).text.chars().count(), 8);
        assert_eq!(FieldWidth::Six.count(), 6);
        assert_eq!(FieldWidth::Eight.count(), 8);
    }
}

#[test]
fn field_starts_with_the_label_in_upper_case() {
    let field = format_field("MixedCase9", FieldWidth::Eight);
    assert_eq!(field.text, "MIXEDCAS");
    let upper: String = "MixedCase9".to_uppercase();
    assert_eq!(field.text[..8], upper[..8]);
}

#[test]
fn digits_and_signs_are_unchanged() {
    assert_eq!(format_field("a-1_z!", FieldWidth::Six).text, "A-1_Z!");
    assert_eq!(format_field("`{|}~@", FieldWidth::Six).text, "`{|}~@");
}

#[test]
fn letters_outside_ascii_get_their_capitals() {
    assert_eq!(format_field("\u{e9}", FieldWidth::Six).text, "\u{c9}     ");
    assert_eq!(format_field("caf\u{e9}", FieldWidth::Six).text, "CAF\u{c9}  ");
}

#[test]
fn letter_with_a_longer_capital_counts_by_its_capital() {
    assert_eq!(format_field("\u{df}", FieldWidth::Six).text, "SS    ");
    assert_eq!(format_field("stra\u{df}e", FieldWidth::Six).text, "STRASS");
    assert_eq!(format_field("stra\u{df}e", FieldWidth::Eight).text, "STRASSE ");
}

#[test]
fn upper_case_is_that_of_the_standard_library() {
    for label in ["github", "Stra\u{df}e", "\u{fb03}x", "\u{1f80}", "i\u{131}\u{17f}", "\u{3b1}\u{3b2}"] {
        let expected: Vec<char> = label.to_uppercase().chars().collect();
        assert_eq!(uppercase_text(&chars(label)), expected);
    }
}

#[test]
fn fitting_cuts_or_pads() {
    assert_eq!(fit_to_width(&chars("ABCDEFGHIJ"), FieldWidth::Eight), chars("ABCDEFGH"));
    assert_eq!(fit_to_width(&chars("AB"), FieldWidth::Six), chars("AB    "));
    assert_eq!(fit_to_width(&chars(""), FieldWidth::Six), chars("      "));
}

#[test]
fn characters_and_strings_convert_both_ways() {
    assert_eq!(chars_of("a\u{e9}z"), vec!['a', '\u{e9}', 'z']);
    assert_eq!(chars_of(""), Vec::<char>::new());
    assert_eq!(text_of(&['x', 'y']), "xy");
    assert_eq!(string_of(&['a', 'b', 'c', 'd'], 1, 3), "bc");
    assert_eq!(string_of(&['a', 'b'], 1, 1), "");
}

#[test]
fn numbers_are_written_in_base_ten() {
    assert_eq!(decimal(0), "0");
    assert_eq!(decimal(7), "7");
    assert_eq!(decimal(10), "10");
    assert_eq!(decimal(1234567890), "1234567890");
    assert_eq!(decimal(usize::MAX), usize::MAX.to_string());
}

#[test]
fn first_occurrence_is_found() {
    let text = chars("a,b,c");
    assert_eq!(find_char(&text, 0, 5, ','), 1);
    assert_eq!(find_char(&text, 2, 5, ','), 3);
    assert_eq!(find_char(&text, 4, 5, ','), 5);
    assert_eq!(find_char(&text, 0, 1, ','), 1);
}

#[test]
fn white_space_is_that_of_the_standard_library() {
    let mut code: u32 = 0;
    while code < 0x3100 {
        if let Some(c) = char::from_u32(code) {
            assert_eq!(is_whitespace(c), c.is_whitespace());
        }
        code += 1;
    }
    assert!(!is_whitespace('\u{10ffff}'));
}

#[test]
fn trimming_finds_the_inner_part() {
    assert_eq!(trim_bounds(&chars("  ab c \n")), (2, 6));
    assert_eq!(trim_bounds(&chars("abc")), (0, 3));
    assert_eq!(trim_bounds(&chars(" \t\r\n")), (4, 4));
    assert_eq!(trim_bounds(&chars("")), (0, 0));
    assert_eq!(trim_bounds(&chars("\u{3000}x\u{a0}")), (1, 2));
}
