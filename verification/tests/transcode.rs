use wristvault::hex::{decode_range, hex_digit, hex_to_binary, read_window, transcode};

#[test]
fn clean_text_decodes_pair_by_pair() {
    assert_eq!(hex_to_binary("4142"), Ok(vec![0x41, 0x42]));
    assert_eq!(hex_to_binary("00ff7f80"), Ok(vec![0x00, 0xff, 0x7f, 0x80]));
}

#[test]
fn both_cases_of_digits_are_read() {
    assert_eq!(hex_to_binary("aBcDeF"), Ok(vec![0xab, 0xcd, 0xef]));
}

#[test]
fn bad_window_is_left_by_one_character() {
    assert_eq!(hex_to_binary("41G242"), Ok(vec![0x41, 0x24]));
    assert_eq!(hex_to_binary("41G42"), Ok(vec![0x41, 0x42]));
    assert_eq!(hex_to_binary("4G142"), Ok(vec![0x14]));
    assert_eq!(hex_to_binary("G4142"), Ok(vec![0x41, 0x42]));
}

#[test]
fn surrounding_white_space_is_removed() {
    assert_eq!(hex_to_binary("  4142\n"), Ok(vec![0x41, 0x42]));
    assert_eq!(hex_to_binary("\t\r\n"), Ok(vec![]));
}

#[test]
fn inner_white_space_is_passed_over() {
    assert_eq!(hex_to_binary("41 42"), Ok(vec![0x41, 0x42]));
    assert_eq!(hex_to_binary("4 142"), Ok(vec![0x14]));
}

#[test]
fn empty_and_single_character_give_no_bytes() {
    assert_eq!(hex_to_binary(""), Ok(vec![]));
    assert_eq!(hex_to_binary("4"), Ok(vec![]));
    assert_eq!(hex_to_binary("414"), Ok(vec![0x41]));
}

#[test]
fn text_without_digits_gives_no_bytes() {
    assert_eq!(hex_to_binary("xyz!"), Ok(vec![]));
    assert_eq!(hex_to_binary("\u{e9}\u{e9}41\u{df}42"), Ok(vec![0x41, 0x42]));
}

#[test]
fn window_with_a_sign_is_no_byte() {
    assert_eq!(hex_to_binary("+4"), Ok(vec![]));
    assert_eq!(hex_to_binary("+f"), Ok(vec![]));
    assert_eq!(hex_to_binary("+1+2"), Ok(vec![]));
    assert_eq!(hex_to_binary("-1"), Ok(vec![]));
    assert_eq!(hex_to_binary("++"), Ok(vec![]));
    assert_eq!(hex_to_binary("1+"), Ok(vec![]));
    assert_eq!(hex_to_binary("+412"), Ok(vec![0x41]));
    assert_eq!(read_window('+', '4'), None);
}

#[test]
fn window_is_a_byte_when_both_characters_are_digits() {
    let alphabet = ['0', '9', 'a', 'f', 'g', 'A', 'F', 'G', '+', '-', ' ', 'z', '/', ':', '@', '`'];
    for a in alphabet {
        for b in alphabet {
            let expected = match (a.to_digit(16), b.to_digit(16)) {
                (Some(high), Some(low)) => Some((high * 16 + low) as u8),
                _ => None,
            };
            assert_eq!(read_window(a, b), expected);
        }
    }
}

#[test]
fn digits_have_their_values() {
    assert_eq!(hex_digit('0'), Some(0));
    assert_eq!(hex_digit('9'), Some(9));
    assert_eq!(hex_digit('a'), Some(10));
    assert_eq!(hex_digit('F'), Some(15));
    assert_eq!(hex_digit('g'), None);
    assert_eq!(hex_digit('/'), None);
    assert_eq!(hex_digit(':'), None);
}

#[test]
fn dropped_characters_are_counted() {
    let clean = transcode("4142");
    assert_eq!(clean.bytes, vec![0x41, 0x42]);
    assert_eq!(clean.dropped, 0);
    let noisy = transcode(" 41G242 ");
    assert_eq!(noisy.bytes, vec![0x41, 0x24]);
    assert_eq!(noisy.dropped, 2);
}

#[test]
fn range_is_decoded_alone() {
    let chars: Vec<char> = "zz4142zz".chars().collect();
    assert_eq!(decode_range(&chars, 2, 6), vec![0x41, 0x42]);
    assert_eq!(decode_range(&chars, 3, 3), Vec::<u8>::new());
}

#[test]
fn text_of_bytes_decodes_to_the_bytes() {
    let bytes: Vec<u8> = (0..=255).collect();
    let mut text = String::new();
    for b in &bytes {
        text.push_str(&format!("{:02x}", b));
    }
    assert_eq!(hex_to_binary(&text), Ok(bytes));
}
