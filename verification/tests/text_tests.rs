use http_codec::compress::compress;
use http_codec::number::{
    char_of_digit, digit_of, read_digits, read_i8, read_unsigned, write_decimal, write_i8,
};
use http_codec::percent::{append_encoded, decode_chars};
use http_codec::response::{BodyEncoding, CompressionLevel};
use http_codec::text::{
    append_chars, blank, char_is_whitespace, chars_le, chars_of, chars_of_bytes, copy_of,
    find_chars, is_text, one_char, push_str, replace_plus, same_chars, same_text, slice_chars,
    split_chars, string_of, to_low_byte, trim_chars, two_chars,
};

fn chars(s: &str) -> Vec<char> {
    s.chars().collect()
}

fn pieces(s: &str, pat: &str) -> Vec<String> {
    split_chars(&chars(s), &chars(pat)).iter().map(|p| p.iter().collect()).collect()
}

#[test]
fn split_cuts_at_each_occurrence() {
    assert_eq!(pieces("a,b,,c", ","), vec!["a", "b", "", "c"]);
    assert_eq!(pieces("", ","), vec![""]);
    assert_eq!(pieces(",", ","), vec!["", ""]);
    assert_eq!(pieces("abc", ","), vec!["abc"]);
    assert_eq!(pieces("a; b;c; ", "; "), vec!["a", "b;c", ""]);
    assert_eq!(pieces("aaa", "aa"), vec!["", "a"]);
    assert_eq!(pieces("x\r\n\r\ny", "\r\n"), vec!["x", "", "y"]);
    assert_eq!(pieces("abc", ""), vec!["abc"]);
}

#[test]
fn split_agrees_with_the_standard_split() {
    for text in ["", "a", "a=b", "=a=b=", "a==b", "==", "k=v=w"] {
        let expected: Vec<String> = text.split('=').map(|p| p.to_string()).collect();
        assert_eq!(pieces(text, "="), expected);
    }
    for text in ["a: b", ": ", "a:b: c: ", ":: :"] {
        let expected: Vec<String> = text.split(": ").map(|p| p.to_string()).collect();
        assert_eq!(pieces(text, ": "), expected);
    }
}

#[test]
fn find_gives_the_first_occurrence_from_a_position() {
    assert_eq!(find_chars(&chars("a b c"), &chars(" "), 0), Some(1));
    assert_eq!(find_chars(&chars("a b c"), &chars(" "), 2), Some(3));
    assert_eq!(find_chars(&chars("a b c"), &chars(" "), 4), None);
    assert_eq!(find_chars(&chars("a b c"), &chars(" "), 9), None);
    assert_eq!(find_chars(&chars("abc"), &chars("abcd"), 0), None);
    assert_eq!(find_chars(&chars("abc"), &chars("bc"), 0), Some(1));
    assert_eq!(find_chars(&chars("abc"), &chars(""), 3), Some(3));
}

#[test]
fn trimming_spaces_or_all_whitespace() {
    assert_eq!(string_of(&trim_chars(&chars("  a b  "), false)), "a b");
    assert_eq!(string_of(&trim_chars(&chars("\t a \n"), false)), "\t a \n");
    assert_eq!(string_of(&trim_chars(&chars("\t a \u{2003}\n"), true)), "a");
    assert_eq!(string_of(&trim_chars(&chars("   "), true)), "");
    assert_eq!(string_of(&trim_chars(&chars(""), false)), "");
}

#[test]
fn whitespace_is_what_the_standard_library_takes_for_it() {
    let mut count = 0;
    for code in 0..=0x10ffffu32 {
        if let Some(c) = char::from_u32(code) {
            assert_eq!(char_is_whitespace(c), c.is_whitespace());
            if char_is_whitespace(c) {
                count += 1;
            }
        }
    }
    assert_eq!(count, 25);
}

#[test]
fn trimming_agrees_with_the_standard_trim() {
    for text in ["", " ", " a ", "\u{a0}x\u{3000}", "\u{200b}a\u{200b}", "\r\n a b \t", "\u{85}\u{1680}"] {
        assert_eq!(string_of(&trim_chars(&chars(text), true)), text.trim());
        assert_eq!(string_of(&trim_chars(&chars(text), false)), text.trim_matches(' '));
    }
}

#[test]
fn texts_are_ordered_as_strings_are() {
    let samples = ["", "a", "A", "ab", "b", "Accept", "Accept-Ranges", "\u{e9}", "\u{20ac}", "a\u{10000}", "a\u{ffff}"];
    for a in samples {
        for b in samples {
            assert_eq!(chars_le(&chars(a), &chars(b)), a <= b);
        }
    }
}

#[test]
fn characters_and_strings_convert_both_ways() {
    assert_eq!(chars_of("h\u{e9}llo"), chars("h\u{e9}llo"));
    assert_eq!(string_of(&chars("h\u{e9}llo")), "h\u{e9}llo");
}

#[test]
fn wire_bytes_are_the_low_bytes_of_the_characters() {
    let mut out = vec![7u8];
    push_str(&mut out, "A\u{e9}\u{20ac}\u{1f600}");
    assert_eq!(out, vec![7, 0x41, 0xe9, 0xac, 0x00]);
}

#[test]
fn unsigned_numbers_read() {
    assert_eq!(read_unsigned(&chars("0"), 10), Some(0));
    assert_eq!(read_unsigned(&chars("007"), 10), Some(7));
    assert_eq!(read_unsigned(&chars("+10"), 10), Some(10));
    assert_eq!(read_unsigned(&chars("11"), 10), None);
    assert_eq!(read_unsigned(&chars(""), 10), None);
    assert_eq!(read_unsigned(&chars("+"), 10), None);
    assert_eq!(read_unsigned(&chars("-1"), 10), None);
    assert_eq!(read_unsigned(&chars("++1"), 10), None);
    assert_eq!(read_unsigned(&chars("1a"), 10), None);
    assert_eq!(read_unsigned(&chars("\u{661}"), 10), None);
    assert_eq!(read_unsigned(&chars("18446744073709551615"), u64::MAX), Some(u64::MAX));
    assert_eq!(read_unsigned(&chars("18446744073709551616"), u64::MAX), None);
    assert_eq!(read_unsigned(&chars("99999999999999999999999"), u64::MAX), None);
}

#[test]
fn unsigned_numbers_read_as_the_standard_parser_reads_them() {
    for text in ["", "0", "+0", "-0", "255", "256", "0255", "+255", " 1", "1 ", "+-1", "٣"] {
        let expected = text.parse::<u8>().ok().map(|n| n as u64);
        assert_eq!(read_unsigned(&chars(text), 255), expected);
    }
}

#[test]
fn signed_numbers_read_as_the_standard_parser_reads_them() {
    for text in ["", "0", "-0", "+0", "127", "128", "-128", "-129", "-", "+", "--1", "-+1", "1.0", "0127", "-0128"] {
        assert_eq!(read_i8(&chars(text)), text.parse::<i8>().ok());
    }
}

#[test]
fn numbers_write_in_decimal() {
    for n in [0u64, 1, 9, 10, 99, 100, 1234567890, u64::MAX] {
        let mut out = String::from(">");
        write_decimal(&mut out, n);
        assert_eq!(out, format!(">{}", n));
    }
    for n in i8::MIN..=i8::MAX {
        let mut out = String::new();
        write_i8(&mut out, n);
        assert_eq!(out, format!("{}", n));
    }
}

#[test]
fn digits_and_their_characters() {
    for d in 0..=9u8 {
        let c = char_of_digit(d);
        assert_eq!(c, (b'0' + d) as char);
        assert_eq!(digit_of(c), Some(d));
    }
    for c in ['a', ' ', '+', '-', '/', ':', '\u{0660}', '\u{ff11}'] {
        assert_eq!(digit_of(c), None);
    }
    assert_eq!(read_digits(&chars("ab12"), 2, 100), Some(12));
    assert_eq!(read_digits(&chars("ab12"), 4, 100), None);
    assert_eq!(read_digits(&chars("ab12"), 1, 100), None);
}

#[test]
fn small_helpers_on_characters() {
    assert_eq!(one_char('x'), vec!['x']);
    assert_eq!(two_chars(';', ' '), vec![';', ' ']);
    assert_eq!(copy_of(&vec![3u8, 1, 2]), vec![3, 1, 2]);
    assert_eq!(slice_chars(&chars("abcdef"), 2, 4), chars("cd"));
    assert_eq!(slice_chars(&chars("abcdef"), 3, 3), chars(""));
    assert!(same_chars(&chars("abc"), &chars("abc")));
    assert!(!same_chars(&chars("abc"), &chars("abd")));
    assert!(!same_chars(&chars("abc"), &chars("ab")));
    assert!(same_text("h\u{e9}", "h\u{e9}"));
    assert!(!same_text("a", "A"));
    assert!(is_text(&chars("gzip"), "gzip"));
    assert!(!is_text(&chars("gzip "), "gzip"));
    assert_eq!(replace_plus(&chars("a+b++c ")), chars("a b  c "));
    assert_eq!(chars_of_bytes(&vec![0x41, 0xe9, 0xff, 0x00], 1, 3), vec!['\u{e9}', '\u{ff}']);
    assert_eq!(to_low_byte('\u{1f600}'), 0x00);
    assert_eq!(to_low_byte('\u{ff}'), 0xff);
    assert_eq!(to_low_byte('\u{100}'), 0x00);
    assert!(blank(' ', false));
    assert!(!blank('\t', false));
    assert!(blank('\t', true));
    assert!(!blank('x', true));
    let mut text = String::from("a");
    append_chars(&mut text, &chars("bc\u{20ac}"));
    assert_eq!(text, "abc\u{20ac}");
}

#[test]
fn percent_encoding_of_every_kind_of_byte() {
    let mut out = String::from("?");
    append_encoded(&mut out, "AZaz09-_.~ !*'();:@&=+$,/?#[]%\u{e9}\u{20ac}\u{1f600}");
    assert_eq!(
        out,
        "?AZaz09-_.~%20%21%2A%27%28%29%3B%3A%40%26%3D%2B%24%2C%2F%3F%23%5B%5D%25%C3%A9%E2%82%AC%F0%9F%98%80"
    );
    let back = decode_chars(&chars(&out[1..])).unwrap();
    assert_eq!(string_of(&back), "AZaz09-_.~ !*'();:@&=+$,/?#[]%\u{e9}\u{20ac}\u{1f600}");
}

#[test]
fn percent_decoding_is_lenient_with_stray_percent_signs() {
    assert_eq!(string_of(&decode_chars(&chars("100%")).unwrap()), "100%");
    assert_eq!(string_of(&decode_chars(&chars("%zz%4")).unwrap()), "%zz%4");
    assert_eq!(string_of(&decode_chars(&chars("%41%6a+")).unwrap()), "Aj+");
    assert!(decode_chars(&chars("%C3")).is_none());
    assert!(decode_chars(&chars("%ff%fe")).is_none());
}

#[test]
fn every_text_encodes_to_something_that_decodes_to_it() {
    for code in (0..=0x10ffffu32).step_by(257) {
        if let Some(c) = char::from_u32(code) {
            let text: String = [c, 'a', c].iter().collect();
            let mut encoded = String::new();
            append_encoded(&mut encoded, &text);
            assert!(encoded.chars().all(|e| e.is_ascii_alphanumeric() || "-_.~%".contains(e)));
            assert_eq!(decode_chars(&chars(&encoded)), Some(chars(&text)));
        }
    }
}

#[test]
fn compressing_by_hand() {
    let data = b"hand hand hand hand".to_vec();
    let gzip = compress(BodyEncoding::Gzip, None, &data).unwrap();
    assert_eq!(&gzip[..2], &[0x1f, 0x8b]);
    assert_ne!(gzip, data);
    assert!(compress(BodyEncoding::Gzip, Some(CompressionLevel::new(11)), &data).is_none());
    assert!(compress(BodyEncoding::Deflate, Some(CompressionLevel::new(11)), &data).is_none());
    assert!(compress(BodyEncoding::Deflate, Some(CompressionLevel::new(10)), &data).is_some());
    assert!(compress(BodyEncoding::Brotli, Some(CompressionLevel::new(11)), &data).is_some());
    let fast = compress(BodyEncoding::Deflate, None, &data).unwrap();
    let one = compress(BodyEncoding::Deflate, Some(CompressionLevel::fast()), &data).unwrap();
    assert_eq!(fast, one);
}

#[test]
fn encoded_text_is_the_bytes_in_utf8_escaped_one_by_one() {
    for code in (0..=0x10ffffu32).step_by(61).chain(0..=0x2ff) {
        if let Some(c) = char::from_u32(code) {
            let text = c.to_string();
            let mut expected = String::new();
            for b in text.bytes() {
                if b.is_ascii_alphanumeric() || b == b'-' || b == b'_' || b == b'.' || b == b'~' {
                    expected.push(b as char);
                } else {
                    expected.push_str(&format!("%{:02X}", b));
                }
            }
            let mut encoded = String::new();
            append_encoded(&mut encoded, &text);
            assert_eq!(encoded, expected);
        }
    }
}

#[test]
fn text_without_a_percent_sign_decodes_to_itself() {
    for text in ["", "plain", "a+b c&d=e", "h\u{e9}llo \u{20ac}", "/search"] {
        assert_eq!(decode_chars(&chars(text)), Some(chars(text)));
    }
}

#[test]
fn standard_case_changes_go_letter_by_letter_in_ascii() {
    let all: String = (0u8..128).map(|b| b as char).collect();
    assert_eq!(all.to_lowercase(), all.to_ascii_lowercase());
    assert_eq!(all.to_uppercase(), all.to_ascii_uppercase());
    assert_eq!(all.to_lowercase().chars().count(), 128);
    let bytes: Vec<u8> = (0u8..128).collect();
    assert_eq!(String::from_utf8_lossy(&bytes), all);
    assert_eq!(chars_of_bytes(&bytes, 0, 128), chars(&all));
}
