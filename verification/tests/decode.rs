use note_decoder::{decode, decode_text, from_utf16};
use serde_json::value::RawValue;

#[test]
fn test_from_utf16() {
    assert_eq!(
        from_utf16(RawValue::from_string("\"\\u00c2\\u00a9\"".to_string()).unwrap().get()),
        "\u{a9}"
    );
}

#[test]
fn hex_escapes_emit_one_byte_each() {
    assert_eq!(decode("\"\\u00c2\\u00a9\""), vec![0xc2, 0xa9]);
}

#[test]
fn quotes_are_stripped() {
    assert_eq!(decode("\"abc\""), b"abc".to_vec());
    assert_eq!(from_utf16("\"abc\""), "abc");
}

#[test]
fn control_escapes_are_substituted() {
    assert_eq!(from_utf16("\"a\\nb\""), "a\nb");
    assert_eq!(from_utf16("\"a\\tb\""), "a\tb");
    assert_eq!(from_utf16("\"a\\rb\""), "a\rb");
    assert_eq!(decode("\"\\n\\t\\r\""), vec![0x0a, 0x09, 0x0d]);
}

#[test]
fn unrecognized_escape_keeps_the_escaped_character() {
    assert_eq!(from_utf16("\"a\\xyz\""), "axyz");
}

#[test]
fn escaped_backslash_and_quote_are_kept() {
    assert_eq!(from_utf16("\"a\\\\b\""), "a\\b");
    assert_eq!(from_utf16("\"a\\\"b\""), "a\"b");
    assert_eq!(from_utf16("\"a\\/b\""), "a/b");
}

#[test]
fn escape_cut_short_by_the_closing_quote_emits_nothing() {
    assert_eq!(decode("\"\\u00\""), Vec::<u8>::new());
    assert_eq!(from_utf16("\"\\u00\""), "");
    assert_eq!(from_utf16("\"ab\\u00\""), "ab");
}

#[test]
fn escape_cut_short_by_the_end_of_input_emits_nothing() {
    assert_eq!(decode("\"\\u00"), Vec::<u8>::new());
    assert_eq!(decode("\"xy\\u"), b"xy".to_vec());
    assert_eq!(decode("\"xy\\u004"), b"xy".to_vec());
    assert_eq!(decode("\"xy\\"), b"xy".to_vec());
}

#[test]
fn invalid_hex_digit_stops_decoding() {
    assert_eq!(decode("\"\\uZZZZ\""), Vec::<u8>::new());
    assert_eq!(from_utf16("\"ab\\uZZZZcd\""), "ab");
    assert_eq!(from_utf16("\"ab\\u00g1cd\""), "ab");
    assert_eq!(from_utf16("\"ab\\u004"), "ab");
}

#[test]
fn empty_fragment_decodes_to_nothing() {
    assert_eq!(decode(""), Vec::<u8>::new());
    assert_eq!(from_utf16(""), "");
    assert_eq!(decode("\""), Vec::<u8>::new());
    assert_eq!(decode("\"\""), Vec::<u8>::new());
}

#[test]
fn first_character_is_dropped_when_it_is_no_quote() {
    assert_eq!(decode("abc"), b"bc".to_vec());
    assert_eq!(decode("x"), Vec::<u8>::new());
    assert_eq!(from_utf16("hello"), "ello");
}

#[test]
fn quote_inside_an_unquoted_fragment_is_content() {
    assert_eq!(decode("ab\"c"), b"b\"c".to_vec());
    assert_eq!(decode("a\"\""), b"\"\"".to_vec());
}

#[test]
fn escapes_work_in_an_unquoted_fragment() {
    assert_eq!(decode("xa\\nb\\u0041"), b"a\nbA".to_vec());
}

#[test]
fn nothing_is_read_after_the_closing_quote() {
    assert_eq!(decode("\"ab\"cd"), b"ab".to_vec());
    assert_eq!(decode("\"ab\"\\uZZZZ"), b"ab".to_vec());
    assert_eq!(decode("\"\"abc"), Vec::<u8>::new());
}

#[test]
fn hex_digits_count_in_both_cases() {
    assert_eq!(decode("\"\\u00C2\\u00A9\""), vec![0xc2, 0xa9]);
    assert_eq!(decode("\"\\u004a\\u004A\""), b"JJ".to_vec());
    assert_eq!(decode("\"\\uABCD\\uabcd\""), vec![0xcd, 0xcd]);
}

#[test]
fn code_units_are_cut_to_their_low_byte() {
    assert_eq!(decode("\"\\u20ac\""), vec![0xac]);
    assert_eq!(decode("\"\\u0141\""), vec![0x41]);
    assert_eq!(decode("\"\\uffff\""), vec![0xff]);
    assert_eq!(decode("\"\\u0000\""), vec![0x00]);
}

#[test]
fn surrogate_units_are_decoded_one_by_one() {
    assert_eq!(decode("\"\\ud83d\\ude00\""), vec![0x3d, 0x00]);
    assert_eq!(decode("\"\\ud800\""), vec![0x00]);
    assert_eq!(decode("\"\\udfff\""), vec![0xff]);
}

#[test]
fn plain_characters_are_cut_to_their_low_byte() {
    assert_eq!(decode("\"\u{e9}\""), vec![0xe9]);
    assert_eq!(decode("\"\u{20ac}\""), vec![0xac]);
    assert_eq!(decode("\"\u{1f600}\""), vec![0x00]);
    assert_eq!(decode("\"a\\\u{141}b\""), b"aAb".to_vec());
}

#[test]
fn escape_takes_exactly_four_digits() {
    assert_eq!(decode("\"\\u00411\""), b"A1".to_vec());
    assert_eq!(decode("\"\\u0041\\u0042\""), b"AB".to_vec());
}

#[test]
fn malformed_bytes_are_no_text() {
    assert_eq!(decode_text("\"\\u00ff\""), None);
    assert_eq!(decode_text("\"\\u00c2\""), None);
    assert_eq!(decode_text("\"\u{e9}\""), None);
    assert_eq!(decode_text("\"\\u00a9\\u00c2\""), None);
}

#[test]
fn well_formed_bytes_are_text() {
    assert_eq!(decode_text("\"\\u00c2\\u00a9\""), Some("\u{a9}".to_string()));
    assert_eq!(decode_text("\"\\u00e2\\u0082\\u00ac\""), Some("\u{20ac}".to_string()));
    assert_eq!(decode_text("\"abc\""), Some("abc".to_string()));
    assert_eq!(decode_text(""), Some(String::new()));
    assert_eq!(decode_text("\"ab\\uZZZZ\""), Some("ab".to_string()));
}

#[test]
fn plain_unquoted_text_loses_only_its_first_character() {
    let samples = ["", "a", "hello", "a b c", "x\"y\"z", "0123456789"];
    for sample in samples {
        let expected: Vec<u8> = sample.chars().skip(1).map(|c| c as u8).collect();
        assert_eq!(decode(sample), expected);
    }
}

#[test]
fn plain_quoted_text_passes_through() {
    let samples = ["", "a", "hello", "a b c", "0123456789", "~!@#$%^&*()"];
    for sample in samples {
        let fragment = format!("\"{}\"", sample);
        assert_eq!(decode(&fragment), sample.as_bytes().to_vec());
        assert_eq!(decode_text(&fragment), Some(sample.to_string()));
    }
}

#[test]
fn decoding_plain_ascii_again_drops_the_first_character() {
    let once = from_utf16("\"hello\"");
    assert_eq!(once, "hello");
    assert_eq!(decode(&once), b"ello".to_vec());
    let nothing = from_utf16("\"\"");
    assert_eq!(decode(&nothing), nothing.as_bytes().to_vec());
}

#[test]
fn decoding_is_repeatable() {
    let fragment = "\"a\\nb\\u00c2\\u00a9\"";
    assert_eq!(decode(fragment), decode(fragment));
    assert_eq!(decode(fragment), vec![0x61, 0x0a, 0x62, 0xc2, 0xa9]);
}
