use note_decoder::{hex_digit, Decoder, State};

fn feed_all(decoder: &mut Decoder, text: &str) {
    for c in text.chars() {
        decoder.feed(c);
    }
}

#[test]
fn hex_digit_reads_decimal_digits() {
    assert_eq!(hex_digit('0'), Some(0));
    assert_eq!(hex_digit('5'), Some(5));
    assert_eq!(hex_digit('9'), Some(9));
}

#[test]
fn hex_digit_reads_letters_in_both_cases() {
    assert_eq!(hex_digit('a'), Some(10));
    assert_eq!(hex_digit('c'), Some(12));
    assert_eq!(hex_digit('f'), Some(15));
    assert_eq!(hex_digit('A'), Some(10));
    assert_eq!(hex_digit('C'), Some(12));
    assert_eq!(hex_digit('F'), Some(15));
}

#[test]
fn hex_digit_rejects_everything_else() {
    for c in ['/', ':', '@', 'G', '`', 'g', 'z', 'Z', ' ', '"', '\\', '\u{ff10}', '\u{e9}'] {
        assert_eq!(hex_digit(c), None);
    }
}

#[test]
fn new_decoder_is_at_the_beginning() {
    let decoder = Decoder::new();
    assert_eq!(decoder.state(), State::Begin);
    assert!(!decoder.is_quoted());
    assert!(!decoder.is_finished());
    assert_eq!(decoder.into_bytes(), Vec::<u8>::new());
}

#[test]
fn first_character_sets_quoted_mode() {
    let mut quoted = Decoder::new();
    quoted.feed('"');
    assert_eq!(quoted.state(), State::Normal);
    assert!(quoted.is_quoted());
    assert_eq!(quoted.into_bytes(), Vec::<u8>::new());

    let mut unquoted = Decoder::new();
    unquoted.feed('a');
    assert_eq!(unquoted.state(), State::Normal);
    assert!(!unquoted.is_quoted());
    assert_eq!(unquoted.into_bytes(), Vec::<u8>::new());

    let mut backslash = Decoder::new();
    backslash.feed('\\');
    assert_eq!(backslash.state(), State::Normal);
    assert!(!backslash.is_quoted());
}

#[test]
fn closing_quote_ends_a_quoted_fragment() {
    let mut decoder = Decoder::new();
    feed_all(&mut decoder, "\"ab");
    assert!(!decoder.is_finished());
    decoder.feed('"');
    assert_eq!(decoder.state(), State::End);
    assert!(decoder.is_finished());
    feed_all(&mut decoder, "cd\\n\\u0041\"");
    assert_eq!(decoder.state(), State::End);
    assert_eq!(decoder.into_bytes(), b"ab".to_vec());
}

#[test]
fn quote_does_not_end_an_unquoted_fragment() {
    let mut decoder = Decoder::new();
    feed_all(&mut decoder, "xab\"");
    assert_eq!(decoder.state(), State::Normal);
    assert!(!decoder.is_finished());
    assert_eq!(decoder.into_bytes(), b"ab\"".to_vec());
}

#[test]
fn backslash_starts_an_escape() {
    let mut decoder = Decoder::new();
    feed_all(&mut decoder, "\"a\\");
    assert_eq!(decoder.state(), State::Escaping);
    decoder.feed('n');
    assert_eq!(decoder.state(), State::Normal);
    assert_eq!(decoder.into_bytes(), b"a\n".to_vec());
}

#[test]
fn hex_escape_accumulates_high_to_low() {
    let mut decoder = Decoder::new();
    feed_all(&mut decoder, "\"\\u");
    assert_eq!(decoder.state(), State::Unicode { count: 0, value: 0 });
    decoder.feed('1');
    assert_eq!(decoder.state(), State::Unicode { count: 1, value: 0x1 });
    decoder.feed('a');
    assert_eq!(decoder.state(), State::Unicode { count: 2, value: 0x1a });
    decoder.feed('F');
    assert_eq!(decoder.state(), State::Unicode { count: 3, value: 0x1af });
    decoder.feed('4');
    assert_eq!(decoder.state(), State::Normal);
    assert_eq!(decoder.into_bytes(), vec![0xf4]);
}

#[test]
fn invalid_hex_digit_is_an_error_that_nothing_leaves() {
    let mut decoder = Decoder::new();
    feed_all(&mut decoder, "\"ab\\u00");
    assert_eq!(decoder.state(), State::Unicode { count: 2, value: 0 });
    decoder.feed('"');
    assert_eq!(decoder.state(), State::Error);
    assert!(decoder.is_finished());
    feed_all(&mut decoder, "cd\"\\n");
    assert_eq!(decoder.state(), State::Error);
    assert_eq!(decoder.into_bytes(), b"ab".to_vec());
}

#[test]
fn input_that_ends_inside_an_escape_leaves_the_decoder_waiting() {
    let mut decoder = Decoder::new();
    feed_all(&mut decoder, "\"ab\\u00");
    assert!(!decoder.is_finished());
    assert_eq!(decoder.state(), State::Unicode { count: 2, value: 0 });
    assert_eq!(decoder.into_bytes(), b"ab".to_vec());
}
