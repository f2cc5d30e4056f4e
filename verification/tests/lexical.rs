use kind2::define::last_part;
use kind2::literals::{decode_scalar, digit_of, escape, TOO_LARGE};
use kind2::{KindParser, ParseError};

fn lx_message(expected: &str, index: usize, source: &str) -> String {
    format!(
        "\x1b[1mPARSE_ERROR\n- expected: \x1b[0m{}\x1b[1m\n- detected:\n\x1b[0m{}",
        expected,
        highlight_error::highlight_error(index, index + 1, source)
    )
}

fn lx_error(expected: &str, index: usize, source: &str) -> ParseError {
    ParseError {
        index,
        expected: expected.to_string(),
        info: None,
        message: lx_message(expected, index, source),
    }
}

fn lx_error_and(expected: &str, info: &str, index: usize, source: &str) -> ParseError {
    ParseError {
        index,
        expected: expected.to_string(),
        info: Some(info.to_string()),
        message: format!(
            "\x1b[1mPARSE_ERROR\n- information: \x1b[0m{}\x1b[1m\n- expected: \x1b[0m{}\x1b[1m\n- detected:\n\x1b[0m{}\x1b[1m\n ",
            info,
            expected,
            highlight_error::highlight_error(index, index + 1, source)
        ),
    }
}

#[test]
fn new_parser_starts_at_zero() {
    let parser = KindParser::new("abc");
    assert_eq!(parser.index(), 0);
    assert_eq!(parser.input(), "abc");
    assert!(!parser.is_eof());
    assert!(KindParser::new("").is_eof());
}

#[test]
fn peek_does_not_consume() {
    let parser = KindParser::new("ab");
    assert_eq!(parser.peek_one(), Some(b'a'));
    assert_eq!(parser.peek_nth(1), Some(b'b'));
    assert_eq!(parser.peek_nth(2), None);
    assert_eq!(parser.index(), 0);
    assert_eq!(KindParser::new("").peek_one(), None);
}

#[test]
fn starts_with_compares_bytes() {
    let parser = KindParser::new("λx y");
    assert!(parser.starts_with("λ"));
    assert!(parser.starts_with("λx"));
    assert!(parser.starts_with(""));
    assert!(!parser.starts_with("x"));
    assert!(!parser.starts_with("λx y z"));
}

#[test]
fn skip_trivia_skips_spaces_and_comments() {
    let mut parser = KindParser::new("  \t\r\n\x0C// note\n  // more\nx");
    parser.skip_trivia();
    assert_eq!(parser.peek_one(), Some(b'x'));
    parser.skip_trivia();
    assert_eq!(parser.peek_one(), Some(b'x'));
}

#[test]
fn skip_trivia_comment_runs_to_end_of_input() {
    let mut parser = KindParser::new(" // no newline");
    parser.skip_trivia();
    assert!(parser.is_eof());
    assert_eq!(parser.index(), 14);
}

#[test]
fn skip_trivia_single_slash_is_no_comment() {
    let mut parser = KindParser::new(" / x");
    parser.skip_trivia();
    assert_eq!(parser.index(), 1);
}

#[test]
fn consume_skips_trivia_then_matches() {
    let mut parser = KindParser::new("  // c\n => rest");
    assert_eq!(parser.consume("=>"), Ok(()));
    assert_eq!(parser.index(), 10);
}

#[test]
fn consume_reports_what_was_expected() {
    let source = "  abc";
    let mut parser = KindParser::new(source);
    let err = parser.consume("(").unwrap_err();
    assert_eq!(err, lx_error("(", 2, source));
    assert_eq!(parser.index(), 2);
}

#[test]
fn error_message_shows_the_line() {
    let source = "first\nsecond line\nthird";
    let mut parser = KindParser::new(source);
    assert_eq!(parser.parse_name(), Ok("first".to_string()));
    assert_eq!(parser.parse_name(), Ok("second".to_string()));
    let err = parser.consume(":").unwrap_err();
    assert_eq!(err.index, 13);
    assert_eq!(err.expected, ":");
    assert!(err.message.contains("PARSE_ERROR"));
    assert!(err.message.contains("- expected: \x1b[0m:"));
    assert!(err.message.contains("second"));
    assert!(err.message.contains(" 2 | "));
    assert!(!err.message.contains("third"));
    assert_eq!(err.message, lx_message(":", 13, source));
}

#[test]
fn expected_at_end_of_input() {
    let source = "ab";
    let mut parser = KindParser::new(source);
    assert_eq!(parser.parse_name(), Ok("ab".to_string()));
    let err: ParseError = parser.expected::<()>("more").unwrap_err();
    assert_eq!(err, lx_error("more", 2, source));
    let err: ParseError = parser.expected_and::<()>("more", "why").unwrap_err();
    assert_eq!(err, lx_error_and("more", "why", 2, source));
    assert!(err.message.contains("- information: \x1b[0mwhy"));
}

#[test]
fn parse_name_takes_name_characters() {
    let mut parser = KindParser::new("  Foo.bar_1-x/y$z rest");
    assert_eq!(parser.parse_name(), Ok("Foo.bar_1-x/y$z".to_string()));
    assert_eq!(parser.index(), 17);
    assert_eq!(parser.parse_name(), Ok("rest".to_string()));
    assert!(parser.is_eof());
}

#[test]
fn parse_name_fails_on_other_characters() {
    let source = " (x";
    let mut parser = KindParser::new(source);
    assert_eq!(parser.parse_name(), Err(lx_error("name", 1, source)));
    let source = "";
    let mut parser = KindParser::new(source);
    assert_eq!(parser.parse_name(), Err(lx_error("name", 0, source)));
    let source = "λ";
    let mut parser = KindParser::new(source);
    assert_eq!(parser.parse_name(), Err(lx_error("name", 0, source)));
}

#[test]
fn parse_u64_decimal() {
    let mut parser = KindParser::new(" 1_234_567 x");
    assert_eq!(parser.parse_u64(), Ok(1234567));
    assert_eq!(parser.index(), 10);
    let mut parser = KindParser::new("0");
    assert_eq!(parser.parse_u64(), Ok(0));
    let mut parser = KindParser::new("18446744073709551615");
    assert_eq!(parser.parse_u64(), Ok(u64::MAX));
}

#[test]
fn parse_u64_hexadecimal_and_binary() {
    let mut parser = KindParser::new("0xFf_a0");
    assert_eq!(parser.parse_u64(), Ok(0xFFA0));
    let mut parser = KindParser::new("0b1010_1");
    assert_eq!(parser.parse_u64(), Ok(21));
    let mut parser = KindParser::new("0xFFFFFFFFFFFFFFFF");
    assert_eq!(parser.parse_u64(), Ok(u64::MAX));
    // a digit outside the radix ends the number
    let mut parser = KindParser::new("0b102");
    assert_eq!(parser.parse_u64(), Ok(2));
    assert_eq!(parser.index(), 4);
    let mut parser = KindParser::new("12ab");
    assert_eq!(parser.parse_u64(), Ok(12));
    assert_eq!(parser.index(), 2);
}

#[test]
fn parse_u64_needs_a_digit() {
    let source = "x";
    let mut parser = KindParser::new(source);
    assert_eq!(parser.parse_u64(), Err(lx_error("numeric digit", 0, source)));
    let source = "0x";
    let mut parser = KindParser::new(source);
    assert_eq!(parser.parse_u64(), Err(lx_error("numeric digit", 2, source)));
    let source = "0b__ ";
    let mut parser = KindParser::new(source);
    assert_eq!(parser.parse_u64(), Err(lx_error("numeric digit", 4, source)));
}

#[test]
fn too_large_says_what_std_says() {
    let err = "18446744073709551616".parse::<u64>().unwrap_err();
    assert_eq!(format!("{}", err), TOO_LARGE);
}

#[test]
fn parse_u64_rejects_overflow() {
    let source = "18446744073709551616 ";
    let mut parser = KindParser::new(source);
    assert_eq!(parser.parse_u64(), Err(lx_error_and("integer", TOO_LARGE, 20, source)));
    let source = "0x1_0000_0000_0000_0000";
    let mut parser = KindParser::new(source);
    assert_eq!(parser.parse_u64(), Err(lx_error_and("integer", TOO_LARGE, 23, source)));
    let source = "99999999999999999999999999";
    let mut parser = KindParser::new(source);
    assert_eq!(parser.parse_u64(), Err(lx_error_and("integer", TOO_LARGE, 26, source)));
}

#[test]
fn parse_char_plain_and_multibyte() {
    let mut parser = KindParser::new("aλ∀😀");
    assert_eq!(parser.parse_char(), Ok('a'));
    assert_eq!(parser.parse_char(), Ok('λ'));
    assert_eq!(parser.index(), 3);
    assert_eq!(parser.parse_char(), Ok('∀'));
    assert_eq!(parser.index(), 6);
    assert_eq!(parser.parse_char(), Ok('😀'));
    assert_eq!(parser.index(), 10);
    assert!(parser.is_eof());
}

#[test]
fn parse_char_boundaries_of_each_width() {
    let mut parser = KindParser::new("\u{7f}\u{80}\u{7ff}\u{800}\u{d7ff}\u{e000}\u{ffff}\u{10000}\u{10ffff}");
    for expected in ['\u{7f}', '\u{80}', '\u{7ff}', '\u{800}', '\u{d7ff}', '\u{e000}', '\u{ffff}', '\u{10000}', '\u{10ffff}'] {
        assert_eq!(parser.parse_char(), Ok(expected));
    }
    assert!(parser.is_eof());
}

#[test]
fn parse_char_escapes() {
    let mut parser = KindParser::new("\\0\\n\\r\\t\\'\\\"\\\\");
    for expected in ['\0', '\n', '\r', '\t', '\'', '"', '\\'] {
        assert_eq!(parser.parse_char(), Ok(expected));
    }
    assert!(parser.is_eof());
}

#[test]
fn parse_char_unicode_escapes() {
    let mut parser = KindParser::new("\\u{41}\\u{3bb}\\u{2200}\\u{1F600}\\u{0}\\u{10FFFF}\\u{00000041 }");
    for expected in ['A', 'λ', '∀', '😀', '\0', '\u{10ffff}', 'A'] {
        assert_eq!(parser.parse_char(), Ok(expected));
    }
    assert!(parser.is_eof());
}

#[test]
fn parse_char_unicode_escape_errors() {
    let source = "\\u41}";
    let mut parser = KindParser::new(source);
    assert_eq!(parser.parse_char(), Err(lx_error("{", 2, source)));
    let source = "\\u{41";
    let mut parser = KindParser::new(source);
    assert_eq!(parser.parse_char(), Err(lx_error("}", 5, source)));
    let source = "\\u{}";
    let mut parser = KindParser::new(source);
    assert_eq!(parser.parse_char(), Err(lx_error("unicode-codepoint", 4, source)));
    let source = "\\u{D800}";
    let mut parser = KindParser::new(source);
    assert_eq!(parser.parse_char(), Err(lx_error("unicode-codepoint", 8, source)));
    let source = "\\u{110000}";
    let mut parser = KindParser::new(source);
    assert_eq!(parser.parse_char(), Err(lx_error("unicode-codepoint", 10, source)));
    let source = "\\u{FFFFFFFFFFFFFFFFFFFF}";
    let mut parser = KindParser::new(source);
    assert_eq!(parser.parse_char(), Err(lx_error("unicode-codepoint", 24, source)));
    let source = "\\u{4g}";
    let mut parser = KindParser::new(source);
    assert_eq!(parser.parse_char(), Err(lx_error("}", 4, source)));
}

#[test]
fn parse_char_errors() {
    let source = "";
    let mut parser = KindParser::new(source);
    assert_eq!(parser.parse_char(), Err(lx_error("char", 0, source)));
    let source = "\\";
    let mut parser = KindParser::new(source);
    assert_eq!(parser.parse_char(), Err(lx_error("escaped-char", 1, source)));
    // an unknown escape is read, then refused
    let source = "\\q";
    let mut parser = KindParser::new(source);
    assert_eq!(parser.parse_char(), Err(lx_error("\\q", 2, source)));
    let source = "\\λx";
    let mut parser = KindParser::new(source);
    assert_eq!(parser.parse_char(), Err(lx_error("\\λ", 3, source)));
}

#[test]
fn parse_quoted_char_reads_one_character() {
    let mut parser = KindParser::new(" 'x' ");
    assert_eq!(parser.parse_quoted_char(), Ok('x'));
    assert_eq!(parser.index(), 4);
    let mut parser = KindParser::new("'\\''");
    assert_eq!(parser.parse_quoted_char(), Ok('\''));
    let source = "'xy'";
    let mut parser = KindParser::new(source);
    assert_eq!(parser.parse_quoted_char(), Err(lx_error("'", 2, source)));
    let source = "x";
    let mut parser = KindParser::new(source);
    assert_eq!(parser.parse_quoted_char(), Err(lx_error("'", 0, source)));
}

#[test]
fn parse_quoted_string_reads_to_closing_quote() {
    let mut parser = KindParser::new(" \"héllo λ\\n\\\"q\\\"\" rest");
    assert_eq!(parser.parse_quoted_string(), Ok("héllo λ\n\"q\"".to_string()));
    assert_eq!(parser.parse_name(), Ok("rest".to_string()));
    let mut parser = KindParser::new("\"\"");
    assert_eq!(parser.parse_quoted_string(), Ok(String::new()));
    assert!(parser.is_eof());
}

#[test]
fn parse_quoted_string_errors() {
    let source = "\"abc";
    let mut parser = KindParser::new(source);
    assert_eq!(parser.parse_quoted_string(), Err(lx_error("\"", 4, source)));
    let source = "\"a\\z\"";
    let mut parser = KindParser::new(source);
    assert_eq!(parser.parse_quoted_string(), Err(lx_error("\\z", 4, source)));
    let source = "\"a\\";
    let mut parser = KindParser::new(source);
    assert_eq!(parser.parse_quoted_string(), Err(lx_error("escaped-char", 3, source)));
    let source = "abc";
    let mut parser = KindParser::new(source);
    assert_eq!(parser.parse_quoted_string(), Err(lx_error("\"", 0, source)));
}

#[test]
fn decode_scalar_rejects_malformed_bytes() {
    assert_eq!(decode_scalar(&[0x41], 0), Some(('A', 1)));
    assert_eq!(decode_scalar(&[0x41], 1), None);
    // lone continuation byte
    assert_eq!(decode_scalar(&[0x80], 0), None);
    // overlong two-byte form of '/'
    assert_eq!(decode_scalar(&[0xC0, 0xAF], 0), None);
    assert_eq!(decode_scalar(&[0xC1, 0xBF], 0), None);
    // truncated sequences
    assert_eq!(decode_scalar(&[0xCE], 0), None);
    assert_eq!(decode_scalar(&[0xE2, 0x88], 0), None);
    assert_eq!(decode_scalar(&[0xF0, 0x9F, 0x98], 0), None);
    // second byte is no continuation byte
    assert_eq!(decode_scalar(&[0xCE, 0x41], 0), None);
    // overlong three-byte form
    assert_eq!(decode_scalar(&[0xE0, 0x80, 0x80], 0), None);
    // surrogate
    assert_eq!(decode_scalar(&[0xED, 0xA0, 0x80], 0), None);
    // overlong four-byte form, and beyond U+10FFFF
    assert_eq!(decode_scalar(&[0xF0, 0x80, 0x80, 0x80], 0), None);
    assert_eq!(decode_scalar(&[0xF4, 0x90, 0x80, 0x80], 0), None);
    assert_eq!(decode_scalar(&[0xF5, 0x80, 0x80, 0x80], 0), None);
    // well-formed
    assert_eq!(decode_scalar(&[0xCE, 0xBB], 0), Some(('λ', 2)));
    assert_eq!(decode_scalar(&[0x20, 0xE2, 0x88, 0x80], 1), Some(('∀', 3)));
    assert_eq!(decode_scalar(&[0xF4, 0x8F, 0xBF, 0xBF], 0), Some(('\u{10ffff}', 4)));
}

#[test]
fn digit_and_escape_tables() {
    assert_eq!(digit_of(b'0'), 0);
    assert_eq!(digit_of(b'9'), 9);
    assert_eq!(digit_of(b'a'), 10);
    assert_eq!(digit_of(b'f'), 15);
    assert_eq!(digit_of(b'A'), 10);
    assert_eq!(digit_of(b'F'), 15);
    assert_eq!(digit_of(b'g'), 36);
    assert_eq!(digit_of(b'_'), 36);
    assert_eq!(escape(b'n'), Some('\n'));
    assert_eq!(escape(b'x'), None);
}

#[test]
fn last_part_of_dotted_names() {
    assert_eq!(last_part("Foo.Bar.Baz"), "Baz");
    assert_eq!(last_part("Main"), "Main");
    assert_eq!(last_part("Foo."), "");
    assert_eq!(last_part(""), "");
    assert_eq!(last_part(".x"), "x");
    assert_eq!(last_part("a.λ"), "λ");
}
