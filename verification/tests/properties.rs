use secure_input::{
    parse_positive_u32, read_sanitized_line, sanitize_display_label, sanitize_text, InputError,
    LineSource,
};

#[test]
fn sanitize_text_returns_exact_trimmed_form() {
    assert_eq!(sanitize_text("hello\r\n", 5).unwrap(), "hello");
    assert_eq!(sanitize_text("\u{3000} wide \u{00A0}", 8).unwrap(), "wide");
}

#[test]
fn sanitize_text_reports_exact_length() {
    let err = sanitize_text("abcdef", 5).unwrap_err();
    assert!(matches!(err, InputError::TooLong { max: 5, actual: 6 }));
}

#[test]
fn sanitize_text_reports_first_control_character() {
    let err = sanitize_text("a\u{7}b\u{8}c", 10).unwrap_err();
    assert!(matches!(err, InputError::InvalidCharacter('\u{7}')));
}

#[test]
fn sanitize_text_is_idempotent_on_its_output() {
    let once = sanitize_text("  x y  \n", 8).unwrap();
    let twice = sanitize_text(&once, 8).unwrap();
    assert_eq!(once, twice);
}

#[test]
fn line_reader_resynchronizes_after_overlong_line() {
    let mut source = LineSource::new("abcdefg\nok\n".as_bytes().to_vec());
    let err = read_sanitized_line(&mut source, 5).unwrap_err();
    // the bounded read buffers six bytes of the overlong line and reports
    // the buffered text's exact trimmed length
    assert!(matches!(err, InputError::TooLong { max: 5, actual: 6 }));

    let second = read_sanitized_line(&mut source, 5).unwrap();
    assert_eq!(second, "ok");
}

#[test]
fn line_reader_accepts_line_exactly_at_limit() {
    let mut source = LineSource::new("abcde\nrest\n".as_bytes().to_vec());
    assert_eq!(read_sanitized_line(&mut source, 5).unwrap(), "abcde");
    assert_eq!(read_sanitized_line(&mut source, 5).unwrap(), "rest");
}

#[test]
fn line_reader_treats_end_of_stream_as_line_end() {
    let mut source = LineSource::new("abcde".as_bytes().to_vec());
    assert_eq!(read_sanitized_line(&mut source, 5).unwrap(), "abcde");
}

#[test]
fn line_reader_recovers_when_overlong_line_ends_the_stream() {
    let mut source = LineSource::new("abcdefgh".as_bytes().to_vec());
    let err = read_sanitized_line(&mut source, 5).unwrap_err();
    assert!(matches!(err, InputError::TooLong { .. }));

    let err = read_sanitized_line(&mut source, 5).unwrap_err();
    assert!(matches!(err, InputError::Empty));
}

#[test]
fn empty_stream_is_reported_as_empty_not_io() {
    let mut source = LineSource::new(Vec::new());
    let err = read_sanitized_line(&mut source, 16).unwrap_err();
    assert!(matches!(err, InputError::Empty));
}

#[test]
fn line_reader_decodes_multibyte_text() {
    let mut source = LineSource::new("h\u{e9}llo\n".as_bytes().to_vec());
    assert_eq!(read_sanitized_line(&mut source, 16).unwrap(), "h\u{e9}llo");
}

#[test]
fn line_reader_reports_undecodable_bytes_as_io() {
    let mut source = LineSource::new(vec![0xff, 0xfe, 0x0a]);
    let err = read_sanitized_line(&mut source, 16).unwrap_err();
    assert!(matches!(err, InputError::Io(_)));
}

#[test]
fn parse_positive_u32_exact_values() {
    assert_eq!(parse_positive_u32("0").unwrap(), 0);
    assert_eq!(parse_positive_u32("007").unwrap(), 7);
    assert_eq!(parse_positive_u32("4294967295").unwrap(), 4_294_967_295);
}

#[test]
fn parse_positive_u32_rejects_ten_digit_overflow() {
    let err = parse_positive_u32("4294967296").unwrap_err();
    assert!(matches!(err, InputError::NumericOverflow));
}

#[test]
fn parse_positive_u32_rejects_control_characters() {
    let err = parse_positive_u32("4\t2").unwrap_err();
    assert!(matches!(err, InputError::InvalidCharacter('\t')));
}

#[test]
fn parse_positive_u32_rejects_decimal_point() {
    let err = parse_positive_u32("3.5").unwrap_err();
    assert!(matches!(err, InputError::InvalidCharacter('.')));
}

#[test]
fn display_label_accepts_visible_text() {
    assert_eq!(sanitize_display_label("  name  \n", 16).unwrap(), "name");
}

#[test]
fn display_label_rejects_invisible_input() {
    let err = sanitize_display_label("\u{00A0}\u{2007}\u{00A0}", 16).unwrap_err();
    assert!(matches!(err, InputError::Empty));

    let err = sanitize_display_label("   \n", 5).unwrap_err();
    assert!(matches!(err, InputError::Empty));
}

#[test]
fn display_label_success_is_never_all_whitespace() {
    let inputs = ["a", "  a  ", "\u{3000}b\u{3000}", " a b ", "\r\n x \r\n"];
    for raw in inputs {
        let cleaned = sanitize_display_label(raw, 32).unwrap();
        assert!(cleaned.chars().any(|c| !c.is_whitespace()));
    }
}
