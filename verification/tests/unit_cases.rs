use secure_input::{
    parse_positive_u32, read_sanitized_line, sanitize_text, InputError, LineSource,
};

#[test]
fn sanitize_text_rejects_empty() {
    assert!(matches!(sanitize_text("   \n", 5), Err(InputError::Empty)));
}

#[test]
fn sanitize_text_trims_whitespace() {
    let result = sanitize_text("  Hello World  \r\n", 32).unwrap();
    assert_eq!(result, "Hello World");
}

#[test]
fn read_sanitized_line_rejects_long_input() {
    let mut source = LineSource::new("six chars\n".as_bytes().to_vec());
    let err = read_sanitized_line(&mut source, 5).unwrap_err();
    assert!(matches!(err, InputError::TooLong { .. }));
}

#[test]
fn read_sanitized_line_discards_overlong_line() {
    let mut source = LineSource::new("abcdefg\nok\n".as_bytes().to_vec());
    let err = read_sanitized_line(&mut source, 5).unwrap_err();
    assert!(matches!(err, InputError::TooLong { .. }));

    let second = read_sanitized_line(&mut source, 5).unwrap();
    assert_eq!(second, "ok");
}

#[test]
fn parse_positive_u32_rejects_letters() {
    let err = parse_positive_u32("12ab").unwrap_err();
    assert!(matches!(err, InputError::InvalidCharacter('a')));
}

#[test]
fn parse_positive_u32_rejects_overflow() {
    let err = parse_positive_u32("42949672960").unwrap_err();
    assert!(matches!(
        err,
        InputError::TooLong { .. } | InputError::NumericOverflow
    ));
}
