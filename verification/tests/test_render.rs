use dcbor_parse::{parse_dcbor_item, ParseError, Span, Token};

#[test]
fn an_error_is_shown_under_its_line() {
    let source = "{\"key1\": 1, \"key2\": 2, \"key1\": 3}";
    let e = parse_dcbor_item(source).unwrap_err();
    assert_eq!(
        e.full_message(source),
        format!("line 1: Duplicate map key\n{}\n{}{}", source, " ".repeat(23), "^".repeat(6))
    );
    assert_eq!(e.rendered(source), e.full_message(source).into_bytes());
}

#[test]
fn the_end_of_the_input_is_shown_behind_the_last_line() {
    let source = "[1, 2,\n3, 4,";
    let e = parse_dcbor_item(source).unwrap_err();
    assert_eq!(e, ParseError::UnexpectedEndOfInput);
    assert_eq!(e.full_message(source), "line 2: Unexpected end of input\n3, 4,\n     ^");
    let source = "[1,\n";
    let e = parse_dcbor_item(source).unwrap_err();
    assert_eq!(e.full_message(source), "line 2: Unexpected end of input\n\n^");
}

#[test]
fn an_empty_input_is_shown_at_its_start() {
    let e = parse_dcbor_item("").unwrap_err();
    assert_eq!(e.full_message(""), "line 1: Empty input\n\n^");
    let source = "  \n # nothing\n";
    let e = parse_dcbor_item(source).unwrap_err();
    assert_eq!(e.full_message(source), "line 1: Empty input\n  \n^");
}

#[test]
fn a_carriage_return_in_front_of_a_line_feed_is_left_out() {
    let source = "[q,\r\n1]";
    let e = parse_dcbor_item(source).unwrap_err();
    assert_eq!(e.full_message(source), "line 1: Unrecognized token\n[q,\n ^");
    let source = "[1,\r\n q]\r";
    let e = parse_dcbor_item(source).unwrap_err();
    assert_eq!(e.full_message(source), "line 2: Unrecognized token\n q]\r\n ^");
    let source = "[1,\r\n\r\n q]";
    let e = parse_dcbor_item(source).unwrap_err();
    assert_eq!(e.full_message(source), "line 3: Unrecognized token\n q]\n ^");
}

#[test]
fn columns_count_bytes() {
    let source = "[\"\u{e9}\u{e9}\", nope(1)]";
    let e = parse_dcbor_item(source).unwrap_err();
    assert_eq!(
        e.full_message(source),
        format!("line 1: Unknown tag name 'nope'\n{}\n{}^^^^", source, " ".repeat(9))
    );
}

#[test]
fn line_numbers_have_all_their_digits() {
    let source = format!("[{}q", "1,\n".repeat(122));
    let e = parse_dcbor_item(&source).unwrap_err();
    assert_eq!(e.full_message(&source), "line 123: Unrecognized token\nq\n^");
    let source = format!("[{}q", "1,\n".repeat(9));
    let e = parse_dcbor_item(&source).unwrap_err();
    assert_eq!(e.full_message(&source), "line 10: Unrecognized token\nq\n^");
}

#[test]
fn a_span_outside_the_source_is_shown_behind_the_last_line() {
    let e = ParseError::ExtraData(Span { start: 8, end: 11 });
    assert_eq!(e.full_message("ab\ncd"), "line 2: Extra data at end of input\ncd\n     ^^^");
    let e = ParseError::ExtraData(Span { start: 4, end: 2 });
    assert_eq!(e.full_message("ab\ncd"), "line 2: Extra data at end of input\ncd\n ^");
    let e = ParseError::ExtraData(Span { start: 3, end: 3 });
    assert_eq!(e.full_message("ab\ncd"), "line 2: Extra data at end of input\ncd\n^");
    let e = ParseError::ExtraData(Span { start: 2, end: 3 });
    assert_eq!(e.full_message("ab\ncd"), "line 1: Extra data at end of input\nab\n  ^");
}

#[test]
fn each_error_has_its_message() {
    let s = Span { start: 0, end: 1 };
    let t = || "x".to_string();
    let cases = [
        (ParseError::EmptyInput, "Empty input"),
        (ParseError::UnexpectedEndOfInput, "Unexpected end of input"),
        (ParseError::ExtraData(s), "Extra data at end of input"),
        (
            ParseError::UnexpectedToken(Box::new(Token::BracketClose), s),
            "Unexpected token BracketClose",
        ),
        (ParseError::UnexpectedToken(Box::new(Token::Bool(true)), s), "Unexpected token Bool"),
        (
            ParseError::UnexpectedToken(Box::new(Token::Number(vec![0x31])), s),
            "Unexpected token Number",
        ),
        (ParseError::UnrecognizedToken(s), "Unrecognized token"),
        (ParseError::ExpectedComma(s), "Expected comma"),
        (ParseError::ExpectedColon(s), "Expected colon"),
        (ParseError::UnmatchedParentheses(s), "Unmatched parentheses"),
        (ParseError::UnmatchedBraces(s), "Unmatched braces"),
        (ParseError::ExpectedMapKey(s), "Expected map key"),
        (ParseError::InvalidTagValue(t(), s), "Invalid tag value 'x'"),
        (ParseError::UnknownTagName(t(), s), "Unknown tag name 'x'"),
        (ParseError::InvalidHexString(s), "Invalid hex string"),
        (ParseError::InvalidBase64String(s), "Invalid base64 string"),
        (ParseError::UnknownUrType(t(), s), "Unknown UR type 'x'"),
        (ParseError::InvalidUr(t(), s), "Invalid UR 'x'"),
        (ParseError::InvalidKnownValue(t(), s), "Invalid known value 'x'"),
        (ParseError::UnknownKnownValueName(t(), s), "Unknown known value name 'x'"),
        (ParseError::InvalidDateString(t(), s), "Invalid date string 'x'"),
        (ParseError::DuplicateMapKey(s), "Duplicate map key"),
    ];
    for (e, message) in cases {
        assert_eq!(e.message(), message);
        let column = if e == ParseError::UnexpectedEndOfInput { " " } else { "" };
        assert_eq!(e.full_message("x"), format!("line 1: {message}\nx\n{column}^"));
    }
}

#[test]
fn errors_know_their_span() {
    assert_eq!(ParseError::EmptyInput.span(), None);
    assert_eq!(ParseError::UnexpectedEndOfInput.span(), None);
    let s = Span { start: 3, end: 9 };
    assert_eq!(ParseError::DuplicateMapKey(s).span(), Some(s));
    assert_eq!(ParseError::InvalidUr("m".to_string(), s).span(), Some(s));
    assert_eq!(ParseError::UnexpectedToken(Box::new(Token::Comma), s).span(), Some(s));
    assert_eq!(s.len(), 6);
    assert_eq!(Span::new(9, 3), Span { start: 9, end: 3 });
    assert_eq!(Span::new(9, 3).len(), 0);
}

#[test]
fn the_default_error_is_the_lexers() {
    let e = ParseError::default();
    assert_eq!(e, ParseError::UnrecognizedToken(Span { start: 0, end: 0 }));
    assert!(e.is_default());
    assert!(ParseError::UnrecognizedToken(Span { start: 4, end: 5 }).is_default());
    assert!(!ParseError::EmptyInput.is_default());
    assert!(!ParseError::ExtraData(Span { start: 0, end: 0 }).is_default());
}

#[test]
fn the_message_of_a_ur_error_is_the_decoders() {
    let e = parse_dcbor_item("ur:date/cyisdadmlasgtapttx").unwrap_err();
    let expected = bc_ur::UR::from_ur_string("ur:date/cyisdadmlasgtapttx").unwrap_err().to_string();
    match &e {
        ParseError::InvalidUr(message, _) => assert_eq!(*message, expected),
        e => panic!("{e:?}"),
    }
    assert_eq!(e.message(), format!("Invalid UR '{expected}'"));
}
