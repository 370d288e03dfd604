use dcbor_parse::lexeme::{Kind, Word};
use dcbor_parse::lexer::{
    next_lexeme, scan_date, scan_escape, scan_exponent, scan_fraction, scan_int, scan_name,
    scan_number, scan_string, scan_time, scan_token, scan_ur, scan_zone, skip, test_two_digits,
    Found,
};
use dcbor_parse::registry::{lookup, same_bytes, Entry};
use dcbor_parse::scan::{byte_at, scan_run, test_all, test_at, test_word, Class};
use dcbor_parse::token::{next_token, parse_decimal, read_token, to_lower, Ur};
use dcbor_parse::{ParseError, Registry, Span, Token};

fn kinds(source: &str) -> Vec<(Kind, usize, usize)> {
    let s = source.as_bytes();
    let mut found = Vec::new();
    let mut p = 0;
    while let Some(f) = next_lexeme(s, p) {
        found.push((f.kind, f.span.start, f.span.end));
        p = f.span.end;
    }
    found
}

#[test]
fn tokens_of_each_kind() {
    assert_eq!(
        kinds("{}[]():,"),
        [
            (Kind::BraceOpen, 0, 1),
            (Kind::BraceClose, 1, 2),
            (Kind::BracketOpen, 2, 3),
            (Kind::BracketClose, 3, 4),
            (Kind::ParenthesisOpen, 4, 5),
            (Kind::ParenthesisClose, 5, 6),
            (Kind::Colon, 6, 7),
            (Kind::Comma, 7, 8),
        ]
    );
    assert_eq!(
        kinds("true false null NaN Infinity -Infinity Unit"),
        [
            (Kind::True, 0, 4),
            (Kind::False, 5, 10),
            (Kind::Null, 11, 15),
            (Kind::NaN, 16, 19),
            (Kind::Infinity, 20, 28),
            (Kind::NegInfinity, 29, 38),
            (Kind::Unit, 39, 43),
        ]
    );
    assert_eq!(
        kinds("-12.50e+3 \"a\\\"b\" h'0aF' b64'ab+/==' 2023-01-02T03:04:05.678-09:10"),
        [
            (Kind::Number, 0, 9),
            (Kind::String, 10, 16),
            (Kind::ByteStringHex, 17, 23),
            (Kind::ByteStringBase64, 24, 35),
            (Kind::DateLiteral, 36, 65),
        ]
    );
    assert_eq!(
        kinds("12( a_b-9( '7' 'a-b' '' ur:a-1/abcdefgh"),
        [
            (Kind::TagValue, 0, 3),
            (Kind::TagName, 4, 10),
            (Kind::KnownValueNumber, 11, 14),
            (Kind::KnownValueName, 15, 20),
            (Kind::KnownValueName, 21, 23),
            (Kind::UR, 24, 39),
        ]
    );
}

#[test]
fn the_longest_token_wins() {
    assert_eq!(
        kinds("2023-01-01T1"),
        [(Kind::DateLiteral, 0, 10), (Kind::Unrecognized, 10, 11), (Kind::Number, 11, 12)]
    );
    assert_eq!(kinds("2023-01-01Z"), [(Kind::DateLiteral, 0, 10), (Kind::Unrecognized, 10, 11)]);
    assert_eq!(kinds("2023-01-01T00:00:00Z"), [(Kind::DateLiteral, 0, 20)]);
    assert_eq!(kinds("2023-01-01T00:00:00+01:00"), [(Kind::DateLiteral, 0, 25)]);
    assert_eq!(
        kinds("2023-01-01T00:00:00."),
        [(Kind::DateLiteral, 0, 19), (Kind::Unrecognized, 19, 20)]
    );
    assert_eq!(kinds("20230-01-01"), [
        (Kind::Number, 0, 5),
        (Kind::Number, 5, 7),
        (Kind::Number, 7, 8),
        (Kind::Number, 8, 10),
        (Kind::Number, 10, 11)
    ]);
    assert_eq!(kinds("1e5("), [(Kind::Number, 0, 3), (Kind::ParenthesisOpen, 3, 4)]);
    assert_eq!(kinds("00("), [(Kind::Number, 0, 1), (Kind::TagValue, 1, 3)]);
    assert_eq!(kinds("nullx("), [(Kind::TagName, 0, 6)]);
    assert_eq!(kinds("Infinity-("), [(Kind::TagName, 0, 10)]);
    assert_eq!(kinds("h("), [(Kind::TagName, 0, 2)]);
    assert_eq!(
        kinds("b64'a'"),
        [(Kind::Unrecognized, 0, 1), (Kind::Number, 1, 3), (Kind::KnownValueName, 3, 6)]
    );
    assert_eq!(kinds("ur:-a/abcdefgh")[0], (Kind::Unrecognized, 0, 1));
    assert_eq!(kinds("ur:a/abcdefg1")[0], (Kind::Unrecognized, 0, 1));
    assert_eq!(kinds("\u{1f30e}1"), [(Kind::Unrecognized, 0, 4), (Kind::Number, 4, 5)]);
    assert_eq!(kinds("\"\u{1f30e}\""), [(Kind::String, 0, 6)]);
    assert_eq!(kinds("\"\\u00e9\""), [(Kind::String, 0, 8)]);
    assert_eq!(kinds("\"a\x1fb\"")[0], (Kind::Unrecognized, 0, 1));
    assert_eq!(kinds(" /a/#b\n\x0c\r\t1"), [(Kind::Number, 10, 11)]);
    assert_eq!(kinds("1/a"), [(Kind::Number, 0, 1), (Kind::Unrecognized, 1, 2), (Kind::Unrecognized, 2, 3)]);
    assert_eq!(kinds(""), []);
    assert_eq!(kinds("  # x"), []);
}

#[test]
fn scanning_steps() {
    let s = b"12ab  ";
    assert_eq!(scan_run(s, 0, Class::Digit), 2);
    assert_eq!(scan_run(s, 0, Class::HexDigit), 4);
    assert_eq!(scan_run(s, 2, Class::Letter), 4);
    assert_eq!(scan_run(s, 0, Class::NameChar), 4);
    assert_eq!(scan_run(s, 6, Class::Digit), 6);
    assert_eq!(scan_run(b"a-_1+", 0, Class::NameChar), 4);
    assert_eq!(scan_run(b"a-1_", 0, Class::UrTypeChar), 3);
    assert_eq!(scan_run(b"aZ09+/=-", 0, Class::Base64Char), 7);
    assert_eq!(scan_run(b"ab\ncd", 0, Class::NotLineFeed), 2);
    assert_eq!(scan_run(b"ab/cd", 0, Class::NotSlash), 2);
    assert_eq!(scan_run(&[0x80, 0xbf, 0xc0], 0, Class::Continuation), 2);
    assert!(Class::Digit.test(b'7') && !Class::Digit.test(b'a'));
    assert!(test_at(s, 1, Class::Digit) && !test_at(s, 2, Class::Digit) && !test_at(s, 6, Class::Digit));
    assert!(byte_at(s, 2, b'a') && !byte_at(s, 3, b'a') && !byte_at(s, 9, b'a'));
    assert!(test_all(s, 0, 2, Class::Digit) && !test_all(s, 0, 3, Class::Digit));
    assert!(!test_all(s, 5, 2, Class::NotSlash) && test_all(s, 6, 0, Class::Digit));
    assert!(test_word(s, 2, b"ab") && !test_word(s, 2, b"ac") && !test_word(s, 5, b"  "));
    assert!(Word::True.stands_at(b"xtrue", 1) && !Word::True.stands_at(b"xtrue", 0));
    assert!(Word::NegInfinity.stands_at(b"-Infinity", 0) && Word::UrOpen.stands_at(b"ur:", 0));
    assert_eq!(skip(b" /a/ #b\n 1", 0), 9);
    assert_eq!(skip(b" /a", 0), 1);
    assert_eq!(scan_int(b"0123", 0), 1);
    assert_eq!(scan_int(b"1230", 0), 4);
    assert_eq!(scan_int(b"a", 0), 0);
    assert_eq!(scan_fraction(b".5x", 0), 2);
    assert_eq!(scan_fraction(b".x", 0), 0);
    assert_eq!(scan_exponent(b"e-10,", 0), 4);
    assert_eq!(scan_exponent(b"E5", 0), 2);
    assert_eq!(scan_exponent(b"e-", 0), 0);
    assert_eq!(scan_number(b"-0.5e1]", 0), 6);
    assert_eq!(scan_number(b"-x", 0), 0);
    assert!(test_two_digits(b"a12", 1) && !test_two_digits(b"a1", 1));
    assert_eq!(scan_zone(b"Z", 0), 1);
    assert_eq!(scan_zone(b"+01:30", 0), 6);
    assert_eq!(scan_zone(b"+01:3", 0), 0);
    assert_eq!(scan_time(b"T01:02:03.5Z", 0), 12);
    assert_eq!(scan_time(b"T01:02", 0), 0);
    assert_eq!(scan_date(b"2023-01-02,", 0), 10);
    assert_eq!(scan_date(b"2023-1-02", 0), 0);
    assert_eq!(scan_escape(b"\\n", 0), 2);
    assert_eq!(scan_escape(b"\\u12aF", 0), 6);
    assert_eq!(scan_escape(b"\\u12a", 0), 0);
    assert_eq!(scan_escape(b"\\x", 0), 0);
    assert_eq!(scan_escape(b"\\", 0), 0);
    assert_eq!(scan_string(b"\"a\\\\\" ", 0), 5);
    assert_eq!(scan_string(b"\"a\\\"", 0), 0);
    assert_eq!(scan_name(b"_a-1 ", 0), 4);
    assert_eq!(scan_name(b"1a", 0), 0);
    assert_eq!(scan_ur(b"ur:a/abcdefghi!", 0), 14);
    assert_eq!(scan_ur(b"ur:a/abcdefg", 0), 0);
    assert_eq!(scan_token(b"[", 0), (Kind::BracketOpen, 1));
    assert_eq!(scan_token(b"@", 0), (Kind::Unrecognized, 0));
}

#[test]
fn decimal_numbers_up_to_64_bits() {
    assert_eq!(parse_decimal(b"0"), Some(0));
    assert_eq!(parse_decimal(b"007"), Some(7));
    assert_eq!(parse_decimal(b"18446744073709551615"), Some(u64::MAX));
    assert_eq!(parse_decimal(b"18446744073709551616"), None);
    assert_eq!(parse_decimal(b"99999999999999999999999"), None);
    assert_eq!(parse_decimal(b"12a"), None);
    assert_eq!(parse_decimal(b""), Some(0));
    assert_eq!(to_lower(b"AbZ-09az@["), b"abz-09az@[");
}

#[test]
fn tokens_hold_what_their_text_denotes() {
    let token = |source: &str| match next_token(source.as_bytes(), 0) {
        Some((Ok(token), _)) => token,
        other => panic!("{other:?}"),
    };
    assert_eq!(token("true"), Token::Bool(true));
    assert_eq!(token("false"), Token::Bool(false));
    assert_eq!(token(" -1.5"), Token::Number(b"-1.5".to_vec()));
    assert_eq!(token("\"a\\n\""), Token::String(b"\"a\\n\"".to_vec()));
    assert_eq!(token("h'00fF'"), Token::ByteStringHex(Ok(vec![0, 255])));
    assert_eq!(
        token("h'0'"),
        Token::ByteStringHex(Err(ParseError::InvalidHexString(Span { start: 0, end: 4 })))
    );
    assert_eq!(token("b64'AQ=='"), Token::ByteStringBase64(Ok(vec![1])));
    assert_eq!(
        token("b64'AQ'"),
        Token::ByteStringBase64(Err(ParseError::InvalidBase64String(Span { start: 0, end: 7 })))
    );
    assert_eq!(token("7("), Token::TagValue(Ok(7)));
    assert_eq!(token("a-b("), Token::TagName(b"a-b".to_vec()));
    assert_eq!(token("'9'"), Token::KnownValueNumber(Ok(9)));
    assert_eq!(token("'n'"), Token::KnownValueName(b"n".to_vec()));
    assert_eq!(token("''"), Token::KnownValueName(Vec::new()));
    assert_eq!(
        token("2023-01-01"),
        Token::DateLiteral(Ok(dcbor::CBOR::from(dcbor::Date::from_ymd(2023, 1, 1))))
    );
    match token("ur:Date/cyisdadmlasgtapttl") {
        Token::UR(Ok(ur)) => {
            assert_eq!(ur.ur_type, b"date");
            assert_eq!(ur.item, dcbor::CBOR::from(1747267200));
            assert_eq!(ur, Ur { ur_type: b"date".to_vec(), item: dcbor::CBOR::from(1747267200) });
        }
        other => panic!("{other:?}"),
    }
    assert_eq!(next_token(b" ", 0), None);
    assert_eq!(
        next_token(b" @", 0),
        Some((
            Err(ParseError::UnrecognizedToken(Span { start: 1, end: 2 })),
            Span { start: 1, end: 2 }
        ))
    );
    let found = Found { kind: Kind::TagValue, span: Span { start: 1, end: 4 } };
    assert_eq!(read_token(b"[12(", found), Token::TagValue(Ok(12)));
}

#[test]
fn names_are_looked_up_in_order() {
    let entries = vec![
        Entry { name: b"a".to_vec(), value: 1 },
        Entry { name: b"b".to_vec(), value: 2 },
        Entry { name: b"a".to_vec(), value: 3 },
    ];
    assert_eq!(lookup(&entries, b"a"), Some(1));
    assert_eq!(lookup(&entries, b"b"), Some(2));
    assert_eq!(lookup(&entries, b"ab"), None);
    assert_eq!(lookup(&Vec::new(), b"a"), None);
    assert!(same_bytes(b"ab", b"ab") && !same_bytes(b"ab", b"ac") && !same_bytes(b"ab", b"a"));
    let none = Registry::new();
    assert!(none.tags.is_empty() && none.known_values.is_empty());
}
