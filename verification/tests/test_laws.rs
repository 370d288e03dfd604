use dcbor::{CBOR, CBOREncodable};
use dcbor_parse::{
    compose_dcbor_array, compose_dcbor_array_with, parse_dcbor_item, parse_dcbor_item_partial,
    parse_dcbor_item_with, ParseError, Registry, Span,
};

fn span_of(e: &ParseError) -> Option<Span> {
    e.span()
}

#[test]
fn error_spans_lie_inside_the_source() {
    let sources = [
        "1 1",
        "(",
        "q",
        "[1 2 3]",
        "{1: 2, 3}",
        "{1: 2 3: 4}",
        "1([1, 2, 3]",
        "{1: 2, 3: 4",
        "{1: 2, 3:}",
        "20000000000000000000(1)",
        "foobar(1)",
        "h'01020'",
        "b64'AQIDBAUGBwgJCg'",
        "ur:foobar/cyisdadmlasgtapttl",
        "ur:date/cyisdadmlasgtapttx",
        "'20000000000000000000'",
        "'foobar'",
        "2023-13-01",
        "{1: 1, 1: 2}",
        "\u{e9}",
        "[1, \u{1f30e}]",
        "{1: 2, 3",
        "[\"a\" \u{e9}",
    ];
    for source in sources {
        let e = parse_dcbor_item(source).unwrap_err();
        let span = span_of(&e).unwrap();
        assert!(span.start <= span.end, "{source}: {e:?}");
        assert!(span.end <= source.len(), "{source}: {e:?}");
    }
}

#[test]
fn unrecognized_character_is_covered_whole() {
    let e = parse_dcbor_item("  \u{1f30e} 1").unwrap_err();
    assert_eq!(e, ParseError::UnrecognizedToken(Span { start: 2, end: 6 }));
    let e = parse_dcbor_item("[1, \u{e9}]").unwrap_err();
    assert_eq!(e, ParseError::UnrecognizedToken(Span { start: 4, end: 6 }));
    let e = parse_dcbor_item("q").unwrap_err();
    assert_eq!(e, ParseError::UnrecognizedToken(Span { start: 0, end: 1 }));
}

#[test]
fn a_whole_parse_uses_the_source_up() {
    assert!(parse_dcbor_item("[1, 2] # rest\n /more/ \t").is_ok());
    assert_eq!(
        parse_dcbor_item("[1, 2] # rest\n 3").unwrap_err(),
        ParseError::ExtraData(Span { start: 15, end: 16 })
    );
    assert_eq!(
        parse_dcbor_item("[1, 2] /open").unwrap_err(),
        ParseError::ExtraData(Span { start: 7, end: 8 })
    );
}

#[test]
fn a_parse_gives_the_same_outcome_again() {
    dcbor::register_tags();
    let sources = ["[1, {2: date(2023-01-01)}, 'isA']", "{1: 2, 1: 3}", "nope(1)", ""];
    for source in sources {
        assert_eq!(parse_dcbor_item(source), parse_dcbor_item(source));
    }
}

#[test]
fn keys_of_a_parsed_map_differ() {
    let map = parse_dcbor_item("{3: 1, 1.5: 2, \"a\": 3, [1]: 4, {1: 2}: 5}").unwrap();
    assert_eq!(map.as_map().unwrap().len(), 5);
    let e = parse_dcbor_item("{3: 1, 1.5: 2, 3.0: 3}").unwrap_err();
    assert_eq!(e, ParseError::DuplicateMapKey(Span { start: 15, end: 18 }));
    let e = parse_dcbor_item("{[1, 2]: 1, [1,2]: 2}").unwrap_err();
    assert_eq!(e, ParseError::DuplicateMapKey(Span { start: 12, end: 17 }));
    let e = parse_dcbor_item("{1: 2, 1}").unwrap_err();
    assert_eq!(e, ParseError::DuplicateMapKey(Span { start: 7, end: 8 }));
}

#[test]
fn the_bytes_that_a_partial_parse_uses_hold_the_item() {
    let sources = [
        "true )",
        "false  # comment\n",
        "[1, 2] [3]",
        "{1: [2, h'00']}   /c/ x",
        "1234(\"a\")\n\n 5",
        "1.5e3",
        "\"text\" /open",
        "2023-01-01T",
    ];
    for source in sources {
        let (item, used) = parse_dcbor_item_partial(source).unwrap();
        assert!(used <= source.len());
        assert_eq!(parse_dcbor_item(&source[..used]).unwrap(), item, "{source}");
    }
    assert_eq!(parse_dcbor_item_partial("[1, 2] [3]").unwrap().1, 7);
    assert_eq!(parse_dcbor_item_partial("\"text\" /open").unwrap().1, 7);
    assert_eq!(parse_dcbor_item_partial("2023-01-01T").unwrap().1, 10);
    assert_eq!(parse_dcbor_item_partial("1").unwrap().1, 1);
}

#[test]
fn a_partial_parse_fails_as_a_whole_parse_does_before_the_item_ends() {
    assert_eq!(parse_dcbor_item_partial("").unwrap_err(), ParseError::EmptyInput);
    assert_eq!(parse_dcbor_item_partial(" # only\n").unwrap_err(), ParseError::EmptyInput);
    assert_eq!(
        parse_dcbor_item_partial("[1, 2").unwrap_err(),
        ParseError::UnexpectedEndOfInput
    );
}

#[test]
fn a_composed_array_holds_what_each_text_denotes() {
    let texts = ["1", "[2, 3]", "\"four\"", "{5: 6}", "h'07'"];
    let array = compose_dcbor_array(&texts).unwrap();
    let items = array.as_array().unwrap();
    assert_eq!(items.len(), texts.len());
    for (item, text) in items.iter().zip(texts.iter()) {
        assert_eq!(*item, parse_dcbor_item(text).unwrap());
    }
    let mut names = Registry::new();
    names.add_tag("point", 99);
    let texts = ["point(1)", "point([2])"];
    let array = compose_dcbor_array_with(&texts, &names).unwrap();
    let items = array.as_array().unwrap();
    assert_eq!(items.len(), 2);
    for (item, text) in items.iter().zip(texts.iter()) {
        assert_eq!(*item, parse_dcbor_item_with(text, &names).unwrap());
    }
    assert_eq!(items[0], CBOR::to_tagged_value(99, 1));
}

#[test]
fn what_is_printed_parses_back() {
    dcbor::register_tags();
    let items = [
        CBOR::from(0),
        CBOR::from(-1),
        CBOR::from(1u64 << 53),
        CBOR::from(1.5),
        CBOR::from(-2.25e10),
        CBOR::from("a \u{e9} b"),
        CBOR::to_byte_string([0u8, 255]),
        CBOR::to_tagged_value(0, "2023-01-01T00:00:00Z"),
        CBOR::from(vec![CBOR::from(1), CBOR::from(vec![CBOR::null()])]),
        dcbor::Date::from_ymd(1999, 12, 31).to_cbor(),
        known_values::IS_A.to_cbor(),
    ];
    for item in items {
        assert_eq!(parse_dcbor_item(&item.diagnostic()).unwrap(), item);
        assert_eq!(parse_dcbor_item(&item.diagnostic_flat()).unwrap(), item);
    }
}
