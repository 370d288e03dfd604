//! The parser: reads a source text into a CBOR item, as the grammar states.

use vstd::prelude::*;
use vstd::slice::slice_subrange;
use vstd::string::StringSliceAdditionalSpecFns;
use dcbor::CBOR;
use crate::error::{Error, Fault, FaultKind, fault};
use crate::grammar::{
    ListState, Parsed, ParsedMap, array_from, atom_value, closing, item_at, item_from,
    leading_item, map_from, pair_from, whole_item,
};
use crate::item::{
    ItemMap, array_item, bool_item, byte_string_item, encoding_of, encodings, known_value_item,
    map_contains_key, map_entries, map_insert, map_item, map_new, null_item, number_item,
    tagged_item, text_item,
};
use crate::lexeme::{Kind, lex_at};
use crate::registry::{Env, Registry};
use crate::span::Span;
use crate::token::{
    Token, item_is, lemma_token_ascii, lemma_token_shape, lexeme_of, next_token, stands,
};
use crate::utf8::ascii_text;

verus! {

/// Whether an item with the position behind it, or the error in its place,
/// is as the grammar states.
pub open spec fn parsed_is(r: Result<(CBOR, usize), Error>, m: Parsed) -> bool {
    match r {
        Ok((item, end)) => m == Ok::<(Seq<u8>, int), Fault>((encoding_of(item), end as int)),
        Err(e) => m == Err::<(Seq<u8>, int), Fault>(e@),
    }
}

/// Whether the token is `}`.
fn is_brace_close(token: &Token) -> (r: bool)
    ensures
        r == (token.kind() == Kind::BraceClose),
{
    match token {
        Token::BraceClose => true,
        _ => false,
    }
}

/// The error for a failed value of a pair: where `}` stood in place of the
/// value, that a value was expected there; else the error as it is.
fn value_error(e: Error) -> (r: Error)
    ensures
        r@ == crate::grammar::value_fault(e@),
{
    match e {
        Error::UnexpectedToken(token, span) => {
            if is_brace_close(&*token) {
                Error::ExpectedMapKey(span)
            } else {
                Error::UnexpectedToken(token, span)
            }
        },
        other => other,
    }
}

/// The item that a number or one of the words for a float denotes.
fn parse_number(text: &[u8], span: Span) -> (r: Result<CBOR, Error>)
    ensures
        item_is(
            r,
            match crate::item::number_encoding(text@) {
                Some(encoding) => Ok(encoding),
                None => Err(fault(FaultKind::UnrecognizedToken, span.start as int, span.end as int)),
            },
        ),
{
    match number_item(text) {
        Some(item) => Ok(item),
        None => Err(Error::UnrecognizedToken(span)),
    }
}

/// The item that a token denotes by itself.
pub fn parse_atom(s: &[u8], token: Token, span: Span, names: &Registry) -> (r: Result<
    CBOR,
    Error,
>)
    requires
        stands(s@, lexeme_of(token, span)),
        token.reads(s@, lexeme_of(token, span)),
        span.start < span.end <= s.len(),
    ensures
        item_is(r, atom_value(s@, lexeme_of(token, span), names@)),
{
    proof {
        lemma_token_shape(s@, span.start as int);
        lemma_token_ascii(s@, span.start as int);
    }
    match token {
        Token::Bool(b) => Ok(bool_item(b)),
        Token::Null => Ok(null_item()),
        Token::NaN => parse_number(slice_subrange(s, span.start, span.end), span),
        Token::Infinity => parse_number(slice_subrange(s, span.start, span.end), span),
        Token::NegInfinity => parse_number(slice_subrange(s, span.start, span.end), span),
        Token::Number(text) => parse_number(text.as_slice(), span),
        Token::String(text) => {
            let inner = slice_subrange(text.as_slice(), 1, text.len() - 1);
            assert(inner@ =~= s@.subrange(span.start + 1, span.end - 1));
            Ok(text_item(inner))
        },
        Token::ByteStringHex(decoded) => match decoded {
            Ok(bytes) => Ok(byte_string_item(bytes.as_slice())),
            Err(e) => Err(e),
        },
        Token::ByteStringBase64(decoded) => match decoded {
            Ok(bytes) => Ok(byte_string_item(bytes.as_slice())),
            Err(e) => Err(e),
        },
        Token::DateLiteral(decoded) => decoded,
        Token::UR(decoded) => match decoded {
            Err(e) => Err(e),
            Ok(ur) => match names.tag_for_name(ur.ur_type.as_slice()) {
                Some(tag) => Ok(tagged_item(tag, ur.item)),
                None => {
                    let start = span.start + 3;
                    let end = start + ur.ur_type.len();
                    Err(Error::UnknownUrType(ascii_text(ur.ur_type.as_slice()), Span { start, end }))
                },
            },
        },
        Token::KnownValueNumber(decoded) => match decoded {
            Ok(n) => Ok(known_value_item(n)),
            Err(e) => Err(e),
        },
        Token::KnownValueName(name) => {
            if name.len() == 0 {
                Ok(known_value_item(0))
            } else {
                match names.known_value_for_name(name.as_slice()) {
                    Some(n) => Ok(known_value_item(n)),
                    None => Err(
                        Error::UnknownKnownValueName(
                            ascii_text(name.as_slice()),
                            Span { start: span.start + 1, end: span.end - 1 },
                        ),
                    ),
                }
            }
        },
        Token::Unit => Ok(known_value_item(0)),
        other => Err(Error::UnexpectedToken(Box::new(other), span)),
    }
}

/// The item that starts at or after `p`, with the position behind it.
pub fn parse_item(s: &[u8], p: usize, names: &Registry) -> (r: Result<(CBOR, usize), Error>)
    requires
        p <= s.len(),
    ensures
        parsed_is(r, item_at(s@, p as int, names@)),
        r matches Ok((_, end)) ==> p < end <= s.len(),
    decreases s.len() - p, 1int,
{
    match next_token(s, p) {
        None => Err(Error::UnexpectedEndOfInput),
        Some((Err(e), _)) => Err(e),
        Some((Ok(token), span)) => parse_item_token(s, token, span, names),
    }
}

/// The item whose first token is `token`, with the position behind it.
pub fn parse_item_token(s: &[u8], token: Token, span: Span, names: &Registry) -> (r: Result<
    (CBOR, usize),
    Error,
>)
    requires
        stands(s@, lexeme_of(token, span)),
        token.reads(s@, lexeme_of(token, span)),
        span.start < span.end <= s.len(),
    ensures
        parsed_is(r, item_from(s@, lexeme_of(token, span), names@)),
        r matches Ok((_, end)) ==> span.end <= end <= s.len(),
    decreases s.len() - span.end, 2int,
{
    proof {
        lemma_token_ascii(s@, span.start as int);
    }
    match token {
        Token::BracketOpen => parse_array(s, span.end, names),
        Token::BraceOpen => parse_map(s, span.end, names),
        Token::TagValue(Err(e)) => Err(e),
        Token::TagValue(Ok(tag)) => {
            let (inner, end) = match parse_item(s, span.end, names) {
                Ok(found) => found,
                Err(e) => { return Err(e); },
            };
            match close_tag(s, end) {
                Ok(behind) => Ok((tagged_item(tag, inner), behind)),
                Err(e) => Err(e),
            }
        },
        Token::TagName(name) => {
            let (inner, end) = match parse_item(s, span.end, names) {
                Ok(found) => found,
                Err(e) => { return Err(e); },
            };
            match close_tag(s, end) {
                Ok(behind) => match names.tag_for_name(name.as_slice()) {
                    Some(tag) => Ok((tagged_item(tag, inner), behind)),
                    None => Err(
                        Error::UnknownTagName(
                            ascii_text(name.as_slice()),
                            Span { start: span.start, end: span.end - 1 },
                        ),
                    ),
                },
                Err(e) => Err(e),
            }
        },
        other => match parse_atom(s, other, span, names) {
            Ok(item) => Ok((item, span.end)),
            Err(e) => Err(e),
        },
    }
}

/// The position behind the `)` that closes a tagged item whose content ends
/// at `p`.
fn close_tag(s: &[u8], p: usize) -> (r: Result<usize, Error>)
    requires
        p <= s.len(),
    ensures
        match r {
            Ok(end) => closing(s@, p as int) == Ok::<int, Fault>(end as int) && p < end <= s.len(),
            Err(e) => closing(s@, p as int) == Err::<int, Fault>(e@),
        },
{
    match next_token(s, p) {
        None => Err(Error::UnmatchedParentheses(Span { start: s.len(), end: s.len() })),
        Some((Err(e), _)) => Err(e),
        Some((Ok(token), span)) => match token {
            Token::ParenthesisClose => Ok(span.end),
            _ => Err(Error::UnmatchedParentheses(span)),
        },
    }
}

/// The array whose text goes on at `p`, behind its `[`.
pub fn parse_array(s: &[u8], p: usize, names: &Registry) -> (r: Result<(CBOR, usize), Error>)
    requires
        p <= s.len(),
    ensures
        parsed_is(r, array_from(s@, p as int, names@, Seq::empty(), ListState::Start)),
        r matches Ok((_, end)) ==> p < end <= s.len(),
    decreases s.len() - p, 1int,
{
    let mut items: Vec<CBOR> = Vec::new();
    let mut state = ListState::Start;
    let mut q: usize = p;
    assert(encodings(items@) =~= Seq::<Seq<u8>>::empty());
    loop
        invariant
            p <= q <= s.len(),
            array_from(s@, p as int, names@, Seq::empty(), ListState::Start) == array_from(
                s@,
                q as int,
                names@,
                encodings(items@),
                state,
            ),
        decreases s.len() - q,
    {
        let (token, span) = match next_token(s, q) {
            None => { return Err(Error::UnexpectedEndOfInput); },
            Some((Err(e), _)) => { return Err(e); },
            Some((Ok(token), span)) => (token, span),
        };
        match state {
            ListState::AfterItem => match token {
                Token::Comma => {
                    state = ListState::AfterComma;
                    q = span.end;
                },
                Token::BracketClose => { return Ok((array_item(items), span.end)); },
                _ => { return Err(Error::ExpectedComma(span)); },
            },
            _ => {
                let closes = match &token {
                    Token::BracketClose => true,
                    _ => false,
                };
                if closes && state == ListState::Start {
                    return Ok((array_item(items), span.end));
                }
                match parse_item_token(s, token, span, names) {
                    Err(e) => { return Err(e); },
                    Ok((item, end)) => {
                        proof {
                            assert(encodings(items@.push(item)) =~= encodings(items@).push(
                                encoding_of(item),
                            ));
                        }
                        items.push(item);
                        state = ListState::AfterItem;
                        q = end;
                    },
                }
            },
        }
    }
}

/// The map whose text goes on at `p`, behind its `{`.
pub fn parse_map(s: &[u8], p: usize, names: &Registry) -> (r: Result<(CBOR, usize), Error>)
    requires
        p <= s.len(),
    ensures
        map_is(
            r,
            map_from(
                s@,
                p as int,
                names@,
                Seq::empty(),
                crate::item::no_entries(),
                ListState::Start,
            ),
        ),
        r matches Ok((_, end)) ==> p < end <= s.len(),
    decreases s.len() - p, 1int,
{
    let mut map: ItemMap = map_new();
    let mut state = ListState::Start;
    let mut q: usize = p;
    let ghost mut keys: Seq<Seq<u8>> = Seq::empty();
    loop
        invariant
            p <= q <= s.len(),
            map_from(
                s@,
                p as int,
                names@,
                Seq::empty(),
                crate::item::no_entries(),
                ListState::Start,
            ) == map_from(s@, q as int, names@, keys, map_entries(map), state),
        decreases s.len() - q,
    {
        let (token, span) = match next_token(s, q) {
            None => {
                return Err(Error::UnmatchedBraces(Span { start: s.len(), end: s.len() }));
            },
            Some((Err(e), _)) => { return Err(e); },
            Some((Ok(token), span)) => (token, span),
        };
        let closes = match &token {
            Token::BraceClose => true,
            _ => false,
        };
        let comma = match &token {
            Token::Comma => true,
            _ => false,
        };
        if closes && state != ListState::AfterComma {
            return Ok((map_item(map), span.end));
        } else if comma && state == ListState::AfterItem {
            state = ListState::AfterComma;
            q = span.end;
        } else if state == ListState::AfterItem {
            return Err(Error::ExpectedComma(span));
        } else {
            let (key, value, end) = match parse_pair(s, token, span, &map, names) {
                Err(e) => { return Err(e); },
                Ok(found) => found,
            };
            proof {
                keys = keys.push(encoding_of(key));
            }
            map_insert(&mut map, key, value);
            state = ListState::AfterItem;
            q = end;
        }
    }
}

/// Whether a map item with the position behind it, or the error in its
/// place, is as the grammar states: the item is the map of the entries.
pub open spec fn map_is(r: Result<(CBOR, usize), Error>, m: ParsedMap) -> bool {
    match r {
        Ok((item, end)) => m matches Ok((_, entries, behind)) && encoding_of(item)
            == crate::item::map_encoding(entries) && behind == end,
        Err(e) => m == Err::<(Seq<Seq<u8>>, Map<Seq<u8>, Seq<u8>>, int), Fault>(e@),
    }
}

/// Whether a pair with the position behind it, or the error in its place,
/// is as the grammar states.
pub open spec fn pair_is(
    r: Result<(CBOR, CBOR, usize), Error>,
    m: Result<(Seq<u8>, Seq<u8>, int), Fault>,
) -> bool {
    match r {
        Ok((key, value, end)) => m == Ok::<(Seq<u8>, Seq<u8>, int), Fault>(
            (encoding_of(key), encoding_of(value), end as int),
        ),
        Err(e) => m == Err::<(Seq<u8>, Seq<u8>, int), Fault>(e@),
    }
}

/// The `:` that must stand behind a key that ends at `p`: the position
/// behind it.
fn expect_colon(s: &[u8], p: usize) -> (r: Result<usize, Error>)
    requires
        p <= s.len(),
    ensures
        match r {
            Ok(end) => lex_at(s@, p as int) matches Some(c) && c.kind == Kind::Colon && c.end
                == end && p < end <= s.len(),
            Err(e) => match lex_at(s@, p as int) {
                None => e@ == fault(FaultKind::ExpectedColon, s.len() as int, s.len() as int),
                Some(c) => c.kind != Kind::Colon && e@ == fault(
                    FaultKind::ExpectedColon,
                    c.start,
                    c.end,
                ),
            },
        },
{
    match next_token(s, p) {
        None => Err(Error::ExpectedColon(Span { start: s.len(), end: s.len() })),
        Some((Err(_), at)) => Err(Error::ExpectedColon(at)),
        Some((Ok(token), at)) => match token {
            Token::Colon => Ok(at.end),
            _ => Err(Error::ExpectedColon(at)),
        },
    }
}

/// The pair whose key starts with `token`, for the map `map`: the key, the
/// value and the position behind the value.
pub fn parse_pair(s: &[u8], token: Token, span: Span, map: &ItemMap, names: &Registry) -> (r:
    Result<(CBOR, CBOR, usize), Error>)
    requires
        stands(s@, lexeme_of(token, span)),
        token.reads(s@, lexeme_of(token, span)),
        span.start < span.end <= s.len(),
    ensures
        pair_is(r, pair_from(s@, lexeme_of(token, span), names@, map_entries(*map))),
        r matches Ok((_, _, end)) ==> span.end < end <= s.len(),
    decreases s.len() - span.end, 3int,
{
    let (key, key_end) = match parse_item_token(s, token, span, names) {
        Err(e) => { return Err(e); },
        Ok(found) => found,
    };
    if map_contains_key(map, &key) {
        return Err(Error::DuplicateMapKey(Span { start: span.start, end: key_end }));
    }
    let colon_end = match expect_colon(s, key_end) {
        Err(e) => { return Err(e); },
        Ok(end) => end,
    };
    match parse_item(s, colon_end, names) {
        Err(e) => Err(value_error(e)),
        Ok((value, end)) => Ok((key, value, end)),
    }
}

/// The outcome of a parse, with the item taken by its encoding and the
/// error by its view.
pub open spec fn outcome(r: Result<CBOR, Error>) -> Result<Seq<u8>, Fault> {
    match r {
        Ok(item) => Ok(encoding_of(item)),
        Err(e) => Err(e@),
    }
}

/// The outcome of a partial parse, with the item taken by its encoding and
/// the error by its view.
pub open spec fn partial_outcome(r: Result<(CBOR, usize), Error>) -> Parsed {
    match r {
        Ok((item, used)) => Ok((encoding_of(item), used as int)),
        Err(e) => Err(e@),
    }
}

/// Whether the source text denotes `outcome` under some set of registered
/// names.
#[verifier::opaque]
pub open spec fn denotes(s: Seq<u8>, outcome: Result<Seq<u8>, Fault>) -> bool {
    exists|env: Env| whole_item(s, env) == outcome
}

/// Whether the first item of the source text is `outcome` under some set of
/// registered names.
#[verifier::opaque]
pub open spec fn leads_with(s: Seq<u8>, outcome: Parsed) -> bool {
    exists|env: Env| leading_item(s, env) == outcome
}

/// Parses the one item that `src` holds, with the names of tags and of known
/// values taken from `names`. White space and comments may stand around the
/// item; anything else behind it is an error.
pub fn parse_dcbor_item_with(src: &str, names: &Registry) -> (r: Result<CBOR, Error>)
    ensures
        outcome(r) == whole_item(src.spec_bytes(), names@),
{
    reveal(whole_item);
    let s = src.as_bytes();
    match next_token(s, 0) {
        None => Err(Error::EmptyInput),
        Some((Err(e), _)) => Err(e),
        Some((Ok(token), span)) => match parse_item_token(s, token, span, names) {
            Err(e) => Err(e),
            Ok((item, end)) => match next_token(s, end) {
                None => Ok(item),
                Some((_, extra)) => Err(Error::ExtraData(extra)),
            },
        },
    }
}

/// Parses the first item that `src` holds, with the names of tags and of
/// known values taken from `names`, and says how many bytes of `src` it uses
/// up: as far as the next token starts, or all of them where none follows.
pub fn parse_dcbor_item_partial_with(src: &str, names: &Registry) -> (r: Result<
    (CBOR, usize),
    Error,
>)
    ensures
        partial_outcome(r) == leading_item(src.spec_bytes(), names@),
{
    reveal(leading_item);
    let s = src.as_bytes();
    match next_token(s, 0) {
        None => Err(Error::EmptyInput),
        Some((Err(e), _)) => Err(e),
        Some((Ok(token), span)) => match parse_item_token(s, token, span, names) {
            Err(e) => Err(e),
            Ok((item, end)) => match next_token(s, end) {
                None => Ok((item, s.len())),
                Some((_, next)) => Ok((item, next.start)),
            },
        },
    }
}

/// Parses the one item that `src` holds. Names of tags and of known values
/// are looked up in the process-wide registries; what those hold is not
/// known here, so the result is what the text denotes under the names that
/// were found.
pub fn parse_dcbor_item(src: &str) -> (r: Result<CBOR, Error>)
    ensures
        denotes(src.spec_bytes(), outcome(r)),
{
    let names = Registry::registered_in(src.as_bytes());
    let r = parse_dcbor_item_with(src, &names);
    proof {
        reveal(denotes);
    }
    r
}

/// Parses the first item that `src` holds and says how many bytes of `src`
/// it uses up. Names are looked up as in [`parse_dcbor_item`].
pub fn parse_dcbor_item_partial(src: &str) -> (r: Result<(CBOR, usize), Error>)
    ensures
        leads_with(src.spec_bytes(), partial_outcome(r)),
{
    let names = Registry::registered_in(src.as_bytes());
    let r = parse_dcbor_item_partial_with(src, &names);
    proof {
        reveal(leads_with);
    }
    r
}

} // verus!
