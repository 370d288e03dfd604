//! The grammar of items: what a source text denotes.
//!
//! An item is given by its deterministic encoding and by where it ends in
//! the source. Parsing stops at the first error.

use vstd::prelude::*;
use vstd::utf8::decode_utf8;
use crate::error::{Fault, FaultKind, fault, fault_quoting, fault_unexpected};
use crate::item::{
    array_encoding, byte_string_encoding, known_value_encoding, map_encoding,
    no_entries, number_encoding, tagged_encoding, text_encoding,
};
use crate::lexeme::{Kind, Lexeme, lemma_lex_at, lex_at};
use crate::registry::{Env, find};
use crate::token::{
    base64_payload, date_payload, hex_payload, known_value_payload, tag_value_payload, ur_payload,
    ur_type,
};

verus! {

/// An item as parsed: its encoding and the position behind it; or the error.
pub type Parsed = Result<(Seq<u8>, int), Fault>;

/// Where the parser stands in a list of elements or of pairs.
#[derive(Clone, Copy, Debug, PartialEq, Eq, Structural)]
pub enum ListState {
    /// Behind the opening bracket: an element or the closing bracket follows.
    Start,
    /// Behind an element: a comma or the closing bracket follows.
    AfterItem,
    /// Behind a comma: an element follows.
    AfterComma,
}

/// The error for the end of the text where an item must stand.
pub open spec fn end_of_input() -> Fault {
    fault(FaultKind::UnexpectedEndOfInput, 0, 0)
}

/// The error of the given kind that points at a lexeme.
pub open spec fn fault_at(kind: FaultKind, l: Lexeme) -> Fault {
    fault(kind, l.start, l.end)
}

/// The item that a number or one of the words `NaN`, `Infinity` and
/// `-Infinity` denotes: as the float parser reads the text.
pub open spec fn number_value(s: Seq<u8>, l: Lexeme) -> Result<Seq<u8>, Fault> {
    match number_encoding(s.subrange(l.start, l.end)) {
        Some(encoding) => Ok(encoding),
        None => Err(fault_at(FaultKind::UnrecognizedToken, l)),
    }
}

/// The byte string that holds decoded bytes.
pub open spec fn byte_string_value(bytes: Result<Seq<u8>, Fault>) -> Result<Seq<u8>, Fault> {
    match bytes {
        Ok(b) => Ok(byte_string_encoding(b)),
        Err(f) => Err(f),
    }
}

/// The item that a UR denotes: what it carries, under the tag that its type
/// names. An unknown type is an error that quotes the type and points at it.
pub open spec fn ur_value(s: Seq<u8>, l: Lexeme, env: Env) -> Result<Seq<u8>, Fault> {
    match ur_payload(s, l) {
        Err(f) => Err(f),
        Ok(inner) => match find(env.tags, ur_type(s, l)) {
            Some(tag) => Ok(tagged_encoding(tag, inner)),
            None => Err(
                fault_quoting(
                    FaultKind::UnknownUrType,
                    l.start + 3,
                    l.start + 3 + ur_type(s, l).len(),
                    decode_utf8(ur_type(s, l)),
                ),
            ),
        },
    }
}

/// The known value that a name in single quotes denotes; `''` is the known
/// value 0. An unknown name is an error that quotes the name and points at
/// it.
pub open spec fn known_name_value(s: Seq<u8>, l: Lexeme, env: Env) -> Result<Seq<u8>, Fault> {
    let name = s.subrange(l.start + 1, l.end - 1);
    if name.len() == 0 {
        Ok(known_value_encoding(0))
    } else {
        match find(env.known_values, name) {
            Some(n) => Ok(known_value_encoding(n)),
            None => Err(
                fault_quoting(
                    FaultKind::UnknownKnownValueName,
                    l.start + 1,
                    l.end - 1,
                    decode_utf8(name),
                ),
            ),
        }
    }
}

/// The known value that a number in single quotes denotes.
pub open spec fn known_number_value(s: Seq<u8>, l: Lexeme) -> Result<Seq<u8>, Fault> {
    match known_value_payload(s, l) {
        Ok(n) => Ok(known_value_encoding(n)),
        Err(f) => Err(f),
    }
}

/// The item that a token denotes by itself. A token that starts no item is
/// an error: an unrecognized one as such, another as unexpected.
pub open spec fn atom_value(s: Seq<u8>, l: Lexeme, env: Env) -> Result<Seq<u8>, Fault> {
    match l.kind {
        Kind::True => Ok(seq![0xf5u8]),
        Kind::False => Ok(seq![0xf4u8]),
        Kind::Null => Ok(seq![0xf6u8]),
        Kind::NaN | Kind::Infinity | Kind::NegInfinity | Kind::Number => number_value(s, l),
        Kind::String => Ok(text_encoding(s.subrange(l.start + 1, l.end - 1))),
        Kind::ByteStringHex => byte_string_value(hex_payload(s, l)),
        Kind::ByteStringBase64 => byte_string_value(base64_payload(s, l)),
        Kind::DateLiteral => date_payload(s, l),
        Kind::UR => ur_value(s, l, env),
        Kind::KnownValueNumber => known_number_value(s, l),
        Kind::KnownValueName => known_name_value(s, l, env),
        Kind::Unit => Ok(known_value_encoding(0)),
        Kind::Unrecognized => Err(fault_at(FaultKind::UnrecognizedToken, l)),
        _ => Err(fault_unexpected(l.kind, l.start, l.end)),
    }
}

/// The tag that the head of a tagged item names, once its content and its
/// `)` are read. An unknown name is an error that quotes the name and points
/// at it.
pub open spec fn tag_of(s: Seq<u8>, l: Lexeme, env: Env) -> Result<u64, Fault> {
    if l.kind == Kind::TagValue {
        tag_value_payload(s, l)
    } else {
        let name = s.subrange(l.start, l.end - 1);
        match find(env.tags, name) {
            Some(tag) => Ok(tag),
            None => Err(
                fault_quoting(FaultKind::UnknownTagName, l.start, l.end - 1, decode_utf8(name)),
            ),
        }
    }
}

/// The error for a failed value of a pair: where `}` stood in place of the
/// value, that a value was expected there; else the error as it is.
pub open spec fn value_fault(f: Fault) -> Fault {
    if f.kind == FaultKind::UnexpectedToken && f.token == Kind::BraceClose {
        fault(FaultKind::ExpectedMapKey, f.start, f.end)
    } else {
        f
    }
}

/// What must stand behind the content of a tagged item: the `)` that closes
/// it. The result is the position behind it. The end of the text or another
/// token in its place is an error.
pub open spec fn closing(s: Seq<u8>, p: int) -> Result<int, Fault> {
    match lex_at(s, p) {
        None => Err(fault(FaultKind::UnmatchedParentheses, s.len() as int, s.len() as int)),
        Some(c) => if c.kind == Kind::Unrecognized {
            Err(fault_at(FaultKind::UnrecognizedToken, c))
        } else if c.kind != Kind::ParenthesisClose {
            Err(fault_at(FaultKind::UnmatchedParentheses, c))
        } else {
            Ok(c.end)
        },
    }
}

/// The item that starts at or after `p`.
pub open spec fn item_at(s: Seq<u8>, p: int, env: Env) -> Parsed
    decreases s.len() - p, 1int,
{
    match lex_at(s, p) {
        None => Err(end_of_input()),
        Some(l) => {
            proof {
                lemma_lex_at(s, p);
            }
            item_from(s, l, env)
        },
    }
}

/// The item whose first token is `l`.
pub open spec fn item_from(s: Seq<u8>, l: Lexeme, env: Env) -> Parsed
    decreases s.len() - l.end, 2int,
{
    if l.kind == Kind::BracketOpen {
        array_from(s, l.end, env, Seq::empty(), ListState::Start)
    } else if l.kind == Kind::BraceOpen {
        match map_from(s, l.end, env, Seq::empty(), no_entries(), ListState::Start) {
            Ok((keys, entries, end)) => Ok((map_encoding(entries), end)),
            Err(f) => Err(f),
        }
    } else if l.kind == Kind::TagValue || l.kind == Kind::TagName {
        if l.kind == Kind::TagValue && tag_value_payload(s, l) is Err {
            Err(tag_value_payload(s, l)->Err_0)
        } else {
            match item_at(s, l.end, env) {
                Err(f) => Err(f),
                Ok((inner, end)) => match closing(s, end) {
                    Err(f) => Err(f),
                    Ok(behind) => match tag_of(s, l, env) {
                        Ok(tag) => Ok((tagged_encoding(tag, inner), behind)),
                        Err(f) => Err(f),
                    },
                },
            }
        }
    } else {
        match atom_value(s, l, env) {
            Ok(encoding) => Ok((encoding, l.end)),
            Err(f) => Err(f),
        }
    }
}

/// The array whose elements so far are `items` and whose text goes on at
/// `p`. Elements are separated by commas; none may follow the last one.
///
/// An element ends behind its first token and inside the source, whatever
/// the source: the test of it here only lets this definition be seen to
/// end.
pub open spec fn array_from(
    s: Seq<u8>,
    p: int,
    env: Env,
    items: Seq<Seq<u8>>,
    state: ListState,
) -> Parsed
    decreases s.len() - p, 1int,
{
    match lex_at(s, p) {
        None => Err(end_of_input()),
        Some(l) => {
            proof {
                lemma_lex_at(s, p);
            }
            if l.kind == Kind::Unrecognized {
                Err(fault_at(FaultKind::UnrecognizedToken, l))
            } else if state == ListState::AfterItem {
                if l.kind == Kind::Comma {
                    array_from(s, l.end, env, items, ListState::AfterComma)
                } else if l.kind == Kind::BracketClose {
                    Ok((array_encoding(items), l.end))
                } else {
                    Err(fault_at(FaultKind::ExpectedComma, l))
                }
            } else if l.kind == Kind::BracketClose && state == ListState::Start {
                Ok((array_encoding(items), l.end))
            } else {
                match item_from(s, l, env) {
                    Err(f) => Err(f),
                    Ok((item, end)) => if p < end <= s.len() {
                        array_from(s, end, env, items.push(item), ListState::AfterItem)
                    } else {
                        Err(end_of_input())
                    },
                }
            }
        },
    }
}

/// The pairs of a map as parsed: the keys in the order of the source, the
/// entries that the pairs make, and the position behind the closing brace; or
/// the error.
pub type ParsedMap = Result<(Seq<Seq<u8>>, Map<Seq<u8>, Seq<u8>>, int), Fault>;

/// The map whose keys so far are `keys`, with the entries `entries`, and
/// whose text goes on at `p`. Pairs are separated by commas; none may follow
/// the last one. A key whose encoding an earlier key has is an error.
///
/// A pair ends behind its first token and inside the source, whatever the
/// source: the test of it here only lets this definition be seen to end.
pub open spec fn map_from(
    s: Seq<u8>,
    p: int,
    env: Env,
    keys: Seq<Seq<u8>>,
    entries: Map<Seq<u8>, Seq<u8>>,
    state: ListState,
) -> ParsedMap
    decreases s.len() - p, 1int,
{
    match lex_at(s, p) {
        None => Err(fault(FaultKind::UnmatchedBraces, s.len() as int, s.len() as int)),
        Some(l) => {
            proof {
                lemma_lex_at(s, p);
            }
            if l.kind == Kind::Unrecognized {
                Err(fault_at(FaultKind::UnrecognizedToken, l))
            } else if l.kind == Kind::BraceClose && state != ListState::AfterComma {
                Ok((keys, entries, l.end))
            } else if l.kind == Kind::Comma && state == ListState::AfterItem {
                map_from(s, l.end, env, keys, entries, ListState::AfterComma)
            } else if state == ListState::AfterItem {
                Err(fault_at(FaultKind::ExpectedComma, l))
            } else {
                match pair_from(s, l, env, entries) {
                    Err(f) => Err(f),
                    Ok((key, value, end)) => if p < end <= s.len() {
                        map_from(
                            s,
                            end,
                            env,
                            keys.push(key),
                            entries.insert(key, value),
                            ListState::AfterItem,
                        )
                    } else {
                        Err(end_of_input())
                    },
                }
            }
        },
    }
}

/// The pair whose key starts with the token `l`, for a map that holds
/// `entries`: the key, the value and the position behind the value. A key
/// whose encoding an earlier key has is an error that points at the whole
/// key; it comes before any error behind the key. (A key ends no earlier
/// than its first token and inside the source, whatever the source: the test
/// of it only lets this definition be seen to end.)
pub open spec fn pair_from(
    s: Seq<u8>,
    l: Lexeme,
    env: Env,
    entries: Map<Seq<u8>, Seq<u8>>,
) -> Result<(Seq<u8>, Seq<u8>, int), Fault>
    decreases s.len() - l.end, 3int,
{
    match item_from(s, l, env) {
        Err(f) => Err(f),
        Ok((key, key_end)) => if key_end < l.end || key_end > s.len() {
            Err(end_of_input())
        } else if entries.dom().contains(key) {
            Err(fault(FaultKind::DuplicateMapKey, l.start, key_end))
        } else {
            match lex_at(s, key_end) {
                None => Err(fault(FaultKind::ExpectedColon, s.len() as int, s.len() as int)),
                Some(c) => {
                    proof {
                        lemma_lex_at(s, key_end);
                    }
                    if c.kind != Kind::Colon {
                        Err(fault_at(FaultKind::ExpectedColon, c))
                    } else {
                        match item_at(s, c.end, env) {
                            Err(f) => Err(value_fault(f)),
                            Ok((value, end)) => Ok((key, value, end)),
                        }
                    }
                },
            }
        },
    }
}

/// The one item that a source text holds. A text without a token is an
/// error, and so is a token behind the item, which the error points at.
#[verifier::opaque]
pub open spec fn whole_item(s: Seq<u8>, env: Env) -> Result<Seq<u8>, Fault> {
    match lex_at(s, 0) {
        None => Err(fault(FaultKind::EmptyInput, 0, 0)),
        Some(l) => match item_from(s, l, env) {
            Err(f) => Err(f),
            Ok((item, end)) => match lex_at(s, end) {
                None => Ok(item),
                Some(extra) => Err(fault_at(FaultKind::ExtraData, extra)),
            },
        },
    }
}

/// The first item of a source text and how much of the text it uses up: as
/// far as the next token starts, or all of it where none follows.
#[verifier::opaque]
pub open spec fn leading_item(s: Seq<u8>, env: Env) -> Parsed {
    match lex_at(s, 0) {
        None => Err(fault(FaultKind::EmptyInput, 0, 0)),
        Some(l) => match item_from(s, l, env) {
            Err(f) => Err(f),
            Ok((item, end)) => match lex_at(s, end) {
                None => Ok((item, s.len() as int)),
                Some(next) => Ok((item, next.start)),
            },
        },
    }
}

} // verus!
