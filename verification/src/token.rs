//! Tokens with what the lexer decoded of them.

use vstd::prelude::*;
use vstd::utf8::decode_utf8;
use vstd::slice::{slice_subrange, slice_to_vec};
use dcbor::CBOR;
use crate::error::{Error, Fault, FaultKind, fault, fault_quoting};
use crate::item::{
    base64_decode, base64_decoded, date_encoding, date_item, encoding_of, hex_decode, hex_decoded,
    is_hex_text, ur_decoded, ur_item,
};
use crate::lexeme::{Kind, Lexeme, lex_at, token_at};
use crate::lexer::{Found, next_lexeme};
use crate::scan::{Class, is_digit, lemma_run_end, run_end};
use crate::utf8::{ascii_between, ascii_text, is_ascii, lemma_ascii_subrange};
use crate::span::Span;

verus! {

/// A UR that was decoded: its type in lower case and the item it carries.
#[derive(Debug, PartialEq)]
pub struct Ur {
    pub ur_type: Vec<u8>,
    pub item: CBOR,
}

/// A token of the notation. Where the lexer decodes a token's text, the
/// token holds what came of it, or the error.
#[derive(Debug, PartialEq)]
pub enum Token {
    Bool(bool),
    BraceOpen,
    BraceClose,
    BracketOpen,
    BracketClose,
    ParenthesisOpen,
    ParenthesisClose,
    Colon,
    Comma,
    Null,
    NaN,
    Infinity,
    NegInfinity,
    /// A byte string in hexadecimal: the bytes.
    ByteStringHex(Result<Vec<u8>, Error>),
    /// A byte string in base64: the bytes.
    ByteStringBase64(Result<Vec<u8>, Error>),
    /// A date: the item that stands for it.
    DateLiteral(Result<CBOR, Error>),
    /// A number: the text of the literal.
    Number(Vec<u8>),
    /// A text string: the text of the literal, with its quotes.
    String(Vec<u8>),
    /// The head of a tag given by its number.
    TagValue(Result<u64, Error>),
    /// The head of a tag given by its name: the name.
    TagName(Vec<u8>),
    /// A known value given by its number.
    KnownValueNumber(Result<u64, Error>),
    /// A known value given by its name: the name, empty for `''`.
    KnownValueName(Vec<u8>),
    /// The known value 0.
    Unit,
    /// A UR.
    UR(Result<Ur, Error>),
}

impl Token {
    /// The kind of the token.
    pub open spec fn kind(self) -> Kind {
        match self {
            Token::Bool(b) => if b { Kind::True } else { Kind::False },
            Token::BraceOpen => Kind::BraceOpen,
            Token::BraceClose => Kind::BraceClose,
            Token::BracketOpen => Kind::BracketOpen,
            Token::BracketClose => Kind::BracketClose,
            Token::ParenthesisOpen => Kind::ParenthesisOpen,
            Token::ParenthesisClose => Kind::ParenthesisClose,
            Token::Colon => Kind::Colon,
            Token::Comma => Kind::Comma,
            Token::Null => Kind::Null,
            Token::NaN => Kind::NaN,
            Token::Infinity => Kind::Infinity,
            Token::NegInfinity => Kind::NegInfinity,
            Token::ByteStringHex(_) => Kind::ByteStringHex,
            Token::ByteStringBase64(_) => Kind::ByteStringBase64,
            Token::DateLiteral(_) => Kind::DateLiteral,
            Token::Number(_) => Kind::Number,
            Token::String(_) => Kind::String,
            Token::TagValue(_) => Kind::TagValue,
            Token::TagName(_) => Kind::TagName,
            Token::KnownValueNumber(_) => Kind::KnownValueNumber,
            Token::KnownValueName(_) => Kind::KnownValueName,
            Token::Unit => Kind::Unit,
            Token::UR(_) => Kind::UR,
        }
    }
}

/// The number that decimal digits denote; `None` where a byte is no digit.
pub open spec fn decimal(digits: Seq<u8>) -> Option<nat>
    decreases digits.len(),
{
    if digits.len() == 0 {
        Some(0nat)
    } else if is_digit(digits.last()) {
        match decimal(digits.drop_last()) {
            Some(n) => Some(n * 10 + (digits.last() - 0x30) as nat),
            None => None,
        }
    } else {
        None
    }
}

/// The number that decimal digits denote, where it fits in 64 bits.
pub open spec fn decimal_value(digits: Seq<u8>) -> Option<u64> {
    match decimal(digits) {
        Some(n) => if n <= u64::MAX {
            Some(n as u64)
        } else {
            None
        },
        None => None,
    }
}

/// Where digits denote a number, so does each stretch that they start with,
/// and no greater one.
pub proof fn lemma_decimal_prefix(digits: Seq<u8>, i: int)
    requires
        0 <= i <= digits.len(),
        decimal(digits) is Some,
    ensures
        decimal(digits.take(i)) is Some,
        decimal(digits.take(i))->0 <= decimal(digits)->0,
    decreases digits.len(),
{
    if i == digits.len() {
        assert(digits.take(i) =~= digits);
    } else {
        assert(digits.drop_last().take(i) =~= digits.take(i));
        lemma_decimal_prefix(digits.drop_last(), i);
    }
}

/// The number that decimal digits denote, where it fits in 64 bits.
pub fn parse_decimal(digits: &[u8]) -> (r: Option<u64>)
    ensures
        r == decimal_value(digits@),
{
    let mut acc: u64 = 0;
    let mut i: usize = 0;
    assert(digits@.take(0) =~= Seq::<u8>::empty());
    while i < digits.len()
        invariant
            i <= digits.len(),
            decimal(digits@.take(i as int)) == Some(acc as nat),
        decreases digits.len() - i,
    {
        let b = digits[i];
        proof {
            assert(digits@.take(i + 1).drop_last() =~= digits@.take(i as int));
            assert(digits@.take(i + 1).last() == b);
            if decimal(digits@) is Some {
                lemma_decimal_prefix(digits@, i + 1);
            }
        }
        if !(0x30 <= b && b <= 0x39) {
            return None;
        }
        let x: u64 = (b - 0x30) as u64;
        if acc > (u64::MAX - x) / 10 {
            return None;
        }
        acc = acc * 10 + x;
        i += 1;
    }
    assert(digits@.take(i as int) =~= digits@);
    Some(acc)
}

/// A letter in lower case; any other byte as it is.
pub open spec fn lower(b: u8) -> u8 {
    if 0x41 <= b <= 0x5a {
        (b + 0x20) as u8
    } else {
        b
    }
}

/// The bytes with their letters in lower case.
pub open spec fn lowered(bytes: Seq<u8>) -> Seq<u8> {
    bytes.map_values(|b: u8| lower(b))
}

/// The bytes with their letters in lower case.
pub fn to_lower(bytes: &[u8]) -> (r: Vec<u8>)
    ensures
        r@ == lowered(bytes@),
{
    let mut r: Vec<u8> = Vec::new();
    let mut i: usize = 0;
    while i < bytes.len()
        invariant
            i <= bytes.len(),
            r@ == lowered(bytes@.take(i as int)),
        decreases bytes.len() - i,
    {
        let b = bytes[i];
        let c: u8 = if 0x41 <= b && b <= 0x5a {
            b + 0x20
        } else {
            b
        };
        r.push(c);
        assert(bytes@.take(i + 1) =~= bytes@.take(i as int).push(b));
        assert(lowered(bytes@.take(i + 1)) =~= lowered(bytes@.take(i as int)).push(lower(b)));
        i += 1;
    }
    assert(bytes@.take(i as int) =~= bytes@);
    r
}

/// The bytes that a byte string in hexadecimal denotes, or the error.
pub open spec fn hex_payload(s: Seq<u8>, l: Lexeme) -> Result<Seq<u8>, Fault> {
    let raw = s.subrange(l.start + 2, l.end - 1);
    if is_hex_text(raw) {
        Ok(hex_decoded(raw))
    } else {
        Err(fault(FaultKind::InvalidHexString, l.start, l.end))
    }
}

/// The bytes that a byte string in base64 denotes, or the error.
pub open spec fn base64_payload(s: Seq<u8>, l: Lexeme) -> Result<Seq<u8>, Fault> {
    match base64_decoded(s.subrange(l.start + 4, l.end - 1)) {
        Some(bytes) => Ok(bytes),
        None => Err(fault(FaultKind::InvalidBase64String, l.start, l.end)),
    }
}

/// The encoding of the item that a date literal denotes, or the error, which
/// quotes the literal.
pub open spec fn date_payload(s: Seq<u8>, l: Lexeme) -> Result<Seq<u8>, Fault> {
    let text = s.subrange(l.start, l.end);
    match date_encoding(text) {
        Some(encoding) => Ok(encoding),
        None => Err(
            fault_quoting(FaultKind::InvalidDateString, l.start, l.end, decode_utf8(text)),
        ),
    }
}

/// The number of a tag's head, or the error where it does not fit in 64
/// bits, which quotes the digits and points at them.
pub open spec fn tag_value_payload(s: Seq<u8>, l: Lexeme) -> Result<u64, Fault> {
    let digits = s.subrange(l.start, l.end - 1);
    match decimal_value(digits) {
        Some(n) => Ok(n),
        None => Err(
            fault_quoting(FaultKind::InvalidTagValue, l.start, l.end - 1, decode_utf8(digits)),
        ),
    }
}

/// The number of a known value in quotes, or the error where it does not fit
/// in 64 bits, which quotes the digits and points at them.
pub open spec fn known_value_payload(s: Seq<u8>, l: Lexeme) -> Result<u64, Fault> {
    let digits = s.subrange(l.start + 1, l.end - 1);
    match decimal_value(digits) {
        Some(n) => Ok(n),
        None => Err(
            fault_quoting(
                FaultKind::InvalidKnownValue,
                l.start + 1,
                l.end - 1,
                decode_utf8(digits),
            ),
        ),
    }
}

/// The end of the type of the UR that starts at `start`: where its `/` stands.
pub open spec fn ur_type_end(s: Seq<u8>, start: int) -> int {
    run_end(s, start + 3, Class::UrTypeChar)
}

/// The type of a UR, in lower case.
pub open spec fn ur_type(s: Seq<u8>, l: Lexeme) -> Seq<u8> {
    lowered(s.subrange(l.start + 3, ur_type_end(s, l.start)))
}

/// The encoding of the item that a UR carries, or the error, which quotes
/// the decoder's message.
pub open spec fn ur_payload(s: Seq<u8>, l: Lexeme) -> Result<Seq<u8>, Fault> {
    match ur_decoded(s.subrange(l.start, l.end)) {
        Ok(encoding) => Ok(encoding),
        Err(message) => Err(fault_quoting(FaultKind::InvalidUr, l.start, l.end, message)),
    }
}

/// Whether decoded bytes, or the error in their place, are as stated.
pub open spec fn bytes_are(r: Result<Vec<u8>, Error>, m: Result<Seq<u8>, Fault>) -> bool {
    match r {
        Ok(bytes) => m == Ok::<Seq<u8>, Fault>(bytes@),
        Err(e) => m == Err::<Seq<u8>, Fault>(e@),
    }
}

/// Whether a decoded item, or the error in its place, is as stated.
pub open spec fn item_is(r: Result<CBOR, Error>, m: Result<Seq<u8>, Fault>) -> bool {
    match r {
        Ok(item) => m == Ok::<Seq<u8>, Fault>(encoding_of(item)),
        Err(e) => m == Err::<Seq<u8>, Fault>(e@),
    }
}

/// Whether a decoded number, or the error in its place, is as stated.
pub open spec fn number_is(r: Result<u64, Error>, m: Result<u64, Fault>) -> bool {
    match r {
        Ok(n) => m == Ok::<u64, Fault>(n),
        Err(e) => m == Err::<u64, Fault>(e@),
    }
}

/// Whether a decoded UR, or the error in its place, is as stated for the
/// lexeme `l` of the source `s`.
pub open spec fn ur_is(r: Result<Ur, Error>, s: Seq<u8>, l: Lexeme) -> bool {
    match r {
        Ok(ur) => ur.ur_type@ == ur_type(s, l) && ur_payload(s, l) == Ok::<Seq<u8>, Fault>(
            encoding_of(ur.item),
        ),
        Err(e) => ur_payload(s, l) == Err::<Seq<u8>, Fault>(e@),
    }
}

impl Token {
    /// Whether the token is what the lexeme `l` of the source `s` stands
    /// for: it has the lexeme's kind and holds what the lexeme's text
    /// denotes.
    pub open spec fn reads(self, s: Seq<u8>, l: Lexeme) -> bool {
        &&& self.kind() == l.kind
        &&& match self {
            Token::ByteStringHex(r) => bytes_are(r, hex_payload(s, l)),
            Token::ByteStringBase64(r) => bytes_are(r, base64_payload(s, l)),
            Token::DateLiteral(r) => item_is(r, date_payload(s, l)),
            Token::Number(text) => text@ == s.subrange(l.start, l.end),
            Token::String(text) => text@ == s.subrange(l.start, l.end),
            Token::TagValue(r) => number_is(r, tag_value_payload(s, l)),
            Token::TagName(name) => name@ == s.subrange(l.start, l.end - 1),
            Token::KnownValueNumber(r) => number_is(r, known_value_payload(s, l)),
            Token::KnownValueName(name) => name@ == s.subrange(l.start + 1, l.end - 1),
            Token::UR(r) => ur_is(r, s, l),
            _ => true,
        }
    }
}

/// How far a token reaches at the least, by its kind: the bytes around what
/// it holds exist.
pub proof fn lemma_token_shape(s: Seq<u8>, p: int)
    requires
        0 <= p < s.len(),
    ensures
        ({
            let (kind, end) = token_at(s, p);
            &&& p <= end <= s.len()
            &&& kind != Kind::Unrecognized ==> p < end
            &&& kind == Kind::ByteStringHex ==> p + 3 <= end
            &&& kind == Kind::ByteStringBase64 ==> p + 5 <= end
            &&& kind == Kind::TagValue || kind == Kind::TagName ==> p + 2 <= end
            &&& kind == Kind::KnownValueNumber ==> p + 3 <= end
            &&& kind == Kind::KnownValueName ==> p + 2 <= end
            &&& kind == Kind::String ==> p + 2 <= end
            &&& kind == Kind::UR ==> p + 3 < ur_type_end(s, p) < end
        }),
{
    lemma_run_end(s, p, Class::Digit);
    lemma_run_end(s, p + 1, Class::Digit);
    lemma_run_end(s, p + 1, Class::NameChar);
    if p + 2 <= s.len() {
        lemma_run_end(s, p + 2, Class::HexDigit);
        lemma_run_end(s, p + 2, Class::NameChar);
        lemma_run_end(s, p + 2, Class::Digit);
    }
    if p + 4 <= s.len() {
        lemma_run_end(s, p + 4, Class::Base64Char);
    }
    if p + 3 <= s.len() {
        lemma_run_end(s, p + 3, Class::UrTypeChar);
        let u = run_end(s, p + 3, Class::UrTypeChar);
        if u + 1 <= s.len() {
            lemma_run_end(s, u + 1, Class::Letter);
        }
    }
    crate::lexeme::lemma_number_end(s, p);
    crate::lexeme::lemma_date_end(s, p);
    crate::lexeme::lemma_string_end(s, p);
}

/// Letters in lower case are ASCII characters where the bytes are.
pub proof fn lemma_lowered_ascii(bytes: Seq<u8>)
    requires
        is_ascii(bytes),
    ensures
        is_ascii(lowered(bytes)),
{
    assert forall|i: int| 0 <= i < lowered(bytes).len() implies #[trigger] lowered(bytes)[i]
        <= 0x7f by {
        assert(bytes[i] <= 0x7f);
    }
}

/// What an error quotes of a token is ASCII characters: the digits and the
/// name of a tag's head, the digits and the name of a known value, a date,
/// and the type of a UR.
pub proof fn lemma_token_ascii(s: Seq<u8>, p: int)
    requires
        0 <= p < s.len(),
    ensures
        ({
            let (kind, end) = token_at(s, p);
            &&& kind == Kind::TagValue || kind == Kind::TagName ==> is_ascii(
                s.subrange(p, end - 1),
            )
            &&& kind == Kind::KnownValueNumber || kind == Kind::KnownValueName ==> is_ascii(
                s.subrange(p + 1, end - 1),
            )
            &&& kind == Kind::DateLiteral ==> is_ascii(s.subrange(p, end))
            &&& kind == Kind::UR ==> is_ascii(ur_type(s, Lexeme { kind, start: p, end }))
        }),
{
    let (kind, end) = token_at(s, p);
    lemma_token_shape(s, p);
    crate::lexeme::lemma_int_name_ascii(s, p);
    crate::lexeme::lemma_int_name_ascii(s, p + 1);
    crate::lexeme::lemma_date_ascii(s, p);
    if kind == Kind::TagValue || kind == Kind::TagName {
        lemma_ascii_subrange(s, p, end - 1);
    }
    if kind == Kind::KnownValueNumber || kind == Kind::KnownValueName {
        lemma_ascii_subrange(s, p + 1, end - 1);
    }
    if kind == Kind::DateLiteral {
        lemma_ascii_subrange(s, p, end);
    }
    if kind == Kind::UR {
        crate::lexeme::lemma_run_ascii(s, p + 3, Class::UrTypeChar);
        lemma_ascii_subrange(s, p + 3, ur_type_end(s, p));
        lemma_lowered_ascii(s.subrange(p + 3, ur_type_end(s, p)));
    }
}

/// The token that a lexeme of the source stands for.
pub fn read_token(s: &[u8], f: Found) -> (t: Token)
    requires
        f.span.start < s.len(),
        token_at(s@, f.span.start as int) == (f.kind, f.span.end as int),
        f.kind != Kind::Unrecognized,
    ensures
        t.reads(s@, f@),
{
    let start = f.span.start;
    let end = f.span.end;
    proof {
        lemma_token_shape(s@, start as int);
        lemma_token_ascii(s@, start as int);
    }
    match f.kind {
        Kind::True => Token::Bool(true),
        Kind::False => Token::Bool(false),
        Kind::Null => Token::Null,
        Kind::NaN => Token::NaN,
        Kind::Infinity => Token::Infinity,
        Kind::NegInfinity => Token::NegInfinity,
        Kind::Unit => Token::Unit,
        Kind::BraceOpen => Token::BraceOpen,
        Kind::BraceClose => Token::BraceClose,
        Kind::BracketOpen => Token::BracketOpen,
        Kind::BracketClose => Token::BracketClose,
        Kind::ParenthesisOpen => Token::ParenthesisOpen,
        Kind::ParenthesisClose => Token::ParenthesisClose,
        Kind::Colon => Token::Colon,
        Kind::Comma => Token::Comma,
        Kind::Number => Token::Number(slice_to_vec(slice_subrange(s, start, end))),
        Kind::String => Token::String(slice_to_vec(slice_subrange(s, start, end))),
        Kind::TagName => Token::TagName(slice_to_vec(slice_subrange(s, start, end - 1))),
        Kind::KnownValueName => Token::KnownValueName(
            slice_to_vec(slice_subrange(s, start + 1, end - 1)),
        ),
        Kind::ByteStringHex => {
            match hex_decode(slice_subrange(s, start + 2, end - 1)) {
                Some(bytes) => Token::ByteStringHex(Ok(bytes)),
                None => Token::ByteStringHex(Err(Error::InvalidHexString(f.span))),
            }
        },
        Kind::ByteStringBase64 => {
            match base64_decode(slice_subrange(s, start + 4, end - 1)) {
                Some(bytes) => Token::ByteStringBase64(Ok(bytes)),
                None => Token::ByteStringBase64(Err(Error::InvalidBase64String(f.span))),
            }
        },
        Kind::DateLiteral => {
            let text = slice_subrange(s, start, end);
            match date_item(text) {
                Some(item) => Token::DateLiteral(Ok(item)),
                None => Token::DateLiteral(Err(Error::InvalidDateString(ascii_text(text), f.span))),
            }
        },
        Kind::TagValue => {
            let digits = slice_subrange(s, start, end - 1);
            match parse_decimal(digits) {
                Some(n) => Token::TagValue(Ok(n)),
                None => Token::TagValue(
                    Err(Error::InvalidTagValue(ascii_text(digits), Span { start, end: end - 1 })),
                ),
            }
        },
        Kind::KnownValueNumber => {
            let digits = slice_subrange(s, start + 1, end - 1);
            match parse_decimal(digits) {
                Some(n) => Token::KnownValueNumber(Ok(n)),
                None => Token::KnownValueNumber(
                    Err(
                        Error::InvalidKnownValue(
                            ascii_text(digits),
                            Span { start: start + 1, end: end - 1 },
                        ),
                    ),
                ),
            }
        },
        Kind::UR => {
            let slash = crate::scan::scan_run(s, start + 3, Class::UrTypeChar);
            match ur_item(slice_subrange(s, start, end)) {
                Ok(item) => Token::UR(
                    Ok(Ur { ur_type: to_lower(slice_subrange(s, start + 3, slash)), item }),
                ),
                Err(message) => Token::UR(Err(Error::InvalidUr(message, f.span))),
            }
        },
        Kind::Unrecognized => Token::Null,
    }
}

/// Whether `l` is the token that starts at its first byte.
pub open spec fn stands(s: Seq<u8>, l: Lexeme) -> bool {
    &&& 0 <= l.start < s.len()
    &&& l.kind != Kind::Unrecognized
    &&& token_at(s, l.start) == (l.kind, l.end)
}

/// The lexeme of a token with its span.
pub open spec fn lexeme_of(token: Token, span: Span) -> Lexeme {
    Lexeme { kind: token.kind(), start: span.start as int, end: span.end as int }
}

/// A token and its span, or the error where no token starts, as the grammar
/// states the lexeme at that place.
pub open spec fn lexed_is(
    r: Option<(Result<Token, Error>, Span)>,
    s: Seq<u8>,
    l: Option<Lexeme>,
) -> bool {
    match r {
        None => l is None,
        Some((t, span)) => {
            &&& l matches Some(lexeme)
            &&& span.start == lexeme.start
            &&& span.end == lexeme.end
            &&& match t {
                Ok(token) => lexeme.kind != Kind::Unrecognized && token.reads(s, lexeme),
                Err(e) => lexeme.kind == Kind::Unrecognized && e@ == fault(
                    FaultKind::UnrecognizedToken,
                    lexeme.start,
                    lexeme.end,
                ),
            }
        },
    }
}

/// The first token at or after `p` with its span, white space and comments
/// passed over; `None` where the text ends before one starts. Where no token
/// starts, the error points at the one character there. A span lies inside
/// the text, behind `p`, and is not empty.
pub fn next_token(s: &[u8], p: usize) -> (r: Option<(Result<Token, Error>, Span)>)
    requires
        p <= s.len(),
    ensures
        lexed_is(r, s@, lex_at(s@, p as int)),
        r matches Some((_, span)) ==> p <= span.start < span.end <= s.len(),
        r matches Some((Ok(token), span)) ==> stands(s@, lexeme_of(token, span)) && token.reads(
            s@,
            lexeme_of(token, span),
        ) && lex_at(s@, p as int) == Some(lexeme_of(token, span)),
{
    match next_lexeme(s, p) {
        None => None,
        Some(f) => {
            if f.kind == Kind::Unrecognized {
                Some((Err(Error::UnrecognizedToken(f.span)), f.span))
            } else {
                Some((Ok(read_token(s, f)), f.span))
            }
        },
    }
}

} // verus!
