//! Messages of errors, and their rendering against the source text.

use vstd::prelude::*;
use vstd::slice::slice_subrange;
use vstd::string::{StringExecFns, StringSliceAdditionalSpecFns};
use crate::error::{Error, Fault, FaultKind, fault};
use crate::item::text_of;
use crate::lexeme::Kind;
use crate::scan::{Class, lemma_run_end, run_end, scan_run};
use crate::utf8::{is_ascii, lemma_ascii_valid, lemma_stretch_valid};
use crate::span::Span;
use crate::token::Token;

verus! {

/// The name of a kind of token, as a message gives it.
pub open spec fn kind_name(kind: Kind) -> Seq<char> {
    match kind {
        Kind::True | Kind::False => "Bool"@,
        Kind::Null => "Null"@,
        Kind::NaN => "NaN"@,
        Kind::Infinity => "Infinity"@,
        Kind::NegInfinity => "NegInfinity"@,
        Kind::Unit => "Unit"@,
        Kind::Number => "Number"@,
        Kind::String => "String"@,
        Kind::ByteStringHex => "ByteStringHex"@,
        Kind::ByteStringBase64 => "ByteStringBase64"@,
        Kind::DateLiteral => "DateLiteral"@,
        Kind::TagValue => "TagValue"@,
        Kind::TagName => "TagName"@,
        Kind::KnownValueNumber => "KnownValueNumber"@,
        Kind::KnownValueName => "KnownValueName"@,
        Kind::UR => "UR"@,
        Kind::BraceOpen => "BraceOpen"@,
        Kind::BraceClose => "BraceClose"@,
        Kind::BracketOpen => "BracketOpen"@,
        Kind::BracketClose => "BracketClose"@,
        Kind::ParenthesisOpen => "ParenthesisOpen"@,
        Kind::ParenthesisClose => "ParenthesisClose"@,
        Kind::Colon => "Colon"@,
        Kind::Comma => "Comma"@,
        Kind::Unrecognized => "Unrecognized"@,
    }
}

/// The message of an error: what went wrong, with the text that the error
/// quotes in single quotes, or with the name of the unexpected token.
pub open spec fn message_of(f: Fault) -> Seq<char> {
    match f.kind {
        FaultKind::EmptyInput => "Empty input"@,
        FaultKind::UnexpectedEndOfInput => "Unexpected end of input"@,
        FaultKind::ExtraData => "Extra data at end of input"@,
        FaultKind::UnexpectedToken => "Unexpected token "@ + kind_name(f.token),
        FaultKind::UnrecognizedToken => "Unrecognized token"@,
        FaultKind::ExpectedComma => "Expected comma"@,
        FaultKind::ExpectedColon => "Expected colon"@,
        FaultKind::UnmatchedParentheses => "Unmatched parentheses"@,
        FaultKind::UnmatchedBraces => "Unmatched braces"@,
        FaultKind::ExpectedMapKey => "Expected map key"@,
        FaultKind::InvalidTagValue => "Invalid tag value '"@ + f.text + "'"@,
        FaultKind::UnknownTagName => "Unknown tag name '"@ + f.text + "'"@,
        FaultKind::InvalidHexString => "Invalid hex string"@,
        FaultKind::InvalidBase64String => "Invalid base64 string"@,
        FaultKind::UnknownUrType => "Unknown UR type '"@ + f.text + "'"@,
        FaultKind::InvalidUr => "Invalid UR '"@ + f.text + "'"@,
        FaultKind::InvalidKnownValue => "Invalid known value '"@ + f.text + "'"@,
        FaultKind::UnknownKnownValueName => "Unknown known value name '"@ + f.text + "'"@,
        FaultKind::InvalidDateString => "Invalid date string '"@ + f.text + "'"@,
        FaultKind::DuplicateMapKey => "Duplicate map key"@,
    }
}

/// The name of the token's kind, as a message gives it.
pub fn token_name(token: &Token) -> (r: &'static str)
    ensures
        r@ == kind_name(token.kind()),
{
    match token {
        Token::Bool(_) => "Bool",
        Token::BraceOpen => "BraceOpen",
        Token::BraceClose => "BraceClose",
        Token::BracketOpen => "BracketOpen",
        Token::BracketClose => "BracketClose",
        Token::ParenthesisOpen => "ParenthesisOpen",
        Token::ParenthesisClose => "ParenthesisClose",
        Token::Colon => "Colon",
        Token::Comma => "Comma",
        Token::Null => "Null",
        Token::NaN => "NaN",
        Token::Infinity => "Infinity",
        Token::NegInfinity => "NegInfinity",
        Token::ByteStringHex(_) => "ByteStringHex",
        Token::ByteStringBase64(_) => "ByteStringBase64",
        Token::DateLiteral(_) => "DateLiteral",
        Token::Number(_) => "Number",
        Token::String(_) => "String",
        Token::TagValue(_) => "TagValue",
        Token::TagName(_) => "TagName",
        Token::KnownValueNumber(_) => "KnownValueNumber",
        Token::KnownValueName(_) => "KnownValueName",
        Token::Unit => "Unit",
        Token::UR(_) => "UR",
    }
}

/// `what`, then `text` in single quotes.
fn quoting(what: &str, text: &String) -> (r: String)
    ensures
        r@ == what@ + text@ + "'"@,
{
    let mut r = what.to_owned();
    r.append(text.as_str());
    r.append("'");
    r
}

impl Error {
    /// The message of the error.
    pub fn message(&self) -> (r: String)
        ensures
            r@ == message_of(self@),
    {
        match self {
            Error::EmptyInput => "Empty input".to_owned(),
            Error::UnexpectedEndOfInput => "Unexpected end of input".to_owned(),
            Error::ExtraData(_) => "Extra data at end of input".to_owned(),
            Error::UnexpectedToken(token, _) => {
                let mut r = "Unexpected token ".to_owned();
                r.append(token_name(&**token));
                r
            },
            Error::UnrecognizedToken(_) => "Unrecognized token".to_owned(),
            Error::ExpectedComma(_) => "Expected comma".to_owned(),
            Error::ExpectedColon(_) => "Expected colon".to_owned(),
            Error::UnmatchedParentheses(_) => "Unmatched parentheses".to_owned(),
            Error::UnmatchedBraces(_) => "Unmatched braces".to_owned(),
            Error::ExpectedMapKey(_) => "Expected map key".to_owned(),
            Error::InvalidTagValue(text, _) => quoting("Invalid tag value '", text),
            Error::UnknownTagName(text, _) => quoting("Unknown tag name '", text),
            Error::InvalidHexString(_) => "Invalid hex string".to_owned(),
            Error::InvalidBase64String(_) => "Invalid base64 string".to_owned(),
            Error::UnknownUrType(text, _) => quoting("Unknown UR type '", text),
            Error::InvalidUr(text, _) => quoting("Invalid UR '", text),
            Error::InvalidKnownValue(text, _) => quoting("Invalid known value '", text),
            Error::UnknownKnownValueName(text, _) => quoting("Unknown known value name '", text),
            Error::InvalidDateString(text, _) => quoting("Invalid date string '", text),
            Error::DuplicateMapKey(_) => "Duplicate map key".to_owned(),
        }
    }
}

/// The number of line feeds among the first `n` bytes.
pub open spec fn line_feeds(s: Seq<u8>, n: int) -> nat
    decreases n,
{
    if n <= 0 {
        0
    } else if s[n - 1] == 0x0a {
        line_feeds(s, n - 1) + 1
    } else {
        line_feeds(s, n - 1)
    }
}

/// Where the line starts that the byte at `n` belongs to: behind the last
/// line feed among the first `n` bytes.
pub open spec fn line_start(s: Seq<u8>, n: int) -> int
    decreases n,
{
    if n <= 0 {
        0
    } else if s[n - 1] == 0x0a {
        n
    } else {
        line_start(s, n - 1)
    }
}

/// The text of the line that starts at `from`: as far as the next line feed,
/// without a carriage return in front of that line feed.
pub open spec fn line_text(s: Seq<u8>, from: int) -> Seq<u8> {
    let e = run_end(s, from, Class::NotLineFeed);
    if e < s.len() && from < e && s[e - 1] == 0x0d {
        s.subrange(from, e - 1)
    } else {
        s.subrange(from, e)
    }
}

/// The decimal digits of a number.
pub open spec fn digits_of(n: nat) -> Seq<u8>
    decreases n,
{
    if n < 10 {
        seq![(0x30 + n) as u8]
    } else {
        digits_of(n / 10).push((0x30 + n % 10) as u8)
    }
}

/// `count` times the byte `b`.
pub open spec fn repeated(b: u8, count: int) -> Seq<u8> {
    Seq::new(count as nat, |i: int| b)
}

/// The bytes that an error points at in a source of `len` bytes: none at the
/// start for an empty input, none at the end for an unexpected end, else
/// the error's own span.
pub open spec fn pointed(f: Fault, len: int) -> (int, int) {
    if f.kind == FaultKind::EmptyInput {
        (0, 0)
    } else if f.kind == FaultKind::UnexpectedEndOfInput {
        (len, len)
    } else {
        (f.start, f.end)
    }
}

/// The three lines that show an error against its source `s`: `line `, the
/// number of the line that the error points into, counted from 1, `: ` and
/// the message; the text of that line; and under it a caret for each byte
/// that the error points at, one at the least, behind a space for each byte
/// of the line in front of them.
pub open spec fn rendering(f: Fault, s: Seq<u8>) -> Seq<u8> {
    let (start, end) = pointed(f, s.len() as int);
    let n = if start < s.len() {
        start
    } else {
        s.len() as int
    };
    let from = line_start(s, n);
    let column = if start >= from {
        start - from
    } else {
        0
    };
    let width = if end > start {
        end - start
    } else {
        1
    };
    seq![0x6cu8, 0x69, 0x6e, 0x65, 0x20] + digits_of(line_feeds(s, n) + 1) + seq![0x3au8, 0x20]
        + vstd::utf8::encode_utf8(message_of(f)) + seq![0x0au8] + line_text(s, from) + seq![0x0au8]
        + repeated(0x20, column) + repeated(0x5e, width)
}

/// The line that a byte belongs to starts within the bytes in front of it,
/// at the start of the text or behind a line feed.
pub proof fn lemma_line_start(s: Seq<u8>, n: int)
    requires
        0 <= n <= s.len(),
    ensures
        0 <= line_start(s, n) <= n,
        line_start(s, n) == 0 || s[line_start(s, n) - 1] == 0x0a,
    decreases n,
{
    if n > 0 && s[n - 1] != 0x0a {
        lemma_line_start(s, n - 1);
    }
}

/// Decimal digits are ASCII characters.
pub proof fn lemma_digits_ascii(n: nat)
    ensures
        is_ascii(digits_of(n)),
    decreases n,
{
    if n >= 10 {
        lemma_digits_ascii(n / 10);
    }
}

/// The text of a line of UTF-8 is UTF-8.
pub proof fn lemma_line_text_valid(s: Seq<u8>, from: int)
    requires
        vstd::utf8::valid_utf8(s),
        0 <= from <= s.len(),
        from == 0 || s[from - 1] == 0x0a,
    ensures
        vstd::utf8::valid_utf8(line_text(s, from)),
{
    lemma_run_end(s, from, Class::NotLineFeed);
    let e = run_end(s, from, Class::NotLineFeed);
    if e < s.len() && from < e && s[e - 1] == 0x0d {
        lemma_stretch_valid(s, from, e - 1);
    } else {
        lemma_stretch_valid(s, from, e);
    }
}

/// The lines that show an error against a source in UTF-8 are UTF-8.
pub proof fn lemma_rendering_valid(f: Fault, s: Seq<u8>)
    requires
        vstd::utf8::valid_utf8(s),
    ensures
        vstd::utf8::valid_utf8(rendering(f, s)),
{
    let (start, end) = pointed(f, s.len() as int);
    let n = if 0 <= start < s.len() {
        start
    } else if start < 0 {
        0
    } else {
        s.len() as int
    };
    let from = line_start(s, if start < s.len() {
        start
    } else {
        s.len() as int
    });
    if start < 0 {
        assert(from == 0);
    } else {
        lemma_line_start(s, n);
    }
    let column = if start >= from {
        start - from
    } else {
        0
    };
    let width = if end > start {
        end - start
    } else {
        1
    };
    let a = seq![0x6cu8, 0x69, 0x6e, 0x65, 0x20];
    let b = digits_of(line_feeds(s, if start < s.len() {
        start
    } else {
        s.len() as int
    }) + 1);
    let c = seq![0x3au8, 0x20];
    let d = vstd::utf8::encode_utf8(message_of(f));
    let e = seq![0x0au8];
    let g = line_text(s, from);
    let h = repeated(0x20, column);
    let i = repeated(0x5e, width);
    lemma_digits_ascii((line_feeds(s, if start < s.len() {
        start
    } else {
        s.len() as int
    }) + 1) as nat);
    lemma_ascii_valid(a);
    lemma_ascii_valid(b);
    lemma_ascii_valid(c);
    vstd::utf8::encode_utf8_valid_utf8(message_of(f));
    lemma_ascii_valid(e);
    lemma_line_text_valid(s, from);
    lemma_ascii_valid(h);
    lemma_ascii_valid(i);
    vstd::utf8::valid_utf8_concat(a, b);
    vstd::utf8::valid_utf8_concat(a + b, c);
    vstd::utf8::valid_utf8_concat(a + b + c, d);
    vstd::utf8::valid_utf8_concat(a + b + c + d, e);
    vstd::utf8::valid_utf8_concat(a + b + c + d + e, g);
    vstd::utf8::valid_utf8_concat(a + b + c + d + e + g, e);
    vstd::utf8::valid_utf8_concat(a + b + c + d + e + g + e, h);
    vstd::utf8::valid_utf8_concat(a + b + c + d + e + g + e + h, i);
}

/// Appends the decimal digits of `n`.
fn push_decimal(out: &mut Vec<u8>, n: u128)
    ensures
        final(out)@ == old(out)@ + digits_of(n as nat),
    decreases n,
{
    if n >= 10 {
        push_decimal(out, n / 10);
    }
    let digit: u8 = (0x30 + n % 10) as u8;
    out.push(digit);
    proof {
        if n >= 10 {
            assert(final(out)@ =~= old(out)@ + digits_of((n / 10) as nat).push(digit));
        } else {
            assert(final(out)@ =~= old(out)@ + seq![digit]);
        }
    }
}

/// Appends `count` times the byte `b`.
fn push_repeated(out: &mut Vec<u8>, b: u8, count: usize)
    ensures
        final(out)@ == old(out)@ + repeated(b, count as int),
{
    let mut i: usize = 0;
    assert(out@ =~= old(out)@ + repeated(b, 0));
    while i < count
        invariant
            i <= count,
            out@ == old(out)@ + repeated(b, i as int),
        decreases count - i,
    {
        out.push(b);
        i += 1;
        assert(out@ =~= old(out)@ + repeated(b, i as int));
    }
}

/// Appends the bytes of `bytes`.
fn push_all(out: &mut Vec<u8>, bytes: &[u8])
    ensures
        final(out)@ == old(out)@ + bytes@,
{
    let mut i: usize = 0;
    assert(out@ =~= old(out)@ + bytes@.take(0));
    while i < bytes.len()
        invariant
            i <= bytes.len(),
            out@ == old(out)@ + bytes@.take(i as int),
        decreases bytes.len() - i,
    {
        out.push(bytes[i]);
        i += 1;
        assert(out@ =~= old(out)@ + bytes@.take(i as int));
    }
    assert(bytes@.take(i as int) =~= bytes@);
}

/// The number of line feeds among the first `n` bytes, and where the line
/// starts that the byte at `n` belongs to.
fn locate(s: &[u8], n: usize) -> (r: (usize, usize))
    requires
        n <= s.len(),
    ensures
        r.0 == line_feeds(s@, n as int),
        r.1 == line_start(s@, n as int),
        r.1 <= n,
{
    let mut feeds: usize = 0;
    let mut from: usize = 0;
    let mut i: usize = 0;
    while i < n
        invariant
            i <= n <= s.len(),
            feeds == line_feeds(s@, i as int),
            from == line_start(s@, i as int),
            feeds <= i,
            from <= i,
        decreases n - i,
    {
        if s[i] == 0x0a {
            feeds += 1;
            from = i + 1;
        }
        i += 1;
    }
    (feeds, from)
}

/// The text of the line that starts at `from`.
fn line_at(s: &[u8], from: usize) -> (r: &[u8])
    requires
        from <= s.len(),
    ensures
        r@ == line_text(s@, from as int),
{
    let e = scan_run(s, from, Class::NotLineFeed);
    if e < s.len() && from < e && s[e - 1] == 0x0d {
        slice_subrange(s, from, e - 1)
    } else {
        slice_subrange(s, from, e)
    }
}

impl Error {
    /// The span of the source that the error points at, for those that hold
    /// one.
    pub fn span(&self) -> (r: Option<Span>)
        ensures
            match r {
                None => self@.kind == FaultKind::EmptyInput || self@.kind
                    == FaultKind::UnexpectedEndOfInput,
                Some(span) => self@.kind != FaultKind::EmptyInput && self@.kind
                    != FaultKind::UnexpectedEndOfInput && span.start == self@.start && span.end
                    == self@.end,
            },
    {
        match self {
            Error::EmptyInput => None,
            Error::UnexpectedEndOfInput => None,
            Error::ExtraData(s) => Some(*s),
            Error::UnexpectedToken(_, s) => Some(*s),
            Error::UnrecognizedToken(s) => Some(*s),
            Error::ExpectedComma(s) => Some(*s),
            Error::ExpectedColon(s) => Some(*s),
            Error::UnmatchedParentheses(s) => Some(*s),
            Error::UnmatchedBraces(s) => Some(*s),
            Error::ExpectedMapKey(s) => Some(*s),
            Error::InvalidTagValue(_, s) => Some(*s),
            Error::UnknownTagName(_, s) => Some(*s),
            Error::InvalidHexString(s) => Some(*s),
            Error::InvalidBase64String(s) => Some(*s),
            Error::UnknownUrType(_, s) => Some(*s),
            Error::InvalidUr(_, s) => Some(*s),
            Error::InvalidKnownValue(_, s) => Some(*s),
            Error::UnknownKnownValueName(_, s) => Some(*s),
            Error::InvalidDateString(_, s) => Some(*s),
            Error::DuplicateMapKey(s) => Some(*s),
        }
    }

    /// The bytes of the three lines that show the error against its source.
    pub fn rendered(&self, source: &str) -> (r: Vec<u8>)
        ensures
            r@ == rendering(self@, source.spec_bytes()),
    {
        let s = source.as_bytes();
        let (start, end) = match self.span() {
            Some(span) => (span.start, span.end),
            None => match self {
                Error::EmptyInput => (0, 0),
                _ => (s.len(), s.len()),
            },
        };
        let n: usize = if start < s.len() {
            start
        } else {
            s.len()
        };
        let (feeds, from) = locate(s, n);
        let column: usize = if start >= from {
            start - from
        } else {
            0
        };
        let width: usize = if end > start {
            end - start
        } else {
            1
        };
        let message = self.message();
        let mut out: Vec<u8> = Vec::new();
        let line: [u8; 5] = [0x6c, 0x69, 0x6e, 0x65, 0x20];
        let colon: [u8; 2] = [0x3a, 0x20];
        push_all(&mut out, line.as_slice());
        push_decimal(&mut out, feeds as u128 + 1);
        push_all(&mut out, colon.as_slice());
        push_all(&mut out, message.as_str().as_bytes());
        out.push(0x0a);
        push_all(&mut out, line_at(s, from));
        out.push(0x0a);
        push_repeated(&mut out, 0x20, column);
        push_repeated(&mut out, 0x5e, width);
        assert(out@ =~= rendering(self@, source.spec_bytes()));
        out
    }

    /// The three lines that show the error against its source, as text:
    /// the first gives the line's number and the message, the second the
    /// line of the source, the third the carets under what the error points
    /// at.
    pub fn full_message(&self, source: &str) -> (r: String)
        ensures
            vstd::utf8::encode_utf8(r@) == rendering(self@, source.spec_bytes()),
    {
        let bytes = self.rendered(source);
        proof {
            vstd::utf8::encode_utf8_valid_utf8(source@);
            lemma_rendering_valid(self@, source.spec_bytes());
        }
        text_of(bytes.as_slice())
    }
}

impl Default for Error {
    /// The error that the lexer gives where no token starts, pointing at
    /// nothing.
    fn default() -> (r: Error)
        ensures
            r@ == fault(FaultKind::UnrecognizedToken, 0, 0),
    {
        Error::UnrecognizedToken(Span { start: 0, end: 0 })
    }
}

} // verus!
