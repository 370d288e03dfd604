//! The scanner: finds the tokens that the lexical grammar defines.

use vstd::prelude::*;
use crate::lexeme::{
    Kind, Lexeme, Word, date_end, digit_token, escape_len, exponent_end, fraction_end, int_end,
    lex_at, name_end, number_end, quote_token, skip_end, skip_one, string_close, string_end,
    time_end, token_at, two_digits, ur_end, word_token, zone_end,
};
use crate::scan::{
    Class, at, byte_at, is_at, is_digit, is_name_start, lemma_run_end, run_end, scan_run, test_all,
    test_at, test_word,
};
use crate::span::Span;

verus! {

/// A token that the scanner found: its kind and the bytes that it covers.
#[derive(Clone, Copy, Debug, PartialEq, Eq, Structural)]
pub struct Found {
    pub kind: Kind,
    pub span: Span,
}

impl View for Found {
    type V = Lexeme;

    open spec fn view(&self) -> Lexeme {
        Lexeme { kind: self.kind, start: self.span.start as int, end: self.span.end as int }
    }
}

/// What the scanner found, as the grammar states it.
pub open spec fn found_view(found: Option<Found>) -> Option<Lexeme> {
    match found {
        Some(f) => Some(f@),
        None => None,
    }
}

impl Word {
    /// Whether the word stands at `p`.
    pub fn stands_at(self, s: &[u8], p: usize) -> (r: bool)
        ensures
            r == self.at(s@, p as int),
    {
        match self {
            Word::True => {
                let w: [u8; 4] = [0x74, 0x72, 0x75, 0x65];
                assert(w@ =~= self.bytes());
                test_word(s, p, w.as_slice())
            },
            Word::False => {
                let w: [u8; 5] = [0x66, 0x61, 0x6c, 0x73, 0x65];
                assert(w@ =~= self.bytes());
                test_word(s, p, w.as_slice())
            },
            Word::Null => {
                let w: [u8; 4] = [0x6e, 0x75, 0x6c, 0x6c];
                assert(w@ =~= self.bytes());
                test_word(s, p, w.as_slice())
            },
            Word::NaN => {
                let w: [u8; 3] = [0x4e, 0x61, 0x4e];
                assert(w@ =~= self.bytes());
                test_word(s, p, w.as_slice())
            },
            Word::Infinity => {
                let w: [u8; 8] = [0x49, 0x6e, 0x66, 0x69, 0x6e, 0x69, 0x74, 0x79];
                assert(w@ =~= self.bytes());
                test_word(s, p, w.as_slice())
            },
            Word::NegInfinity => {
                let w: [u8; 9] = [0x2d, 0x49, 0x6e, 0x66, 0x69, 0x6e, 0x69, 0x74, 0x79];
                assert(w@ =~= self.bytes());
                test_word(s, p, w.as_slice())
            },
            Word::Unit => {
                let w: [u8; 4] = [0x55, 0x6e, 0x69, 0x74];
                assert(w@ =~= self.bytes());
                test_word(s, p, w.as_slice())
            },
            Word::HexOpen => {
                let w: [u8; 2] = [0x68, 0x27];
                assert(w@ =~= self.bytes());
                test_word(s, p, w.as_slice())
            },
            Word::Base64Open => {
                let w: [u8; 4] = [0x62, 0x36, 0x34, 0x27];
                assert(w@ =~= self.bytes());
                test_word(s, p, w.as_slice())
            },
            Word::UrOpen => {
                let w: [u8; 3] = [0x75, 0x72, 0x3a];
                assert(w@ =~= self.bytes());
                test_word(s, p, w.as_slice())
            },
        }
    }
}

/// The first position from `p` on at which neither white space nor a comment
/// starts.
pub fn skip(s: &[u8], p: usize) -> (q: usize)
    requires
        p <= s.len(),
    ensures
        q == skip_end(s@, p as int),
        p <= q <= s.len(),
{
    let mut q: usize = p;
    loop
        invariant
            p <= q <= s.len(),
            skip_end(s@, p as int) == skip_end(s@, q as int),
        ensures
            p <= q <= s.len(),
            q == skip_end(s@, p as int),
        decreases s.len() - q,
    {
        if q >= s.len() {
            break ;
        }
        let b = s[q];
        let next: usize;
        if b == 0x20 || b == 0x09 || b == 0x0a || b == 0x0c || b == 0x0d {
            next = q + 1;
        } else if b == 0x23 {
            next = scan_run(s, q + 1, Class::NotLineFeed);
        } else if b == 0x2f {
            let e = scan_run(s, q + 1, Class::NotSlash);
            if e < s.len() {
                next = e + 1;
            } else {
                break ;
            }
        } else {
            break ;
        }
        assert(next == skip_one(s@, q as int));
        q = next;
    }
    q
}

/// The end of the integer at `p`; `p` where none starts.
pub fn scan_int(s: &[u8], p: usize) -> (e: usize)
    requires
        p <= s.len(),
    ensures
        e == int_end(s@, p as int),
        p <= e <= s.len(),
        at(s@, p as int, Class::Digit) ==> p < e,
{
    if byte_at(s, p, 0x30) {
        p + 1
    } else {
        proof {
            if at(s@, p as int, Class::Digit) {
                lemma_run_end(s@, p + 1, Class::Digit);
            }
        }
        scan_run(s, p, Class::Digit)
    }
}

/// The end of the fraction at `p`; `p` where none starts.
pub fn scan_fraction(s: &[u8], p: usize) -> (e: usize)
    requires
        p <= s.len(),
    ensures
        e == fraction_end(s@, p as int),
        p <= e <= s.len(),
{
    if byte_at(s, p, 0x2e) && test_at(s, p + 1, Class::Digit) {
        scan_run(s, p + 1, Class::Digit)
    } else {
        p
    }
}

/// The end of the exponent at `p`; `p` where none starts.
pub fn scan_exponent(s: &[u8], p: usize) -> (e: usize)
    requires
        p <= s.len(),
    ensures
        e == exponent_end(s@, p as int),
        p <= e <= s.len(),
{
    if byte_at(s, p, 0x65) || byte_at(s, p, 0x45) {
        let d: usize = if byte_at(s, p + 1, 0x2b) || byte_at(s, p + 1, 0x2d) {
            p + 2
        } else {
            p + 1
        };
        if test_at(s, d, Class::Digit) {
            scan_run(s, d, Class::Digit)
        } else {
            p
        }
    } else {
        p
    }
}

/// The end of the number at `p`; `p` where none starts.
pub fn scan_number(s: &[u8], p: usize) -> (e: usize)
    requires
        p <= s.len(),
    ensures
        e == number_end(s@, p as int),
        p <= e <= s.len(),
        at(s@, p as int, Class::Digit) ==> p < e,
{
    let a: usize = if byte_at(s, p, 0x2d) {
        p + 1
    } else {
        p
    };
    let b = scan_int(s, a);
    if b == a {
        p
    } else {
        scan_exponent(s, scan_fraction(s, b))
    }
}

/// Whether two digits stand at `p`.
pub fn test_two_digits(s: &[u8], p: usize) -> (r: bool)
    ensures
        r == two_digits(s@, p as int),
{
    test_all(s, p, 2, Class::Digit)
}

/// The end of the time zone at `p`; `p` where none starts.
pub fn scan_zone(s: &[u8], p: usize) -> (e: usize)
    requires
        p <= s.len(),
    ensures
        e == zone_end(s@, p as int),
        p <= e <= s.len(),
{
    if byte_at(s, p, 0x5a) {
        p + 1
    } else if (byte_at(s, p, 0x2b) || byte_at(s, p, 0x2d)) && test_two_digits(s, p + 1) && byte_at(
        s,
        p + 3,
        0x3a,
    ) && test_two_digits(s, p + 4) {
        p + 6
    } else {
        p
    }
}

/// The end of the time at `p`; `p` where none starts.
pub fn scan_time(s: &[u8], p: usize) -> (e: usize)
    requires
        p <= s.len(),
    ensures
        e == time_end(s@, p as int),
        p <= e <= s.len(),
{
    if byte_at(s, p, 0x54) && test_two_digits(s, p + 1) && byte_at(s, p + 3, 0x3a)
        && test_two_digits(s, p + 4) && byte_at(s, p + 6, 0x3a) && test_two_digits(s, p + 7) {
        scan_zone(s, scan_fraction(s, p + 9))
    } else {
        p
    }
}

/// The end of the date at `p`; `p` where none starts.
pub fn scan_date(s: &[u8], p: usize) -> (e: usize)
    requires
        p <= s.len(),
    ensures
        e == date_end(s@, p as int),
        p <= e <= s.len(),
{
    if test_all(s, p, 4, Class::Digit) && byte_at(s, p + 4, 0x2d) && test_two_digits(s, p + 5)
        && byte_at(s, p + 7, 0x2d) && test_two_digits(s, p + 8) {
        scan_time(s, p + 10)
    } else {
        p
    }
}

/// The length of the escape that the backslash at `p` starts; 0 for none.
pub fn scan_escape(s: &[u8], p: usize) -> (n: usize)
    requires
        p < s.len(),
    ensures
        n == escape_len(s@, p as int),
        p + n <= s.len(),
{
    let q: usize = p + 1;
    if q >= s.len() {
        return 0;
    }
    let b = s[q];
    if b == 0x22 || b == 0x5c || b == 0x2f || b == 0x62 || b == 0x66 || b == 0x6e || b == 0x72
        || b == 0x74 {
        2
    } else if b == 0x75 && test_all(s, q + 1, 4, Class::HexDigit) {
        6
    } else {
        0
    }
}

/// The end of the string that the `"` at `p` opens; `p` where none is closed.
pub fn scan_string(s: &[u8], p: usize) -> (e: usize)
    requires
        p <= s.len(),
    ensures
        e == string_end(s@, p as int),
        p <= e <= s.len(),
{
    if !byte_at(s, p, 0x22) {
        return p;
    }
    let mut q: usize = p + 1;
    loop
        invariant
            p < q <= s.len(),
            string_close(s@, p + 1) == string_close(s@, q as int),
            is_at(s@, p as int, 0x22),
        decreases s.len() - q,
    {
        if q >= s.len() {
            return p;
        }
        let b = s[q];
        if b == 0x22 {
            return q + 1;
        } else if b == 0x5c {
            let n = scan_escape(s, q);
            if n == 0 {
                return p;
            }
            q = q + n;
        } else if b < 0x20 {
            return p;
        } else {
            q = q + 1;
        }
    }
}

/// The end of the name at `p`; `p` where none starts.
pub fn scan_name(s: &[u8], p: usize) -> (e: usize)
    requires
        p <= s.len(),
    ensures
        e == name_end(s@, p as int),
        p <= e <= s.len(),
{
    if p < s.len() && (Class::Letter.test(s[p]) || s[p] == 0x5f) {
        scan_run(s, p + 1, Class::NameChar)
    } else {
        p
    }
}

/// The end of the UR whose `ur:` stands at `p`; `p` where none is complete.
pub fn scan_ur(s: &[u8], p: usize) -> (e: usize)
    requires
        Word::UrOpen.at(s@, p as int),
    ensures
        e == ur_end(s@, p as int),
        p <= e <= s.len(),
{
    let t: usize = p + 3;
    let u = scan_run(s, t, Class::UrTypeChar);
    proof {
        lemma_run_end(s@, t as int, Class::UrTypeChar);
        if u + 1 > s.len() {
            assert(run_end(s@, u + 1, Class::Letter) == u + 1);
        }
    }
    if u > t && s[t] != 0x2d && byte_at(s, u, 0x2f) {
        let v = scan_run(s, u + 1, Class::Letter);
        if v - (u + 1) >= 8 {
            v
        } else {
            p
        }
    } else {
        p
    }
}

/// The token that starts with the letter or `_` at `p`.
pub fn scan_word(s: &[u8], p: usize) -> (r: (Kind, usize))
    requires
        p < s.len(),
        is_name_start(s@[p as int]),
    ensures
        (r.0, r.1 as int) == word_token(s@, p as int),
        p <= r.1 <= s.len(),
        r.0 != Kind::Unrecognized ==> p < r.1,
{
    let n = scan_name(s, p);
    if byte_at(s, n, 0x28) {
        (Kind::TagName, n + 1)
    } else if Word::True.stands_at(s, p) {
        (Kind::True, p + 4)
    } else if Word::False.stands_at(s, p) {
        (Kind::False, p + 5)
    } else if Word::Null.stands_at(s, p) {
        (Kind::Null, p + 4)
    } else if Word::NaN.stands_at(s, p) {
        (Kind::NaN, p + 3)
    } else if Word::Infinity.stands_at(s, p) {
        (Kind::Infinity, p + 8)
    } else if Word::Unit.stands_at(s, p) {
        (Kind::Unit, p + 4)
    } else if Word::HexOpen.stands_at(s, p) {
        let q = scan_run(s, p + 2, Class::HexDigit);
        if byte_at(s, q, 0x27) {
            (Kind::ByteStringHex, q + 1)
        } else {
            (Kind::Unrecognized, p)
        }
    } else if Word::Base64Open.stands_at(s, p) {
        let q = scan_run(s, p + 4, Class::Base64Char);
        if q - (p + 4) >= 2 && byte_at(s, q, 0x27) {
            (Kind::ByteStringBase64, q + 1)
        } else {
            (Kind::Unrecognized, p)
        }
    } else if Word::UrOpen.stands_at(s, p) {
        let e = scan_ur(s, p);
        if e > p {
            (Kind::UR, e)
        } else {
            (Kind::Unrecognized, p)
        }
    } else {
        (Kind::Unrecognized, p)
    }
}

/// The token that starts with the digit at `p`.
pub fn scan_digit(s: &[u8], p: usize) -> (r: (Kind, usize))
    requires
        p < s.len(),
        is_digit(s@[p as int]),
    ensures
        (r.0, r.1 as int) == digit_token(s@, p as int),
        p < r.1 <= s.len(),
        r.0 != Kind::Unrecognized,
{
    let d = scan_date(s, p);
    if d > p {
        return (Kind::DateLiteral, d);
    }
    let i = scan_int(s, p);
    proof {
        lemma_run_end(s@, p as int, Class::Digit);
    }
    if byte_at(s, i, 0x28) {
        (Kind::TagValue, i + 1)
    } else {
        let e = scan_number(s, p);
        (Kind::Number, e)
    }
}

/// The token that starts with the `'` at `p`.
pub fn scan_quote(s: &[u8], p: usize) -> (r: (Kind, usize))
    requires
        p < s.len(),
        s@[p as int] == 0x27,
    ensures
        (r.0, r.1 as int) == quote_token(s@, p as int),
        p <= r.1 <= s.len(),
        r.0 != Kind::Unrecognized ==> p < r.1,
{
    if byte_at(s, p + 1, 0x27) {
        return (Kind::KnownValueName, p + 2);
    }
    let n = scan_name(s, p + 1);
    if n > p + 1 {
        if byte_at(s, n, 0x27) {
            return (Kind::KnownValueName, n + 1);
        } else {
            return (Kind::Unrecognized, p);
        }
    }
    let i = scan_int(s, p + 1);
    if i > p + 1 && byte_at(s, i, 0x27) {
        (Kind::KnownValueNumber, i + 1)
    } else {
        (Kind::Unrecognized, p)
    }
}

/// The kind and the end of the longest token that starts at `p`.
pub fn scan_token(s: &[u8], p: usize) -> (r: (Kind, usize))
    requires
        p < s.len(),
    ensures
        (r.0, r.1 as int) == token_at(s@, p as int),
        p <= r.1 <= s.len(),
        r.0 != Kind::Unrecognized ==> p < r.1,
{
    let b = s[p];
    if b == 0x7b {
        (Kind::BraceOpen, p + 1)
    } else if b == 0x7d {
        (Kind::BraceClose, p + 1)
    } else if b == 0x5b {
        (Kind::BracketOpen, p + 1)
    } else if b == 0x5d {
        (Kind::BracketClose, p + 1)
    } else if b == 0x28 {
        (Kind::ParenthesisOpen, p + 1)
    } else if b == 0x29 {
        (Kind::ParenthesisClose, p + 1)
    } else if b == 0x3a {
        (Kind::Colon, p + 1)
    } else if b == 0x2c {
        (Kind::Comma, p + 1)
    } else if Class::Letter.test(b) || b == 0x5f {
        scan_word(s, p)
    } else if Class::Digit.test(b) {
        scan_digit(s, p)
    } else if b == 0x2d {
        if Word::NegInfinity.stands_at(s, p) {
            (Kind::NegInfinity, p + 9)
        } else {
            let e = scan_number(s, p);
            if e > p {
                (Kind::Number, e)
            } else {
                (Kind::Unrecognized, p)
            }
        }
    } else if b == 0x22 {
        let e = scan_string(s, p);
        if e > p {
            (Kind::String, e)
        } else {
            (Kind::Unrecognized, p)
        }
    } else if b == 0x27 {
        scan_quote(s, p)
    } else {
        (Kind::Unrecognized, p)
    }
}

/// The first token at or after `p`, white space and comments passed over;
/// `None` where the text ends before one starts. A token lies inside the
/// text and is not empty.
pub fn next_lexeme(s: &[u8], p: usize) -> (found: Option<Found>)
    requires
        p <= s.len(),
    ensures
        found_view(found) == lex_at(s@, p as int),
        found matches Some(f) ==> p <= f.span.start < f.span.end <= s.len(),
{
    let q = skip(s, p);
    if q >= s.len() {
        return None;
    }
    let (kind, end) = scan_token(s, q);
    if kind == Kind::Unrecognized {
        let e = scan_run(s, q + 1, Class::Continuation);
        Some(Found { kind, span: Span { start: q, end: e } })
    } else {
        Some(Found { kind, span: Span { start: q, end } })
    }
}

} // verus!
