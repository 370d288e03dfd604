//! The lexical grammar: where the tokens of a source text start and end.
//!
//! At each position the longest token that the grammar admits is taken.
//! White space and the two kinds of comment are passed over between tokens.

use vstd::prelude::*;
use crate::utf8::ascii_between;
use crate::scan::{
    Class, all_at, at, is_at, is_digit, is_name_start, is_space, lemma_run_end, run_end, word_at,
};

verus! {

/// The kind of a token.
#[derive(Clone, Copy, Debug, PartialEq, Eq, Structural)]
pub enum Kind {
    True,
    False,
    Null,
    NaN,
    Infinity,
    NegInfinity,
    Unit,
    Number,
    String,
    ByteStringHex,
    ByteStringBase64,
    DateLiteral,
    TagValue,
    TagName,
    KnownValueNumber,
    KnownValueName,
    UR,
    BraceOpen,
    BraceClose,
    BracketOpen,
    BracketClose,
    ParenthesisOpen,
    ParenthesisClose,
    Colon,
    Comma,
    /// No token starts here.
    Unrecognized,
}

/// A fixed word of the notation.
#[derive(Clone, Copy, Debug, PartialEq, Eq, Structural)]
pub enum Word {
    True,
    False,
    Null,
    NaN,
    Infinity,
    NegInfinity,
    Unit,
    /// `h'`, which opens a byte string in hexadecimal.
    HexOpen,
    /// `b64'`, which opens a byte string in base64.
    Base64Open,
    /// `ur:`, which opens a UR.
    UrOpen,
}

impl Word {
    /// The bytes of the word.
    pub open spec fn bytes(self) -> Seq<u8> {
        match self {
            Word::True => seq![0x74u8, 0x72, 0x75, 0x65],
            Word::False => seq![0x66u8, 0x61, 0x6c, 0x73, 0x65],
            Word::Null => seq![0x6eu8, 0x75, 0x6c, 0x6c],
            Word::NaN => seq![0x4eu8, 0x61, 0x4e],
            Word::Infinity => seq![0x49u8, 0x6e, 0x66, 0x69, 0x6e, 0x69, 0x74, 0x79],
            Word::NegInfinity => seq![0x2du8, 0x49, 0x6e, 0x66, 0x69, 0x6e, 0x69, 0x74, 0x79],
            Word::Unit => seq![0x55u8, 0x6e, 0x69, 0x74],
            Word::HexOpen => seq![0x68u8, 0x27],
            Word::Base64Open => seq![0x62u8, 0x36, 0x34, 0x27],
            Word::UrOpen => seq![0x75u8, 0x72, 0x3a],
        }
    }

    /// Whether the word stands at `p`.
    pub open spec fn at(self, s: Seq<u8>, p: int) -> bool {
        word_at(s, p, self.bytes())
    }
}

/// The end of one white-space byte or one comment at `p`; `p` where neither
/// starts there. A comment runs from `#` to the end of the line, or from `/`
/// to the next `/`.
pub open spec fn skip_one(s: Seq<u8>, p: int) -> int {
    if p < 0 || p >= s.len() {
        p
    } else if is_space(s[p]) {
        p + 1
    } else if s[p] == 0x23 {
        run_end(s, p + 1, Class::NotLineFeed)
    } else if s[p] == 0x2f {
        let q = run_end(s, p + 1, Class::NotSlash);
        if q < s.len() {
            q + 1
        } else {
            p
        }
    } else {
        p
    }
}

/// The first position from `p` on at which neither white space nor a comment
/// starts.
pub open spec fn skip_end(s: Seq<u8>, p: int) -> int
    decreases s.len() - p,
{
    let q = skip_one(s, p);
    if p < q <= s.len() {
        skip_end(s, q)
    } else {
        p
    }
}

/// The end of the integer `0` or `[1-9][0-9]*` at `p`; `p` where none starts.
pub open spec fn int_end(s: Seq<u8>, p: int) -> int {
    if is_at(s, p, 0x30) {
        p + 1
    } else if at(s, p, Class::Digit) {
        run_end(s, p, Class::Digit)
    } else {
        p
    }
}

/// The end of the fraction `.` and digits at `p`; `p` where none starts.
pub open spec fn fraction_end(s: Seq<u8>, p: int) -> int {
    if is_at(s, p, 0x2e) && at(s, p + 1, Class::Digit) {
        run_end(s, p + 1, Class::Digit)
    } else {
        p
    }
}

/// The end of the exponent `e` or `E`, an optional sign and digits at `p`;
/// `p` where none starts.
pub open spec fn exponent_end(s: Seq<u8>, p: int) -> int {
    if is_at(s, p, 0x65) || is_at(s, p, 0x45) {
        let d = if is_at(s, p + 1, 0x2b) || is_at(s, p + 1, 0x2d) {
            p + 2
        } else {
            p + 1
        };
        if at(s, d, Class::Digit) {
            run_end(s, d, Class::Digit)
        } else {
            p
        }
    } else {
        p
    }
}

/// The end of the number at `p`: an optional `-`, an integer, an optional
/// fraction and an optional exponent; `p` where none starts.
pub open spec fn number_end(s: Seq<u8>, p: int) -> int {
    let a = if is_at(s, p, 0x2d) {
        p + 1
    } else {
        p
    };
    let b = int_end(s, a);
    if b == a {
        p
    } else {
        exponent_end(s, fraction_end(s, b))
    }
}

/// Two digits at `p`.
pub open spec fn two_digits(s: Seq<u8>, p: int) -> bool {
    all_at(s, p, 2, Class::Digit)
}

/// The end of the time zone `Z` or a sign, two digits, `:` and two digits at
/// `p`; `p` where none starts.
pub open spec fn zone_end(s: Seq<u8>, p: int) -> int {
    if is_at(s, p, 0x5a) {
        p + 1
    } else if (is_at(s, p, 0x2b) || is_at(s, p, 0x2d)) && two_digits(s, p + 1) && is_at(
        s,
        p + 3,
        0x3a,
    ) && two_digits(s, p + 4) {
        p + 6
    } else {
        p
    }
}

/// The end of the time `T`, hours, minutes and seconds, an optional fraction
/// and an optional zone at `p`; `p` where none starts.
pub open spec fn time_end(s: Seq<u8>, p: int) -> int {
    if is_at(s, p, 0x54) && two_digits(s, p + 1) && is_at(s, p + 3, 0x3a) && two_digits(s, p + 4)
        && is_at(s, p + 6, 0x3a) && two_digits(s, p + 7) {
        zone_end(s, fraction_end(s, p + 9))
    } else {
        p
    }
}

/// The end of the date at `p`: four digits, `-`, two digits, `-`, two digits
/// and an optional time; `p` where none starts.
pub open spec fn date_end(s: Seq<u8>, p: int) -> int {
    if all_at(s, p, 4, Class::Digit) && is_at(s, p + 4, 0x2d) && two_digits(s, p + 5) && is_at(
        s,
        p + 7,
        0x2d,
    ) && two_digits(s, p + 8) {
        time_end(s, p + 10)
    } else {
        p
    }
}

/// The length of the escape that the backslash at `p` starts: 2 for one of
/// `"`, `\`, `/`, `b`, `f`, `n`, `r`, `t`, 6 for `u` and four hexadecimal
/// digits, 0 for anything else.
pub open spec fn escape_len(s: Seq<u8>, p: int) -> int {
    if is_at(s, p + 1, 0x22) || is_at(s, p + 1, 0x5c) || is_at(s, p + 1, 0x2f) || is_at(
        s,
        p + 1,
        0x62,
    ) || is_at(s, p + 1, 0x66) || is_at(s, p + 1, 0x6e) || is_at(s, p + 1, 0x72) || is_at(
        s,
        p + 1,
        0x74,
    ) {
        2
    } else if is_at(s, p + 1, 0x75) && all_at(s, p + 2, 4, Class::HexDigit) {
        6
    } else {
        0
    }
}

/// The position of the `"` that closes the string whose content goes on at
/// `p`; -1 where the content holds a control byte or a bad escape, or the
/// text ends first.
pub open spec fn string_close(s: Seq<u8>, p: int) -> int
    decreases s.len() - p,
{
    if p < 0 || p >= s.len() {
        -1
    } else if s[p] == 0x22 {
        p
    } else if s[p] == 0x5c {
        if escape_len(s, p) > 0 {
            string_close(s, p + escape_len(s, p))
        } else {
            -1
        }
    } else if s[p] < 0x20 {
        -1
    } else {
        string_close(s, p + 1)
    }
}

/// The end of the string that the `"` at `p` opens; `p` where none is closed.
pub open spec fn string_end(s: Seq<u8>, p: int) -> int {
    if is_at(s, p, 0x22) && string_close(s, p + 1) >= 0 {
        string_close(s, p + 1) + 1
    } else {
        p
    }
}

/// The end of the name at `p`: a letter or `_`, then letters, digits, `_` and
/// `-`; `p` where none starts.
pub open spec fn name_end(s: Seq<u8>, p: int) -> int {
    if 0 <= p < s.len() && is_name_start(s[p]) {
        run_end(s, p + 1, Class::NameChar)
    } else {
        p
    }
}

/// The end of the UR whose `ur:` stands at `p`: a type that starts with a
/// letter or digit, `/`, and eight letters or more; `p` where none is complete.
pub open spec fn ur_end(s: Seq<u8>, p: int) -> int {
    let t = p + 3;
    let u = run_end(s, t, Class::UrTypeChar);
    let v = run_end(s, u + 1, Class::Letter);
    if at(s, t, Class::UrTypeChar) && s[t] != 0x2d && is_at(s, u, 0x2f) && v - (u + 1) >= 8 {
        v
    } else {
        p
    }
}

/// The token that starts with the letter or `_` at `p`.
pub open spec fn word_token(s: Seq<u8>, p: int) -> (Kind, int) {
    let n = name_end(s, p);
    if is_at(s, n, 0x28) {
        (Kind::TagName, n + 1)
    } else if Word::True.at(s, p) {
        (Kind::True, p + 4)
    } else if Word::False.at(s, p) {
        (Kind::False, p + 5)
    } else if Word::Null.at(s, p) {
        (Kind::Null, p + 4)
    } else if Word::NaN.at(s, p) {
        (Kind::NaN, p + 3)
    } else if Word::Infinity.at(s, p) {
        (Kind::Infinity, p + 8)
    } else if Word::Unit.at(s, p) {
        (Kind::Unit, p + 4)
    } else if Word::HexOpen.at(s, p) {
        let q = run_end(s, p + 2, Class::HexDigit);
        if is_at(s, q, 0x27) {
            (Kind::ByteStringHex, q + 1)
        } else {
            (Kind::Unrecognized, p)
        }
    } else if Word::Base64Open.at(s, p) {
        let q = run_end(s, p + 4, Class::Base64Char);
        if q - (p + 4) >= 2 && is_at(s, q, 0x27) {
            (Kind::ByteStringBase64, q + 1)
        } else {
            (Kind::Unrecognized, p)
        }
    } else if Word::UrOpen.at(s, p) && ur_end(s, p) > p {
        (Kind::UR, ur_end(s, p))
    } else {
        (Kind::Unrecognized, p)
    }
}

/// The token that starts with the digit at `p`: a date where one stands
/// there, else an integer with `(` behind it as the head of a tag, else a
/// number.
pub open spec fn digit_token(s: Seq<u8>, p: int) -> (Kind, int) {
    if date_end(s, p) > p {
        (Kind::DateLiteral, date_end(s, p))
    } else if is_at(s, int_end(s, p), 0x28) {
        (Kind::TagValue, int_end(s, p) + 1)
    } else {
        (Kind::Number, number_end(s, p))
    }
}

/// The token that starts with the `'` at `p`: `''`, a name in quotes or an
/// integer in quotes.
pub open spec fn quote_token(s: Seq<u8>, p: int) -> (Kind, int) {
    if is_at(s, p + 1, 0x27) {
        (Kind::KnownValueName, p + 2)
    } else if name_end(s, p + 1) > p + 1 {
        if is_at(s, name_end(s, p + 1), 0x27) {
            (Kind::KnownValueName, name_end(s, p + 1) + 1)
        } else {
            (Kind::Unrecognized, p)
        }
    } else if int_end(s, p + 1) > p + 1 && is_at(s, int_end(s, p + 1), 0x27) {
        (Kind::KnownValueNumber, int_end(s, p + 1) + 1)
    } else {
        (Kind::Unrecognized, p)
    }
}

/// The kind and the end of the longest token that starts at `p`, a position
/// inside the text; `Unrecognized` and `p` where none starts there.
pub open spec fn token_at(s: Seq<u8>, p: int) -> (Kind, int) {
    let b = s[p];
    if b == 0x7b {
        (Kind::BraceOpen, p + 1)
    } else if b == 0x7d {
        (Kind::BraceClose, p + 1)
    } else if b == 0x5b {
        (Kind::BracketOpen, p + 1)
    } else if b == 0x5d {
        (Kind::BracketClose, p + 1)
    } else if b == 0x28 {
        (Kind::ParenthesisOpen, p + 1)
    } else if b == 0x29 {
        (Kind::ParenthesisClose, p + 1)
    } else if b == 0x3a {
        (Kind::Colon, p + 1)
    } else if b == 0x2c {
        (Kind::Comma, p + 1)
    } else if is_name_start(b) {
        word_token(s, p)
    } else if is_digit(b) {
        digit_token(s, p)
    } else if b == 0x2d {
        if Word::NegInfinity.at(s, p) {
            (Kind::NegInfinity, p + 9)
        } else if number_end(s, p) > p {
            (Kind::Number, number_end(s, p))
        } else {
            (Kind::Unrecognized, p)
        }
    } else if b == 0x22 {
        if string_end(s, p) > p {
            (Kind::String, string_end(s, p))
        } else {
            (Kind::Unrecognized, p)
        }
    } else if b == 0x27 {
        quote_token(s, p)
    } else {
        (Kind::Unrecognized, p)
    }
}

/// A fraction, an exponent and a number end inside the text and no earlier
/// than they start.
pub proof fn lemma_number_end(s: Seq<u8>, p: int)
    requires
        0 <= p <= s.len(),
    ensures
        p <= int_end(s, p) <= s.len(),
        p <= fraction_end(s, p) <= s.len(),
        p <= exponent_end(s, p) <= s.len(),
        p <= number_end(s, p) <= s.len(),
        at(s, p, Class::Digit) ==> p < int_end(s, p) && p < number_end(s, p),
{
    lemma_run_end(s, p, Class::Digit);
    if p + 1 <= s.len() {
        lemma_run_end(s, p + 1, Class::Digit);
    }
    if p + 2 <= s.len() {
        lemma_run_end(s, p + 2, Class::Digit);
    }
    let a = if is_at(s, p, 0x2d) {
        p + 1
    } else {
        p
    };
    let b = int_end(s, a);
    if b != a {
        lemma_fraction_end(s, b);
        lemma_exponent_end(s, fraction_end(s, b));
    }
}

/// A fraction ends inside the text and no earlier than it starts.
pub proof fn lemma_fraction_end(s: Seq<u8>, p: int)
    requires
        0 <= p <= s.len(),
    ensures
        p <= fraction_end(s, p) <= s.len(),
{
    if p + 1 <= s.len() {
        lemma_run_end(s, p + 1, Class::Digit);
    }
}

/// An exponent ends inside the text and no earlier than it starts.
pub proof fn lemma_exponent_end(s: Seq<u8>, p: int)
    requires
        0 <= p <= s.len(),
    ensures
        p <= exponent_end(s, p) <= s.len(),
{
    if p + 1 <= s.len() {
        lemma_run_end(s, p + 1, Class::Digit);
    }
    if p + 2 <= s.len() {
        lemma_run_end(s, p + 2, Class::Digit);
    }
}

/// A date ends inside the text and no earlier than it starts.
pub proof fn lemma_date_end(s: Seq<u8>, p: int)
    requires
        0 <= p <= s.len(),
    ensures
        p <= date_end(s, p) <= s.len(),
{
    if date_end(s, p) != p {
        if time_end(s, p + 10) != p + 10 {
            lemma_fraction_end(s, p + 19);
        }
    }
}

/// The `"` that closes a string stands inside the text, behind where the
/// content goes on.
pub proof fn lemma_string_close(s: Seq<u8>, p: int)
    requires
        0 <= p,
    ensures
        string_close(s, p) == -1 || p <= string_close(s, p) < s.len(),
    decreases s.len() - p,
{
    if p < s.len() && s[p] != 0x22 {
        if s[p] == 0x5c {
            if escape_len(s, p) > 0 {
                lemma_string_close(s, p + escape_len(s, p));
            }
        } else if s[p] >= 0x20 {
            lemma_string_close(s, p + 1);
        }
    }
}

/// A string ends inside the text; where one is closed it holds its two
/// quotes at the least.
pub proof fn lemma_string_end(s: Seq<u8>, p: int)
    requires
        0 <= p <= s.len(),
    ensures
        string_end(s, p) == p || p + 2 <= string_end(s, p) <= s.len(),
{
    lemma_string_close(s, p + 1);
}

/// A token of a source text: its kind and the bytes `[start, end)` that it
/// covers. For `Unrecognized` these are the bytes of the one character at
/// which no token starts.
pub struct Lexeme {
    pub kind: Kind,
    pub start: int,
    pub end: int,
}

/// The first token at or after `p`, white space and comments passed over;
/// `None` where the text ends before one starts.
pub open spec fn lex_at(s: Seq<u8>, p: int) -> Option<Lexeme> {
    let q = skip_end(s, p);
    if p < 0 || q >= s.len() {
        None
    } else {
        let (kind, end) = token_at(s, q);
        if kind == Kind::Unrecognized {
            Some(
                Lexeme { kind, start: q, end: run_end(s, q + 1, Class::Continuation) },
            )
        } else {
            Some(Lexeme { kind, start: q, end })
        }
    }
}

/// Passing over white space and comments ends inside the text and no
/// earlier than it starts.
pub proof fn lemma_skip_end(s: Seq<u8>, p: int)
    requires
        0 <= p <= s.len(),
    ensures
        p <= skip_end(s, p) <= s.len(),
    decreases s.len() - p,
{
    let q = skip_one(s, p);
    if p < q <= s.len() {
        lemma_skip_end(s, q);
    }
}

/// The end of the token at `p` lies inside the text, and behind `p` where a
/// token starts there.
pub proof fn lemma_token_at(s: Seq<u8>, p: int)
    requires
        0 <= p < s.len(),
    ensures
        p <= token_at(s, p).1 <= s.len(),
        token_at(s, p).0 != Kind::Unrecognized ==> p < token_at(s, p).1,
{
    lemma_run_end(s, p + 1, Class::NameChar);
    if p + 2 <= s.len() {
        lemma_run_end(s, p + 2, Class::HexDigit);
        lemma_run_end(s, p + 2, Class::NameChar);
        lemma_run_end(s, p + 2, Class::Digit);
    }
    if p + 4 <= s.len() {
        lemma_run_end(s, p + 4, Class::Base64Char);
    }
    if p + 3 <= s.len() {
        lemma_run_end(s, p + 3, Class::UrTypeChar);
        let u = run_end(s, p + 3, Class::UrTypeChar);
        if u + 1 <= s.len() {
            lemma_run_end(s, u + 1, Class::Letter);
        }
    }
    lemma_number_end(s, p);
    lemma_number_end(s, p + 1);
    lemma_date_end(s, p);
    lemma_string_end(s, p);
}

/// A lexeme lies inside the text, at or behind the position from which it
/// was looked for, and is not empty.
pub proof fn lemma_lex_at(s: Seq<u8>, p: int)
    ensures
        lex_at(s, p) matches Some(l) ==> p <= l.start < l.end <= s.len(),
{
    if 0 <= p <= s.len() {
        lemma_skip_end(s, p);
        let q = skip_end(s, p);
        if q < s.len() {
            lemma_token_at(s, q);
            lemma_run_end(s, q + 1, Class::Continuation);
        }
    } else if p > s.len() {
        assert(skip_end(s, p) == p);
    }
}

/// A run of digits, of letters or of the characters of names is ASCII
/// characters.
pub proof fn lemma_run_ascii(s: Seq<u8>, i: int, class: Class)
    requires
        0 <= i <= s.len(),
        class == Class::Digit || class == Class::NameChar || class == Class::UrTypeChar,
    ensures
        ascii_between(s, i, run_end(s, i, class)),
{
    lemma_run_end(s, i, class);
    assert forall|k: int| i <= k < run_end(s, i, class) implies #[trigger] s[k] <= 0x7f by {
        assert(class.holds(s[k]));
    }
}

/// An integer and a name are ASCII characters.
pub proof fn lemma_int_name_ascii(s: Seq<u8>, p: int)
    requires
        0 <= p <= s.len(),
    ensures
        ascii_between(s, p, int_end(s, p)),
        ascii_between(s, p, name_end(s, p)),
        ascii_between(s, p, fraction_end(s, p)),
{
    lemma_run_ascii(s, p, Class::Digit);
    if p + 1 <= s.len() {
        lemma_run_ascii(s, p + 1, Class::NameChar);
        lemma_run_ascii(s, p + 1, Class::Digit);
    }
}

/// A date is ASCII characters.
pub proof fn lemma_date_ascii(s: Seq<u8>, p: int)
    requires
        0 <= p <= s.len(),
    ensures
        ascii_between(s, p, date_end(s, p)),
{
    if date_end(s, p) != p {
        let t = p + 10;
        assert forall|i: int| p <= i < t implies #[trigger] s[i] <= 0x7f by {
            if i < p + 4 {
                assert(Class::Digit.holds(s[i]));
            } else if i == p + 4 {
            } else if i < p + 7 {
                assert(Class::Digit.holds(s[i]));
            } else if i == p + 7 {
            } else {
                assert(Class::Digit.holds(s[i]));
            }
        }
        if time_end(s, t) != t {
            let f = fraction_end(s, t + 9);
            lemma_fraction_end(s, t + 9);
            lemma_int_name_ascii(s, t + 9);
            assert forall|i: int| t <= i < t + 9 implies #[trigger] s[i] <= 0x7f by {
                if i == t || i == t + 3 || i == t + 6 {
                } else {
                    assert(Class::Digit.holds(s[i]));
                }
            }
            let z = zone_end(s, f);
            assert forall|i: int| f <= i < z implies #[trigger] s[i] <= 0x7f by {
                if i == f || i == f + 3 {
                } else {
                    assert(Class::Digit.holds(s[i]));
                }
            }
        }
    }
}

} // verus!
