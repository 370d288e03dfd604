//! Cutting a source behind a token leaves the token as it is: what the
//! lexer and the parser find in the first `k` bytes of a source is what
//! they find in the whole, as far as it ends within those bytes.

use vstd::prelude::*;
use crate::lexeme::{
    Kind, Lexeme, Word, date_end, digit_token, escape_len, exponent_end, fraction_end, int_end,
    lemma_date_end, lemma_exponent_end, lemma_fraction_end, lemma_number_end, lemma_skip_end,
    lemma_string_close, lex_at, name_end, number_end, quote_token, skip_end, skip_one,
    string_close, string_end, time_end, token_at, two_digits, ur_end, word_token, zone_end,
};
use crate::error::Fault;
use crate::grammar::{
    ListState, array_from, atom_value, item_at, item_from, leading_item, map_from, pair_from,
    tag_of, whole_item,
};
use crate::item::no_entries;
use crate::laws::{
    is_lexeme, lemma_array_within, lemma_item_at_within, lemma_item_from_within, lemma_lexed,
    lemma_map_within, lemma_pair_within,
};
use crate::registry::Env;
use crate::scan::{Class, all_at, at, is_at, lemma_run_end, run_end, word_at};
use crate::token::{lemma_token_shape, ur_type_end};

verus! {

/// A run in the first `k` bytes is the run in the whole, cut at `k`.
pub proof fn lemma_run_take(s: Seq<u8>, k: int, i: int, class: Class)
    requires
        0 <= i <= k <= s.len(),
    ensures
        run_end(s.take(k), i, class) == if run_end(s, i, class) <= k {
            run_end(s, i, class)
        } else {
            k
        },
    decreases k - i,
{
    lemma_run_end(s, i, class);
    if i < k {
        assert(s.take(k)[i] == s[i]);
        if class.holds(s[i]) {
            lemma_run_take(s, k, i + 1, class);
        }
    }
}

/// Bytes of a class stand in the first `k` bytes where they stand in the
/// whole and end within `k`.
pub proof fn lemma_all_at_take(s: Seq<u8>, k: int, p: int, n: int, class: Class)
    requires
        0 <= k <= s.len(),
        0 <= n,
    ensures
        all_at(s.take(k), p, n, class) == (all_at(s, p, n, class) && p + n <= k),
{
    let t = s.take(k);
    if all_at(s, p, n, class) && p + n <= k {
        assert forall|j: int| p <= j < p + n implies class.holds(#[trigger] t[j]) by {
            assert(t[j] == s[j]);
        }
    }
    if all_at(t, p, n, class) {
        assert forall|j: int| p <= j < p + n implies class.holds(#[trigger] s[j]) by {
            assert(t[j] == s[j]);
        }
    }
}

/// A word stands in the first `k` bytes where it stands in the whole and
/// ends within `k`.
pub proof fn lemma_word_at_take(s: Seq<u8>, k: int, p: int, word: Seq<u8>)
    requires
        0 <= k <= s.len(),
    ensures
        word_at(s.take(k), p, word) == (word_at(s, p, word) && p + word.len() <= k),
{
    let t = s.take(k);
    if 0 <= p && p + word.len() <= k {
        assert(t.subrange(p, p + word.len()) =~= s.subrange(p, p + word.len()));
    }
}

/// An integer, a fraction, an exponent and a number that end within `k` are
/// the same in the first `k` bytes.
pub proof fn lemma_number_take(s: Seq<u8>, k: int, p: int)
    requires
        0 <= p <= k <= s.len(),
    ensures
        int_end(s, p) <= k ==> int_end(s.take(k), p) == int_end(s, p),
        fraction_end(s, p) <= k ==> fraction_end(s.take(k), p) == fraction_end(s, p),
        exponent_end(s, p) <= k ==> exponent_end(s.take(k), p) == exponent_end(s, p),
{
    let t = s.take(k);
    lemma_run_take(s, k, p, Class::Digit);
    lemma_run_end(s, p, Class::Digit);
    if p + 1 <= k {
        lemma_run_take(s, k, p + 1, Class::Digit);
        lemma_run_end(s, p + 1, Class::Digit);
        assert(t[p] == s[p]);
    }
    if p + 2 <= k {
        lemma_run_take(s, k, p + 2, Class::Digit);
        lemma_run_end(s, p + 2, Class::Digit);
        assert(t[p + 1] == s[p + 1]);
    }
    if p + 3 <= k {
        assert(t[p + 2] == s[p + 2]);
    }
    if p + 2 <= s.len() {
        lemma_run_end(s, p + 2, Class::Digit);
    }
    if p + 3 <= s.len() {
        lemma_run_end(s, p + 3, Class::Digit);
    }
}

/// A number that ends within `k` is the same in the first `k` bytes.
pub proof fn lemma_number_end_take(s: Seq<u8>, k: int, p: int)
    requires
        0 <= p <= k <= s.len(),
        number_end(s, p) <= k,
    ensures
        number_end(s.take(k), p) == number_end(s, p),
{
    let t = s.take(k);
    if p < k {
        assert(t[p] == s[p]);
        let a = if is_at(s, p, 0x2d) {
            p + 1
        } else {
            p
        };
        lemma_number_end(s, a);
        lemma_number_take(s, k, a);
        let b = int_end(s, a);
        if b != a {
            lemma_fraction_end(s, b);
            lemma_exponent_end(s, fraction_end(s, b));
            lemma_number_take(s, k, b);
            lemma_number_take(s, k, fraction_end(s, b));
        }
    } else {
        lemma_number_end(s, p);
    }
}

/// A date that ends within `k` is the same in the first `k` bytes.
pub proof fn lemma_date_take(s: Seq<u8>, k: int, p: int)
    requires
        0 <= p <= k <= s.len(),
    ensures
        date_end(s, p) <= k ==> date_end(s.take(k), p) == date_end(s, p),
{
    let t = s.take(k);
    assert forall|j: int| 0 <= j < k implies #[trigger] t[j] == s[j] by {}
    lemma_all_at_take(s, k, p, 4, Class::Digit);
    lemma_all_at_take(s, k, p + 5, 2, Class::Digit);
    lemma_all_at_take(s, k, p + 8, 2, Class::Digit);
    let here = all_at(s, p, 4, Class::Digit) && is_at(s, p + 4, 0x2d) && two_digits(s, p + 5)
        && is_at(s, p + 7, 0x2d) && two_digits(s, p + 8);
    let there = all_at(t, p, 4, Class::Digit) && is_at(t, p + 4, 0x2d) && two_digits(t, p + 5)
        && is_at(t, p + 7, 0x2d) && two_digits(t, p + 8);
    assert(there ==> here);
    if here {
        lemma_time_end(s, p + 10);
        if time_end(s, p + 10) <= k {
            assert(there);
            lemma_time_take(s, k, p + 10);
        }
    }
}

/// A time zone ends inside the text and no earlier than it starts.
pub proof fn lemma_zone_end(s: Seq<u8>, p: int)
    requires
        0 <= p <= s.len(),
    ensures
        p <= zone_end(s, p) <= s.len(),
{
}

/// A time ends inside the text and no earlier than it starts.
pub proof fn lemma_time_end(s: Seq<u8>, p: int)
    requires
        0 <= p <= s.len(),
    ensures
        p <= time_end(s, p) <= s.len(),
{
    if time_end(s, p) != p {
        lemma_fraction_end(s, p + 9);
        lemma_zone_end(s, fraction_end(s, p + 9));
    }
}

/// A time zone that ends within `k` is the same in the first `k` bytes.
pub proof fn lemma_zone_take(s: Seq<u8>, k: int, p: int)
    requires
        0 <= p <= k <= s.len(),
    ensures
        zone_end(s, p) <= k ==> zone_end(s.take(k), p) == zone_end(s, p),
{
    let t = s.take(k);
    assert forall|j: int| 0 <= j < k implies #[trigger] t[j] == s[j] by {}
    lemma_all_at_take(s, k, p + 1, 2, Class::Digit);
    lemma_all_at_take(s, k, p + 4, 2, Class::Digit);
}

/// A time that ends within `k` is the same in the first `k` bytes.
pub proof fn lemma_time_take(s: Seq<u8>, k: int, p: int)
    requires
        0 <= p <= k <= s.len(),
    ensures
        time_end(s, p) <= k ==> time_end(s.take(k), p) == time_end(s, p),
{
    let t = s.take(k);
    assert forall|j: int| 0 <= j < k implies #[trigger] t[j] == s[j] by {}
    lemma_all_at_take(s, k, p + 1, 2, Class::Digit);
    lemma_all_at_take(s, k, p + 4, 2, Class::Digit);
    lemma_all_at_take(s, k, p + 7, 2, Class::Digit);
    let here = is_at(s, p, 0x54) && two_digits(s, p + 1) && is_at(s, p + 3, 0x3a) && two_digits(
        s,
        p + 4,
    ) && is_at(s, p + 6, 0x3a) && two_digits(s, p + 7);
    let there = is_at(t, p, 0x54) && two_digits(t, p + 1) && is_at(t, p + 3, 0x3a) && two_digits(
        t,
        p + 4,
    ) && is_at(t, p + 6, 0x3a) && two_digits(t, p + 7);
    assert(there ==> here);
    if here {
        lemma_fraction_end(s, p + 9);
        let f = fraction_end(s, p + 9);
        lemma_zone_end(s, f);
        if zone_end(s, f) <= k {
            assert(there);
            lemma_number_take(s, k, p + 9);
            lemma_zone_take(s, k, f);
            assert(fraction_end(t, p + 9) == f);
            assert(zone_end(t, f) == zone_end(s, f));
        }
    }
}

/// An escape in the first `k` bytes is the escape in the whole where that
/// ends within `k`, and none otherwise.
pub proof fn lemma_escape_take(s: Seq<u8>, k: int, p: int)
    requires
        0 <= p < k <= s.len(),
    ensures
        escape_len(s.take(k), p) == if p + escape_len(s, p) <= k {
            escape_len(s, p)
        } else {
            0
        },
{
    let t = s.take(k);
    assert forall|j: int| 0 <= j < k implies #[trigger] t[j] == s[j] by {}
    lemma_all_at_take(s, k, p + 2, 4, Class::HexDigit);
}

/// The `"` that closes a string in the first `k` bytes is the one in the
/// whole where that stands within `k`; else the string is not closed.
pub proof fn lemma_string_close_take(s: Seq<u8>, k: int, p: int)
    requires
        0 <= p,
        0 <= k <= s.len(),
    ensures
        string_close(s.take(k), p) == if 0 <= string_close(s, p) < k {
            string_close(s, p)
        } else {
            -1
        },
    decreases s.len() - p,
{
    let t = s.take(k);
    lemma_string_close(s, p);
    if p < k {
        assert(t[p] == s[p]);
        if s[p] == 0x22 {
        } else if s[p] == 0x5c {
            lemma_escape_take(s, k, p);
            if escape_len(s, p) > 0 {
                lemma_string_close(s, p + escape_len(s, p));
                lemma_string_close_take(s, k, p + escape_len(s, p));
            }
        } else if s[p] >= 0x20 {
            lemma_string_close_take(s, k, p + 1);
        }
    }
}

/// A string that ends within `k` is the same in the first `k` bytes.
pub proof fn lemma_string_take(s: Seq<u8>, k: int, p: int)
    requires
        0 <= p <= k <= s.len(),
        string_end(s, p) <= k,
    ensures
        string_end(s.take(k), p) == string_end(s, p),
{
    let t = s.take(k);
    if p < k {
        assert(t[p] == s[p]);
    }
    lemma_string_close_take(s, k, p + 1);
}

/// A name that ends within `k` is the same in the first `k` bytes, and a
/// name in the whole that goes on behind `k` ends at `k` in them.
pub proof fn lemma_name_take(s: Seq<u8>, k: int, p: int)
    requires
        0 <= p <= k <= s.len(),
    ensures
        name_end(s.take(k), p) == if name_end(s, p) <= k {
            name_end(s, p)
        } else {
            k
        },
{
    let t = s.take(k);
    if p < k {
        assert(t[p] == s[p]);
        lemma_run_take(s, k, p + 1, Class::NameChar);
    } else if p < s.len() {
        lemma_run_end(s, p + 1, Class::NameChar);
    }
}

/// A UR that ends within `k` is the same in the first `k` bytes, and one
/// that is not complete in the whole is not complete in them.
pub proof fn lemma_ur_take(s: Seq<u8>, k: int, p: int)
    requires
        0 <= p,
        p + 3 <= k <= s.len(),
        ur_end(s, p) <= k,
    ensures
        ur_end(s.take(k), p) == ur_end(s, p),
{
    let t = s.take(k);
    assert forall|j: int| 0 <= j < k implies #[trigger] t[j] == s[j] by {}
    let start = p + 3;
    lemma_run_take(s, k, start, Class::UrTypeChar);
    lemma_run_end(s, start, Class::UrTypeChar);
    let u = run_end(s, start, Class::UrTypeChar);
    if u < k {
        lemma_run_take(s, k, u + 1, Class::Letter);
        lemma_run_end(s, u + 1, Class::Letter);
    } else {
        assert(run_end(t, k + 1, Class::Letter) == k + 1);
    }
}

/// Each fixed word stands in the first `k` bytes where it stands in the
/// whole and ends within `k`.
pub proof fn lemma_words_take(s: Seq<u8>, k: int, p: int)
    requires
        0 <= k <= s.len(),
    ensures
        Word::True.at(s.take(k), p) == (Word::True.at(s, p) && p + 4 <= k),
        Word::False.at(s.take(k), p) == (Word::False.at(s, p) && p + 5 <= k),
        Word::Null.at(s.take(k), p) == (Word::Null.at(s, p) && p + 4 <= k),
        Word::NaN.at(s.take(k), p) == (Word::NaN.at(s, p) && p + 3 <= k),
        Word::Infinity.at(s.take(k), p) == (Word::Infinity.at(s, p) && p + 8 <= k),
        Word::NegInfinity.at(s.take(k), p) == (Word::NegInfinity.at(s, p) && p + 9 <= k),
        Word::Unit.at(s.take(k), p) == (Word::Unit.at(s, p) && p + 4 <= k),
        Word::HexOpen.at(s.take(k), p) == (Word::HexOpen.at(s, p) && p + 2 <= k),
        Word::Base64Open.at(s.take(k), p) == (Word::Base64Open.at(s, p) && p + 4 <= k),
        Word::UrOpen.at(s.take(k), p) == (Word::UrOpen.at(s, p) && p + 3 <= k),
{
    lemma_word_at_take(s, k, p, Word::True.bytes());
    lemma_word_at_take(s, k, p, Word::False.bytes());
    lemma_word_at_take(s, k, p, Word::Null.bytes());
    lemma_word_at_take(s, k, p, Word::NaN.bytes());
    lemma_word_at_take(s, k, p, Word::Infinity.bytes());
    lemma_word_at_take(s, k, p, Word::NegInfinity.bytes());
    lemma_word_at_take(s, k, p, Word::Unit.bytes());
    lemma_word_at_take(s, k, p, Word::HexOpen.bytes());
    lemma_word_at_take(s, k, p, Word::Base64Open.bytes());
    lemma_word_at_take(s, k, p, Word::UrOpen.bytes());
}

/// A token that starts with a letter or `_` and ends within `k` is the same
/// in the first `k` bytes.
pub proof fn lemma_word_token_take(s: Seq<u8>, k: int, p: int)
    requires
        0 <= p < k <= s.len(),
        word_token(s, p).0 != Kind::Unrecognized,
        word_token(s, p).1 <= k,
    ensures
        word_token(s.take(k), p) == word_token(s, p),
{
    let t = s.take(k);
    assert forall|j: int| 0 <= j < k implies #[trigger] t[j] == s[j] by {}
    lemma_name_take(s, k, p);
    lemma_words_take(s, k, p);
    let n = name_end(s, p);
    if is_at(s, n, 0x28) {
    } else if Word::True.at(s, p) || Word::False.at(s, p) || Word::Null.at(s, p) || Word::NaN.at(
        s,
        p,
    ) || Word::Infinity.at(s, p) || Word::Unit.at(s, p) {
    } else if Word::HexOpen.at(s, p) {
        lemma_run_end(s, p + 2, Class::HexDigit);
        lemma_run_take(s, k, p + 2, Class::HexDigit);
    } else if Word::Base64Open.at(s, p) {
        lemma_run_end(s, p + 4, Class::Base64Char);
        lemma_run_take(s, k, p + 4, Class::Base64Char);
    } else {
        lemma_run_end(s, p + 3, Class::UrTypeChar);
        lemma_ur_take(s, k, p);
    }
}

/// A token that starts with a digit and ends within `k` is the same in the
/// first `k` bytes.
pub proof fn lemma_digit_token_take(s: Seq<u8>, k: int, p: int)
    requires
        0 <= p < k <= s.len(),
        at(s, p, Class::Digit),
        digit_token(s, p).1 <= k,
    ensures
        digit_token(s.take(k), p) == digit_token(s, p),
{
    let t = s.take(k);
    assert forall|j: int| 0 <= j < k implies #[trigger] t[j] == s[j] by {}
    lemma_date_end(s, p);
    lemma_date_take(s, k, p);
    lemma_number_end(s, p);
    lemma_number_take(s, k, p);
    if date_end(s, p) > p {
    } else {
        let i = int_end(s, p);
        lemma_fraction_end(s, i);
        lemma_exponent_end(s, fraction_end(s, i));
        if is_at(s, i, 0x28) {
        } else {
            lemma_number_end_take(s, k, p);
        }
    }
}

/// A token that starts with `'` and ends within `k` is the same in the
/// first `k` bytes.
pub proof fn lemma_quote_token_take(s: Seq<u8>, k: int, p: int)
    requires
        0 <= p < k <= s.len(),
        quote_token(s, p).0 != Kind::Unrecognized,
        quote_token(s, p).1 <= k,
    ensures
        quote_token(s.take(k), p) == quote_token(s, p),
{
    let t = s.take(k);
    assert forall|j: int| 0 <= j < k implies #[trigger] t[j] == s[j] by {}
    if is_at(s, p + 1, 0x27) {
    } else {
        lemma_number_end(s, p + 1);
        if p + 1 <= k {
            lemma_name_take(s, k, p + 1);
            lemma_number_take(s, k, p + 1);
        }
    }
}

/// A token that ends within `k` is the same in the first `k` bytes.
pub proof fn lemma_token_take(s: Seq<u8>, k: int, p: int)
    requires
        0 <= p < k <= s.len(),
        token_at(s, p).0 != Kind::Unrecognized,
        token_at(s, p).1 <= k,
    ensures
        token_at(s.take(k), p) == token_at(s, p),
{
    let t = s.take(k);
    assert(t[p] == s[p]);
    let b = s[p];
    if crate::scan::is_name_start(b) {
        lemma_word_token_take(s, k, p);
    } else if crate::scan::is_digit(b) {
        lemma_digit_token_take(s, k, p);
    } else if b == 0x2d {
        lemma_words_take(s, k, p);
        if !Word::NegInfinity.at(s, p) {
            lemma_number_end_take(s, k, p);
        }
    } else if b == 0x22 {
        lemma_string_take(s, k, p);
    } else if b == 0x27 {
        lemma_quote_token_take(s, k, p);
    }
}

/// Passing over white space and comments that end within `k` is the same
/// in the first `k` bytes.
pub proof fn lemma_skip_take(s: Seq<u8>, k: int, p: int)
    requires
        0 <= p <= k <= s.len(),
        skip_end(s, p) <= k,
    ensures
        skip_end(s.take(k), p) == skip_end(s, p),
    decreases s.len() - p,
{
    let t = s.take(k);
    let q = skip_one(s, p);
    lemma_skip_end(s, p);
    if p < k {
        assert(t[p] == s[p]);
        lemma_run_end(s, p + 1, Class::NotLineFeed);
        lemma_run_end(s, p + 1, Class::NotSlash);
        lemma_run_take(s, k, p + 1, Class::NotLineFeed);
        lemma_run_take(s, k, p + 1, Class::NotSlash);
        if p < q <= s.len() {
            lemma_skip_end(s, q);
            assert(skip_one(t, p) == q);
            lemma_skip_take(s, k, q);
        } else {
            assert(skip_one(t, p) == p);
        }
    } else {
        assert(skip_one(t, p) == p);
    }
}

/// A token that the lexer finds and that ends within `k` is what it finds
/// in the first `k` bytes.
pub proof fn lemma_lex_take(s: Seq<u8>, k: int, p: int)
    requires
        0 <= p <= k <= s.len(),
    ensures
        lex_at(s, p) matches Some(l) ==> l.kind != Kind::Unrecognized && l.end <= k ==> lex_at(
            s.take(k),
            p,
        ) == Some(l),
{
    lemma_skip_end(s, p);
    let q = skip_end(s, p);
    if q < s.len() {
        crate::lexeme::lemma_token_at(s, q);
        let (kind, end) = token_at(s, q);
        if kind != Kind::Unrecognized && end <= k {
            lemma_skip_take(s, k, p);
            lemma_token_take(s, k, q);
        }
    }
}

/// Where passing over white space and comments from `p` ends at `k`, the
/// lexer finds no token from `p` on in the first `k` bytes.
pub proof fn lemma_lex_take_none(s: Seq<u8>, k: int, p: int)
    requires
        0 <= p <= k <= s.len(),
        skip_end(s, p) == k,
    ensures
        lex_at(s.take(k), p) is None,
{
    lemma_skip_take(s, k, p);
}

/// A stretch of the first `k` bytes is the same stretch of the whole.
pub proof fn lemma_subrange_take(s: Seq<u8>, k: int, a: int, b: int)
    requires
        0 <= a <= b <= k <= s.len(),
    ensures
        s.take(k).subrange(a, b) == s.subrange(a, b),
{
    assert(s.take(k).subrange(a, b) =~= s.subrange(a, b));
}

/// What a token that ends within `k` denotes by itself, and the tag that
/// the head of a tagged item names, are the same in the first `k` bytes.
pub proof fn lemma_atom_take(s: Seq<u8>, k: int, l: Lexeme, env: Env)
    requires
        is_lexeme(s, l),
        l.end <= k <= s.len(),
    ensures
        atom_value(s.take(k), l, env) == atom_value(s, l, env),
        tag_of(s.take(k), l, env) == tag_of(s, l, env),
        crate::token::tag_value_payload(s.take(k), l) == crate::token::tag_value_payload(s, l),
{
    lemma_subrange_take(s, k, l.start, l.end);
    lemma_subrange_take(s, k, l.start, l.end - 1);
    if l.kind != Kind::Unrecognized {
        lemma_token_shape(s, l.start);
        if l.start + 1 <= l.end - 1 {
            lemma_subrange_take(s, k, l.start + 1, l.end - 1);
        }
        if l.start + 2 <= l.end - 1 {
            lemma_subrange_take(s, k, l.start + 2, l.end - 1);
        }
        if l.start + 4 <= l.end - 1 {
            lemma_subrange_take(s, k, l.start + 4, l.end - 1);
        }
        if l.kind == Kind::UR {
            lemma_run_take(s, k, l.start + 3, Class::UrTypeChar);
            lemma_subrange_take(s, k, l.start + 3, ur_type_end(s, l.start));
        }
    }
}

/// An item that ends within `k` is the same item of the first `k` bytes.
pub proof fn lemma_item_from_take(s: Seq<u8>, k: int, l: Lexeme, env: Env)
    requires
        is_lexeme(s, l),
        k <= s.len(),
        item_from(s, l, env) matches Ok((_, end)) && end <= k,
    ensures
        item_from(s.take(k), l, env) == item_from(s, l, env),
    decreases s.len() - l.end, 2int,
{
    let t = s.take(k);
    lemma_item_from_within(s, l, env);
    if l.kind == Kind::BracketOpen {
        lemma_array_take(s, k, l.end, env, Seq::empty(), ListState::Start);
    } else if l.kind == Kind::BraceOpen {
        lemma_map_take(s, k, l.end, env, Seq::empty(), no_entries(), ListState::Start);
    } else if l.kind == Kind::TagValue || l.kind == Kind::TagName {
        lemma_atom_take(s, k, l, env);
        lemma_item_at_within(s, l.end, env);
        let (inner, end) = item_at(s, l.end, env)->Ok_0;
        lemma_lexed(s, end);
        lemma_item_at_take(s, k, l.end, env);
        lemma_lex_take(s, k, end);
    } else {
        lemma_atom_take(s, k, l, env);
    }
}

/// As [`lemma_item_from_take`], for the item that starts at or after `p`.
pub proof fn lemma_item_at_take(s: Seq<u8>, k: int, p: int, env: Env)
    requires
        0 <= p <= k <= s.len(),
        item_at(s, p, env) matches Ok((_, end)) && end <= k,
    ensures
        item_at(s.take(k), p, env) == item_at(s, p, env),
    decreases s.len() - p, 1int,
{
    lemma_lexed(s, p);
    let l = lex_at(s, p)->0;
    lemma_item_from_within(s, l, env);
    lemma_lex_take(s, k, p);
    lemma_item_from_take(s, k, l, env);
}

/// As [`lemma_item_from_take`], for the rest of an array.
pub proof fn lemma_array_take(
    s: Seq<u8>,
    k: int,
    p: int,
    env: Env,
    items: Seq<Seq<u8>>,
    state: ListState,
)
    requires
        0 <= p <= k <= s.len(),
        array_from(s, p, env, items, state) matches Ok((_, end)) && end <= k,
    ensures
        array_from(s.take(k), p, env, items, state) == array_from(s, p, env, items, state),
    decreases s.len() - p, 1int,
{
    lemma_lexed(s, p);
    let l = lex_at(s, p)->0;
    if state == ListState::AfterItem {
        if l.kind == Kind::Comma {
            lemma_array_within(s, l.end, env, items, ListState::AfterComma);
            lemma_lex_take(s, k, p);
            lemma_array_take(s, k, l.end, env, items, ListState::AfterComma);
        } else {
            lemma_lex_take(s, k, p);
        }
    } else if l.kind == Kind::BracketClose && state == ListState::Start {
        lemma_lex_take(s, k, p);
    } else {
        lemma_item_from_within(s, l, env);
        let (item, end) = item_from(s, l, env)->Ok_0;
        lemma_array_within(s, end, env, items.push(item), ListState::AfterItem);
        lemma_lex_take(s, k, p);
        lemma_item_from_take(s, k, l, env);
        lemma_array_take(s, k, end, env, items.push(item), ListState::AfterItem);
    }
}

/// As [`lemma_item_from_take`], for a pair of a map.
pub proof fn lemma_pair_take(
    s: Seq<u8>,
    k: int,
    l: Lexeme,
    env: Env,
    entries: Map<Seq<u8>, Seq<u8>>,
)
    requires
        is_lexeme(s, l),
        k <= s.len(),
        pair_from(s, l, env, entries) matches Ok((_, _, end)) && end <= k,
    ensures
        pair_from(s.take(k), l, env, entries) == pair_from(s, l, env, entries),
    decreases s.len() - l.end, 3int,
{
    lemma_item_from_within(s, l, env);
    let (key, key_end) = item_from(s, l, env)->Ok_0;
    lemma_lexed(s, key_end);
    let c = lex_at(s, key_end)->0;
    lemma_item_at_within(s, c.end, env);
    lemma_item_from_take(s, k, l, env);
    lemma_lex_take(s, k, key_end);
    lemma_item_at_take(s, k, c.end, env);
}

/// As [`lemma_item_from_take`], for the rest of a map.
pub proof fn lemma_map_take(
    s: Seq<u8>,
    k: int,
    p: int,
    env: Env,
    keys: Seq<Seq<u8>>,
    entries: Map<Seq<u8>, Seq<u8>>,
    state: ListState,
)
    requires
        0 <= p <= k <= s.len(),
        map_from(s, p, env, keys, entries, state) matches Ok((_, _, end)) && end <= k,
    ensures
        map_from(s.take(k), p, env, keys, entries, state) == map_from(
            s,
            p,
            env,
            keys,
            entries,
            state,
        ),
    decreases s.len() - p, 1int,
{
    lemma_lexed(s, p);
    let l = lex_at(s, p)->0;
    if l.kind == Kind::BraceClose && state != ListState::AfterComma {
        lemma_lex_take(s, k, p);
    } else if l.kind == Kind::Comma && state == ListState::AfterItem {
        lemma_map_within(s, l.end, env, keys, entries, ListState::AfterComma);
        lemma_lex_take(s, k, p);
        lemma_map_take(s, k, l.end, env, keys, entries, ListState::AfterComma);
    } else {
        lemma_pair_within(s, l, env, entries);
        let (key, value, end) = pair_from(s, l, env, entries)->Ok_0;
        lemma_map_within(
            s,
            end,
            env,
            keys.push(key),
            entries.insert(key, value),
            ListState::AfterItem,
        );
        lemma_lex_take(s, k, p);
        lemma_pair_take(s, k, l, env, entries);
        lemma_map_take(
            s,
            k,
            end,
            env,
            keys.push(key),
            entries.insert(key, value),
            ListState::AfterItem,
        );
    }
}

/// The first item of a source is the one item of the bytes that it uses
/// up: where a partial parse gives an item and the number of bytes used, the
/// parse of just those bytes gives the same item.
pub proof fn law_partial_monotonicity(s: Seq<u8>, env: Env)
    requires
        leading_item(s, env) is Ok,
    ensures
        leading_item(s, env) matches Ok((item, used)) && 0 <= used <= s.len() && whole_item(
            s.take(used),
            env,
        ) == Ok::<Seq<u8>, Fault>(item),
{
    reveal(whole_item);
    reveal(leading_item);
    lemma_lexed(s, 0);
    let l = lex_at(s, 0)->0;
    lemma_item_from_within(s, l, env);
    let (item, end) = item_from(s, l, env)->Ok_0;
    lemma_lexed(s, end);
    lemma_skip_end(s, end);
    let used = leading_item(s, env)->Ok_0.1;
    assert(skip_end(s, end) == used);
    lemma_lex_take(s, used, 0);
    lemma_item_from_take(s, used, l, env);
    lemma_lex_take_none(s, used, end);
}

} // verus!
