//! Classes of bytes and the scanning steps that the lexer is made of.

use vstd::prelude::*;

verus! {

/// A class of bytes that a run of the notation is made of.
#[derive(Clone, Copy, Debug, PartialEq, Eq, Structural)]
pub enum Class {
    /// `0` to `9`.
    Digit,
    /// A decimal digit or a letter `a` to `f`, in either case.
    HexDigit,
    /// A letter `a` to `z`, in either case.
    Letter,
    /// A letter, a digit, `_` or `-`: what a name continues with.
    NameChar,
    /// A letter, a digit or `-`: what the type of a UR continues with.
    UrTypeChar,
    /// A letter, a digit, `+`, `/` or `=`.
    Base64Char,
    /// Any byte but a line feed.
    NotLineFeed,
    /// Any byte but `/`.
    NotSlash,
    /// A byte that continues a character of more than one byte in UTF-8.
    Continuation,
}

pub open spec fn is_digit(b: u8) -> bool {
    0x30 <= b <= 0x39
}

pub open spec fn is_letter(b: u8) -> bool {
    0x41 <= b <= 0x5a || 0x61 <= b <= 0x7a
}

pub open spec fn is_hex_digit(b: u8) -> bool {
    is_digit(b) || 0x41 <= b <= 0x46 || 0x61 <= b <= 0x66
}

/// A letter or `_`: what a name starts with.
pub open spec fn is_name_start(b: u8) -> bool {
    is_letter(b) || b == 0x5f
}

/// Space, tab, line feed, form feed or carriage return.
pub open spec fn is_space(b: u8) -> bool {
    b == 0x20 || b == 0x09 || b == 0x0a || b == 0x0c || b == 0x0d
}

impl Class {
    /// Whether the byte belongs to the class.
    pub open spec fn holds(self, b: u8) -> bool {
        match self {
            Class::Digit => is_digit(b),
            Class::HexDigit => is_hex_digit(b),
            Class::Letter => is_letter(b),
            Class::NameChar => is_letter(b) || is_digit(b) || b == 0x5f || b == 0x2d,
            Class::UrTypeChar => is_letter(b) || is_digit(b) || b == 0x2d,
            Class::Base64Char => is_letter(b) || is_digit(b) || b == 0x2b || b == 0x2f || b == 0x3d,
            Class::NotLineFeed => b != 0x0a,
            Class::NotSlash => b != 0x2f,
            Class::Continuation => 0x80 <= b <= 0xbf,
        }
    }

    /// Whether the byte belongs to the class.
    pub fn test(self, b: u8) -> (r: bool)
        ensures
            r == self.holds(b),
    {
        let digit = 0x30 <= b && b <= 0x39;
        let letter = (0x41 <= b && b <= 0x5a) || (0x61 <= b && b <= 0x7a);
        match self {
            Class::Digit => digit,
            Class::HexDigit => digit || (0x41 <= b && b <= 0x46) || (0x61 <= b && b <= 0x66),
            Class::Letter => letter,
            Class::NameChar => letter || digit || b == 0x5f || b == 0x2d,
            Class::UrTypeChar => letter || digit || b == 0x2d,
            Class::Base64Char => letter || digit || b == 0x2b || b == 0x2f || b == 0x3d,
            Class::NotLineFeed => b != 0x0a,
            Class::NotSlash => b != 0x2f,
            Class::Continuation => 0x80 <= b && b <= 0xbf,
        }
    }
}

/// Whether the byte at `i` exists and belongs to the class.
pub open spec fn at(s: Seq<u8>, i: int, class: Class) -> bool {
    0 <= i < s.len() && class.holds(s[i])
}

/// Whether the byte at `i` exists and is `b`.
pub open spec fn is_at(s: Seq<u8>, i: int, b: u8) -> bool {
    0 <= i < s.len() && s[i] == b
}

/// The end of the longest run of bytes of the class that starts at `i`.
pub open spec fn run_end(s: Seq<u8>, i: int, class: Class) -> int
    decreases s.len() - i,
{
    if at(s, i, class) {
        run_end(s, i + 1, class)
    } else {
        i
    }
}

/// Whether `i + n` bytes exist and the `n` bytes from `i` all belong to the
/// class.
pub open spec fn all_at(s: Seq<u8>, i: int, n: int, class: Class) -> bool {
    0 <= i && i + n <= s.len() && forall|k: int| i <= k < i + n ==> class.holds(#[trigger] s[k])
}

/// Whether the bytes of `word` stand at `i`.
pub open spec fn word_at(s: Seq<u8>, i: int, word: Seq<u8>) -> bool {
    0 <= i && i + word.len() <= s.len() && s.subrange(i, i + word.len()) == word
}

/// A run ends no earlier than it starts and inside the text; every byte of it
/// belongs to the class and the byte after it does not.
pub proof fn lemma_run_end(s: Seq<u8>, i: int, class: Class)
    requires
        0 <= i <= s.len(),
    ensures
        i <= run_end(s, i, class) <= s.len(),
        forall|k: int| i <= k < run_end(s, i, class) ==> class.holds(#[trigger] s[k]),
        !at(s, run_end(s, i, class), class),
    decreases s.len() - i,
{
    if at(s, i, class) {
        lemma_run_end(s, i + 1, class);
    }
}

/// A stretch of bytes of the class that is followed by none of it is the run.
pub proof fn lemma_run_is(s: Seq<u8>, i: int, j: int, class: Class)
    requires
        0 <= i <= j <= s.len(),
        forall|k: int| i <= k < j ==> class.holds(#[trigger] s[k]),
        !at(s, j, class),
    ensures
        run_end(s, i, class) == j,
    decreases j - i,
{
    if i < j {
        lemma_run_is(s, i + 1, j, class);
    }
}

/// The end of the longest run of bytes of the class that starts at `i`.
pub fn scan_run(s: &[u8], i: usize, class: Class) -> (j: usize)
    requires
        i <= s.len(),
    ensures
        j == run_end(s@, i as int, class),
        i <= j <= s.len(),
{
    let mut j: usize = i;
    while j < s.len() && class.test(s[j])
        invariant
            i <= j <= s.len(),
            forall|k: int| i <= k < j ==> class.holds(#[trigger] s@[k]),
        decreases s.len() - j,
    {
        j += 1;
    }
    proof {
        lemma_run_is(s@, i as int, j as int, class);
    }
    j
}

/// Whether the byte at `i` exists and belongs to the class.
pub fn test_at(s: &[u8], i: usize, class: Class) -> (r: bool)
    ensures
        r == at(s@, i as int, class),
{
    i < s.len() && class.test(s[i])
}

/// Whether the byte at `i` exists and is `b`.
pub fn byte_at(s: &[u8], i: usize, b: u8) -> (r: bool)
    ensures
        r == is_at(s@, i as int, b),
{
    i < s.len() && s[i] == b
}

/// Whether the `n` bytes from `i` exist and all belong to the class.
pub fn test_all(s: &[u8], i: usize, n: usize, class: Class) -> (r: bool)
    ensures
        r == all_at(s@, i as int, n as int, class),
{
    if n > s.len() || i > s.len() - n {
        return false;
    }
    let mut k: usize = i;
    while k < i + n
        invariant
            i <= k <= i + n <= s.len(),
            forall|m: int| i <= m < k ==> class.holds(#[trigger] s@[m]),
        decreases i + n - k,
    {
        if !class.test(s[k]) {
            return false;
        }
        k += 1;
    }
    true
}

/// Whether the bytes of `word` stand at `i`.
pub fn test_word(s: &[u8], i: usize, word: &[u8]) -> (r: bool)
    ensures
        r == word_at(s@, i as int, word@),
{
    if word.len() > s.len() || i > s.len() - word.len() {
        return false;
    }
    let mut k: usize = 0;
    while k < word.len()
        invariant
            k <= word.len(),
            i + word.len() <= s.len(),
            forall|m: int| 0 <= m < k ==> s@[i + m] == word@[m],
        decreases word.len() - k,
    {
        if s[i + k] != word[k] {
            assert(s@.subrange(i as int, i + word.len())[k as int] == s@[i + k]);
            return false;
        }
        k += 1;
    }
    assert(s@.subrange(i as int, i + word.len()) =~= word@);
    true
}

} // verus!
