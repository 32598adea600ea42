//! Character classes of the grammar, and runs of characters of one class.

use vstd::prelude::*;

verus! {

/// Whether `c` is a word character beyond ASCII, as the Unicode tables of
/// `regex_syntax` have it.
pub uninterp spec fn unicode_word(c: char) -> bool;

/// `regex_syntax::is_word_character` tells whether a character belongs to the
/// class `\w`. The contract gives its answer a name and claims no more; the
/// function panics only where the crate is built without its Unicode tables,
/// which this crate never does.
pub assume_specification[ regex_syntax::is_word_character ](c: char) -> (r: bool)
    ensures
        r == unicode_word(c),
;

/// A decimal digit, `0` to `9`.
pub open spec fn is_digit(c: char) -> bool {
    '0' <= c <= '9'
}

/// An ASCII letter, small or capital.
pub open spec fn is_letter(c: char) -> bool {
    'a' <= c <= 'z' || 'A' <= c <= 'Z'
}

/// A character of ASCII.
pub open spec fn is_ascii(c: char) -> bool {
    c <= '\x7f'
}

/// The class `\w`: among ASCII characters the letters, the digits and the
/// underscore; beyond ASCII whatever Unicode counts as part of a word.
pub open spec fn is_word_char(c: char) -> bool {
    if is_ascii(c) {
        is_letter(c) || is_digit(c) || c == '_'
    } else {
        unicode_word(c)
    }
}

/// The classes whose runs the grammar is built from.
#[derive(Debug, PartialEq, Eq, Clone, Copy)]
pub enum CharClass {
    /// `0` to `9`.
    Digit,
    /// `0` to `9` and `A` to `F`.
    UpperHex,
    /// `0` and `1`.
    Binary,
    /// `\w`.
    Word,
    /// Space, tab, line feed, form feed.
    Blank,
    /// Anything but a line feed.
    NotNewline,
    /// Anything but a double quote.
    NotQuote,
}

impl CharClass {
    pub open spec fn has(self, c: char) -> bool {
        match self {
            CharClass::Digit => is_digit(c),
            CharClass::UpperHex => is_digit(c) || 'A' <= c <= 'F',
            CharClass::Binary => c == '0' || c == '1',
            CharClass::Word => is_word_char(c),
            CharClass::Blank => c == ' ' || c == '\t' || c == '\n' || c == '\x0c',
            CharClass::NotNewline => c != '\n',
            CharClass::NotQuote => c != '"',
        }
    }

    /// Whether `c` belongs to the class.
    pub fn contains(self, c: char) -> (b: bool)
        ensures
            b == self.has(c),
    {
        match self {
            CharClass::Digit => '0' <= c && c <= '9',
            CharClass::UpperHex => ('0' <= c && c <= '9') || ('A' <= c && c <= 'F'),
            CharClass::Binary => c == '0' || c == '1',
            CharClass::Word => {
                if c <= '\x7f' {
                    ('a' <= c && c <= 'z') || ('A' <= c && c <= 'Z') || ('0' <= c && c <= '9') || c
                        == '_'
                } else {
                    regex_syntax::is_word_character(c)
                }
            },
            CharClass::Blank => c == ' ' || c == '\t' || c == '\n' || c == '\x0c',
            CharClass::NotNewline => c != '\n',
            CharClass::NotQuote => c != '"',
        }
    }
}

/// Where the run of characters of class `k` that starts at `j` ends: the
/// first index from `j` on whose character is not of the class, or the end of
/// `s`.
pub open spec fn run_end(s: Seq<char>, j: int, k: CharClass) -> int
    decreases s.len() - j,
{
    if 0 <= j < s.len() && k.has(s[j]) {
        run_end(s, j + 1, k)
    } else {
        j
    }
}

/// The run that starts at `j` ends at or after `j`, within `s`, holds only
/// characters of the class, and stops at one that is not.
pub proof fn lemma_run_end(s: Seq<char>, j: int, k: CharClass)
    requires
        0 <= j <= s.len(),
    ensures
        j <= run_end(s, j, k) <= s.len(),
        forall|x: int| j <= x < run_end(s, j, k) ==> k.has(#[trigger] s[x]),
        run_end(s, j, k) < s.len() ==> !k.has(s[run_end(s, j, k)]),
    decreases s.len() - j,
{
    if j < s.len() && k.has(s[j]) {
        lemma_run_end(s, j + 1, k);
    }
}

/// A run in a piece of `s` is the run in `s`, cut off where the piece ends.
pub proof fn lemma_run_end_piece(s: Seq<char>, i: int, m: int, j: int, k: CharClass)
    requires
        0 <= i,
        0 <= j <= m,
        i + m <= s.len(),
    ensures
        run_end(s.subrange(i, i + m), j, k) == if run_end(s, i + j, k) <= i + m {
            run_end(s, i + j, k) - i
        } else {
            m
        },
    decreases m - j,
{
    let t = s.subrange(i, i + m);
    lemma_run_end(s, i + j, k);
    if j < m && k.has(t[j]) {
        lemma_run_end_piece(s, i, m, j + 1, k);
    }
}

/// Scans the run of class `k` that starts at `j`.
pub fn scan_run(src: &[char], j: usize, k: CharClass) -> (end: usize)
    requires
        j <= src.len(),
    ensures
        end == run_end(src@, j as int, k),
        j <= end <= src.len(),
{
    let mut end: usize = j;
    proof {
        lemma_run_end(src@, j as int, k);
    }
    while end < src.len() && k.contains(src[end])
        invariant
            j <= end <= src.len(),
            run_end(src@, end as int, k) == run_end(src@, j as int, k),
        decreases src.len() - end,
    {
        end += 1;
    }
    end
}

} // verus!
