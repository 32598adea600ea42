//! How the rules read a piece of the input: what the scanning functions of
//! the grammar find in `s.subrange(i, i + m)`, told in terms of `s` itself.

use vstd::prelude::*;
use super::classes::{CharClass, is_digit, is_letter, lemma_run_end, lemma_run_end_piece, run_end};
use super::grammar::{
    block_close,
    exponent_end,
    is_binary_word,
    is_blank,
    is_block_comment,
    is_decimal_word,
    is_float_literal,
    is_hex_word,
    is_identifier,
    is_integer_literal,
    is_line_comment,
    is_prefixed_string,
    is_string_literal,
    string_close,
};

verus! {

/// `found` where it lies before `limit`, moved back by `by`; else nothing.
pub open spec fn found_before(found: Option<int>, limit: int, by: int) -> Option<int> {
    match found {
        Some(k) => if k < limit {
            Some(k - by)
        } else {
            None
        },
        None => None,
    }
}

/// A closing quote lies at or behind the start of the search, and is a quote.
pub proof fn lemma_string_close(s: Seq<char>, j: int)
    ensures
        string_close(s, j) is Some ==> j <= string_close(s, j).unwrap() < s.len() && s[string_close(
            s,
            j,
        ).unwrap()] == '"',
    decreases s.len() - j,
{
    if 0 <= j < s.len() && s[j] != '"' {
        if s[j] == '\\' {
            if j + 1 < s.len() {
                lemma_string_close(s, j + 2);
            }
        } else {
            lemma_string_close(s, j + 1);
        }
    }
}

/// The closing quote of a body in a piece of `s` is that of the body in `s`,
/// if the piece reaches that far.
pub proof fn lemma_string_close_piece(s: Seq<char>, i: int, m: int, j: int)
    requires
        0 <= i,
        0 <= j <= m,
        i + m <= s.len(),
    ensures
        string_close(s.subrange(i, i + m), j) == found_before(string_close(s, i + j), i + m, i),
    decreases m - j,
{
    let t = s.subrange(i, i + m);
    lemma_string_close(s, i + j);
    if j < m && t[j] != '"' {
        if t[j] == '\\' {
            if j + 1 < m {
                lemma_string_close_piece(s, i, m, j + 2);
            } else if j + 1 < s.len() - i {
                lemma_string_close(s, i + j + 2);
            }
        } else {
            lemma_string_close_piece(s, i, m, j + 1);
        }
    }
}

/// The end of a block comment lies at least two behind the start of the
/// search, within `s`, just behind a `*/`.
pub proof fn lemma_block_close(s: Seq<char>, j: int)
    requires
        0 <= j,
    ensures
        block_close(s, j) matches Some(e) ==> j + 2 <= e <= s.len() && s[e - 2] == '*' && s[e - 1]
            == '/',
    decreases s.len() - j,
{
    if j + 1 < s.len() && !(s[j] == '*' && s[j + 1] == '/') {
        lemma_block_close(s, j + 1);
    }
}

/// The end of a block comment in a piece of `s` is its end in `s`, if the
/// piece reaches that far.
pub proof fn lemma_block_close_piece(s: Seq<char>, i: int, m: int, j: int)
    requires
        0 <= i,
        0 <= j <= m,
        i + m <= s.len(),
    ensures
        block_close(s.subrange(i, i + m), j) == found_before(block_close(s, i + j), i + m + 1, i),
    decreases m - j,
{
    let t = s.subrange(i, i + m);
    lemma_block_close(s, i + j);
    if j + 1 < m {
        if !(t[j] == '*' && t[j + 1] == '/') {
            lemma_block_close_piece(s, i, m, j + 1);
        }
    }
}

/// Whether the piece `s.subrange(i, i + m)` is all of one class from its
/// `j`-th character on.
proof fn lemma_run_fills_piece(s: Seq<char>, i: int, m: int, j: int, k: CharClass)
    requires
        0 <= i,
        0 <= j <= m,
        i + m <= s.len(),
    ensures
        run_end(s.subrange(i, i + m), j, k) == m <==> i + m <= run_end(s, i + j, k),
        run_end(s.subrange(i, i + m), j, k) < m ==> run_end(s.subrange(i, i + m), j, k) == run_end(
            s,
            i + j,
            k,
        ) - i,
        j <= run_end(s.subrange(i, i + m), j, k) <= m,
{
    lemma_run_end_piece(s, i, m, j, k);
    lemma_run_end(s, i + j, k);
}

/// Where the longest float literal that starts at `i` ends, if one starts
/// there.
pub open spec fn float_end(s: Seq<char>, i: int) -> Option<int> {
    let d = run_end(s, i, CharClass::Digit);
    if d < s.len() && s[d] == '.' {
        let f = run_end(s, d + 1, CharClass::Digit);
        if exponent_end(s, f) is Some {
            exponent_end(s, f)
        } else {
            Some(f)
        }
    } else {
        exponent_end(s, d)
    }
}

/// An exponent has at least two characters and ends within `s`.
proof fn lemma_exponent_end(s: Seq<char>, j: int)
    requires
        0 <= j,
    ensures
        exponent_end(s, j) matches Some(e) ==> j + 2 <= e <= s.len(),
{
    if j < s.len() && (s[j] == 'e' || s[j] == 'E') {
        if j + 1 < s.len() && (s[j + 1] == '+' || s[j + 1] == '-') {
            lemma_run_end(s, j + 2, CharClass::Digit);
        } else {
            lemma_run_end(s, j + 1, CharClass::Digit);
        }
    }
}

/// An exponent in a piece of `s` that fills the piece to its end is the start
/// of the exponent in `s`.
proof fn lemma_exponent_piece(s: Seq<char>, i: int, m: int, j: int)
    requires
        0 <= i,
        0 <= j <= m,
        i + m <= s.len(),
    ensures
        exponent_end(s.subrange(i, i + m), j) == Some(m) ==> exponent_end(s, i + j) is Some && i
            + m <= exponent_end(s, i + j).unwrap(),
        exponent_end(s, i + j) == Some(i + m) ==> exponent_end(s.subrange(i, i + m), j) == Some(m),
{
    lemma_exponent_end(s, i + j);
    let t = s.subrange(i, i + m);
    if j < m && (t[j] == 'e' || t[j] == 'E') {
        if j + 1 < m {
            assert(t[j + 1] == s[i + j + 1]);
            if t[j + 1] == '+' || t[j + 1] == '-' {
                lemma_run_fills_piece(s, i, m, j + 2, CharClass::Digit);
            } else {
                lemma_run_fills_piece(s, i, m, j + 1, CharClass::Digit);
            }
        } else {
            assert(run_end(t, j + 1, CharClass::Digit) == j + 1);
        }
    }
}

/// A float literal that starts at `i` ends no later than the longest one
/// that starts there, and the longest one is a float literal.
pub proof fn lemma_float_piece(s: Seq<char>, i: int, m: int)
    requires
        0 <= i,
        1 <= m,
        i + m <= s.len(),
    ensures
        is_float_literal(s.subrange(i, i + m)) ==> is_digit(s[i]) && float_end(s, i) is Some && i
            + m <= float_end(s, i).unwrap(),
        is_digit(s[i]) && float_end(s, i) == Some(i + m) ==> is_float_literal(
            s.subrange(i, i + m),
        ),
        is_digit(s[i]) && float_end(s, i) is Some ==> run_end(s, i, CharClass::Digit) < float_end(
            s,
            i,
        ).unwrap() <= s.len(),
{
    let t = s.subrange(i, i + m);
    let d = run_end(s, i, CharClass::Digit);
    lemma_run_fills_piece(s, i, m, 0, CharClass::Digit);
    lemma_run_end(s, i, CharClass::Digit);
    assert(t[0] == s[i]);
    if is_digit(s[i]) {
        assert(d > i);
        if d < s.len() {
            let f = run_end(s, d + 1, CharClass::Digit);
            lemma_run_end(s, d + 1, CharClass::Digit);
            lemma_exponent_end(s, f);
            lemma_exponent_end(s, d);
            if d < i + m {
                assert(t[d - i] == s[d]);
                lemma_run_fills_piece(s, i, m, d + 1 - i, CharClass::Digit);
                lemma_exponent_piece(s, i, m, d - i);
                if f <= i + m {
                    lemma_exponent_piece(s, i, m, f - i);
                }
            }
        }
    }
}

/// Each pattern of the grammar on the piece `s.subrange(i, i + m)`, told in
/// terms of `s`.
pub proof fn lemma_patterns(s: Seq<char>, i: int, m: int)
    requires
        0 <= i,
        1 <= m,
        i + m <= s.len(),
    ensures
        s.subrange(i, i + m).len() == m,
        forall|x: int| 0 <= x < m ==> (#[trigger] s.subrange(i, i + m)[x]) == s[i + x],
        is_string_literal(s.subrange(i, i + m)) <==> s[i] == '"' && string_close(s, i + 1) == Some(
            i + m - 1,
        ),
        is_prefixed_string(s.subrange(i, i + m)) <==> m >= 3 && s[i] == 'l' && s[i + 1] == '"'
            && run_end(s, i + 2, CharClass::NotQuote) == i + m - 1,
        is_integer_literal(s.subrange(i, i + m)) <==> i + m <= run_end(s, i, CharClass::Digit),
        is_decimal_word(s.subrange(i, i + m)) <==> m >= 2 && run_end(s, i, CharClass::Digit) == i
            + m - 1 && s[i + m - 1] == 'u',
        is_hex_word(s.subrange(i, i + m)) <==> m >= 3 && s[i] == '0' && s[i + 1] == 'x' && i + m
            <= run_end(s, i + 2, CharClass::UpperHex),
        is_binary_word(s.subrange(i, i + m)) <==> m >= 3 && s[i] == '0' && s[i + 1] == 'b' && i + m
            <= run_end(s, i + 2, CharClass::Binary),
        is_identifier(s.subrange(i, i + m)) <==> is_letter(s[i]) && i + m <= run_end(
            s,
            i + 1,
            CharClass::Word,
        ),
        is_line_comment(s.subrange(i, i + m)) <==> m >= 2 && s[i] == '/' && s[i + 1] == '/' && i
            + m <= run_end(s, i + 2, CharClass::NotNewline),
        is_block_comment(s.subrange(i, i + m)) <==> m >= 4 && s[i] == '/' && s[i + 1] == '*'
            && block_close(s, i + 2) == Some(i + m),
        is_blank(s.subrange(i, i + m)) <==> i + m <= run_end(s, i, CharClass::Blank),
{
    let t = s.subrange(i, i + m);
    assert(t[0] == s[i]);
    assert(t[m - 1] == s[i + m - 1]);
    lemma_string_close(s, i + 1);
    lemma_string_close_piece(s, i, m, 1);
    lemma_run_fills_piece(s, i, m, 0, CharClass::Digit);
    lemma_run_fills_piece(s, i, m, 0, CharClass::Blank);
    lemma_run_fills_piece(s, i, m, 1, CharClass::Word);
    lemma_run_end(s, i, CharClass::Digit);
    lemma_run_end(s, i, CharClass::Blank);
    if m >= 2 {
        assert(t[1] == s[i + 1]);
        lemma_run_fills_piece(s, i, m, 2, CharClass::NotQuote);
        lemma_run_fills_piece(s, i, m, 2, CharClass::UpperHex);
        lemma_run_fills_piece(s, i, m, 2, CharClass::Binary);
        lemma_run_fills_piece(s, i, m, 2, CharClass::NotNewline);
        lemma_run_end(s, i + 2, CharClass::NotQuote);
        lemma_block_close(s, i + 2);
        lemma_block_close_piece(s, i, m, 2);
    }
}

} // verus!
