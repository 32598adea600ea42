//! The tokenizer: from source text to the tokens in it, each with the bytes
//! that it covers.

pub use super::token::{
    BitwiseOperation,
    CompareOperation,
    FlowKeyword,
    Keyword,
    Operation,
    Punctuation,
    TypeKeyword,
    VisconLexer,
};
use std::ops::Range;
use vstd::prelude::*;
use vstd::string::StringSliceAdditionalSpecFns;
use vstd::utf8::{encode_utf8, is_char_boundary};
use super::classes::{CharClass, is_digit, is_letter, lemma_run_end, run_end, scan_run};
use super::escape::unescape_chars;
use super::grammar::{
    block_close,
    byte_offset,
    emitted,
    escape_code,
    exponent_end,
    integer_token,
    lexeme_at,
    lexeme_len,
    piece_at,
    pieces_from,
    prefixed_string_token,
    source_slice,
    string_close,
    tokens,
    unescape,
    word_token,
};
use super::laws::{in_source_order, lemma_no_comment_token, lemma_tokens_in_source_order};
use super::munch::{
    comment_end,
    lemma_at_apostrophe,
    lemma_at_blank,
    lemma_at_comment,
    lemma_at_digit,
    lemma_at_letter,
    lemma_at_quote,
    lemma_at_symbol,
    word_run_token,
};
use super::numbers::{holds_integer, read_numeral};
use super::pieces::float_end;
use super::scanner::{boolean_at, keyword_at, pair_symbol, single_symbol, triple_symbol};
use super::text::{lemma_byte_offset, offset_after, slice_between, text_of, to_chars};
use super::token::{Lexeme, Token};

verus! {

/// The lexeme that a scan has found: the token that it hands out, or, where
/// it hands out none, text passed over.
pub open spec fn lexeme_of(found: Option<VisconLexer>) -> Lexeme {
    match found {
        Some(t) => Lexeme::Emitted(t@),
        None => Lexeme::Elided,
    }
}

/// The index of the quote that closes the string body starting at `j`.
fn find_string_close(src: &[char], j: usize) -> (close: Option<usize>)
    requires
        j <= src.len(),
    ensures
        match close {
            Some(k) => string_close(src@, j as int) == Some(k as int) && j <= k < src.len(),
            None => string_close(src@, j as int) is None,
        },
{
    let mut k: usize = j;
    while k < src.len()
        invariant
            j <= k <= src.len(),
            string_close(src@, k as int) == string_close(src@, j as int),
        decreases src.len() - k,
    {
        let c = src[k];
        if c == '"' {
            return Some(k);
        } else if c == '\\' {
            if k + 1 < src.len() {
                k += 2;
            } else {
                return None;
            }
        } else {
            k += 1;
        }
    }
    None
}

/// The lexeme at the double quote at `i`.
fn scan_string(src: &[char], i: usize) -> (r: (Option<VisconLexer>, usize))
    requires
        i < src.len(),
        src@[i as int] == '"',
    ensures
        r.1 == lexeme_len(src@, i as int),
        lexeme_of(r.0) == lexeme_at(src@, i as int),
        1 <= r.1 <= src.len() - i,
{
    proof {
        lemma_at_quote(src@, i as int);
    }
    match find_string_close(src, i + 1) {
        Some(k) => {
            let body = unescape_chars(src, i + 1, k);
            let text = text_of(&body, 0, body.len());
            proof {
                assert(body@.subrange(0, body@.len() as int) =~= body@);
            }
            (Some(VisconLexer::StriLiteral(text)), k + 1 - i)
        },
        None => (Some(VisconLexer::Error), 1),
    }
}

/// The one character that the backslash and `c` stand for, or the backslash
/// where they stand for themselves.
fn escape_first(c: char) -> (first: char)
    ensures
        first == escape_code(c)[0],
{
    match c {
        '"' => '"',
        '\'' => '\'',
        'n' => '\n',
        'r' => '\r',
        't' => '\t',
        '0' => '\0',
        _ => '\\',
    }
}

/// The lexeme at the single quote at `i`.
fn scan_char(src: &[char], i: usize) -> (r: (Option<VisconLexer>, usize))
    requires
        i < src.len(),
        src@[i as int] == '\'',
    ensures
        r.1 == lexeme_len(src@, i as int),
        lexeme_of(r.0) == lexeme_at(src@, i as int),
        1 <= r.1 <= src.len() - i,
{
    proof {
        lemma_at_apostrophe(src@, i as int);
    }
    let left = src.len() - i;
    if left > 2 && src[i + 1] != '\\' && src[i + 1] != '"' && src[i + 2] == '\'' {
        (Some(VisconLexer::CharLiteral(src[i + 1])), 3)
    } else if left > 3 && src[i + 1] == '\\' && src[i + 3] == '\'' {
        (Some(VisconLexer::CharLiteral(escape_first(src[i + 2]))), 4)
    } else {
        (Some(VisconLexer::Error), 1)
    }
}

/// The lexeme at the white space at `i`.
fn scan_blank(src: &[char], i: usize) -> (r: (Option<VisconLexer>, usize))
    requires
        i < src.len(),
        CharClass::Blank.has(src@[i as int]),
    ensures
        r.1 == lexeme_len(src@, i as int),
        lexeme_of(r.0) == lexeme_at(src@, i as int),
        1 <= r.1 <= src.len() - i,
{
    proof {
        lemma_at_blank(src@, i as int);
    }
    let end = scan_run(src, i, CharClass::Blank);
    (None, end - i)
}

/// Where the exponent that starts at `j` ends, if one starts there.
fn exponent_at(src: &[char], j: usize) -> (end: Option<usize>)
    requires
        j <= src.len(),
    ensures
        match end {
            Some(e) => exponent_end(src@, j as int) == Some(e as int) && j < e <= src.len(),
            None => exponent_end(src@, j as int) is None,
        },
{
    if j < src.len() && (src[j] == 'e' || src[j] == 'E') {
        let digits = if src.len() - j > 1 && (src[j + 1] == '+' || src[j + 1] == '-') {
            j + 2
        } else {
            j + 1
        };
        let end = scan_run(src, digits, CharClass::Digit);
        if digits < end {
            Some(end)
        } else {
            None
        }
    } else {
        None
    }
}

/// Where the longest float literal that starts at `i` ends, if one starts
/// there; `digits` is where the digits from `i` on end.
fn float_at(src: &[char], i: usize, digits: usize) -> (end: Option<usize>)
    requires
        i < digits <= src.len(),
        digits == run_end(src@, i as int, CharClass::Digit),
    ensures
        match end {
            Some(e) => float_end(src@, i as int) == Some(e as int) && digits < e <= src.len(),
            None => float_end(src@, i as int) is None,
        },
{
    if digits < src.len() && src[digits] == '.' {
        let fraction = scan_run(src, digits + 1, CharClass::Digit);
        match exponent_at(src, fraction) {
            Some(e) => Some(e),
            None => Some(fraction),
        }
    } else {
        exponent_at(src, digits)
    }
}

/// The token for the digits of `src` from `from` up to `to`, read in base
/// `radix` as an unsigned word.
fn word_of(src: &[char], from: usize, to: usize, radix: u64) -> (token: VisconLexer)
    requires
        from <= to <= src.len(),
        forall|x: int| from <= x < to ==> CharClass::UpperHex.has(#[trigger] src@[x]),
        2 <= radix <= 16,
    ensures
        token@ == word_token(src@.subrange(from as int, to as int), radix as int),
{
    match read_numeral(src, from, to, radix, u64::MAX) {
        Some(v) => VisconLexer::WordLiteral(v),
        None => VisconLexer::Error,
    }
}

/// The token for the digits of `src` from `from` up to `to`, read as a signed
/// decimal integer.
fn integer_of(src: &[char], from: usize, to: usize) -> (token: VisconLexer)
    requires
        from <= to <= src.len(),
        forall|x: int| from <= x < to ==> CharClass::UpperHex.has(#[trigger] src@[x]),
    ensures
        token@ == integer_token(src@.subrange(from as int, to as int)),
{
    match read_numeral(src, from, to, 10, 0x7fff_ffff_ffff_ffff) {
        Some(v) => VisconLexer::InteLiteral(v as i64),
        None => VisconLexer::Error,
    }
}

/// The lexeme at the digit at `i`.
fn scan_number(src: &[char], i: usize) -> (r: (Option<VisconLexer>, usize))
    requires
        i < src.len(),
        is_digit(src@[i as int]),
    ensures
        r.1 == lexeme_len(src@, i as int),
        lexeme_of(r.0) == lexeme_at(src@, i as int),
        1 <= r.1 <= src.len() - i,
{
    proof {
        lemma_at_digit(src@, i as int);
        lemma_run_end(src@, i as int, CharClass::Digit);
    }
    let digits = scan_run(src, i, CharClass::Digit);
    if digits < src.len() && src[digits] == 'u' {
        return (Some(word_of(src, i, digits, 10)), digits + 1 - i);
    }
    if src[i] == '0' && src.len() - i > 2 {
        if src[i + 1] == 'x' {
            let end = scan_run(src, i + 2, CharClass::UpperHex);
            if i + 2 < end {
                proof {
                    lemma_run_end(src@, i + 2, CharClass::UpperHex);
                }
                return (Some(word_of(src, i + 2, end, 16)), end - i);
            }
        } else if src[i + 1] == 'b' {
            let end = scan_run(src, i + 2, CharClass::Binary);
            if i + 2 < end {
                proof {
                    lemma_run_end(src@, i + 2, CharClass::Binary);
                }
                return (Some(word_of(src, i + 2, end, 2)), end - i);
            }
        }
    }
    match float_at(src, i, digits) {
        Some(end) => (Some(VisconLexer::FloatLiteral(text_of(src, i, end))), end - i),
        None => (Some(integer_of(src, i, digits)), digits - i),
    }
}

/// The token of the run of word characters of `src` from `i` up to `end`.
fn word_run_of(src: &[char], i: usize, end: usize) -> (token: VisconLexer)
    requires
        i <= end <= src.len(),
    ensures
        token@ == word_run_token(src@.subrange(i as int, end as int)),
{
    match keyword_at(src, i, end - i) {
        Some(k) => VisconLexer::Keyword(k),
        None => match boolean_at(src, i, end - i) {
            Some(b) => VisconLexer::BoolLiteral(b),
            None => VisconLexer::Identifier(text_of(src, i, end)),
        },
    }
}

/// The token of the string literal of the second spelling whose body is
/// `src[from..to]`.
fn prefixed_string_of(src: &[char], from: usize, to: usize) -> (token: VisconLexer)
    requires
        from <= to <= src.len(),
    ensures
        token@ == prefixed_string_token(src@.subrange(from as int, to as int)),
{
    let body = unescape_chars(src, from, to);
    if holds_integer(&body) {
        proof {
            assert(body@.subrange(0, body@.len() as int) =~= body@);
        }
        VisconLexer::StriLiteral(text_of(&body, 0, body.len()))
    } else {
        VisconLexer::Error
    }
}

/// The lexeme at the letter at `i`.
fn scan_name(src: &[char], i: usize) -> (r: (Option<VisconLexer>, usize))
    requires
        i < src.len(),
        is_letter(src@[i as int]),
    ensures
        r.1 == lexeme_len(src@, i as int),
        lexeme_of(r.0) == lexeme_at(src@, i as int),
        1 <= r.1 <= src.len() - i,
{
    proof {
        lemma_at_letter(src@, i as int);
    }
    let left = src.len() - i;
    if src[i] == 'l' && left > 1 {
        if src[i + 1] == '"' {
            let close = scan_run(src, i + 2, CharClass::NotQuote);
            if close < src.len() {
                return (Some(prefixed_string_of(src, i + 2, close)), close + 1 - i);
            }
        } else if left > 3 && src[i + 1] == '\'' && src[i + 2] != '"' && src[i + 3] == '\'' {
            let token = if CharClass::Digit.contains(src[i + 2]) {
                VisconLexer::CharLiteral(src[i + 2])
            } else {
                VisconLexer::Error
            };
            return (Some(token), 4);
        }
    }
    let end = scan_run(src, i + 1, CharClass::Word);
    (Some(word_run_of(src, i, end)), end - i)
}

/// Where the block comment whose body starts at `j` ends, if it is closed.
fn find_block_close(src: &[char], j: usize) -> (close: Option<usize>)
    requires
        j <= src.len(),
    ensures
        match close {
            Some(e) => block_close(src@, j as int) == Some(e as int) && j + 2 <= e <= src.len(),
            None => block_close(src@, j as int) is None,
        },
{
    let mut k: usize = j;
    while src.len() - k > 1
        invariant
            j <= k <= src.len(),
            block_close(src@, k as int) == block_close(src@, j as int),
        decreases src.len() - k,
    {
        if src[k] == '*' && src[k + 1] == '/' {
            return Some(k + 2);
        }
        k += 1;
    }
    None
}

/// Where the comment that starts at `i` ends, if one starts there.
fn comment_at(src: &[char], i: usize) -> (end: Option<usize>)
    requires
        i < src.len(),
    ensures
        match end {
            Some(e) => comment_end(src@, i as int) == Some(e as int),
            None => comment_end(src@, i as int) is None,
        },
{
    if src[i] == '/' && src.len() - i > 1 {
        if src[i + 1] == '/' {
            Some(scan_run(src, i + 2, CharClass::NotNewline))
        } else if src[i + 1] == '*' {
            find_block_close(src, i + 2)
        } else {
            None
        }
    } else {
        None
    }
}

/// The lexeme at `i` where neither a quote, a digit, a letter, white space
/// nor a comment starts there: the longest spelled symbol, or the error token.
fn scan_symbol(src: &[char], i: usize) -> (r: (Option<VisconLexer>, usize))
    requires
        i < src.len(),
        !is_letter(src@[i as int]),
        !is_digit(src@[i as int]),
        !CharClass::Blank.has(src@[i as int]),
        src@[i as int] != '"',
        src@[i as int] != '\'',
        comment_end(src@, i as int) is None,
    ensures
        r.1 == lexeme_len(src@, i as int),
        lexeme_of(r.0) == lexeme_at(src@, i as int),
        1 <= r.1 <= src.len() - i,
{
    proof {
        lemma_at_symbol(src@, i as int);
    }
    let left = src.len() - i;
    let a = src[i];
    if left > 2 {
        proof {
            assert(src@.subrange(i as int, i + 3) =~= seq![a, src@[i + 1], src@[i + 2]]);
        }
        if let Some(token) = triple_symbol(a, src[i + 1], src[i + 2]) {
            return (Some(token), 3);
        }
    }
    if left > 1 {
        proof {
            assert(src@.subrange(i as int, i + 2) =~= seq![a, src@[i + 1]]);
        }
        if let Some(token) = pair_symbol(a, src[i + 1]) {
            return (Some(token), 2);
        }
    }
    proof {
        assert(src@.subrange(i as int, i + 1) =~= seq![a]);
    }
    match single_symbol(a) {
        Some(token) => (Some(token), 1),
        None => (Some(VisconLexer::Error), 1),
    }
}

/// Scans the lexeme that starts at `i`: the token to hand out, if it is one,
/// and the number of characters that it takes.
pub fn next_lexeme(src: &[char], i: usize) -> (r: (Option<VisconLexer>, usize))
    requires
        i < src.len(),
    ensures
        r.1 == lexeme_len(src@, i as int),
        lexeme_of(r.0) == lexeme_at(src@, i as int),
        1 <= r.1 <= src.len() - i,
{
    let c = src[i];
    if c == '"' {
        scan_string(src, i)
    } else if c == '\'' {
        scan_char(src, i)
    } else if CharClass::Digit.contains(c) {
        scan_number(src, i)
    } else if ('a' <= c && c <= 'z') || ('A' <= c && c <= 'Z') {
        scan_name(src, i)
    } else if CharClass::Blank.contains(c) {
        scan_blank(src, i)
    } else {
        match comment_at(src, i) {
            Some(end) => {
                proof {
                    lemma_at_comment(src@, i as int);
                }
                (None, end - i)
            },
            None => scan_symbol(src, i),
        }
    }
}

/// Decodes the body of a literal: `s` without its first `off_b` and its last
/// `off_e` bytes, with each escape pair replaced by what it stands for.
pub fn convert_chars(s: &str, off_b: usize, off_e: usize) -> (text: String)
    requires
        off_b + off_e <= s.spec_bytes().len(),
        is_char_boundary(s.spec_bytes(), off_b as int),
        is_char_boundary(s.spec_bytes(), s.spec_bytes().len() - off_e),
    ensures
        text@ == unescape(source_slice(s@, off_b as int, s.spec_bytes().len() - off_e)),
{
    let size = s.as_bytes().len();
    let body = to_chars(slice_between(s, off_b, size - off_e));
    let out = unescape_chars(&body, 0, body.len());
    proof {
        assert(body@.subrange(0, body@.len() as int) =~= body@);
        assert(out@.subrange(0, out@.len() as int) =~= out@);
    }
    text_of(&out, 0, out.len())
}

/// The value of a sequence of tokens with their spans.
pub open spec fn spanned(out: Seq<(VisconLexer, Range<usize>)>) -> Seq<(Token, int, int)> {
    Seq::new(out.len(), |k: int| (out[k].0@, out[k].1.start as int, out[k].1.end as int))
}

/// Tokenizes the characters `src`: the tokens in them, in order, each with
/// the bytes that it covers in the UTF-8 encoding of `src`.
pub fn tokenize(src: &[char]) -> (out: Vec<(VisconLexer, Range<usize>)>)
    requires
        encode_utf8(src@).len() <= usize::MAX,
    ensures
        spanned(out@) == tokens(src@),
        in_source_order(spanned(out@), 0, encode_utf8(src@).len() as int),
{
    proof {
        lemma_tokens_in_source_order(src@);
    }
    let mut out: Vec<(VisconLexer, Range<usize>)> = Vec::new();
    let mut i: usize = 0;
    let mut at: usize = 0;
    proof {
        lemma_byte_offset(src@, 0);
        assert(spanned(out@) + emitted(pieces_from(src@, 0)) =~= tokens(src@));
    }
    while i < src.len()
        invariant
            i <= src.len(),
            at == byte_offset(src@, i as int),
            encode_utf8(src@).len() <= usize::MAX,
            spanned(out@) + emitted(pieces_from(src@, i as int)) == tokens(src@),
        decreases src.len() - i,
    {
        let (found, n) = next_lexeme(src, i);
        let end = offset_after(src, i, i + n, at);
        proof {
            let piece = piece_at(src@, i as int);
            let rest = pieces_from(src@, i + n);
            let all = pieces_from(src@, i as int);
            assert(all == seq![piece] + rest);
            assert(all.drop_first() =~= rest);
            assert(all[0] == piece);
        }
        let ghost before = out@;
        match found {
            Some(token) => {
                out.push((token, at..end));
                proof {
                    assert(spanned(out@) =~= spanned(before).push((token@, at as int, end as int)));
                    assert(spanned(out@) + emitted(pieces_from(src@, i + n)) =~= spanned(before)
                        + emitted(pieces_from(src@, i as int)));
                }
            },
            None => {},
        }
        i += n;
        at = end;
    }
    proof {
        assert(spanned(out@) + emitted(pieces_from(src@, i as int)) =~= spanned(out@));
    }
    out
}

/// Tokenizes `input_text`: the tokens in it, in order, each with the bytes
/// that it covers in `input_text`. Comments and white space are passed over;
/// what no rule accepts comes out as error tokens, one character each.
pub fn lexically_analyze(input_text: &str) -> (token_list: Vec<(VisconLexer, Range<usize>)>)
    ensures
        spanned(token_list@) == tokens(input_text@),
        in_source_order(spanned(token_list@), 0, input_text.spec_bytes().len() as int),
        forall|k: int| 0 <= k < token_list.len() ==> (#[trigger] token_list[k]).0@ != Token::Comment,
{
    // The bytes of a `str` are counted in a `usize`, so every offset fits.
    let _size = input_text.as_bytes().len();
    let chars = to_chars(input_text);
    let token_list = tokenize(&chars);
    proof {
        assert forall|k: int| 0 <= k < token_list.len() implies (#[trigger] token_list[k]).0@
            != Token::Comment by {
            lemma_no_comment_token(input_text@, k);
            assert(spanned(token_list@)[k].0 == token_list[k].0@);
        }
    }
    token_list
}

} // verus!
