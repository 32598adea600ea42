//! The longest match, rule by rule: for each character that a lexeme can
//! start with, which rule wins there, with what length and what token.

use vstd::prelude::*;
use super::classes::{CharClass, is_digit, is_letter, lemma_run_end, run_end};
use super::grammar::{
    accepted,
    block_close,
    boolean_spelling,
    digit_value,
    escape_code,
    integer_token,
    is_blank,
    is_block_comment,
    is_identifier,
    is_integer_text,
    is_line_comment,
    keyword_spelling,
    lexeme_at,
    lexeme_len,
    longest_accepted,
    number_token,
    numeral,
    prefixed_string_token,
    quoted_token,
    recognise,
    string_close,
    symbol_token,
    unescape,
    word_token,
};
use super::pieces::{
    float_end,
    lemma_block_close,
    lemma_float_piece,
    lemma_patterns,
    lemma_string_close,
};
use super::token::{Lexeme, Token};

verus! {

/// Where a prefix of `n` characters is accepted and no longer one is, `n` is
/// the length of the longest accepted prefix.
pub proof fn lemma_longest(s: Seq<char>, i: int, n: int, bound: int)
    requires
        0 <= n <= bound,
        n > 0 ==> accepted(s.subrange(i, i + n)),
        forall|m: int| n < m <= bound ==> !accepted(#[trigger] s.subrange(i, i + m)),
    ensures
        longest_accepted(s, i, bound) == n,
    decreases bound,
{
    if bound > n {
        lemma_longest(s, i, n, bound - 1);
    }
}

/// What `lexeme_len` and `lexeme_at` are where the longest accepted prefix
/// has `n` characters and the rule table makes `x` of it.
pub proof fn lemma_lexeme(s: Seq<char>, i: int, n: int, x: Lexeme)
    requires
        0 <= i < s.len(),
        1 <= n <= s.len() - i,
        recognise(s.subrange(i, i + n)) == Some(x),
        forall|m: int| n < m <= s.len() - i ==> !accepted(#[trigger] s.subrange(i, i + m)),
    ensures
        lexeme_len(s, i) == n,
        lexeme_at(s, i) == x,
{
    lemma_longest(s, i, n, s.len() - i);
}

/// What `lexeme_len` and `lexeme_at` are where no prefix is accepted.
pub proof fn lemma_no_lexeme(s: Seq<char>, i: int)
    requires
        0 <= i < s.len(),
        forall|m: int| 0 < m <= s.len() - i ==> !accepted(#[trigger] s.subrange(i, i + m)),
    ensures
        lexeme_len(s, i) == 1,
        lexeme_at(s, i) == Lexeme::Emitted(Token::Error),
{
    lemma_longest(s, i, 0, s.len() - i);
}

/// The characters that a spelled symbol can start with.
pub open spec fn is_symbol_start(c: char) -> bool {
    c == ':' || c == '+' || c == '-' || c == '*' || c == '/' || c == '%' || c == '<' || c == '>'
        || c == '|' || c == '&' || c == '^' || c == '!' || c == '=' || c == '.' || c == ','
        || c == ';' || c == '(' || c == ')' || c == '[' || c == ']' || c == '{' || c == '}'
}

/// Every keyword and both truth values are spelled as identifiers are.
pub proof fn lemma_names_are_identifiers(t: Seq<char>)
    requires
        keyword_spelling(t) is Some || boolean_spelling(t) is Some,
    ensures
        is_identifier(t),
{
    reveal_with_fuel(run_end, 9);
}

/// What the first character of a text says of the rules that can accept it.
pub proof fn lemma_first_char(t: Seq<char>)
    requires
        t.len() >= 1,
    ensures
        symbol_token(t) is Some ==> is_symbol_start(t[0]) && t.len() <= 3,
        quoted_token(t) is Some ==> t[0] == '"' || t[0] == '\'' || t[0] == 'l',
        number_token(t) is Some ==> is_digit(t[0]),
        keyword_spelling(t) is Some || boolean_spelling(t) is Some ==> is_identifier(t),
        is_identifier(t) ==> is_letter(t[0]),
        is_line_comment(t) || is_block_comment(t) ==> t[0] == '/',
        is_blank(t) ==> CharClass::Blank.has(t[0]),
{
    if keyword_spelling(t) is Some || boolean_spelling(t) is Some {
        lemma_names_are_identifiers(t);
    }
}

/// The rules that can accept a piece of `s`, by the character it starts with.
pub proof fn lemma_first_char_piece(s: Seq<char>, i: int, m: int)
    requires
        0 <= i,
        1 <= m,
        i + m <= s.len(),
    ensures
        symbol_token(s.subrange(i, i + m)) is Some ==> is_symbol_start(s[i]) && m <= 3,
        quoted_token(s.subrange(i, i + m)) is Some ==> s[i] == '"' || s[i] == '\'' || s[i] == 'l',
        number_token(s.subrange(i, i + m)) is Some ==> is_digit(s[i]),
        keyword_spelling(s.subrange(i, i + m)) is Some || boolean_spelling(s.subrange(i, i + m))
            is Some ==> is_identifier(s.subrange(i, i + m)),
        is_identifier(s.subrange(i, i + m)) ==> is_letter(s[i]),
        is_line_comment(s.subrange(i, i + m)) || is_block_comment(s.subrange(i, i + m)) ==> s[i]
            == '/',
        is_blank(s.subrange(i, i + m)) ==> CharClass::Blank.has(s[i]),
{
    assert(s.subrange(i, i + m)[0] == s[i]);
    lemma_first_char(s.subrange(i, i + m));
}

/// What the rule table makes of a closed string literal.
proof fn lemma_string_token(s: Seq<char>, i: int, k: int)
    requires
        0 <= i < k < s.len(),
        s[i] == '"',
        string_close(s, i + 1) == Some(k),
    ensures
        recognise(s.subrange(i, k + 1)) == Some(
            Lexeme::Emitted(Token::StriLiteral(unescape(s.subrange(i + 1, k)))),
        ),
{
    let t = s.subrange(i, k + 1);
    lemma_first_char_piece(s, i, k + 1 - i);
    lemma_patterns(s, i, k + 1 - i);
    assert(t.subrange(1, t.len() - 1) =~= s.subrange(i + 1, k));
}

/// At a double quote: a string literal up to the quote that closes it, or,
/// where none closes it, nothing.
pub proof fn lemma_at_quote(s: Seq<char>, i: int)
    requires
        0 <= i < s.len(),
        s[i] == '"',
    ensures
        match string_close(s, i + 1) {
            Some(k) => i < k < s.len() && lexeme_len(s, i) == k + 1 - i && lexeme_at(s, i)
                == Lexeme::Emitted(Token::StriLiteral(unescape(s.subrange(i + 1, k)))),
            None => lexeme_len(s, i) == 1 && lexeme_at(s, i) == Lexeme::Emitted(Token::Error),
        },
{
    lemma_string_close(s, i + 1);
    assert forall|m: int| 0 < m <= s.len() - i implies (accepted(#[trigger] s.subrange(i, i + m))
        <==> string_close(s, i + 1) == Some(i + m - 1)) by {
        lemma_first_char_piece(s, i, m);
        lemma_patterns(s, i, m);
    }
    match string_close(s, i + 1) {
        Some(k) => {
            lemma_string_token(s, i, k);
            lemma_lexeme(
                s,
                i,
                k + 1 - i,
                Lexeme::Emitted(Token::StriLiteral(unescape(s.subrange(i + 1, k)))),
            );
        },
        None => {
            lemma_no_lexeme(s, i);
        },
    }
}

/// Whether a character literal of three characters starts at `i`.
pub open spec fn short_char_at(s: Seq<char>, i: int) -> bool {
    i + 2 < s.len() && s[i] == '\'' && s[i + 1] != '\\' && s[i + 1] != '"' && s[i + 2] == '\''
}

/// Whether a character literal of four characters starts at `i`.
pub open spec fn long_char_at(s: Seq<char>, i: int) -> bool {
    i + 3 < s.len() && s[i] == '\'' && s[i + 1] == '\\' && s[i + 3] == '\''
}

/// What the rule table makes of a character literal.
proof fn lemma_char_token(s: Seq<char>, i: int)
    requires
        0 <= i < s.len(),
        short_char_at(s, i) || long_char_at(s, i),
    ensures
        short_char_at(s, i) ==> recognise(s.subrange(i, i + 3)) == Some(
            Lexeme::Emitted(Token::CharLiteral(s[i + 1])),
        ),
        !short_char_at(s, i) ==> recognise(s.subrange(i, i + 4)) == Some(
            Lexeme::Emitted(Token::CharLiteral(escape_code(s[i + 2])[0])),
        ),
{
    if short_char_at(s, i) {
        let t = s.subrange(i, i + 3);
        lemma_first_char_piece(s, i, 3);
        lemma_patterns(s, i, 3);
        let b = t.subrange(1, 2);
        assert(b.len() == 1 && b[0] == s[i + 1]);
        assert(unescape(b)[0] == s[i + 1]);
    } else {
        let t = s.subrange(i, i + 4);
        lemma_first_char_piece(s, i, 4);
        lemma_patterns(s, i, 4);
        let b = t.subrange(1, 3);
        assert(b.len() == 2 && b[0] == '\\' && b[1] == s[i + 2]);
        assert(unescape(b.skip(2)) =~= Seq::<char>::empty());
        assert(unescape(b)[0] == escape_code(s[i + 2])[0]);
    }
}

/// At a single quote: a character literal of three or of four characters, or
/// nothing.
pub proof fn lemma_at_apostrophe(s: Seq<char>, i: int)
    requires
        0 <= i < s.len(),
        s[i] == '\'',
    ensures
        if short_char_at(s, i) {
            lexeme_len(s, i) == 3 && lexeme_at(s, i) == Lexeme::Emitted(Token::CharLiteral(s[i + 1]))
        } else if long_char_at(s, i) {
            lexeme_len(s, i) == 4 && lexeme_at(s, i) == Lexeme::Emitted(
                Token::CharLiteral(escape_code(s[i + 2])[0]),
            )
        } else {
            lexeme_len(s, i) == 1 && lexeme_at(s, i) == Lexeme::Emitted(Token::Error)
        },
{
    assert forall|m: int| 0 < m <= s.len() - i implies (accepted(#[trigger] s.subrange(i, i + m))
        <==> (m == 3 && short_char_at(s, i)) || (m == 4 && long_char_at(s, i))) by {
        lemma_first_char_piece(s, i, m);
        lemma_patterns(s, i, m);
    }
    if short_char_at(s, i) {
        lemma_char_token(s, i);
        lemma_lexeme(s, i, 3, Lexeme::Emitted(Token::CharLiteral(s[i + 1])));
    } else if long_char_at(s, i) {
        lemma_char_token(s, i);
        lemma_lexeme(s, i, 4, Lexeme::Emitted(Token::CharLiteral(escape_code(s[i + 2])[0])));
    } else {
        lemma_no_lexeme(s, i);
    }
}

/// At white space: all of it, passed over.
pub proof fn lemma_at_blank(s: Seq<char>, i: int)
    requires
        0 <= i < s.len(),
        CharClass::Blank.has(s[i]),
    ensures
        i < run_end(s, i, CharClass::Blank) <= s.len(),
        lexeme_len(s, i) == run_end(s, i, CharClass::Blank) - i,
        lexeme_at(s, i) == Lexeme::Elided,
{
    lemma_run_end(s, i, CharClass::Blank);
    let e = run_end(s, i, CharClass::Blank);
    assert forall|m: int| 0 < m <= s.len() - i implies (accepted(#[trigger] s.subrange(i, i + m))
        <==> i + m <= e) by {
        lemma_first_char_piece(s, i, m);
        lemma_patterns(s, i, m);
    }
    lemma_first_char_piece(s, i, e - i);
    lemma_patterns(s, i, e - i);
    lemma_lexeme(s, i, e - i, Lexeme::Elided);
}

/// Where the longest numeric literal that starts at `i` ends: behind the
/// `u` of a decimal word, behind the digits of a word in base 16 or 2,
/// behind a float literal, or else behind the digits.
pub open spec fn number_end(s: Seq<char>, i: int) -> int {
    let d = run_end(s, i, CharClass::Digit);
    let h = run_end(s, i + 2, CharClass::UpperHex);
    let b = run_end(s, i + 2, CharClass::Binary);
    if d < s.len() && s[d] == 'u' {
        d + 1
    } else if s[i] == '0' && i + 2 < s.len() && s[i + 1] == 'x' && i + 2 < h {
        h
    } else if s[i] == '0' && i + 2 < s.len() && s[i + 1] == 'b' && i + 2 < b {
        b
    } else if float_end(s, i) is Some {
        float_end(s, i).unwrap()
    } else {
        d
    }
}

/// No numeric literal that starts at `i` reaches beyond `number_end`.
proof fn lemma_number_bound(s: Seq<char>, i: int, m: int)
    requires
        0 <= i,
        1 <= m,
        i + m <= s.len(),
        is_digit(s[i]),
        number_token(s.subrange(i, i + m)) is Some,
    ensures
        i + m <= number_end(s, i),
{
    lemma_patterns(s, i, m);
    lemma_float_piece(s, i, m);
    lemma_run_end(s, i, CharClass::Digit);
    if i + 2 <= s.len() {
        lemma_run_end(s, i + 2, CharClass::UpperHex);
        lemma_run_end(s, i + 2, CharClass::Binary);
    }
}

/// The token of the longest numeric literal that starts at `i`, by its
/// form.
pub open spec fn number_at(s: Seq<char>, i: int) -> Token {
    let d = run_end(s, i, CharClass::Digit);
    let h = run_end(s, i + 2, CharClass::UpperHex);
    let b = run_end(s, i + 2, CharClass::Binary);
    if d < s.len() && s[d] == 'u' {
        word_token(s.subrange(i, d), 10)
    } else if s[i] == '0' && i + 2 < s.len() && s[i + 1] == 'x' && i + 2 < h {
        word_token(s.subrange(i + 2, h), 16)
    } else if s[i] == '0' && i + 2 < s.len() && s[i + 1] == 'b' && i + 2 < b {
        word_token(s.subrange(i + 2, b), 2)
    } else if float_end(s, i) is Some {
        Token::FloatLiteral(s.subrange(i, float_end(s, i).unwrap()))
    } else {
        integer_token(s.subrange(i, d))
    }
}

/// The text from `i` to `number_end` is a numeric literal, with the token
/// `number_at`.
proof fn lemma_number_end(s: Seq<char>, i: int)
    requires
        0 <= i < s.len(),
        is_digit(s[i]),
    ensures
        i < number_end(s, i) <= s.len(),
        number_token(s.subrange(i, number_end(s, i))) == Some(number_at(s, i)),
{
    lemma_run_end(s, i, CharClass::Digit);
    if i + 2 <= s.len() {
        lemma_run_end(s, i + 2, CharClass::UpperHex);
        lemma_run_end(s, i + 2, CharClass::Binary);
    }
    lemma_float_piece(s, i, 1);
    let n = number_end(s, i) - i;
    lemma_patterns(s, i, n);
    lemma_float_piece(s, i, n);
    let t = s.subrange(i, i + n);
    let d = run_end(s, i, CharClass::Digit);
    assert(t.subrange(0, n - 1) =~= s.subrange(i, i + n - 1));
    if n >= 2 {
        assert(t.subrange(2, n) =~= s.subrange(i + 2, i + n));
    }
}

/// At a digit: the longest numeric literal.
pub proof fn lemma_at_digit(s: Seq<char>, i: int)
    requires
        0 <= i < s.len(),
        is_digit(s[i]),
    ensures
        i < number_end(s, i) <= s.len(),
        lexeme_len(s, i) == number_end(s, i) - i,
        lexeme_at(s, i) == Lexeme::Emitted(number_at(s, i)),
{
    lemma_number_end(s, i);
    let n = number_end(s, i) - i;
    assert forall|m: int| n < m <= s.len() - i implies !accepted(
        #[trigger] s.subrange(i, i + m),
    ) by {
        lemma_first_char_piece(s, i, m);
        if number_token(s.subrange(i, i + m)) is Some {
            lemma_number_bound(s, i, m);
        }
    }
    lemma_first_char_piece(s, i, n);
    lemma_lexeme(s, i, n, Lexeme::Emitted(number_at(s, i)));
}

/// Whether a string literal of the second spelling starts at `i`.
pub open spec fn prefixed_string_at(s: Seq<char>, i: int) -> bool {
    i + 1 < s.len() && s[i] == 'l' && s[i + 1] == '"' && run_end(s, i + 2, CharClass::NotQuote)
        < s.len()
}

/// Whether a character literal of the second spelling starts at `i`.
pub open spec fn prefixed_char_at(s: Seq<char>, i: int) -> bool {
    i + 3 < s.len() && s[i] == 'l' && s[i + 1] == '\'' && s[i + 2] != '"' && s[i + 3] == '\''
}

/// Where the longest lexeme that starts with the letter at `i` ends: behind
/// a literal of the second spelling, or else behind the word characters.
pub open spec fn name_end(s: Seq<char>, i: int) -> int {
    if prefixed_string_at(s, i) {
        run_end(s, i + 2, CharClass::NotQuote) + 1
    } else if prefixed_char_at(s, i) {
        i + 4
    } else {
        run_end(s, i + 1, CharClass::Word)
    }
}

/// The token of a run of word characters: a keyword, a truth value, or
/// else an identifier.
pub open spec fn word_run_token(t: Seq<char>) -> Token {
    if keyword_spelling(t) is Some {
        Token::Keyword(keyword_spelling(t).unwrap())
    } else if boolean_spelling(t) is Some {
        Token::BoolLiteral(boolean_spelling(t).unwrap())
    } else {
        Token::Identifier(t)
    }
}

/// The token of the longest lexeme that starts with the letter at `i`.
pub open spec fn name_at(s: Seq<char>, i: int) -> Token {
    if prefixed_string_at(s, i) {
        prefixed_string_token(s.subrange(i + 2, run_end(s, i + 2, CharClass::NotQuote)))
    } else if prefixed_char_at(s, i) {
        if is_digit(s[i + 2]) {
            Token::CharLiteral(s[i + 2])
        } else {
            Token::Error
        }
    } else {
        word_run_token(s.subrange(i, run_end(s, i + 1, CharClass::Word)))
    }
}

/// A body of one character stands for that character, and is an integer
/// where the character is a digit.
proof fn lemma_one_character(b: Seq<char>)
    requires
        b.len() == 1,
    ensures
        unescape(b) == seq![b[0]],
        is_integer_text(unescape(b)) <==> is_digit(b[0]),
{
    let u = seq![b[0]];
    assert(unescape(b.skip(1)) =~= Seq::<char>::empty());
    assert(unescape(b) =~= u);
    reveal_with_fuel(run_end, 3);
    if is_digit(b[0]) {
        assert(u.drop_last() =~= Seq::<char>::empty());
        assert(numeral(u, 10) == digit_value(b[0])) by {
            reveal_with_fuel(numeral, 3);
        }
    }
}

/// No lexeme that starts with the letter at `i` reaches beyond `name_end`.
proof fn lemma_name_bound(s: Seq<char>, i: int, m: int)
    requires
        0 <= i,
        1 <= m,
        i + m <= s.len(),
        is_letter(s[i]),
        quoted_token(s.subrange(i, i + m)) is Some || is_identifier(s.subrange(i, i + m)),
    ensures
        i + m <= name_end(s, i),
{
    lemma_patterns(s, i, m);
    lemma_run_end(s, i + 1, CharClass::Word);
    if i + 2 <= s.len() {
        lemma_run_end(s, i + 2, CharClass::NotQuote);
    }
}

/// The text from `i` to `name_end` is a lexeme, with the token `name_at`.
proof fn lemma_name_end(s: Seq<char>, i: int)
    requires
        0 <= i < s.len(),
        is_letter(s[i]),
    ensures
        i < name_end(s, i) <= s.len(),
        recognise(s.subrange(i, name_end(s, i))) == Some(Lexeme::Emitted(name_at(s, i))),
{
    lemma_run_end(s, i + 1, CharClass::Word);
    if i + 2 <= s.len() {
        lemma_run_end(s, i + 2, CharClass::NotQuote);
    }
    let n = name_end(s, i) - i;
    let t = s.subrange(i, i + n);
    lemma_patterns(s, i, n);
    lemma_first_char_piece(s, i, n);
    if prefixed_string_at(s, i) {
        assert(t.subrange(2, n - 1) =~= s.subrange(i + 2, i + n - 1));
    } else if prefixed_char_at(s, i) {
        lemma_one_character(t.subrange(2, 3));
    }
}

/// At a letter: a literal of the second spelling, or else the longest run of
/// word characters, as a keyword, a truth value or an identifier.
pub proof fn lemma_at_letter(s: Seq<char>, i: int)
    requires
        0 <= i < s.len(),
        is_letter(s[i]),
    ensures
        i < name_end(s, i) <= s.len(),
        lexeme_len(s, i) == name_end(s, i) - i,
        lexeme_at(s, i) == Lexeme::Emitted(name_at(s, i)),
{
    lemma_name_end(s, i);
    let n = name_end(s, i) - i;
    assert forall|m: int| n < m <= s.len() - i implies !accepted(
        #[trigger] s.subrange(i, i + m),
    ) by {
        lemma_first_char_piece(s, i, m);
        if quoted_token(s.subrange(i, i + m)) is Some || is_identifier(s.subrange(i, i + m)) {
            lemma_name_bound(s, i, m);
        }
    }
    lemma_lexeme(s, i, n, Lexeme::Emitted(name_at(s, i)));
}

/// Where the comment that starts at `i` ends, if one starts there: a comment
/// to the end of the line, or a block comment that is closed.
pub open spec fn comment_end(s: Seq<char>, i: int) -> Option<int> {
    if i + 1 < s.len() && s[i] == '/' && s[i + 1] == '/' {
        Some(run_end(s, i + 2, CharClass::NotNewline))
    } else if i + 1 < s.len() && s[i] == '/' && s[i + 1] == '*' {
        block_close(s, i + 2)
    } else {
        None
    }
}

/// At the start of a comment: the comment, passed over.
pub proof fn lemma_at_comment(s: Seq<char>, i: int)
    requires
        0 <= i < s.len(),
        comment_end(s, i) is Some,
    ensures
        i + 2 <= comment_end(s, i).unwrap() <= s.len(),
        lexeme_len(s, i) == comment_end(s, i).unwrap() - i,
        lexeme_at(s, i) == Lexeme::Elided,
{
    let e = comment_end(s, i).unwrap();
    lemma_run_end(s, i + 2, CharClass::NotNewline);
    lemma_block_close(s, i + 2);
    assert forall|m: int| e - i < m <= s.len() - i implies !accepted(
        #[trigger] s.subrange(i, i + m),
    ) by {
        lemma_first_char_piece(s, i, m);
        lemma_patterns(s, i, m);
    }
    lemma_first_char_piece(s, i, e - i);
    lemma_patterns(s, i, e - i);
    lemma_lexeme(s, i, e - i, Lexeme::Elided);
}

/// The length of the longest spelled symbol that starts at `i`; 0 where none
/// starts there.
pub open spec fn symbol_len(s: Seq<char>, i: int) -> int {
    if i + 3 <= s.len() && symbol_token(s.subrange(i, i + 3)) is Some {
        3
    } else if i + 2 <= s.len() && symbol_token(s.subrange(i, i + 2)) is Some {
        2
    } else if i + 1 <= s.len() && symbol_token(s.subrange(i, i + 1)) is Some {
        1
    } else {
        0
    }
}

/// At any other character, no comment starting there: the longest spelled
/// symbol, or nothing.
pub proof fn lemma_at_symbol(s: Seq<char>, i: int)
    requires
        0 <= i < s.len(),
        !is_letter(s[i]),
        !is_digit(s[i]),
        !CharClass::Blank.has(s[i]),
        s[i] != '"',
        s[i] != '\'',
        comment_end(s, i) is None,
    ensures
        if symbol_len(s, i) > 0 {
            lexeme_len(s, i) == symbol_len(s, i) && lexeme_at(s, i) == Lexeme::Emitted(
                symbol_token(s.subrange(i, i + symbol_len(s, i))).unwrap(),
            )
        } else {
            lexeme_len(s, i) == 1 && lexeme_at(s, i) == Lexeme::Emitted(Token::Error)
        },
{
    let n = symbol_len(s, i);
    assert forall|m: int| 0 < m <= s.len() - i implies (accepted(#[trigger] s.subrange(i, i + m))
        <==> symbol_token(s.subrange(i, i + m)) is Some && m <= 3) by {
        lemma_first_char_piece(s, i, m);
        lemma_patterns(s, i, m);
        lemma_block_close(s, i + 2);
    }
    if n > 0 {
        lemma_lexeme(s, i, n, Lexeme::Emitted(symbol_token(s.subrange(i, i + n)).unwrap()));
    } else {
        lemma_no_lexeme(s, i);
    }
}

} // verus!
