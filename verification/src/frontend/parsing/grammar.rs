//! The rule table: which texts each rule accepts and what it makes of them,
//! and from that what tokenizing a whole input yields.
//!
//! Nothing here runs: these are the definitions that the contracts of the
//! tokenizer are stated in. A rule is a set of texts; at each position the
//! tokenizer takes the longest prefix of the remaining input that some rule
//! accepts, and among the rules that accept that prefix the one declared
//! first.

use vstd::prelude::*;
use vstd::utf8::{decode_utf8, encode_utf8};
use super::classes::{CharClass, is_letter, run_end};
use super::token::{
    BitwiseOperation,
    CompareOperation,
    FlowKeyword,
    Keyword,
    Lexeme,
    Operation,
    Punctuation,
    Token,
    TypeKeyword,
};

verus! {

/// `t` is the one character `a`.
pub open spec fn is_single(t: Seq<char>, a: char) -> bool {
    t.len() == 1 && t[0] == a
}

/// `t` is the two characters `a`, `b`.
pub open spec fn is_pair(t: Seq<char>, a: char, b: char) -> bool {
    t.len() == 2 && t[0] == a && t[1] == b
}

/// `t` is the three characters `a`, `b`, `c`.
pub open spec fn is_triple(t: Seq<char>, a: char, b: char, c: char) -> bool {
    t.len() == 3 && t[0] == a && t[1] == b && t[2] == c
}

/// The operation that `t` spells, if it is the spelling of a plain operator.
pub open spec fn operator_spelling(t: Seq<char>) -> Option<Operation> {
    if is_pair(t, ':', '=') {
        Some(Operation::Agn)
    } else if is_single(t, '+') {
        Some(Operation::Add)
    } else if is_single(t, '-') {
        Some(Operation::Sub)
    } else if is_single(t, '*') {
        Some(Operation::Mul)
    } else if is_single(t, '/') {
        Some(Operation::Div)
    } else if is_pair(t, '*', '*') {
        Some(Operation::Exp)
    } else if is_single(t, '%') {
        Some(Operation::Mod)
    } else if is_pair(t, '<', ':') {
        Some(Operation::Ple)
    } else if is_pair(t, ':', '>') {
        Some(Operation::Pri)
    } else if is_single(t, '|') {
        Some(Operation::Btw(BitwiseOperation::Orr))
    } else if is_single(t, '&') {
        Some(Operation::Btw(BitwiseOperation::And))
    } else if is_single(t, '^') {
        Some(Operation::Btw(BitwiseOperation::Xor))
    } else if is_pair(t, '<', '<') {
        Some(Operation::Btw(BitwiseOperation::Lsh))
    } else if is_pair(t, '>', '>') {
        Some(Operation::Btw(BitwiseOperation::Rsh))
    } else if is_single(t, '!') {
        Some(Operation::Btw(BitwiseOperation::Not))
    } else if is_pair(t, '=', '=') {
        Some(Operation::Cmp(CompareOperation::Equ))
    } else if is_pair(t, '!', '=') {
        Some(Operation::Cmp(CompareOperation::Neq))
    } else if is_single(t, '>') {
        Some(Operation::Cmp(CompareOperation::Gre))
    } else if is_pair(t, '>', '=') {
        Some(Operation::Cmp(CompareOperation::Geq))
    } else if is_single(t, '<') {
        Some(Operation::Cmp(CompareOperation::Les))
    } else if is_pair(t, '<', '=') {
        Some(Operation::Cmp(CompareOperation::Leq))
    } else {
        None
    }
}

/// The operation that `t` spells, if it is the spelling of an assignment or
/// of an operator combined with assignment.
pub open spec fn assignment_spelling(t: Seq<char>) -> Option<Operation> {
    if is_single(t, '=') {
        Some(Operation::Agn)
    } else if is_pair(t, '+', '=') {
        Some(Operation::Add)
    } else if is_pair(t, '-', '=') {
        Some(Operation::Sub)
    } else if is_pair(t, '*', '=') {
        Some(Operation::Mul)
    } else if is_pair(t, '/', '=') {
        Some(Operation::Div)
    } else if is_triple(t, '*', '*', '=') {
        Some(Operation::Exp)
    } else if is_pair(t, '%', '=') {
        Some(Operation::Mod)
    } else if is_pair(t, '|', '=') {
        Some(Operation::Btw(BitwiseOperation::Orr))
    } else if is_pair(t, '&', '=') {
        Some(Operation::Btw(BitwiseOperation::And))
    } else if is_pair(t, '^', '=') {
        Some(Operation::Btw(BitwiseOperation::Xor))
    } else if is_triple(t, '<', '<', '=') {
        Some(Operation::Btw(BitwiseOperation::Lsh))
    } else if is_triple(t, '>', '>', '=') {
        Some(Operation::Btw(BitwiseOperation::Rsh))
    } else {
        None
    }
}

/// The punctuation mark that `t` spells, if it spells one.
pub open spec fn punctuation_spelling(t: Seq<char>) -> Option<Punctuation> {
    if is_single(t, '.') {
        Some(Punctuation::Period)
    } else if is_single(t, ',') {
        Some(Punctuation::Commaa)
    } else if is_single(t, ':') {
        Some(Punctuation::Colonn)
    } else if is_pair(t, ':', ':') {
        Some(Punctuation::DubCol)
    } else if is_single(t, ';') {
        Some(Punctuation::SemCol)
    } else if is_single(t, '(') {
        Some(Punctuation::LParen)
    } else if is_single(t, ')') {
        Some(Punctuation::RParen)
    } else if is_single(t, '[') {
        Some(Punctuation::LBrack)
    } else if is_single(t, ']') {
        Some(Punctuation::RBrack)
    } else if is_single(t, '{') {
        Some(Punctuation::LBrace)
    } else if is_single(t, '}') {
        Some(Punctuation::RBrace)
    } else {
        None
    }
}

/// The keyword that `t` spells, if it spells one.
pub open spec fn keyword_spelling(t: Seq<char>) -> Option<Keyword> {
    if t == seq!['f', 'u', 'n', 'c', 't', 'i', 'o', 'n'] {
        Some(Keyword::FunDec)
    } else if t == seq!['l', 'e', 't'] {
        Some(Keyword::VarDec)
    } else if t == seq!['a', 's'] {
        Some(Keyword::AsCast)
    } else if t == seq!['t', 'y', 'p', 'e', 'o', 'f'] {
        Some(Keyword::TypeOf)
    } else if t == seq!['i', 'n'] {
        Some(Keyword::LoopIn)
    } else if t == seq!['s', 't', 'r', 'u', 'c', 't'] {
        Some(Keyword::TypeKeyw(TypeKeyword::Struct))
    } else if t == seq!['s', 'u', 'm'] {
        Some(Keyword::TypeKeyw(TypeKeyword::SumTyp))
    } else if t == seq!['t', 'y', 'p', 'e'] {
        Some(Keyword::TypeKeyw(TypeKeyword::AliasT))
    } else if t == seq!['g', 'l', 'o', 'b', 'a', 'l'] {
        Some(Keyword::TypeKeyw(TypeKeyword::Global))
    } else if t == seq!['p', 'u', 'b'] {
        Some(Keyword::TypeKeyw(TypeKeyword::Public))
    } else if t == seq!['m', 'u', 't'] {
        Some(Keyword::TypeKeyw(TypeKeyword::Mutabl))
    } else if t == seq!['i', 'f'] {
        Some(Keyword::FlowKeyw(FlowKeyword::If))
    } else if t == seq!['t', 'h', 'e', 'n'] {
        Some(Keyword::FlowKeyw(FlowKeyword::Then))
    } else if t == seq!['e', 'l', 's', 'e'] {
        Some(Keyword::FlowKeyw(FlowKeyword::Else))
    } else if t == seq!['f', 'o', 'r'] {
        Some(Keyword::FlowKeyw(FlowKeyword::For))
    } else if t == seq!['w', 'h', 'i', 'l', 'e'] {
        Some(Keyword::FlowKeyw(FlowKeyword::While))
    } else if t == seq!['m', 'a', 't', 'c', 'h'] {
        Some(Keyword::FlowKeyw(FlowKeyword::Match))
    } else if t == seq!['c', 'o', 'n', 't', 'i', 'n', 'u', 'e'] {
        Some(Keyword::FlowKeyw(FlowKeyword::Continue))
    } else if t == seq!['b', 'r', 'e', 'a', 'k'] {
        Some(Keyword::FlowKeyw(FlowKeyword::Break))
    } else if t == seq!['r', 'e', 't', 'u', 'r', 'n'] {
        Some(Keyword::FlowKeyw(FlowKeyword::Return))
    } else {
        None
    }
}

/// The truth value that `t` spells, if it spells one.
pub open spec fn boolean_spelling(t: Seq<char>) -> Option<bool> {
    if t == seq!['t', 'r', 'u', 'e'] {
        Some(true)
    } else if t == seq!['f', 'a', 'l', 's', 'e'] {
        Some(false)
    } else {
        None
    }
}

/// Where the string body that starts at `j` meets its closing quote: the
/// index of the first double quote from `j` on that no backslash escapes. A
/// backslash takes the character after it along, whatever that is.
pub open spec fn string_close(s: Seq<char>, j: int) -> Option<int>
    decreases s.len() - j,
{
    if j < 0 || j >= s.len() {
        None
    } else if s[j] == '"' {
        Some(j)
    } else if s[j] == '\\' {
        if j + 1 < s.len() {
            string_close(s, j + 2)
        } else {
            None
        }
    } else {
        string_close(s, j + 1)
    }
}

/// A string literal: a double quote, a body of plain characters and escape
/// pairs, and the double quote that closes it.
pub open spec fn is_string_literal(t: Seq<char>) -> bool {
    t.len() >= 2 && t[0] == '"' && string_close(t, 1) == Some(t.len() - 1)
}

/// A string literal of the second spelling: `l`, a double quote, a body
/// without double quotes, a double quote.
pub open spec fn is_prefixed_string(t: Seq<char>) -> bool {
    t.len() >= 3 && t[0] == 'l' && t[1] == '"' && run_end(t, 2, CharClass::NotQuote) == t.len() - 1
}

/// A character literal: between single quotes, one character that is neither
/// a backslash nor a double quote, or a backslash and any character.
pub open spec fn is_char_literal(t: Seq<char>) -> bool {
    ||| t.len() == 3 && t[0] == '\'' && t[1] != '\\' && t[1] != '"' && t[2] == '\''
    ||| t.len() == 4 && t[0] == '\'' && t[1] == '\\' && t[3] == '\''
}

/// A character literal of the second spelling: `l`, then between single
/// quotes one character that is no double quote. No escape is read here: a
/// backslash is the one character.
pub open spec fn is_prefixed_char(t: Seq<char>) -> bool {
    t.len() == 4 && t[0] == 'l' && t[1] == '\'' && t[2] != '"' && t[3] == '\''
}

/// An integer literal: digits and nothing else.
pub open spec fn is_integer_literal(t: Seq<char>) -> bool {
    t.len() >= 1 && run_end(t, 0, CharClass::Digit) == t.len()
}

/// A word literal in decimal: digits and a closing `u`.
pub open spec fn is_decimal_word(t: Seq<char>) -> bool {
    t.len() >= 2 && run_end(t, 0, CharClass::Digit) == t.len() - 1 && t[t.len() - 1] == 'u'
}

/// A word literal in base 16: `0x` and digits, of the letters only `A` to `F`.
pub open spec fn is_hex_word(t: Seq<char>) -> bool {
    t.len() >= 3 && t[0] == '0' && t[1] == 'x' && run_end(t, 2, CharClass::UpperHex) == t.len()
}

/// A word literal in base 2: `0b` and binary digits.
pub open spec fn is_binary_word(t: Seq<char>) -> bool {
    t.len() >= 3 && t[0] == '0' && t[1] == 'b' && run_end(t, 2, CharClass::Binary) == t.len()
}

/// Where the exponent that starts at `j` ends, if one starts there: `e` or
/// `E`, a sign or none, and as many digits as follow, at least one.
pub open spec fn exponent_end(s: Seq<char>, j: int) -> Option<int> {
    if 0 <= j < s.len() && (s[j] == 'e' || s[j] == 'E') {
        let d = if j + 1 < s.len() && (s[j + 1] == '+' || s[j + 1] == '-') {
            j + 2
        } else {
            j + 1
        };
        if d < run_end(s, d, CharClass::Digit) {
            Some(run_end(s, d, CharClass::Digit))
        } else {
            None
        }
    } else {
        None
    }
}

/// A float literal: digits, then either a point, further digits or none and
/// an exponent or none, or no point and an exponent. Digits alone are no
/// float literal.
pub open spec fn is_float_literal(t: Seq<char>) -> bool {
    let d = run_end(t, 0, CharClass::Digit);
    1 <= d < t.len() && if t[d] == '.' {
        let f = run_end(t, d + 1, CharClass::Digit);
        f == t.len() || exponent_end(t, f) == Some(t.len() as int)
    } else {
        exponent_end(t, d) == Some(t.len() as int)
    }
}

/// An identifier: an ASCII letter, then word characters.
pub open spec fn is_identifier(t: Seq<char>) -> bool {
    t.len() >= 1 && is_letter(t[0]) && run_end(t, 1, CharClass::Word) == t.len()
}

/// A comment to the end of the line: two slashes and whatever follows on the
/// line. The line feed is not part of it.
pub open spec fn is_line_comment(t: Seq<char>) -> bool {
    t.len() >= 2 && t[0] == '/' && t[1] == '/' && run_end(t, 2, CharClass::NotNewline) == t.len()
}

/// Where the block comment whose body starts at `j` ends: just behind the
/// first `*/` from `j` on.
pub open spec fn block_close(s: Seq<char>, j: int) -> Option<int>
    decreases s.len() - j,
{
    if j < 0 || j + 1 >= s.len() {
        None
    } else if s[j] == '*' && s[j + 1] == '/' {
        Some(j + 2)
    } else {
        block_close(s, j + 1)
    }
}

/// A block comment: `/*`, and all up to and with the first `*/` behind it.
/// Block comments do not nest.
pub open spec fn is_block_comment(t: Seq<char>) -> bool {
    t.len() >= 4 && t[0] == '/' && t[1] == '*' && block_close(t, 2) == Some(t.len() as int)
}

/// White space: spaces, tabs, line feeds and form feeds, at least one.
pub open spec fn is_blank(t: Seq<char>) -> bool {
    t.len() >= 1 && run_end(t, 0, CharClass::Blank) == t.len()
}

/// What the backslash and `c` stand for together: one character for each of
/// the known escapes, and the two as they are for any other `c`.
pub open spec fn escape_code(c: char) -> Seq<char> {
    if c == '\\' {
        seq!['\\']
    } else if c == '"' {
        seq!['"']
    } else if c == '\'' {
        seq!['\'']
    } else if c == 'n' {
        seq!['\n']
    } else if c == 'r' {
        seq!['\r']
    } else if c == 't' {
        seq!['\t']
    } else if c == '0' {
        seq!['\0']
    } else {
        seq!['\\', c]
    }
}

/// The text that the literal body `b` stands for: each escape pair replaced
/// by what it stands for, all else as it is. A backslash with nothing behind
/// it stays.
pub open spec fn unescape(b: Seq<char>) -> Seq<char>
    decreases b.len(),
{
    if b.len() == 0 {
        Seq::empty()
    } else if b[0] == '\\' && b.len() >= 2 {
        escape_code(b[1]) + unescape(b.skip(2))
    } else {
        seq![b[0]] + unescape(b.skip(1))
    }
}

/// The value of the digit `c`, for the digits up to `F`.
pub open spec fn digit_value(c: char) -> int {
    if c <= '9' {
        c as int - '0' as int
    } else {
        c as int - 'A' as int + 10
    }
}

/// The number that the digits `t` denote in base `radix`.
pub open spec fn numeral(t: Seq<char>, radix: int) -> int
    decreases t.len(),
{
    if t.len() == 0 {
        0
    } else {
        numeral(t.drop_last(), radix) * radix + digit_value(t.last())
    }
}

/// Whether `b` is a decimal integer of 64 bits: a sign or none, then digits,
/// at least one, that denote a number in range.
pub open spec fn is_integer_text(b: Seq<char>) -> bool {
    let signed = b.len() > 0 && (b[0] == '+' || b[0] == '-');
    let digits = if signed {
        b.skip(1)
    } else {
        b
    };
    &&& digits.len() > 0
    &&& run_end(digits, 0, CharClass::Digit) == digits.len()
    &&& if signed && b[0] == '-' {
        numeral(digits, 10) <= 0x8000_0000_0000_0000
    } else {
        numeral(digits, 10) <= i64::MAX
    }
}

/// The token for the digits `t` read in base `radix` as an unsigned word, or
/// the error token where the number does not fit.
pub open spec fn word_token(t: Seq<char>, radix: int) -> Token {
    if numeral(t, radix) <= u64::MAX {
        Token::WordLiteral(numeral(t, radix) as u64)
    } else {
        Token::Error
    }
}

/// The token for the digits `t` read as a signed decimal integer, or the
/// error token where the number does not fit.
pub open spec fn integer_token(t: Seq<char>) -> Token {
    if numeral(t, 10) <= i64::MAX {
        Token::InteLiteral(numeral(t, 10) as i64)
    } else {
        Token::Error
    }
}

/// The token for a string literal of the second spelling with the body `b`:
/// the text that the body stands for where that text is an integer, else the
/// error token.
pub open spec fn prefixed_string_token(b: Seq<char>) -> Token {
    if is_integer_text(unescape(b)) {
        Token::StriLiteral(unescape(b))
    } else {
        Token::Error
    }
}

/// The token that `t` spells, if it is the spelling of an operator, of an
/// assignment or of a punctuation mark: the tables in that order.
pub open spec fn symbol_token(t: Seq<char>) -> Option<Token> {
    if operator_spelling(t) is Some {
        Some(Token::Operation(operator_spelling(t).unwrap()))
    } else if assignment_spelling(t) is Some {
        Some(Token::AssignOperation(assignment_spelling(t).unwrap()))
    } else if punctuation_spelling(t) is Some {
        Some(Token::Punctuation(punctuation_spelling(t).unwrap()))
    } else {
        None
    }
}

/// The token of `t`, if it is a string or character literal of either
/// spelling: the text or the character that its body stands for. The second
/// spelling is for texts that are numbers, and gives the error token for any
/// other.
pub open spec fn quoted_token(t: Seq<char>) -> Option<Token> {
    let n = t.len() as int;
    if is_string_literal(t) {
        Some(Token::StriLiteral(unescape(t.subrange(1, n - 1))))
    } else if is_prefixed_string(t) {
        Some(prefixed_string_token(t.subrange(2, n - 1)))
    } else if is_char_literal(t) {
        Some(Token::CharLiteral(unescape(t.subrange(1, n - 1))[0]))
    } else if is_prefixed_char(t) {
        Some(prefixed_char_token(t.subrange(2, n - 1)))
    } else {
        None
    }
}

/// The token of `t`, if it is a numeric literal: an integer, a word in one
/// of its three forms, or a float, which keeps its text.
pub open spec fn number_token(t: Seq<char>) -> Option<Token> {
    let n = t.len() as int;
    if is_integer_literal(t) {
        Some(integer_token(t))
    } else if is_decimal_word(t) {
        Some(word_token(t.subrange(0, n - 1), 10))
    } else if is_hex_word(t) {
        Some(word_token(t.subrange(2, n), 16))
    } else if is_binary_word(t) {
        Some(word_token(t.subrange(2, n), 2))
    } else if is_float_literal(t) {
        Some(Token::FloatLiteral(t))
    } else {
        None
    }
}

/// The token for a character literal of the second spelling with the body
/// `b`: the character that the body stands for where the body is an integer,
/// which of one character means a digit, else the error token.
pub open spec fn prefixed_char_token(b: Seq<char>) -> Token {
    if is_integer_text(unescape(b)) {
        Token::CharLiteral(unescape(b)[0])
    } else {
        Token::Error
    }
}

/// What the rule table makes of the text `t` taken whole: the lexeme of the
/// first rule, in the order of declaration, that accepts `t`; `None` where no
/// rule accepts it.
///
/// Operators, assignments, punctuation and keywords come first, then the
/// literals, then identifiers, comments and white space. A literal whose
/// number does not fit its type is accepted and becomes the error token, and
/// so does a literal of the second spelling whose text is no integer.
pub open spec fn recognise(t: Seq<char>) -> Option<Lexeme> {
    if symbol_token(t) is Some {
        Some(Lexeme::Emitted(symbol_token(t).unwrap()))
    } else if keyword_spelling(t) is Some {
        Some(Lexeme::Emitted(Token::Keyword(keyword_spelling(t).unwrap())))
    } else if quoted_token(t) is Some {
        Some(Lexeme::Emitted(quoted_token(t).unwrap()))
    } else if number_token(t) is Some {
        Some(Lexeme::Emitted(number_token(t).unwrap()))
    } else if boolean_spelling(t) is Some {
        Some(Lexeme::Emitted(Token::BoolLiteral(boolean_spelling(t).unwrap())))
    } else if is_identifier(t) {
        Some(Lexeme::Emitted(Token::Identifier(t)))
    } else if is_line_comment(t) || is_block_comment(t) {
        Some(Lexeme::Elided)
    } else if is_blank(t) {
        Some(Lexeme::Elided)
    } else {
        None
    }
}

/// Whether some rule accepts the text `t`.
pub open spec fn accepted(t: Seq<char>) -> bool {
    recognise(t) is Some
}

/// The length of the longest prefix of `s` from `i` on, of at most `n`
/// characters, that some rule accepts; 0 where none is accepted.
pub open spec fn longest_accepted(s: Seq<char>, i: int, n: int) -> int
    decreases n,
{
    if n <= 0 {
        0
    } else if accepted(s.subrange(i, i + n)) {
        n
    } else {
        longest_accepted(s, i, n - 1)
    }
}

/// The length in characters of the lexeme that starts at `i`: that of the
/// longest prefix of what is left of `s` that some rule accepts, or, where
/// none is accepted, one character.
pub open spec fn lexeme_len(s: Seq<char>, i: int) -> int {
    let n = longest_accepted(s, i, s.len() - i);
    if n <= 0 {
        1
    } else {
        n
    }
}

/// The lexeme that starts at `i`: its text as the rule table reads it, or,
/// where no prefix is accepted, the error token for one character.
pub open spec fn lexeme_at(s: Seq<char>, i: int) -> Lexeme {
    let n = longest_accepted(s, i, s.len() - i);
    if n <= 0 {
        Lexeme::Emitted(Token::Error)
    } else {
        recognise(s.subrange(i, i + n)).unwrap()
    }
}

/// The number of bytes that the first `i` characters of `s` take in UTF-8:
/// the byte offset of the character at `i`.
pub open spec fn byte_offset(s: Seq<char>, i: int) -> int {
    encode_utf8(s.take(i)).len() as int
}

/// The text that `s` holds in the bytes from `start` up to `end`, `end` not
/// included.
pub open spec fn source_slice(s: Seq<char>, start: int, end: int) -> Seq<char> {
    decode_utf8(encode_utf8(s).subrange(start, end))
}

/// A lexeme with the bytes it covers, from `start` up to `end`, `end` not
/// included.
pub struct Piece {
    pub lexeme: Lexeme,
    pub start: int,
    pub end: int,
}

/// The lexeme that starts at `i`, with the bytes it covers.
pub open spec fn piece_at(s: Seq<char>, i: int) -> Piece {
    Piece {
        lexeme: lexeme_at(s, i),
        start: byte_offset(s, i),
        end: byte_offset(s, i + lexeme_len(s, i)),
    }
}

/// The lexemes of `s` from the character at `i` on, each taken where the one
/// before ended, to the end of the input.
pub open spec fn pieces_from(s: Seq<char>, i: int) -> Seq<Piece>
    decreases
            (if i < s.len() {
                s.len() - i
            } else {
                0
            }),
{
    if 0 <= i < s.len() {
        seq![piece_at(s, i)] + pieces_from(s, i + lexeme_len(s, i))
    } else {
        Seq::empty()
    }
}

/// The tokens among the pieces `p`, in order, each with its span; what is
/// elided is left out.
pub open spec fn emitted(p: Seq<Piece>) -> Seq<(Token, int, int)>
    decreases p.len(),
{
    if p.len() == 0 {
        Seq::empty()
    } else {
        match p[0].lexeme {
            Lexeme::Emitted(t) => seq![(t, p[0].start, p[0].end)] + emitted(p.drop_first()),
            Lexeme::Elided => emitted(p.drop_first()),
        }
    }
}

/// The tokens of the input `s`, each with the bytes it covers.
pub open spec fn tokens(s: Seq<char>) -> Seq<(Token, int, int)> {
    emitted(pieces_from(s, 0))
}

} // verus!
