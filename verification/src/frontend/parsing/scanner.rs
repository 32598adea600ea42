//! Recognising the spelled tokens in the input: symbols, keywords and truth
//! values.

use vstd::prelude::*;
use super::grammar::{boolean_spelling, keyword_spelling, symbol_token};
use super::token::{
    BitwiseOperation,
    CompareOperation,
    FlowKeyword,
    Keyword,
    Operation,
    Punctuation,
    Token,
    TypeKeyword,
    VisconLexer,
};

verus! {

/// The value of a token that may be there or not.
pub open spec fn token_of(found: Option<VisconLexer>) -> Option<Token> {
    match found {
        Some(t) => Some(t@),
        None => None,
    }
}

/// The symbol that the one character spells, if any.
pub fn single_symbol(a: char) -> (found: Option<VisconLexer>)
    ensures
        token_of(found) == symbol_token(seq![a]),
{
    match a {
        '+' => Some(VisconLexer::Operation(Operation::Add)),
        '-' => Some(VisconLexer::Operation(Operation::Sub)),
        '*' => Some(VisconLexer::Operation(Operation::Mul)),
        '/' => Some(VisconLexer::Operation(Operation::Div)),
        '%' => Some(VisconLexer::Operation(Operation::Mod)),
        '|' => Some(VisconLexer::Operation(Operation::Btw(BitwiseOperation::Orr))),
        '&' => Some(VisconLexer::Operation(Operation::Btw(BitwiseOperation::And))),
        '^' => Some(VisconLexer::Operation(Operation::Btw(BitwiseOperation::Xor))),
        '!' => Some(VisconLexer::Operation(Operation::Btw(BitwiseOperation::Not))),
        '>' => Some(VisconLexer::Operation(Operation::Cmp(CompareOperation::Gre))),
        '<' => Some(VisconLexer::Operation(Operation::Cmp(CompareOperation::Les))),
        '=' => Some(VisconLexer::AssignOperation(Operation::Agn)),
        '.' => Some(VisconLexer::Punctuation(Punctuation::Period)),
        ',' => Some(VisconLexer::Punctuation(Punctuation::Commaa)),
        ':' => Some(VisconLexer::Punctuation(Punctuation::Colonn)),
        ';' => Some(VisconLexer::Punctuation(Punctuation::SemCol)),
        '(' => Some(VisconLexer::Punctuation(Punctuation::LParen)),
        ')' => Some(VisconLexer::Punctuation(Punctuation::RParen)),
        '[' => Some(VisconLexer::Punctuation(Punctuation::LBrack)),
        ']' => Some(VisconLexer::Punctuation(Punctuation::RBrack)),
        '{' => Some(VisconLexer::Punctuation(Punctuation::LBrace)),
        '}' => Some(VisconLexer::Punctuation(Punctuation::RBrace)),
        _ => None,
    }
}

/// The symbol that the two characters spell, if any.
pub fn pair_symbol(a: char, b: char) -> (found: Option<VisconLexer>)
    ensures
        token_of(found) == symbol_token(seq![a, b]),
{
    match (a, b) {
        (':', '=') => Some(VisconLexer::Operation(Operation::Agn)),
        ('*', '*') => Some(VisconLexer::Operation(Operation::Exp)),
        ('<', ':') => Some(VisconLexer::Operation(Operation::Ple)),
        (':', '>') => Some(VisconLexer::Operation(Operation::Pri)),
        ('<', '<') => Some(VisconLexer::Operation(Operation::Btw(BitwiseOperation::Lsh))),
        ('>', '>') => Some(VisconLexer::Operation(Operation::Btw(BitwiseOperation::Rsh))),
        ('=', '=') => Some(VisconLexer::Operation(Operation::Cmp(CompareOperation::Equ))),
        ('!', '=') => Some(VisconLexer::Operation(Operation::Cmp(CompareOperation::Neq))),
        ('>', '=') => Some(VisconLexer::Operation(Operation::Cmp(CompareOperation::Geq))),
        ('<', '=') => Some(VisconLexer::Operation(Operation::Cmp(CompareOperation::Leq))),
        ('+', '=') => Some(VisconLexer::AssignOperation(Operation::Add)),
        ('-', '=') => Some(VisconLexer::AssignOperation(Operation::Sub)),
        ('*', '=') => Some(VisconLexer::AssignOperation(Operation::Mul)),
        ('/', '=') => Some(VisconLexer::AssignOperation(Operation::Div)),
        ('%', '=') => Some(VisconLexer::AssignOperation(Operation::Mod)),
        ('|', '=') => Some(VisconLexer::AssignOperation(Operation::Btw(BitwiseOperation::Orr))),
        ('&', '=') => Some(VisconLexer::AssignOperation(Operation::Btw(BitwiseOperation::And))),
        ('^', '=') => Some(VisconLexer::AssignOperation(Operation::Btw(BitwiseOperation::Xor))),
        (':', ':') => Some(VisconLexer::Punctuation(Punctuation::DubCol)),
        _ => None,
    }
}

/// The symbol that the three characters spell, if any.
pub fn triple_symbol(a: char, b: char, c: char) -> (found: Option<VisconLexer>)
    ensures
        token_of(found) == symbol_token(seq![a, b, c]),
{
    match (a, b, c) {
        ('*', '*', '=') => Some(VisconLexer::AssignOperation(Operation::Exp)),
        ('<', '<', '=') => Some(
            VisconLexer::AssignOperation(Operation::Btw(BitwiseOperation::Lsh)),
        ),
        ('>', '>', '=') => Some(
            VisconLexer::AssignOperation(Operation::Btw(BitwiseOperation::Rsh)),
        ),
        _ => None,
    }
}

/// Whether the `n` characters of `src` from `i` on are the characters of
/// `word`.
pub fn spells<const N: usize>(src: &[char], i: usize, n: usize, word: &[char; N]) -> (b: bool)
    requires
        i + n <= src.len(),
    ensures
        b == (src@.subrange(i as int, i + n) == word@),
{
    if n != N {
        return false;
    }
    let mut k: usize = 0;
    while k < n
        invariant
            k <= n,
            n == N,
            i + n <= src.len(),
            forall|x: int| 0 <= x < k ==> src@[i + x] == word@[x],
        decreases n - k,
    {
        if src[i + k] != word[k] {
            proof {
                assert(src@.subrange(i as int, i + n)[k as int] != word@[k as int]);
            }
            return false;
        }
        k += 1;
    }
    proof {
        assert(src@.subrange(i as int, i + n) =~= word@);
    }
    true
}

/// The keyword that the `n` characters of `src` from `i` on spell, if any.
pub fn keyword_at(src: &[char], i: usize, n: usize) -> (found: Option<Keyword>)
    requires
        i + n <= src.len(),
    ensures
        found == keyword_spelling(src@.subrange(i as int, i + n)),
{
    let w_function: [char; 8] = ['f', 'u', 'n', 'c', 't', 'i', 'o', 'n'];
    let w_let: [char; 3] = ['l', 'e', 't'];
    let w_as: [char; 2] = ['a', 's'];
    let w_typeof: [char; 6] = ['t', 'y', 'p', 'e', 'o', 'f'];
    let w_in: [char; 2] = ['i', 'n'];
    let w_struct: [char; 6] = ['s', 't', 'r', 'u', 'c', 't'];
    let w_sum: [char; 3] = ['s', 'u', 'm'];
    let w_type: [char; 4] = ['t', 'y', 'p', 'e'];
    let w_global: [char; 6] = ['g', 'l', 'o', 'b', 'a', 'l'];
    let w_pub: [char; 3] = ['p', 'u', 'b'];
    let w_mut: [char; 3] = ['m', 'u', 't'];
    let w_if: [char; 2] = ['i', 'f'];
    let w_then: [char; 4] = ['t', 'h', 'e', 'n'];
    let w_else: [char; 4] = ['e', 'l', 's', 'e'];
    let w_for: [char; 3] = ['f', 'o', 'r'];
    let w_while: [char; 5] = ['w', 'h', 'i', 'l', 'e'];
    let w_match: [char; 5] = ['m', 'a', 't', 'c', 'h'];
    let w_continue: [char; 8] = ['c', 'o', 'n', 't', 'i', 'n', 'u', 'e'];
    let w_break: [char; 5] = ['b', 'r', 'e', 'a', 'k'];
    let w_return: [char; 6] = ['r', 'e', 't', 'u', 'r', 'n'];
    proof {
        assert(w_function@ =~= seq!['f', 'u', 'n', 'c', 't', 'i', 'o', 'n']);
        assert(w_let@ =~= seq!['l', 'e', 't']);
        assert(w_as@ =~= seq!['a', 's']);
        assert(w_typeof@ =~= seq!['t', 'y', 'p', 'e', 'o', 'f']);
        assert(w_in@ =~= seq!['i', 'n']);
        assert(w_struct@ =~= seq!['s', 't', 'r', 'u', 'c', 't']);
        assert(w_sum@ =~= seq!['s', 'u', 'm']);
        assert(w_type@ =~= seq!['t', 'y', 'p', 'e']);
        assert(w_global@ =~= seq!['g', 'l', 'o', 'b', 'a', 'l']);
        assert(w_pub@ =~= seq!['p', 'u', 'b']);
        assert(w_mut@ =~= seq!['m', 'u', 't']);
        assert(w_if@ =~= seq!['i', 'f']);
        assert(w_then@ =~= seq!['t', 'h', 'e', 'n']);
        assert(w_else@ =~= seq!['e', 'l', 's', 'e']);
        assert(w_for@ =~= seq!['f', 'o', 'r']);
        assert(w_while@ =~= seq!['w', 'h', 'i', 'l', 'e']);
        assert(w_match@ =~= seq!['m', 'a', 't', 'c', 'h']);
        assert(w_continue@ =~= seq!['c', 'o', 'n', 't', 'i', 'n', 'u', 'e']);
        assert(w_break@ =~= seq!['b', 'r', 'e', 'a', 'k']);
        assert(w_return@ =~= seq!['r', 'e', 't', 'u', 'r', 'n']);
    }
    if spells(src, i, n, &w_function) {
        Some(Keyword::FunDec)
    } else if spells(src, i, n, &w_let) {
        Some(Keyword::VarDec)
    } else if spells(src, i, n, &w_as) {
        Some(Keyword::AsCast)
    } else if spells(src, i, n, &w_typeof) {
        Some(Keyword::TypeOf)
    } else if spells(src, i, n, &w_in) {
        Some(Keyword::LoopIn)
    } else if spells(src, i, n, &w_struct) {
        Some(Keyword::TypeKeyw(TypeKeyword::Struct))
    } else if spells(src, i, n, &w_sum) {
        Some(Keyword::TypeKeyw(TypeKeyword::SumTyp))
    } else if spells(src, i, n, &w_type) {
        Some(Keyword::TypeKeyw(TypeKeyword::AliasT))
    } else if spells(src, i, n, &w_global) {
        Some(Keyword::TypeKeyw(TypeKeyword::Global))
    } else if spells(src, i, n, &w_pub) {
        Some(Keyword::TypeKeyw(TypeKeyword::Public))
    } else if spells(src, i, n, &w_mut) {
        Some(Keyword::TypeKeyw(TypeKeyword::Mutabl))
    } else if spells(src, i, n, &w_if) {
        Some(Keyword::FlowKeyw(FlowKeyword::If))
    } else if spells(src, i, n, &w_then) {
        Some(Keyword::FlowKeyw(FlowKeyword::Then))
    } else if spells(src, i, n, &w_else) {
        Some(Keyword::FlowKeyw(FlowKeyword::Else))
    } else if spells(src, i, n, &w_for) {
        Some(Keyword::FlowKeyw(FlowKeyword::For))
    } else if spells(src, i, n, &w_while) {
        Some(Keyword::FlowKeyw(FlowKeyword::While))
    } else if spells(src, i, n, &w_match) {
        Some(Keyword::FlowKeyw(FlowKeyword::Match))
    } else if spells(src, i, n, &w_continue) {
        Some(Keyword::FlowKeyw(FlowKeyword::Continue))
    } else if spells(src, i, n, &w_break) {
        Some(Keyword::FlowKeyw(FlowKeyword::Break))
    } else if spells(src, i, n, &w_return) {
        Some(Keyword::FlowKeyw(FlowKeyword::Return))
    } else {
        None
    }
}

/// The truth value that the `n` characters of `src` from `i` on spell, if
/// any.
pub fn boolean_at(src: &[char], i: usize, n: usize) -> (found: Option<bool>)
    requires
        i + n <= src.len(),
    ensures
        found == boolean_spelling(src@.subrange(i as int, i + n)),
{
    let w_true: [char; 4] = ['t', 'r', 'u', 'e'];
    let w_false: [char; 5] = ['f', 'a', 'l', 's', 'e'];
    proof {
        assert(w_true@ =~= seq!['t', 'r', 'u', 'e']);
        assert(w_false@ =~= seq!['f', 'a', 'l', 's', 'e']);
    }
    if spells(src, i, n, &w_true) {
        Some(true)
    } else if spells(src, i, n, &w_false) {
        Some(false)
    } else {
        None
    }
}

} // verus!
