//! The token vocabulary: what the tokenizer hands out, and the mathematical
//! value that each token stands for in contracts.

use vstd::prelude::*;

verus! {

#[derive(Debug, PartialEq, Eq, Clone, Copy)]
pub enum CompareOperation {
    Equ,
    Neq,
    Gre,
    Geq,
    Les,
    Leq,
}

#[derive(Debug, PartialEq, Eq, Clone, Copy)]
pub enum BitwiseOperation {
    Orr,
    And,
    Xor,
    Nor,
    Lsh,
    Rsh,
    Not,
}

#[derive(Debug, PartialEq, Eq, Clone, Copy)]
pub enum Operation {
    Agn,
    Add,
    Sub,
    Mul,
    Div,
    Exp,
    Mod,
    Ple,
    Pri,
    Btw(BitwiseOperation),
    Cmp(CompareOperation),
}

#[derive(Debug, PartialEq, Eq, Clone, Copy)]
pub enum Punctuation {
    Period,
    Commaa,
    Colonn,
    DubCol,
    SemCol,
    LParen,
    RParen,
    LBrack,
    RBrack,
    LBrace,
    RBrace,
}

#[derive(Debug, PartialEq, Eq, Clone, Copy)]
pub enum FlowKeyword {
    If,
    Then,
    Else,
    For,
    While,
    Match,
    Break,
    Continue,
    Return,
}

#[derive(Debug, PartialEq, Eq, Clone, Copy)]
pub enum TypeKeyword {
    Struct,
    SumTyp,
    AliasT,
    Global,
    Public,
    Mutabl,
}

#[derive(Debug, PartialEq, Eq, Clone, Copy)]
pub enum Keyword {
    FunDec,
    VarDec,
    AsCast,
    TypeOf,
    LoopIn,
    FlowKeyw(FlowKeyword),
    TypeKeyw(TypeKeyword),
}

/// A token as the tokenizer emits it.
///
/// A float literal carries its text, exactly as written: the grammar fixes
/// which texts are float literals, and turning one into a binary float is
/// left to the caller. `Comment` is part of the vocabulary but never emitted.
#[derive(Debug, PartialEq, Eq)]
pub enum VisconLexer {
    Operation(Operation),
    AssignOperation(Operation),
    Punctuation(Punctuation),
    Keyword(Keyword),
    StriLiteral(String),
    CharLiteral(char),
    InteLiteral(i64),
    WordLiteral(u64),
    FloatLiteral(String),
    BoolLiteral(bool),
    Identifier(String),
    Comment,
    Error,
}

/// The value of a token: the same variants, with texts as character sequences.
pub enum Token {
    Operation(Operation),
    AssignOperation(Operation),
    Punctuation(Punctuation),
    Keyword(Keyword),
    StriLiteral(Seq<char>),
    CharLiteral(char),
    InteLiteral(i64),
    WordLiteral(u64),
    FloatLiteral(Seq<char>),
    BoolLiteral(bool),
    Identifier(Seq<char>),
    Comment,
    Error,
}

impl View for VisconLexer {
    type V = Token;

    open spec fn view(&self) -> Token {
        match self {
            VisconLexer::Operation(op) => Token::Operation(*op),
            VisconLexer::AssignOperation(op) => Token::AssignOperation(*op),
            VisconLexer::Punctuation(p) => Token::Punctuation(*p),
            VisconLexer::Keyword(k) => Token::Keyword(*k),
            VisconLexer::StriLiteral(s) => Token::StriLiteral(s@),
            VisconLexer::CharLiteral(c) => Token::CharLiteral(*c),
            VisconLexer::InteLiteral(v) => Token::InteLiteral(*v),
            VisconLexer::WordLiteral(v) => Token::WordLiteral(*v),
            VisconLexer::FloatLiteral(s) => Token::FloatLiteral(s@),
            VisconLexer::BoolLiteral(b) => Token::BoolLiteral(*b),
            VisconLexer::Identifier(s) => Token::Identifier(s@),
            VisconLexer::Comment => Token::Comment,
            VisconLexer::Error => Token::Error,
        }
    }
}

/// What the tokenizer makes of one stretch of input: a token to hand out, or
/// text that it passes over in silence (a comment, white space).
pub enum Lexeme {
    Emitted(Token),
    Elided,
}

} // verus!
