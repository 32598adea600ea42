//! The syntax tree that a parser builds from the tokens: the node types, the
//! span that each node records, and what makes a tree finished.

use logos::Span;
use vstd::prelude::*;
use super::super::parsing::token::Operation;

verus! {

pub type BoxedAst = Box<Ast>;

/// A node of the syntax tree. Every node but `Empty` records first the bytes
/// of the source that it was built from, then what it holds.
pub enum Ast {
    /// No node: the placeholder for a slot that nothing fills yet.
    Empty,
    /// A trait definition: its name and what stands between its braces.
    TraitDef(Span, String, BoxedAst),
    /// A struct definition: its name and its fields, each a name and a type.
    StructDef(Span, String, Vec<(String, BoxedAst)>),
    /// An implementation block: the struct's name, the trait's name where
    /// there is one, and what stands between the braces.
    StructImplementBlock(Span, String, Option<String>, BoxedAst),
    /// A sum type definition: its name and its tags, each a name and the
    /// types of its contents.
    SumDef(Span, String, Vec<(String, Vec<BoxedAst>)>),
    /// A function declaration: its name, its parameters, each a name and a
    /// type, its return type and its body.
    FuncDec(Span, String, Vec<(String, BoxedAst)>, BoxedAst, BoxedAst),
    /// A variable declaration: its name and its type.
    VarDec(Span, String, BoxedAst),
    /// An assignment to a variable: its name and the value.
    VarAssign(Span, String, BoxedAst),
    /// A match statement: what is matched, and the arms, each a pattern and
    /// its code.
    Match(Span, BoxedAst, Vec<(BoxedAst, BoxedAst)>),
    /// An if statement: the condition, the body, and the else part where
    /// there is one.
    If(Span, BoxedAst, BoxedAst, Option<BoxedAst>),
    /// A while loop: the condition and the body.
    While(Span, BoxedAst, BoxedAst),
    /// A for loop with start, condition and step, and its body.
    ForC(Span, (BoxedAst, BoxedAst, BoxedAst), BoxedAst),
    /// A for loop over a collection: the variable and the collection, and
    /// its body.
    ForEach(Span, (BoxedAst, BoxedAst), BoxedAst),
    /// An operator between two values.
    Infix(Span, Operation, BoxedAst, BoxedAst),
    /// An operator before a value.
    Prefix(Span, Operation, BoxedAst),
    /// An operator behind a value.
    Postfix(Span, Operation, BoxedAst),
    /// A literal or an identifier.
    Value(Span, AstValue),
}

/// What a leaf of the tree holds. A float literal is held as its text.
pub enum AstValue {
    StriLit(String),
    CharLit(char),
    InteLit(i64),
    WordLit(u64),
    FloaLit(String),
    Identif(String),
}

/// The span of the placeholder was asked for. The placeholder has none: a
/// tree in which this can happen was not finished by whoever built it.
#[derive(Debug, PartialEq, Eq, Clone, Copy)]
pub struct InvalidSpanAccess;

impl Ast {
    /// The span that the node records; the placeholder records none.
    pub open spec fn span(&self) -> Option<Span> {
        match self {
            Ast::Empty => None,
            Ast::TraitDef(s, _, _) => Some(*s),
            Ast::StructDef(s, _, _) => Some(*s),
            Ast::StructImplementBlock(s, _, _, _) => Some(*s),
            Ast::SumDef(s, _, _) => Some(*s),
            Ast::FuncDec(s, _, _, _, _) => Some(*s),
            Ast::VarDec(s, _, _) => Some(*s),
            Ast::VarAssign(s, _, _) => Some(*s),
            Ast::Match(s, _, _) => Some(*s),
            Ast::If(s, _, _, _) => Some(*s),
            Ast::While(s, _, _) => Some(*s),
            Ast::ForC(s, _, _) => Some(*s),
            Ast::ForEach(s, _, _) => Some(*s),
            Ast::Infix(s, _, _, _) => Some(*s),
            Ast::Prefix(s, _, _) => Some(*s),
            Ast::Postfix(s, _, _) => Some(*s),
            Ast::Value(s, _) => Some(*s),
        }
    }

    /// Whether the tree is finished: neither the node nor anything below it
    /// is the placeholder. Only finished trees go on to later stages.
    pub open spec fn finished(&self) -> bool
        decreases self,
    {
        match self {
            Ast::Empty => false,
            Ast::TraitDef(_, _, body) => body.finished(),
            Ast::StructDef(_, _, fields) => forall|k: int|
                0 <= k < fields.len() ==> (#[trigger] fields[k]).1.finished(),
            Ast::StructImplementBlock(_, _, _, body) => body.finished(),
            Ast::SumDef(_, _, tags) => forall|k: int, j: int|
                0 <= k < tags.len() && 0 <= j < tags[k].1.len() ==> (#[trigger] tags[k].1[j]).finished(),
            Ast::FuncDec(_, _, params, result, body) => {
                &&& forall|k: int| 0 <= k < params.len() ==> (#[trigger] params[k]).1.finished()
                &&& result.finished()
                &&& body.finished()
            },
            Ast::VarDec(_, _, of_type) => of_type.finished(),
            Ast::VarAssign(_, _, value) => value.finished(),
            Ast::Match(_, subject, arms) => {
                &&& subject.finished()
                &&& forall|k: int|
                    0 <= k < arms.len() ==> (#[trigger] arms[k]).0.finished() && arms[k].1.finished()
            },
            Ast::If(_, condition, body, otherwise) => {
                &&& condition.finished()
                &&& body.finished()
                &&& match otherwise {
                    Some(part) => part.finished(),
                    None => true,
                }
            },
            Ast::While(_, condition, body) => condition.finished() && body.finished(),
            Ast::ForC(_, head, body) => {
                &&& head.0.finished()
                &&& head.1.finished()
                &&& head.2.finished()
                &&& body.finished()
            },
            Ast::ForEach(_, head, body) => {
                &&& head.0.finished()
                &&& head.1.finished()
                &&& body.finished()
            },
            Ast::Infix(_, _, left, right) => left.finished() && right.finished(),
            Ast::Prefix(_, _, value) => value.finished(),
            Ast::Postfix(_, _, value) => value.finished(),
            Ast::Value(_, _) => true,
        }
    }

    /// The span of the node, as recorded when it was built. The placeholder
    /// has none, and asking for it is an error of the caller: of a finished
    /// tree the span is always there.
    pub fn get_span(&self) -> (r: Result<Span, InvalidSpanAccess>)
        ensures
            match self.span() {
                Some(s) => r == Ok::<Span, InvalidSpanAccess>(s),
                None => r == Err::<Span, InvalidSpanAccess>(InvalidSpanAccess),
            },
            self.finished() ==> r is Ok,
            r is Err <==> self is Empty,
    {
        match self {
            Ast::TraitDef(s, _, _)
            | Ast::StructDef(s, _, _)
            | Ast::StructImplementBlock(s, _, _, _)
            | Ast::SumDef(s, _, _)
            | Ast::FuncDec(s, _, _, _, _)
            | Ast::VarDec(s, _, _)
            | Ast::VarAssign(s, _, _)
            | Ast::Match(s, _, _)
            | Ast::If(s, _, _, _)
            | Ast::While(s, _, _)
            | Ast::ForC(s, _, _)
            | Ast::ForEach(s, _, _)
            | Ast::Infix(s, _, _, _)
            | Ast::Prefix(s, _, _)
            | Ast::Postfix(s, _, _)
            | Ast::Value(s, _) => Ok(s.start..s.end),
            Ast::Empty => Err(InvalidSpanAccess),
        }
    }
}

/// Asks the placeholder for its span, and returns the error that this gives.
pub fn panic() -> (r: Result<Span, InvalidSpanAccess>)
    ensures
        r == Err::<Span, InvalidSpanAccess>(InvalidSpanAccess),
{
    Ast::Empty.get_span()
}

} // verus!
