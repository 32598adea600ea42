use viscon::frontend::parsing::lexer::Operation;
use viscon::frontend::structures::ast::{Ast, AstValue, InvalidSpanAccess};

fn leaf(at: usize, value: i64) -> Box<Ast> {
    Box::new(Ast::Value(at..at + 1, AstValue::InteLit(value)))
}

#[test]
fn a_node_gives_the_span_it_was_built_with() {
    assert_eq!(Ast::Value(3..9, AstValue::StriLit("x".to_string())).get_span(), Ok(3..9));
    assert_eq!(Ast::Value(0..1, AstValue::CharLit('c')).get_span(), Ok(0..1));
    assert_eq!(Ast::Value(0..2, AstValue::WordLit(7)).get_span(), Ok(0..2));
    assert_eq!(Ast::Value(0..3, AstValue::FloaLit("1.5".to_string())).get_span(), Ok(0..3));
    assert_eq!(Ast::Value(4..5, AstValue::Identif("a".to_string())).get_span(), Ok(4..5));
    assert_eq!(Ast::Infix(0..5, Operation::Add, leaf(0, 1), leaf(4, 2)).get_span(), Ok(0..5));
    assert_eq!(Ast::Prefix(1..3, Operation::Sub, leaf(2, 1)).get_span(), Ok(1..3));
    assert_eq!(Ast::Postfix(1..3, Operation::Mul, leaf(1, 1)).get_span(), Ok(1..3));
}

#[test]
fn every_kind_of_statement_gives_its_span() {
    let name = || "n".to_string();
    assert_eq!(Ast::TraitDef(1..2, name(), leaf(0, 0)).get_span(), Ok(1..2));
    assert_eq!(Ast::StructDef(2..3, name(), vec![(name(), leaf(0, 0))]).get_span(), Ok(2..3));
    assert_eq!(
        Ast::StructImplementBlock(3..4, name(), Some(name()), leaf(0, 0)).get_span(),
        Ok(3..4)
    );
    assert_eq!(Ast::SumDef(4..5, name(), vec![(name(), vec![leaf(0, 0)])]).get_span(), Ok(4..5));
    assert_eq!(
        Ast::FuncDec(5..6, name(), vec![], leaf(0, 0), leaf(1, 0)).get_span(),
        Ok(5..6)
    );
    assert_eq!(Ast::VarDec(6..7, name(), leaf(0, 0)).get_span(), Ok(6..7));
    assert_eq!(Ast::VarAssign(7..8, name(), leaf(0, 0)).get_span(), Ok(7..8));
    assert_eq!(
        Ast::Match(8..9, leaf(0, 0), vec![(leaf(1, 0), leaf(2, 0))]).get_span(),
        Ok(8..9)
    );
    assert_eq!(Ast::If(9..10, leaf(0, 0), leaf(1, 0), None).get_span(), Ok(9..10));
    assert_eq!(Ast::While(10..11, leaf(0, 0), leaf(1, 0)).get_span(), Ok(10..11));
    assert_eq!(
        Ast::ForC(11..12, (leaf(0, 0), leaf(1, 0), leaf(2, 0)), leaf(3, 0)).get_span(),
        Ok(11..12)
    );
    assert_eq!(
        Ast::ForEach(12..13, (leaf(0, 0), leaf(1, 0)), leaf(2, 0)).get_span(),
        Ok(12..13)
    );
}

#[test]
fn a_node_keeps_its_own_span_whatever_it_holds() {
    let inner = Box::new(Ast::Empty);
    assert_eq!(Ast::VarDec(2..8, "v".to_string(), inner).get_span(), Ok(2..8));
}

#[test]
fn the_placeholder_has_no_span() {
    assert_eq!(Ast::Empty.get_span(), Err(InvalidSpanAccess));
}

#[test]
fn asking_the_placeholder_is_the_error() {
    assert_eq!(viscon::frontend::structures::ast::panic(), Err(InvalidSpanAccess));
}
