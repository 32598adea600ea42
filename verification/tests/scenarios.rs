use viscon::frontend::parsing::lexer::{
    lexically_analyze, BitwiseOperation, FlowKeyword, Keyword, Operation, Punctuation,
    TypeKeyword, VisconLexer,
};

fn kinds(input: &str) -> Vec<VisconLexer> {
    lexically_analyze(input).into_iter().map(|(token, _)| token).collect()
}

#[test]
fn longest_match_takes_the_shift_assignment() {
    assert_eq!(
        lexically_analyze("<<="),
        vec![(VisconLexer::AssignOperation(Operation::Btw(BitwiseOperation::Lsh)), 0..3)]
    );
}

#[test]
fn keyword_wins_over_identifier_at_equal_length() {
    assert_eq!(
        lexically_analyze("struct"),
        vec![(VisconLexer::Keyword(Keyword::TypeKeyw(TypeKeyword::Struct)), 0..6)]
    );
    assert_eq!(
        lexically_analyze("structx"),
        vec![(VisconLexer::Identifier("structx".to_string()), 0..7)]
    );
}

#[test]
fn known_escape_is_decoded() {
    assert_eq!(
        lexically_analyze("\"a\\nb\""),
        vec![(VisconLexer::StriLiteral("a\nb".to_string()), 0..6)]
    );
}

#[test]
fn unknown_escape_is_kept() {
    assert_eq!(
        lexically_analyze("\"a\\qb\""),
        vec![(VisconLexer::StriLiteral("a\\qb".to_string()), 0..6)]
    );
}

#[test]
fn numeric_forms_are_told_apart() {
    assert_eq!(kinds("123"), vec![VisconLexer::InteLiteral(123)]);
    assert_eq!(kinds("123u"), vec![VisconLexer::WordLiteral(123)]);
    assert_eq!(kinds("0x1A"), vec![VisconLexer::WordLiteral(26)]);
    assert_eq!(kinds("0b101"), vec![VisconLexer::WordLiteral(5)]);
    assert_eq!(kinds("123."), vec![VisconLexer::FloatLiteral("123.".to_string())]);
    assert_eq!(kinds("123e5"), vec![VisconLexer::FloatLiteral("123e5".to_string())]);
}

#[test]
fn lexing_goes_on_behind_an_error() {
    assert_eq!(
        lexically_analyze("let x @ 5;"),
        vec![
            (VisconLexer::Keyword(Keyword::VarDec), 0..3),
            (VisconLexer::Identifier("x".to_string()), 4..5),
            (VisconLexer::Error, 6..7),
            (VisconLexer::InteLiteral(5), 8..9),
            (VisconLexer::Punctuation(Punctuation::SemCol), 9..10),
        ]
    );
}

#[test]
fn line_comment_is_passed_over() {
    assert_eq!(
        lexically_analyze("a // b\nc"),
        vec![
            (VisconLexer::Identifier("a".to_string()), 0..1),
            (VisconLexer::Identifier("c".to_string()), 7..8),
        ]
    );
}

#[test]
fn flow_keyword_is_recognised() {
    assert_eq!(kinds("while"), vec![VisconLexer::Keyword(Keyword::FlowKeyw(FlowKeyword::While))]);
}
