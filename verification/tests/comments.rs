use viscon::frontend::parsing::lexer::{lexically_analyze, Operation, VisconLexer};

fn name(s: &str) -> VisconLexer {
    VisconLexer::Identifier(s.to_string())
}

#[test]
fn a_line_comment_ends_before_the_line_feed() {
    assert_eq!(lexically_analyze("// only a comment"), vec![]);
    assert_eq!(lexically_analyze("//"), vec![]);
    assert_eq!(lexically_analyze("//\nx"), vec![(name("x"), 3..4)]);
    assert_eq!(
        lexically_analyze("x//y\n//z\nw"),
        vec![(name("x"), 0..1), (name("w"), 9..10)]
    );
}

#[test]
fn a_block_comment_is_passed_over() {
    assert_eq!(lexically_analyze("/* a */"), vec![]);
    assert_eq!(lexically_analyze("/**/"), vec![]);
    assert_eq!(lexically_analyze("/***/"), vec![]);
    assert_eq!(lexically_analyze("/* a\nb */"), vec![]);
    assert_eq!(
        lexically_analyze("a/* b */c"),
        vec![(name("a"), 0..1), (name("c"), 8..9)]
    );
}

#[test]
fn a_block_comment_ends_at_the_first_closing() {
    assert_eq!(
        lexically_analyze("/* a */ b */"),
        vec![
            (name("b"), 8..9),
            (VisconLexer::Operation(Operation::Mul), 10..11),
            (VisconLexer::Operation(Operation::Div), 11..12),
        ]
    );
}

#[test]
fn block_comments_do_not_nest() {
    assert_eq!(
        lexically_analyze("/* /* */ */"),
        vec![
            (VisconLexer::Operation(Operation::Mul), 9..10),
            (VisconLexer::Operation(Operation::Div), 10..11),
        ]
    );
}

#[test]
fn a_block_comment_that_is_not_closed_is_no_comment() {
    assert_eq!(
        lexically_analyze("/* a"),
        vec![
            (VisconLexer::Operation(Operation::Div), 0..1),
            (VisconLexer::Operation(Operation::Mul), 1..2),
            (name("a"), 3..4),
        ]
    );
    assert_eq!(
        lexically_analyze("/*/"),
        vec![
            (VisconLexer::Operation(Operation::Div), 0..1),
            (VisconLexer::Operation(Operation::Mul), 1..2),
            (VisconLexer::Operation(Operation::Div), 2..3),
        ]
    );
}

#[test]
fn slash_forms() {
    assert_eq!(
        lexically_analyze("a / b /= c"),
        vec![
            (name("a"), 0..1),
            (VisconLexer::Operation(Operation::Div), 2..3),
            (name("b"), 4..5),
            (VisconLexer::AssignOperation(Operation::Div), 6..8),
            (name("c"), 9..10),
        ]
    );
}

#[test]
fn white_space_is_passed_over() {
    assert_eq!(lexically_analyze(" \t\n\x0c"), vec![]);
    assert_eq!(
        lexically_analyze("  a\t\tb\n\nc\x0cd "),
        vec![
            (name("a"), 2..3),
            (name("b"), 5..6),
            (name("c"), 8..9),
            (name("d"), 10..11),
        ]
    );
}

#[test]
fn a_carriage_return_is_no_white_space() {
    assert_eq!(
        lexically_analyze("a\r\nb"),
        vec![(name("a"), 0..1), (VisconLexer::Error, 1..2), (name("b"), 3..4)]
    );
}

#[test]
fn a_comment_inside_a_string_is_text() {
    assert_eq!(
        lexically_analyze("\"// no\""),
        vec![(VisconLexer::StriLiteral("// no".to_string()), 0..7)]
    );
}
