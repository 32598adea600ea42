use viscon::frontend::parsing::classes::CharClass;
use viscon::frontend::parsing::lexer::{lexically_analyze, VisconLexer};

fn name(s: &str) -> VisconLexer {
    VisconLexer::Identifier(s.to_string())
}

#[test]
fn spans_count_bytes() {
    assert_eq!(
        lexically_analyze("\"h\u{e9}\" x"),
        vec![(VisconLexer::StriLiteral("h\u{e9}".to_string()), 0..5), (name("x"), 6..7)]
    );
    assert_eq!(
        lexically_analyze("'\u{20ac}' y"),
        vec![(VisconLexer::CharLiteral('\u{20ac}'), 0..5), (name("y"), 6..7)]
    );
}

#[test]
fn an_error_token_is_one_character_whatever_its_width() {
    assert_eq!(lexically_analyze("\u{e9}"), vec![(VisconLexer::Error, 0..2)]);
    assert_eq!(lexically_analyze("\u{2603}"), vec![(VisconLexer::Error, 0..3)]);
    assert_eq!(lexically_analyze("\u{1f600}"), vec![(VisconLexer::Error, 0..4)]);
    assert_eq!(
        lexically_analyze("\u{2603}\u{2603}a"),
        vec![
            (VisconLexer::Error, 0..3),
            (VisconLexer::Error, 3..6),
            (name("a"), 6..7),
        ]
    );
}

#[test]
fn word_characters_beyond_ascii_continue_an_identifier() {
    assert_eq!(lexically_analyze("caf\u{e9}"), vec![(name("caf\u{e9}"), 0..5)]);
    assert_eq!(lexically_analyze("a\u{3b2}1"), vec![(name("a\u{3b2}1"), 0..4)]);
    assert_eq!(lexically_analyze("x\u{0663}"), vec![(name("x\u{0663}"), 0..3)]);
    assert_eq!(lexically_analyze("n\u{0301}"), vec![(name("n\u{0301}"), 0..3)]);
    assert_eq!(lexically_analyze("a\u{203f}b"), vec![(name("a\u{203f}b"), 0..5)]);
}

#[test]
fn other_characters_beyond_ascii_end_an_identifier() {
    assert_eq!(
        lexically_analyze("a\u{2603}b"),
        vec![(name("a"), 0..1), (VisconLexer::Error, 1..4), (name("b"), 4..5)]
    );
    assert_eq!(
        lexically_analyze("a\u{a0}b"),
        vec![(name("a"), 0..1), (VisconLexer::Error, 1..3), (name("b"), 3..4)]
    );
}

#[test]
fn an_identifier_does_not_start_beyond_ascii() {
    assert_eq!(
        lexically_analyze("\u{e9}a"),
        vec![(VisconLexer::Error, 0..2), (name("a"), 2..3)]
    );
}

#[test]
fn a_keyword_followed_by_a_word_character_beyond_ascii_is_an_identifier() {
    assert_eq!(lexically_analyze("let\u{e9}"), vec![(name("let\u{e9}"), 0..5)]);
}

#[test]
fn digits_beyond_ascii_are_no_digits() {
    assert_eq!(
        lexically_analyze("1\u{0663}"),
        vec![(VisconLexer::InteLiteral(1), 0..1), (VisconLexer::Error, 1..3)]
    );
}

#[test]
fn the_word_class() {
    assert!(CharClass::Word.contains('a'));
    assert!(CharClass::Word.contains('Z'));
    assert!(CharClass::Word.contains('0'));
    assert!(CharClass::Word.contains('_'));
    assert!(!CharClass::Word.contains('-'));
    assert!(!CharClass::Word.contains(' '));
    assert!(!CharClass::Word.contains('\x7f'));
    assert!(CharClass::Word.contains('\u{e9}'));
    assert!(CharClass::Word.contains('\u{3b2}'));
    assert!(!CharClass::Word.contains('\u{2603}'));
    assert!(!CharClass::Word.contains('\u{80}'));
}

#[test]
fn the_other_classes() {
    assert!(CharClass::Digit.contains('0') && CharClass::Digit.contains('9'));
    assert!(!CharClass::Digit.contains('a') && !CharClass::Digit.contains('/'));
    assert!(CharClass::UpperHex.contains('A') && CharClass::UpperHex.contains('F'));
    assert!(!CharClass::UpperHex.contains('G') && !CharClass::UpperHex.contains('a'));
    assert!(CharClass::Binary.contains('0') && CharClass::Binary.contains('1'));
    assert!(!CharClass::Binary.contains('2'));
    assert!(CharClass::Blank.contains(' ') && CharClass::Blank.contains('\t'));
    assert!(CharClass::Blank.contains('\n') && CharClass::Blank.contains('\x0c'));
    assert!(!CharClass::Blank.contains('\r') && !CharClass::Blank.contains('\x0b'));
    assert!(CharClass::NotNewline.contains('\r') && !CharClass::NotNewline.contains('\n'));
    assert!(CharClass::NotQuote.contains('\'') && !CharClass::NotQuote.contains('"'));
}
