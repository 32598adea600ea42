use viscon::frontend::parsing::classes::{scan_run, CharClass};
use viscon::frontend::parsing::escape::{push_escape, unescape_chars};
use viscon::frontend::parsing::lexer::{
    convert_chars, next_lexeme, tokenize, FlowKeyword, Keyword, Operation, VisconLexer,
};
use viscon::frontend::parsing::numbers::{digit_of, holds_integer, read_numeral};
use viscon::frontend::parsing::scanner::{
    boolean_at, keyword_at, pair_symbol, single_symbol, spells, triple_symbol,
};
use viscon::frontend::parsing::text::{
    offset_after, slice_between, text_of, to_chars, utf8_width,
};

fn chars(s: &str) -> Vec<char> {
    s.chars().collect()
}

#[test]
fn convert_chars_strips_the_delimiters_and_decodes() {
    assert_eq!(convert_chars("\"a\\nb\"", 1, 1), "a\nb");
    assert_eq!(convert_chars("\"a\\qb\"", 1, 1), "a\\qb");
    assert_eq!(convert_chars("l\"12\"", 2, 1), "12");
    assert_eq!(convert_chars("'\\t'", 1, 1), "\t");
    assert_eq!(convert_chars("\"\"", 1, 1), "");
    assert_eq!(convert_chars("abc", 0, 0), "abc");
    assert_eq!(convert_chars("abc", 3, 0), "");
    assert_eq!(convert_chars("abc", 1, 2), "");
}

#[test]
fn convert_chars_decodes_every_escape() {
    assert_eq!(
        convert_chars("[\\\\ \\\" \\' \\n \\r \\t \\0 \\x]", 1, 1),
        "\\ \" ' \n \r \t \0 \\x"
    );
}

#[test]
fn convert_chars_keeps_a_last_backslash() {
    assert_eq!(convert_chars("l'\\'", 2, 1), "\\");
    assert_eq!(convert_chars("l\"ab\\\"", 2, 1), "ab\\");
}

#[test]
fn convert_chars_counts_its_offsets_in_bytes() {
    assert_eq!(convert_chars("\"h\u{e9}\\n\u{2603}\"", 1, 1), "h\u{e9}\n\u{2603}");
    assert_eq!(convert_chars("\u{e9}ab\u{2603}", 2, 3), "ab");
}

#[test]
fn unescape_chars_decodes_a_range() {
    let src = chars("xx\\n\\\\yy");
    assert_eq!(unescape_chars(&src, 2, 6), chars("\n\\"));
    assert_eq!(unescape_chars(&src, 0, src.len()), chars("xx\n\\yy"));
    assert_eq!(unescape_chars(&src, 3, 3), chars(""));
    assert_eq!(unescape_chars(&src, 2, 3), chars("\\"));
}

#[test]
fn push_escape_appends_what_the_pair_stands_for() {
    let mut out = chars("a");
    push_escape(&mut out, 'n');
    push_escape(&mut out, 'q');
    push_escape(&mut out, '0');
    assert_eq!(out, chars("a\n\\q\0"));
}

#[test]
fn read_numeral_reads_within_the_limit() {
    let src = chars("x1234FFz");
    assert_eq!(read_numeral(&src, 1, 5, 10, u64::MAX), Some(1234));
    assert_eq!(read_numeral(&src, 5, 7, 16, u64::MAX), Some(255));
    assert_eq!(read_numeral(&src, 1, 7, 16, u64::MAX), Some(0x1234FF));
    assert_eq!(read_numeral(&src, 1, 1, 10, u64::MAX), Some(0));
    assert_eq!(read_numeral(&src, 1, 5, 10, 1234), Some(1234));
    assert_eq!(read_numeral(&src, 1, 5, 10, 1233), None);
    let ones = chars("101");
    assert_eq!(read_numeral(&ones, 0, 3, 2, u64::MAX), Some(5));
    assert_eq!(read_numeral(&ones, 0, 3, 2, 4), None);
    assert_eq!(read_numeral(&ones, 0, 3, 2, 0), None);
    assert_eq!(read_numeral(&ones, 1, 2, 2, 0), Some(0));
    assert_eq!(read_numeral(&src, 6, 7, 16, 14), None);
    assert_eq!(read_numeral(&src, 6, 7, 16, 15), Some(15));
}

#[test]
fn read_numeral_at_the_edge_of_64_bits() {
    let max = chars("18446744073709551615");
    let over = chars("18446744073709551616");
    let long = chars("184467440737095516150");
    assert_eq!(read_numeral(&max, 0, max.len(), 10, u64::MAX), Some(u64::MAX));
    assert_eq!(read_numeral(&over, 0, over.len(), 10, u64::MAX), None);
    assert_eq!(read_numeral(&long, 0, long.len(), 10, u64::MAX), None);
}

#[test]
fn digit_values() {
    assert_eq!(digit_of('0'), 0);
    assert_eq!(digit_of('9'), 9);
    assert_eq!(digit_of('A'), 10);
    assert_eq!(digit_of('F'), 15);
}

#[test]
fn holds_integer_follows_the_decimal_form() {
    assert!(holds_integer(&chars("0")));
    assert!(holds_integer(&chars("-0")));
    assert!(holds_integer(&chars("+12")));
    assert!(holds_integer(&chars("9223372036854775807")));
    assert!(holds_integer(&chars("-9223372036854775808")));
    assert!(!holds_integer(&chars("9223372036854775808")));
    assert!(!holds_integer(&chars("+9223372036854775808")));
    assert!(!holds_integer(&chars("-9223372036854775809")));
    assert!(!holds_integer(&chars("")));
    assert!(!holds_integer(&chars("+")));
    assert!(!holds_integer(&chars("-")));
    assert!(!holds_integer(&chars("--1")));
    assert!(!holds_integer(&chars("1 ")));
    assert!(!holds_integer(&chars(" 1")));
    assert!(!holds_integer(&chars("1a")));
    assert!(!holds_integer(&chars("0x1")));
    assert!(!holds_integer(&chars("\u{0663}")));
}

#[test]
fn scan_run_stops_at_the_first_character_outside_the_class() {
    let src = chars("123abc  ");
    assert_eq!(scan_run(&src, 0, CharClass::Digit), 3);
    assert_eq!(scan_run(&src, 3, CharClass::Digit), 3);
    assert_eq!(scan_run(&src, 0, CharClass::Word), 6);
    assert_eq!(scan_run(&src, 6, CharClass::Blank), 8);
    assert_eq!(scan_run(&src, 8, CharClass::Blank), 8);
    assert_eq!(scan_run(&src, 0, CharClass::NotNewline), 8);
}

#[test]
fn spelled_symbols() {
    assert_eq!(single_symbol('+'), Some(VisconLexer::Operation(Operation::Add)));
    assert_eq!(single_symbol('@'), None);
    assert_eq!(single_symbol('a'), None);
    assert_eq!(pair_symbol('+', '='), Some(VisconLexer::AssignOperation(Operation::Add)));
    assert_eq!(pair_symbol('+', '+'), None);
    assert_eq!(pair_symbol('<', '>'), None);
    assert_eq!(triple_symbol('*', '*', '='), Some(VisconLexer::AssignOperation(Operation::Exp)));
    assert_eq!(triple_symbol('<', '<', '<'), None);
    assert_eq!(triple_symbol('=', '=', '='), None);
}

#[test]
fn spelled_words() {
    let src = chars("a while true");
    assert_eq!(keyword_at(&src, 2, 5), Some(Keyword::FlowKeyw(FlowKeyword::While)));
    assert_eq!(keyword_at(&src, 2, 4), None);
    assert_eq!(keyword_at(&src, 8, 4), None);
    assert_eq!(keyword_at(&src, 0, 0), None);
    assert_eq!(boolean_at(&src, 8, 4), Some(true));
    assert_eq!(boolean_at(&src, 2, 5), None);
    assert!(spells(&src, 8, 4, &['t', 'r', 'u', 'e']));
    assert!(!spells(&src, 8, 3, &['t', 'r', 'u', 'e']));
    assert!(!spells(&src, 7, 4, &['t', 'r', 'u', 'e']));
}

#[test]
fn characters_and_bytes() {
    assert_eq!(to_chars("h\u{e9}\u{2603}\u{1f600}"), vec!['h', '\u{e9}', '\u{2603}', '\u{1f600}']);
    assert_eq!(to_chars(""), Vec::<char>::new());
    assert_eq!(utf8_width('h'), 1);
    assert_eq!(utf8_width('\x7f'), 1);
    assert_eq!(utf8_width('\u{80}'), 2);
    assert_eq!(utf8_width('\u{7ff}'), 2);
    assert_eq!(utf8_width('\u{800}'), 3);
    assert_eq!(utf8_width('\u{ffff}'), 3);
    assert_eq!(utf8_width('\u{10000}'), 4);
    assert_eq!(utf8_width('\u{10ffff}'), 4);
    let src = chars("h\u{e9}\u{2603}\u{1f600}!");
    assert_eq!(offset_after(&src, 0, 0, 0), 0);
    assert_eq!(offset_after(&src, 0, 2, 0), 3);
    assert_eq!(offset_after(&src, 2, 4, 3), 10);
    assert_eq!(offset_after(&src, 0, 5, 0), 11);
}

#[test]
fn text_of_copies_a_range() {
    let src = chars("h\u{e9}llo");
    assert_eq!(text_of(&src, 0, 5), "h\u{e9}llo");
    assert_eq!(text_of(&src, 1, 3), "\u{e9}l");
    assert_eq!(text_of(&src, 2, 2), "");
}

#[test]
fn slice_between_cuts_at_byte_offsets() {
    assert_eq!(slice_between("h\u{e9}llo", 1, 3), "\u{e9}");
    assert_eq!(slice_between("h\u{e9}llo", 0, 6), "h\u{e9}llo");
    assert_eq!(slice_between("h\u{e9}llo", 3, 3), "");
}

#[test]
fn next_lexeme_gives_the_token_and_its_length_in_characters() {
    let src = chars("caf\u{e9} /* c */ 12.5");
    assert_eq!(next_lexeme(&src, 0), (Some(VisconLexer::Identifier("caf\u{e9}".to_string())), 4));
    assert_eq!(next_lexeme(&src, 4), (None, 1));
    assert_eq!(next_lexeme(&src, 5), (None, 7));
    assert_eq!(next_lexeme(&src, 13), (Some(VisconLexer::FloatLiteral("12.5".to_string())), 4));
    assert_eq!(next_lexeme(&src, 6), (Some(VisconLexer::Operation(Operation::Mul)), 1));
}

#[test]
fn tokenize_gives_spans_in_bytes() {
    let src = chars("caf\u{e9} /* c */ 12.5");
    assert_eq!(
        tokenize(&src),
        vec![
            (VisconLexer::Identifier("caf\u{e9}".to_string()), 0..5),
            (VisconLexer::FloatLiteral("12.5".to_string()), 14..18),
        ]
    );
}
