use viscon::frontend::parsing::lexer::{
    lexically_analyze, BitwiseOperation, CompareOperation, FlowKeyword, Keyword, Operation,
    Punctuation, TypeKeyword, VisconLexer,
};

fn only(input: &str) -> VisconLexer {
    let mut tokens = lexically_analyze(input);
    assert_eq!(tokens.len(), 1, "{:?}", input);
    let (token, span) = tokens.remove(0);
    assert_eq!(span, 0..input.len());
    token
}

fn kinds(input: &str) -> Vec<VisconLexer> {
    lexically_analyze(input).into_iter().map(|(token, _)| token).collect()
}

#[test]
fn plain_operators() {
    assert_eq!(only(":="), VisconLexer::Operation(Operation::Agn));
    assert_eq!(only("+"), VisconLexer::Operation(Operation::Add));
    assert_eq!(only("-"), VisconLexer::Operation(Operation::Sub));
    assert_eq!(only("*"), VisconLexer::Operation(Operation::Mul));
    assert_eq!(only("/"), VisconLexer::Operation(Operation::Div));
    assert_eq!(only("**"), VisconLexer::Operation(Operation::Exp));
    assert_eq!(only("%"), VisconLexer::Operation(Operation::Mod));
    assert_eq!(only("<:"), VisconLexer::Operation(Operation::Ple));
    assert_eq!(only(":>"), VisconLexer::Operation(Operation::Pri));
}

#[test]
fn bitwise_operators() {
    assert_eq!(only("|"), VisconLexer::Operation(Operation::Btw(BitwiseOperation::Orr)));
    assert_eq!(only("&"), VisconLexer::Operation(Operation::Btw(BitwiseOperation::And)));
    assert_eq!(only("^"), VisconLexer::Operation(Operation::Btw(BitwiseOperation::Xor)));
    assert_eq!(only("<<"), VisconLexer::Operation(Operation::Btw(BitwiseOperation::Lsh)));
    assert_eq!(only(">>"), VisconLexer::Operation(Operation::Btw(BitwiseOperation::Rsh)));
    assert_eq!(only("!"), VisconLexer::Operation(Operation::Btw(BitwiseOperation::Not)));
}

#[test]
fn comparison_operators() {
    assert_eq!(only("=="), VisconLexer::Operation(Operation::Cmp(CompareOperation::Equ)));
    assert_eq!(only("!="), VisconLexer::Operation(Operation::Cmp(CompareOperation::Neq)));
    assert_eq!(only(">"), VisconLexer::Operation(Operation::Cmp(CompareOperation::Gre)));
    assert_eq!(only(">="), VisconLexer::Operation(Operation::Cmp(CompareOperation::Geq)));
    assert_eq!(only("<"), VisconLexer::Operation(Operation::Cmp(CompareOperation::Les)));
    assert_eq!(only("<="), VisconLexer::Operation(Operation::Cmp(CompareOperation::Leq)));
}

#[test]
fn assignment_operators_carry_the_plain_operation() {
    assert_eq!(only("="), VisconLexer::AssignOperation(Operation::Agn));
    assert_eq!(only("+="), VisconLexer::AssignOperation(Operation::Add));
    assert_eq!(only("-="), VisconLexer::AssignOperation(Operation::Sub));
    assert_eq!(only("*="), VisconLexer::AssignOperation(Operation::Mul));
    assert_eq!(only("/="), VisconLexer::AssignOperation(Operation::Div));
    assert_eq!(only("**="), VisconLexer::AssignOperation(Operation::Exp));
    assert_eq!(only("%="), VisconLexer::AssignOperation(Operation::Mod));
    assert_eq!(only("|="), VisconLexer::AssignOperation(Operation::Btw(BitwiseOperation::Orr)));
    assert_eq!(only("&="), VisconLexer::AssignOperation(Operation::Btw(BitwiseOperation::And)));
    assert_eq!(only("^="), VisconLexer::AssignOperation(Operation::Btw(BitwiseOperation::Xor)));
    assert_eq!(only("<<="), VisconLexer::AssignOperation(Operation::Btw(BitwiseOperation::Lsh)));
    assert_eq!(only(">>="), VisconLexer::AssignOperation(Operation::Btw(BitwiseOperation::Rsh)));
}

#[test]
fn punctuation_marks() {
    assert_eq!(only("."), VisconLexer::Punctuation(Punctuation::Period));
    assert_eq!(only(","), VisconLexer::Punctuation(Punctuation::Commaa));
    assert_eq!(only(":"), VisconLexer::Punctuation(Punctuation::Colonn));
    assert_eq!(only("::"), VisconLexer::Punctuation(Punctuation::DubCol));
    assert_eq!(only(";"), VisconLexer::Punctuation(Punctuation::SemCol));
    assert_eq!(only("("), VisconLexer::Punctuation(Punctuation::LParen));
    assert_eq!(only(")"), VisconLexer::Punctuation(Punctuation::RParen));
    assert_eq!(only("["), VisconLexer::Punctuation(Punctuation::LBrack));
    assert_eq!(only("]"), VisconLexer::Punctuation(Punctuation::RBrack));
    assert_eq!(only("{"), VisconLexer::Punctuation(Punctuation::LBrace));
    assert_eq!(only("}"), VisconLexer::Punctuation(Punctuation::RBrace));
}

#[test]
fn keywords() {
    assert_eq!(only("function"), VisconLexer::Keyword(Keyword::FunDec));
    assert_eq!(only("let"), VisconLexer::Keyword(Keyword::VarDec));
    assert_eq!(only("as"), VisconLexer::Keyword(Keyword::AsCast));
    assert_eq!(only("typeof"), VisconLexer::Keyword(Keyword::TypeOf));
    assert_eq!(only("in"), VisconLexer::Keyword(Keyword::LoopIn));
    assert_eq!(only("struct"), VisconLexer::Keyword(Keyword::TypeKeyw(TypeKeyword::Struct)));
    assert_eq!(only("sum"), VisconLexer::Keyword(Keyword::TypeKeyw(TypeKeyword::SumTyp)));
    assert_eq!(only("type"), VisconLexer::Keyword(Keyword::TypeKeyw(TypeKeyword::AliasT)));
    assert_eq!(only("global"), VisconLexer::Keyword(Keyword::TypeKeyw(TypeKeyword::Global)));
    assert_eq!(only("pub"), VisconLexer::Keyword(Keyword::TypeKeyw(TypeKeyword::Public)));
    assert_eq!(only("mut"), VisconLexer::Keyword(Keyword::TypeKeyw(TypeKeyword::Mutabl)));
    assert_eq!(only("if"), VisconLexer::Keyword(Keyword::FlowKeyw(FlowKeyword::If)));
    assert_eq!(only("then"), VisconLexer::Keyword(Keyword::FlowKeyw(FlowKeyword::Then)));
    assert_eq!(only("else"), VisconLexer::Keyword(Keyword::FlowKeyw(FlowKeyword::Else)));
    assert_eq!(only("for"), VisconLexer::Keyword(Keyword::FlowKeyw(FlowKeyword::For)));
    assert_eq!(only("while"), VisconLexer::Keyword(Keyword::FlowKeyw(FlowKeyword::While)));
    assert_eq!(only("match"), VisconLexer::Keyword(Keyword::FlowKeyw(FlowKeyword::Match)));
    assert_eq!(only("continue"), VisconLexer::Keyword(Keyword::FlowKeyw(FlowKeyword::Continue)));
    assert_eq!(only("break"), VisconLexer::Keyword(Keyword::FlowKeyw(FlowKeyword::Break)));
    assert_eq!(only("return"), VisconLexer::Keyword(Keyword::FlowKeyw(FlowKeyword::Return)));
}

#[test]
fn truth_values() {
    assert_eq!(only("true"), VisconLexer::BoolLiteral(true));
    assert_eq!(only("false"), VisconLexer::BoolLiteral(false));
    assert_eq!(only("truex"), VisconLexer::Identifier("truex".to_string()));
    assert_eq!(only("fals"), VisconLexer::Identifier("fals".to_string()));
}

#[test]
fn a_keyword_inside_a_longer_word_is_an_identifier() {
    assert_eq!(only("lets"), VisconLexer::Identifier("lets".to_string()));
    assert_eq!(only("format"), VisconLexer::Identifier("format".to_string()));
    assert_eq!(only("in_"), VisconLexer::Identifier("in_".to_string()));
    assert_eq!(only("if0"), VisconLexer::Identifier("if0".to_string()));
}

#[test]
fn identifiers_start_with_a_letter() {
    assert_eq!(only("a"), VisconLexer::Identifier("a".to_string()));
    assert_eq!(only("Z9_z"), VisconLexer::Identifier("Z9_z".to_string()));
    assert_eq!(
        lexically_analyze("_a"),
        vec![(VisconLexer::Error, 0..1), (VisconLexer::Identifier("a".to_string()), 1..2)]
    );
}

#[test]
fn the_longer_symbol_wins_among_those_that_start_alike() {
    assert_eq!(
        kinds("< <= << <<= <:"),
        vec![
            VisconLexer::Operation(Operation::Cmp(CompareOperation::Les)),
            VisconLexer::Operation(Operation::Cmp(CompareOperation::Leq)),
            VisconLexer::Operation(Operation::Btw(BitwiseOperation::Lsh)),
            VisconLexer::AssignOperation(Operation::Btw(BitwiseOperation::Lsh)),
            VisconLexer::Operation(Operation::Ple),
        ]
    );
    assert_eq!(
        kinds("* ** **="),
        vec![
            VisconLexer::Operation(Operation::Mul),
            VisconLexer::Operation(Operation::Exp),
            VisconLexer::AssignOperation(Operation::Exp),
        ]
    );
    assert_eq!(
        kinds(": :: := :>"),
        vec![
            VisconLexer::Punctuation(Punctuation::Colonn),
            VisconLexer::Punctuation(Punctuation::DubCol),
            VisconLexer::Operation(Operation::Agn),
            VisconLexer::Operation(Operation::Pri),
        ]
    );
}

#[test]
fn symbols_without_space_between_them_split_at_the_longest_match() {
    assert_eq!(
        lexically_analyze("<<<"),
        vec![
            (VisconLexer::Operation(Operation::Btw(BitwiseOperation::Lsh)), 0..2),
            (VisconLexer::Operation(Operation::Cmp(CompareOperation::Les)), 2..3),
        ]
    );
    assert_eq!(
        lexically_analyze("==="),
        vec![
            (VisconLexer::Operation(Operation::Cmp(CompareOperation::Equ)), 0..2),
            (VisconLexer::AssignOperation(Operation::Agn), 2..3),
        ]
    );
    assert_eq!(
        lexically_analyze(":::"),
        vec![
            (VisconLexer::Punctuation(Punctuation::DubCol), 0..2),
            (VisconLexer::Punctuation(Punctuation::Colonn), 2..3),
        ]
    );
}

#[test]
fn what_no_rule_accepts_is_one_error_token_for_each_character() {
    assert_eq!(
        lexically_analyze("@#$"),
        vec![
            (VisconLexer::Error, 0..1),
            (VisconLexer::Error, 1..2),
            (VisconLexer::Error, 2..3),
        ]
    );
    assert_eq!(lexically_analyze("~"), vec![(VisconLexer::Error, 0..1)]);
    assert_eq!(lexically_analyze("\r"), vec![(VisconLexer::Error, 0..1)]);
}

#[test]
fn empty_input_has_no_tokens() {
    assert_eq!(lexically_analyze(""), vec![]);
}
