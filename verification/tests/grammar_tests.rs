use syntax_highlighter::grammar::{Analyzer, Expression, GrammarError};

fn cv(s: &str) -> Vec<char> {
    s.chars().collect()
}

#[test]
fn minimal_grammar_validates() {
    let a = Analyzer::new("program = \"a\"", "program").unwrap();
    assert!(a.validate().is_ok());
}

#[test]
fn unused_rule_fails_validation() {
    let a = Analyzer::new("program = \"a\"\nfoo = \"b\"", "program").unwrap();
    match a.validate() {
        Err(GrammarError::UnusedRule(n)) => assert_eq!(n, cv("foo")),
        other => panic!("expected an unused-rule failure, got {:?}", other.is_ok()),
    }
}

#[test]
fn undefined_rule_fails_validation() {
    let a = Analyzer::new("program = bar", "program").unwrap();
    match a.validate() {
        Err(GrammarError::InvalidRule(n)) => assert_eq!(n, cv("bar")),
        other => panic!("expected an invalid-rule failure, got {:?}", other.is_ok()),
    }
}

#[test]
fn keyword_rule_with_two_components_fails_validation() {
    let a = Analyzer::new(
        "if_keyword = \"if\" ~ \"stmt\"\nprogram = if_keyword",
        "program",
    )
    .unwrap();
    match a.validate() {
        Err(GrammarError::InvalidKeywordRule(n)) => assert_eq!(n, cv("if_keyword")),
        other => panic!("expected an invalid-keyword-rule failure, got {:?}", other.is_ok()),
    }
}

#[test]
fn keyword_rule_with_one_literal_passes_validation() {
    let a = Analyzer::new("if_keyword = \"if\"\nprogram = if_keyword", "program").unwrap();
    assert!(a.validate().is_ok());
}

#[test]
fn line_without_separator_is_invalid_grammar() {
    match Analyzer::new("program - x", "program") {
        Err(GrammarError::InvalidGrammar(line)) => assert_eq!(line, 1),
        _ => panic!("expected an invalid-grammar failure"),
    }
}

#[test]
fn blank_lines_are_ignored_and_line_numbers_count_them() {
    assert!(Analyzer::new("\nprogram = \"a\"", "program").is_ok());
    match Analyzer::new("program = \"a\"\n\nbroken line", "program") {
        Err(GrammarError::InvalidGrammar(line)) => assert_eq!(line, 3),
        _ => panic!("expected an invalid-grammar failure"),
    }
}

#[test]
fn component_classification() {
    let a = Analyzer::new(
        "program = \"lit\" ~ ASCII_DIGIT ~ other ~ if_keyword\nother = \"x\"\nif_keyword = \"if\"",
        "program",
    )
    .unwrap();
    assert_eq!(a.grammar.len(), 3);
    let alts = &a.grammar[0].alternatives;
    assert_eq!(alts.len(), 1);
    let alt = &alts[0];
    assert_eq!(alt.len(), 4);
    assert!(matches!(&alt[0], Expression::Literal(v) if *v == cv("lit")));
    assert!(matches!(&alt[1], Expression::InternalRuleRef(v) if *v == cv("ASCII_DIGIT")));
    assert!(matches!(&alt[2], Expression::RuleRef(v) if *v == cv("other")));
    assert!(matches!(&alt[3], Expression::KeywordRef(v) if *v == cv("if_keyword")));
}

#[test]
fn alternatives_split_on_bar() {
    let a = Analyzer::new("program = \"a\" | \"b\" ~ \"c\"", "program").unwrap();
    let alts = &a.grammar[0].alternatives;
    assert_eq!(alts.len(), 2);
    assert_eq!(alts[0].len(), 1);
    assert_eq!(alts[1].len(), 2);
}

#[test]
fn duplicate_definition_replaces_the_earlier_one() {
    let a = Analyzer::new("program = \"a\"\nprogram = \"b\"", "program").unwrap();
    assert_eq!(a.grammar.len(), 1);
    assert!(matches!(
        &a.grammar[0].alternatives[0][0],
        Expression::Literal(v) if *v == cv("b")
    ));
}

#[test]
fn invalid_internal_rule_error_message() {
    let e = GrammarError::InvalidInternalRule(cv("NOPE"));
    assert_eq!(Analyzer::describe_error(&e), "Invalid internal rule: NOPE");
    let e2 = GrammarError::InvalidGrammar(7);
    assert_eq!(Analyzer::describe_error(&e2), "Invalid grammar at line 7");
    let e3 = GrammarError::UnusedRule(cv("foo"));
    assert_eq!(Analyzer::describe_error(&e3), "Unused rule: foo");
    let e4 = GrammarError::InvalidRule(cv("bar"));
    assert_eq!(Analyzer::describe_error(&e4), "Invalid rule: bar");
    let e5 = GrammarError::InvalidKeywordRule(cv("k_keyword"));
    assert_eq!(Analyzer::describe_error(&e5), "Invalid keyword rule: k_keyword");
}
