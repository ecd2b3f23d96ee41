use syntax_highlighter::engine::Token;
use syntax_highlighter::grammar::Analyzer;
use syntax_highlighter::parsed::Chunk;

fn cv(s: &str) -> Vec<char> {
    s.chars().collect()
}

fn units(root: &Token) -> &Vec<Token> {
    root.children.as_ref().expect("the root is always interior")
}

#[test]
fn minimal_grammar_parses_one_unit() {
    let a = Analyzer::new("program = \"a\"", "program").unwrap();
    assert!(a.validate().is_ok());
    let parsed = a.parse("a");
    assert!(parsed.errors.is_empty());
    assert_eq!(parsed.token.rule, cv("root"));
    assert_eq!((parsed.token.start, parsed.token.end), (0, 1));
    let us = units(&parsed.token);
    assert_eq!(us.len(), 1);
    assert_eq!(us[0].rule, cv("program"));
    assert_eq!((us[0].start, us[0].end), (0, 1));
}

#[test]
fn digit_run_is_matched_greedily_and_scan_resumes_after_it() {
    let a = Analyzer::new("program = ASCII_DIGIT", "program").unwrap();
    assert!(a.validate().is_ok());
    let parsed = a.parse("123abc");
    let us = units(&parsed.token);
    // The first unit matches exactly "123".
    assert_eq!(us[0].rule, cv("program"));
    assert_eq!((us[0].start, us[0].end), (0, 3));
    let c = Chunk { input: &parsed.input, token: &us[0] };
    assert_eq!(c.value(), "123");
    // Resynchronization swallowed the character after the unit as a
    // synthetic unknown child, and the scan resumed against "abc".
    let kids = us[0].children.as_ref().unwrap();
    let last = kids.last().unwrap();
    assert_eq!(last.rule, cv("unknown"));
    assert_eq!((last.start, last.end), (3, 4));
    assert_eq!(us[1].start, 4);
}

#[test]
fn best_candidate_recovery_reports_one_error_and_keeps_partial_tree() {
    let a = Analyzer::new("program = \"a\" ~ \"b\" ~ \"c\"", "program").unwrap();
    assert!(a.validate().is_ok());
    let parsed = a.parse("abX");
    assert_eq!(parsed.errors.len(), 1);
    assert_eq!(parsed.errors[0].message, "Syntax error");
    assert_eq!((parsed.errors[0].first, parsed.errors[0].last), (0, 2));
    let us = units(&parsed.token);
    assert_eq!(us[0].rule, cv("program"));
    assert_eq!((us[0].start, us[0].end), (0, 2));
    let kids = us[0].children.as_ref().unwrap();
    assert_eq!(kids.len(), 2);
    assert_eq!(kids[0].rule, cv("string"));
    assert_eq!(kids[1].rule, cv("string"));
}

#[test]
fn trivial_candidate_yields_silent_empty_node() {
    let a = Analyzer::new("program = \"a\" ~ \"b\"", "program").unwrap();
    let parsed = a.parse("x");
    assert!(parsed.errors.is_empty());
    let us = units(&parsed.token);
    assert_eq!((us[0].start, us[0].end), (0, 0));
}

#[test]
fn ordered_choice_takes_the_first_full_match() {
    let a = Analyzer::new("program = \"ab\" | \"a\"", "program").unwrap();
    let parsed = a.parse("a");
    let us = units(&parsed.token);
    assert_eq!((us[0].start, us[0].end), (0, 1));
    let parsed2 = a.parse("ab");
    let us2 = units(&parsed2.token);
    assert_eq!((us2[0].start, us2[0].end), (0, 2));
}

#[test]
fn keyword_reference_emits_a_keyword_node() {
    let a = Analyzer::new(
        "program = if_keyword ~ ident\nif_keyword = \"if\"\nident = ASCII_ALPHA",
        "program",
    )
    .unwrap();
    assert!(a.validate().is_ok());
    let parsed = a.parse("ifx");
    assert!(parsed.errors.is_empty());
    let us = units(&parsed.token);
    assert_eq!((us[0].start, us[0].end), (0, 3));
    let kids = us[0].children.as_ref().unwrap();
    assert_eq!(kids[0].rule, cv("keyword"));
    assert_eq!((kids[0].start, kids[0].end), (0, 2));
    assert_eq!(kids[1].rule, cv("ident"));
    assert_eq!((kids[1].start, kids[1].end), (2, 3));
}

#[test]
fn empty_class_consumes_nothing() {
    let a = Analyzer::new("program = EMPTY ~ \"a\"", "program").unwrap();
    let parsed = a.parse("a");
    assert!(parsed.errors.is_empty());
    let us = units(&parsed.token);
    assert_eq!((us[0].start, us[0].end), (0, 1));
    let kids = us[0].children.as_ref().unwrap();
    assert_eq!(kids.len(), 1);
    assert_eq!(kids[0].rule, cv("string"));
}

#[test]
fn any_class_accepts_all_ascii() {
    let a = Analyzer::new("program = ANY", "program").unwrap();
    let parsed = a.parse("x# 9");
    let us = units(&parsed.token);
    assert_eq!((us[0].start, us[0].end), (0, 4));
}

#[test]
fn empty_input_yields_empty_root() {
    let a = Analyzer::new("program = \"a\"", "program").unwrap();
    let parsed = a.parse("");
    assert!(parsed.errors.is_empty());
    assert_eq!((parsed.token.start, parsed.token.end), (0, 0));
    assert!(units(&parsed.token).is_empty());
}

#[test]
fn rule_reference_recurses() {
    let a = Analyzer::new(
        "program = number\nnumber = ASCII_DIGIT",
        "program",
    )
    .unwrap();
    assert!(a.validate().is_ok());
    let parsed = a.parse("42");
    let us = units(&parsed.token);
    assert_eq!(us[0].rule, cv("program"));
    let kids = us[0].children.as_ref().unwrap();
    assert_eq!(kids[0].rule, cv("number"));
    assert_eq!((kids[0].start, kids[0].end), (0, 2));
}

#[test]
fn visit_walks_depth_first_preorder() {
    let a = Analyzer::new(
        "program = number\nnumber = ASCII_DIGIT",
        "program",
    )
    .unwrap();
    let parsed = a.parse("7");
    let chunks = parsed.visit();
    let rules: Vec<String> = chunks.iter().map(|c| c.rule()).collect();
    assert_eq!(rules, vec!["root", "program", "number", "internal_rule"]);
    assert_eq!(chunks[2].position(), (0, 1));
    assert_eq!(chunks[3].value(), "7");
    assert!(chunks[3].children().is_none());
    assert!(chunks[0].children().is_some());
    // A subtree visit starts at its own node.
    let us = units(&parsed.token);
    let sub = Chunk { input: &parsed.input, token: &us[0] };
    let sub_rules: Vec<String> = sub.visit().iter().map(|c| c.rule()).collect();
    assert_eq!(sub_rules, vec!["program", "number", "internal_rule"]);
}

#[test]
fn best_candidate_is_chosen_across_alternatives() {
    // The second alternative's candidate scores 3/4, beating the first's 1/2.
    let a = Analyzer::new(
        "program = \"a\" ~ \"x\" | \"a\" ~ \"b\" ~ \"c\" ~ \"x\"",
        "program",
    )
    .unwrap();
    let parsed = a.parse("abc?");
    assert_eq!(parsed.errors.len(), 1);
    assert_eq!((parsed.errors[0].first, parsed.errors[0].last), (0, 3));
    let us = units(&parsed.token);
    assert_eq!((us[0].start, us[0].end), (0, 3));
    // The three matched literals of the better alternative are kept; no
    // filler is added, since only one character remained unconsumed.
    let kids = us[0].children.as_ref().unwrap();
    assert_eq!(kids.len(), 3);
    assert_eq!(kids[2].rule, cv("string"));
}

#[test]
fn errors_from_abandoned_alternatives_persist() {
    // The sub-rule recovers (and records an error) inside an alternative
    // that is later abandoned; the error stays on the list.
    let a = Analyzer::new(
        "program = inner ~ \"Z\" | \"q\"\ninner = \"a\" ~ \"b\" ~ \"c\"",
        "program",
    )
    .unwrap();
    assert!(a.validate().is_ok());
    let parsed = a.parse("abXq");
    assert_eq!(parsed.errors.len(), 1);
    assert_eq!((parsed.errors[0].first, parsed.errors[0].last), (0, 2));
    // The last unit is the successful "q" match.
    let us = units(&parsed.token);
    let last = us.last().unwrap();
    assert_eq!(last.rule, cv("program"));
    assert_eq!((last.start, last.end), (3, 4));
}
