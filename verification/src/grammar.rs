//! The grammar compiler and validator. A grammar description text is compiled
//! into an ordered rule table; `validate` checks the structural invariants
//! that the parsing engine assumes: every referenced rule exists, every
//! internal-rule reference names a built-in character class, every rule is
//! reachable, and every keyword rule is a single literal.
use vstd::prelude::*;

verus! {

use crate::text::{
    chars_eq, chars_eq_str, chars_to_string, copy_range, ends_with, find_from, find_sub,
    seq_ends_with, split_rec, split_sub, str_to_chars, trim_chars, trim_spec,
};

/// One component of an alternative: a quoted literal, a reference to another
/// rule, a reference to a keyword rule (a name ending in `_keyword`), or one
/// of the six built-in character classes.
#[derive(Debug)]
pub enum Expression {
    Literal(Vec<char>),
    RuleRef(Vec<char>),
    KeywordRef(Vec<char>),
    InternalRuleRef(Vec<char>),
}

/// A named rule: an ordered list of alternatives, each an ordered list of
/// components.
#[derive(Debug)]
pub struct Rule {
    pub name: Vec<char>,
    pub alternatives: Vec<Vec<Expression>>,
}

/// The compiled grammar: the start-rule name and the rule table, in first
/// definition order. A rule line that redefines an earlier name replaces the
/// earlier definition in place, so names in the table are unique.
pub struct Analyzer {
    pub initial_rule: Vec<char>,
    pub grammar: Vec<Rule>,
}

/// A grammar-level failure: a malformed description line, or one of the four
/// structural violations found by validation.
#[derive(Debug)]
pub enum GrammarError {
    /// The 1-based description line that could not be compiled.
    InvalidGrammar(usize),
    /// A referenced rule that is not defined.
    InvalidRule(Vec<char>),
    /// An internal-rule reference that names no built-in class.
    InvalidInternalRule(Vec<char>),
    /// A defined rule that nothing references and that is not the start rule.
    UnusedRule(Vec<char>),
    /// A keyword rule that is not a single one-component alternative.
    InvalidKeywordRule(Vec<char>),
}

// ---------------------------------------------------------------------------
// Mathematical model
// ---------------------------------------------------------------------------

/// Model of one component.
pub enum GExpr {
    Literal(Seq<char>),
    RuleRef(Seq<char>),
    KeywordRef(Seq<char>),
    InternalRuleRef(Seq<char>),
}

/// Model of one rule.
pub struct GRule {
    pub name: Seq<char>,
    pub alts: Seq<Seq<GExpr>>,
}

/// Model of a compiled grammar.
pub struct GGrammar {
    pub start: Seq<char>,
    pub rules: Seq<GRule>,
}

/// Model of a grammar-level failure.
pub enum GErr {
    InvalidGrammar(int),
    InvalidRule(Seq<char>),
    InvalidInternalRule(Seq<char>),
    UnusedRule(Seq<char>),
    InvalidKeywordRule(Seq<char>),
}

pub open spec fn expr_view(e: Expression) -> GExpr {
    match e {
        Expression::Literal(v) => GExpr::Literal(v@),
        Expression::RuleRef(v) => GExpr::RuleRef(v@),
        Expression::KeywordRef(v) => GExpr::KeywordRef(v@),
        Expression::InternalRuleRef(v) => GExpr::InternalRuleRef(v@),
    }
}

pub open spec fn alt_view(a: Seq<Expression>) -> Seq<GExpr> {
    a.map_values(|e: Expression| expr_view(e))
}

pub open spec fn rule_view(r: Rule) -> GRule {
    GRule {
        name: r.name@,
        alts: r.alternatives@.map_values(|a: Vec<Expression>| alt_view(a@)),
    }
}

pub open spec fn rules_view(rs: Seq<Rule>) -> Seq<GRule> {
    rs.map_values(|r: Rule| rule_view(r))
}

pub open spec fn grammar_view(a: Analyzer) -> GGrammar {
    GGrammar { start: a.initial_rule@, rules: rules_view(a.grammar@) }
}

pub open spec fn grammar_err_view(e: GrammarError) -> GErr {
    match e {
        GrammarError::InvalidGrammar(l) => GErr::InvalidGrammar(l as int),
        GrammarError::InvalidRule(v) => GErr::InvalidRule(v@),
        GrammarError::InvalidInternalRule(v) => GErr::InvalidInternalRule(v@),
        GrammarError::UnusedRule(v) => GErr::UnusedRule(v@),
        GrammarError::InvalidKeywordRule(v) => GErr::InvalidKeywordRule(v@),
    }
}

/// The six built-in character-class names.
pub open spec fn is_internal_name(s: Seq<char>) -> bool {
    s == "ASCII_DIGIT"@ || s == "ASCII_ALPHA"@ || s == "ASCII_ALPHANUMERIC"@ || s == "ANY"@
        || s == "WHITESPACE"@ || s == "EMPTY"@
}

/// A rule name ending in this suffix is a keyword rule.
pub open spec fn is_keyword_name(s: Seq<char>) -> bool {
    seq_ends_with(s, "_keyword"@)
}

/// Index of the first rule named `name`, or -1.
pub open spec fn find_rule_from(rules: Seq<GRule>, name: Seq<char>, i: int) -> int
    decreases rules.len() - i,
{
    if i < 0 || i >= rules.len() {
        -1
    } else if rules[i].name == name {
        i
    } else {
        find_rule_from(rules, name, i + 1)
    }
}

pub open spec fn find_rule_idx(rules: Seq<GRule>, name: Seq<char>) -> int {
    find_rule_from(rules, name, 0)
}

/// The rule table after defining `name` as `alts`: replaces an existing
/// definition in place, otherwise appends.
pub open spec fn upsert(rules: Seq<GRule>, name: Seq<char>, alts: Seq<Seq<GExpr>>) -> Seq<GRule> {
    let i = find_rule_idx(rules, name);
    if i >= 0 {
        rules.update(i, GRule { name, alts })
    } else {
        rules.push(GRule { name, alts })
    }
}

// ---------------------------------------------------------------------------
// Compilation model
// ---------------------------------------------------------------------------

/// The quoted literal's content: the component with its first and last
/// character stripped (a lone quote yields an empty literal).
pub open spec fn strip_quotes(c: Seq<char>) -> Seq<char> {
    if c.len() <= 1 {
        Seq::empty()
    } else {
        c.subrange(1, c.len() - 1)
    }
}

/// Classification of one trimmed component; `None` is a malformed (empty)
/// component.
pub open spec fn classify(c: Seq<char>) -> Option<GExpr> {
    if c.len() == 0 {
        Option::None
    } else if c[0] == '"' {
        Option::Some(GExpr::Literal(strip_quotes(c)))
    } else if is_internal_name(c) {
        Option::Some(GExpr::InternalRuleRef(c))
    } else if is_keyword_name(c) {
        Option::Some(GExpr::KeywordRef(c))
    } else {
        Option::Some(GExpr::RuleRef(c))
    }
}

/// The components of one alternative, each trimmed and classified.
pub open spec fn classify_comps(comps: Seq<Seq<char>>, j: int) -> Option<Seq<GExpr>>
    decreases comps.len() - j,
{
    if j >= comps.len() {
        Option::Some(Seq::empty())
    } else {
        match classify(trim_spec(comps[j])) {
            Option::None => Option::None,
            Option::Some(e) => match classify_comps(comps, j + 1) {
                Option::None => Option::None,
                Option::Some(rest) => Option::Some(seq![e] + rest),
            },
        }
    }
}

/// All alternatives of one right-hand side.
pub open spec fn classify_alts(parts: Seq<Seq<char>>, i: int) -> Option<Seq<Seq<GExpr>>>
    decreases parts.len() - i,
{
    if i >= parts.len() {
        Option::Some(Seq::empty())
    } else {
        match classify_comps(split_rec(parts[i], " ~ "@, 0), 0) {
            Option::None => Option::None,
            Option::Some(alt) => match classify_alts(parts, i + 1) {
                Option::None => Option::None,
                Option::Some(rest) => Option::Some(seq![alt] + rest),
            },
        }
    }
}

/// One description line: the rule name left of the first `" = "`, and the
/// classified alternatives of the right-hand side. `None` is a malformed line.
pub open spec fn parse_line_spec(l: Seq<char>) -> Option<(Seq<char>, Seq<Seq<GExpr>>)> {
    match find_from(l, " = "@, 0) {
        Option::None => Option::None,
        Option::Some(p) => {
            let name = l.subrange(0, p);
            let rhs = l.subrange(p + " = "@.len(), l.len() as int);
            match classify_alts(split_rec(rhs, " | "@, 0), 0) {
                Option::None => Option::None,
                Option::Some(alts) => Option::Some((name, alts)),
            }
        },
    }
}

/// A line with one trailing carriage return stripped.
pub open spec fn strip_cr(l: Seq<char>) -> Seq<char> {
    if l.len() > 0 && l[l.len() - 1] == '\r' {
        l.drop_last()
    } else {
        l
    }
}

/// The lines of a text: split on newlines, one final empty part dropped, one
/// trailing carriage return stripped per line.
pub open spec fn lines_spec(text: Seq<char>) -> Seq<Seq<char>> {
    let parts = split_rec(text, seq!['\n'], 0);
    let kept = if parts.len() > 0 && parts.last().len() == 0 {
        parts.drop_last()
    } else {
        parts
    };
    kept.map_values(|l: Seq<char>| strip_cr(l))
}

/// The rule table compiled from the lines at index `i` on, or the 1-based
/// number of the first malformed line.
pub open spec fn compile_lines(lines: Seq<Seq<char>>, i: int, acc: Seq<GRule>) -> Result<
    Seq<GRule>,
    int,
>
    decreases lines.len() - i,
{
    if i >= lines.len() {
        Result::Ok(acc)
    } else if lines[i].len() == 0 {
        compile_lines(lines, i + 1, acc)
    } else {
        match parse_line_spec(lines[i]) {
            Option::None => Result::Err(i + 1),
            Option::Some((name, alts)) => compile_lines(lines, i + 1, upsert(acc, name, alts)),
        }
    }
}

/// The rule table of a whole grammar description.
pub open spec fn compile_spec(text: Seq<char>) -> Result<Seq<GRule>, int> {
    compile_lines(lines_spec(text), 0, Seq::empty())
}

// ---------------------------------------------------------------------------
// Validation model
// ---------------------------------------------------------------------------

/// `e` references the rule named `n`.
pub open spec fn expr_refs(e: GExpr, n: Seq<char>) -> bool {
    e == GExpr::RuleRef(n) || e == GExpr::KeywordRef(n)
}

pub open spec fn alt_refs(a: Seq<GExpr>, n: Seq<char>) -> bool {
    exists|k: int| 0 <= k < a.len() && expr_refs(a[k], n)
}

pub open spec fn rule_refs(r: GRule, n: Seq<char>) -> bool {
    exists|j: int| 0 <= j < r.alts.len() && alt_refs(r.alts[j], n)
}

/// Some alternative somewhere in the grammar references the rule named `n`.
pub open spec fn referenced(g: GGrammar, n: Seq<char>) -> bool {
    exists|i: int| 0 <= i < g.rules.len() && rule_refs(g.rules[i], n)
}

/// First reference failure in the components of one alternative from `k` on.
pub open spec fn check_exprs(g: GGrammar, a: Seq<GExpr>, k: int) -> Option<GErr>
    decreases a.len() - k,
{
    if k >= a.len() {
        Option::None
    } else {
        match a[k] {
            GExpr::RuleRef(n) => if find_rule_idx(g.rules, n) < 0 {
                Option::Some(GErr::InvalidRule(n))
            } else {
                check_exprs(g, a, k + 1)
            },
            GExpr::KeywordRef(n) => if find_rule_idx(g.rules, n) < 0 {
                Option::Some(GErr::InvalidRule(n))
            } else {
                check_exprs(g, a, k + 1)
            },
            GExpr::InternalRuleRef(n) => if !is_internal_name(n) {
                Option::Some(GErr::InvalidInternalRule(n))
            } else {
                check_exprs(g, a, k + 1)
            },
            GExpr::Literal(_) => check_exprs(g, a, k + 1),
        }
    }
}

pub open spec fn check_alts(g: GGrammar, alts: Seq<Seq<GExpr>>, j: int) -> Option<GErr>
    decreases alts.len() - j,
{
    if j >= alts.len() {
        Option::None
    } else {
        match check_exprs(g, alts[j], 0) {
            Option::Some(e) => Option::Some(e),
            Option::None => check_alts(g, alts, j + 1),
        }
    }
}

/// First reference failure scanning the rules from `i` on.
pub open spec fn check_refs(g: GGrammar, i: int) -> Option<GErr>
    decreases g.rules.len() - i,
{
    if i >= g.rules.len() {
        Option::None
    } else {
        match check_alts(g, g.rules[i].alts, 0) {
            Option::Some(e) => Option::Some(e),
            Option::None => check_refs(g, i + 1),
        }
    }
}

/// First unused-rule or malformed-keyword-rule failure from `i` on.
pub open spec fn check_rules(g: GGrammar, i: int) -> Option<GErr>
    decreases g.rules.len() - i,
{
    if i >= g.rules.len() {
        Option::None
    } else {
        let r = g.rules[i];
        if !referenced(g, r.name) && r.name != g.start {
            Option::Some(GErr::UnusedRule(r.name))
        } else if is_keyword_name(r.name) && !(r.alts.len() == 1 && r.alts[0].len() == 1) {
            Option::Some(GErr::InvalidKeywordRule(r.name))
        } else {
            check_rules(g, i + 1)
        }
    }
}

/// The first structural violation of the grammar, scanning references first
/// and then the rule table, or `None` when the grammar is valid.
pub open spec fn validate_spec(g: GGrammar) -> Option<GErr> {
    match check_refs(g, 0) {
        Option::Some(e) => Option::Some(e),
        Option::None => check_rules(g, 0),
    }
}

// ---------------------------------------------------------------------------
// Facts about find and validation, used by the engine's laws
// ---------------------------------------------------------------------------

/// A found rule index is in range and carries the looked-up name.
pub proof fn lemma_find_rule_found(rules: Seq<GRule>, name: Seq<char>, i: int)
    requires
        find_rule_from(rules, name, i) >= 0,
    ensures
        0 <= find_rule_from(rules, name, i) < rules.len(),
        rules[find_rule_from(rules, name, i)].name == name,
    decreases rules.len() - i,
{
    if i < 0 || i >= rules.len() {
    } else if rules[i].name == name {
    } else {
        lemma_find_rule_found(rules, name, i + 1);
    }
}

/// When the reference scan of one alternative finds nothing wrong, every
/// name it references is a defined rule.
pub proof fn lemma_check_exprs_none(g: GGrammar, a: Seq<GExpr>, k: int, q: int)
    requires
        check_exprs(g, a, k) is None,
        k <= q < a.len(),
        0 <= k,
    ensures
        a[q] matches GExpr::KeywordRef(n) ==> find_rule_idx(g.rules, n) >= 0,
        a[q] matches GExpr::RuleRef(n) ==> find_rule_idx(g.rules, n) >= 0,
    decreases a.len() - k,
{
    if k < q {
        lemma_check_exprs_none(g, a, k + 1, q);
    }
}

/// When the reference scan of one rule finds nothing wrong, so does the
/// scan of each of its alternatives.
pub proof fn lemma_check_alts_none(g: GGrammar, alts: Seq<Seq<GExpr>>, j: int, q: int)
    requires
        check_alts(g, alts, j) is None,
        j <= q < alts.len(),
        0 <= j,
    ensures
        check_exprs(g, alts[q], 0) is None,
    decreases alts.len() - j,
{
    if j < q {
        lemma_check_alts_none(g, alts, j + 1, q);
    }
}

/// When the whole reference scan finds nothing wrong, so does the scan of
/// each rule.
pub proof fn lemma_check_refs_none(g: GGrammar, i: int, q: int)
    requires
        check_refs(g, i) is None,
        i <= q < g.rules.len(),
        0 <= i,
    ensures
        check_alts(g, g.rules[q].alts, 0) is None,
    decreases g.rules.len() - i,
{
    if i < q {
        lemma_check_refs_none(g, i + 1, q);
    }
}

/// When the rule scan finds nothing wrong, every keyword-named rule owns
/// exactly one alternative of exactly one component.
pub proof fn lemma_check_rules_none(g: GGrammar, i: int, q: int)
    requires
        check_rules(g, i) is None,
        i <= q < g.rules.len(),
        0 <= i,
        is_keyword_name(g.rules[q].name),
    ensures
        g.rules[q].alts.len() == 1,
        g.rules[q].alts[0].len() == 1,
    decreases g.rules.len() - i,
{
    if i < q {
        lemma_check_rules_none(g, i + 1, q);
    }
}

/// Every keyword reference of the alternative names a keyword rule.
pub open spec fn alt_kw_named(a: Seq<GExpr>) -> bool {
    forall|k: int|
        0 <= k < a.len() ==> ((#[trigger] a[k]) matches GExpr::KeywordRef(n) ==> is_keyword_name(
            n,
        ))
}

pub open spec fn alts_kw_named(alts: Seq<Seq<GExpr>>) -> bool {
    forall|j: int| 0 <= j < alts.len() ==> alt_kw_named(#[trigger] alts[j])
}

pub open spec fn rules_kw_named(rs: Seq<GRule>) -> bool {
    forall|i: int| 0 <= i < rs.len() ==> alts_kw_named((#[trigger] rs[i]).alts)
}

proof fn lemma_classify_comps_named(comps: Seq<Seq<char>>, j: int)
    requires
        classify_comps(comps, j) is Some,
    ensures
        alt_kw_named(classify_comps(comps, j)->Some_0),
    decreases comps.len() - j,
{
    if j >= comps.len() {
    } else {
        lemma_classify_comps_named(comps, j + 1);
        let a = classify_comps(comps, j)->Some_0;
        let rest = classify_comps(comps, j + 1)->Some_0;
        assert forall|k: int|
            0 <= k < a.len() implies ((#[trigger] a[k]) matches GExpr::KeywordRef(n)
            ==> is_keyword_name(n)) by {
            if k > 0 {
                assert(a[k] == rest[k - 1]);
            }
        }
    }
}

proof fn lemma_classify_alts_named(parts: Seq<Seq<char>>, i: int)
    requires
        classify_alts(parts, i) is Some,
    ensures
        alts_kw_named(classify_alts(parts, i)->Some_0),
    decreases parts.len() - i,
{
    if i >= parts.len() {
    } else {
        lemma_classify_alts_named(parts, i + 1);
        lemma_classify_comps_named(split_rec(parts[i], " ~ "@, 0), 0);
        let alts = classify_alts(parts, i)->Some_0;
        let rest = classify_alts(parts, i + 1)->Some_0;
        assert forall|j: int| 0 <= j < alts.len() implies alt_kw_named(#[trigger] alts[j]) by {
            if j > 0 {
                assert(alts[j] == rest[j - 1]);
            }
        }
    }
}

proof fn lemma_upsert_named(rules: Seq<GRule>, name: Seq<char>, alts: Seq<Seq<GExpr>>)
    requires
        rules_kw_named(rules),
        alts_kw_named(alts),
    ensures
        rules_kw_named(upsert(rules, name, alts)),
{
    let out = upsert(rules, name, alts);
    if find_rule_idx(rules, name) >= 0 {
        lemma_find_rule_found(rules, name, 0);
    }
    assert forall|i: int| 0 <= i < out.len() implies alts_kw_named((#[trigger] out[i]).alts) by {
        let f = find_rule_idx(rules, name);
        if f >= 0 && i != f {
            assert(out[i] == rules[i]);
        } else if f < 0 && i < rules.len() {
            assert(out[i] == rules[i]);
        } else {
            assert(out[i].alts == alts);
        }
    }
}

proof fn lemma_compile_lines_named(lines: Seq<Seq<char>>, i: int, acc: Seq<GRule>)
    requires
        rules_kw_named(acc),
        compile_lines(lines, i, acc) is Ok,
    ensures
        rules_kw_named(compile_lines(lines, i, acc)->Ok_0),
    decreases lines.len() - i,
{
    if i >= lines.len() {
    } else if lines[i].len() == 0 {
        lemma_compile_lines_named(lines, i + 1, acc);
    } else {
        match parse_line_spec(lines[i]) {
            Option::None => {},
            Option::Some((name, alts)) => {
                match find_from(lines[i], " = "@, 0) {
                    Option::None => {},
                    Option::Some(p) => {
                        let rhs = lines[i].subrange(p + " = "@.len(), lines[i].len() as int);
                        lemma_classify_alts_named(split_rec(rhs, " | "@, 0), 0);
                    },
                }
                lemma_upsert_named(acc, name, alts);
                lemma_compile_lines_named(lines, i + 1, upsert(acc, name, alts));
            },
        }
    }
}

/// Law: the compiler classifies a component as a keyword reference only
/// when its name ends in the keyword suffix, so every keyword reference of
/// a compiled grammar names a keyword rule.
pub proof fn lemma_compiled_keyword_names(text: Seq<char>)
    requires
        compile_spec(text) is Ok,
    ensures
        rules_kw_named(compile_spec(text)->Ok_0),
{
    lemma_compile_lines_named(lines_spec(text), 0, Seq::empty());
}

// ---------------------------------------------------------------------------
// Executable compiler
// ---------------------------------------------------------------------------

/// Whether `v` names a built-in character class.
pub fn is_internal_name_exec(v: &Vec<char>) -> (r: bool)
    ensures
        r == is_internal_name(v@),
{
    chars_eq_str(v, "ASCII_DIGIT") || chars_eq_str(v, "ASCII_ALPHA") || chars_eq_str(
        v,
        "ASCII_ALPHANUMERIC",
    ) || chars_eq_str(v, "ANY") || chars_eq_str(v, "WHITESPACE") || chars_eq_str(v, "EMPTY")
}

/// Whether `v` is a keyword-rule name.
pub fn is_keyword_name_exec(v: &Vec<char>) -> (r: bool)
    ensures
        r == is_keyword_name(v@),
{
    let suffix = str_to_chars("_keyword");
    ends_with(v, &suffix)
}

/// Classifies one trimmed component.
fn classify_exec(t: Vec<char>) -> (r: Option<Expression>)
    ensures
        match classify(t@) {
            Option::None => r is None,
            Option::Some(ge) => r matches Option::Some(e) && expr_view(e) == ge,
        },
{
    if t.len() == 0 {
        return Option::None;
    }
    if t[0] == '"' {
        let content = if t.len() <= 1 {
            Vec::new()
        } else {
            copy_range(&t, 1, t.len() - 1)
        };
        proof {
            assert(content@ =~= strip_quotes(t@));
        }
        return Option::Some(Expression::Literal(content));
    }
    if is_internal_name_exec(&t) {
        return Option::Some(Expression::InternalRuleRef(t));
    }
    if is_keyword_name_exec(&t) {
        return Option::Some(Expression::KeywordRef(t));
    }
    Option::Some(Expression::RuleRef(t))
}

/// The lines of `text`.
#[verifier::loop_isolation(false)]
fn lines_exec(text: &Vec<char>) -> (r: Vec<Vec<char>>)
    ensures
        r@.map_values(|l: Vec<char>| l@) == lines_spec(text@),
{
    let mut nl: Vec<char> = Vec::new();
    nl.push('\n');
    proof {
        assert(nl@ =~= seq!['\n']);
    }
    let mut parts = split_sub(text, &nl);
    if parts.len() > 0 && parts[parts.len() - 1].len() == 0 {
        let _ = parts.pop();
    }
    let ghost kept = parts@.map_values(|l: Vec<char>| l@);
    let mut r: Vec<Vec<char>> = Vec::new();
    let mut i: usize = 0;
    while i < parts.len()
        invariant
            i <= parts@.len(),
            kept == parts@.map_values(|l: Vec<char>| l@),
            lines_spec(text@) == kept.map_values(|l: Seq<char>| strip_cr(l)),
            r@.map_values(|l: Vec<char>| l@) == kept.map_values(|l: Seq<char>| strip_cr(l)).subrange(
                0,
                i as int,
            ),
        decreases parts@.len() - i,
    {
        let ghost r_before = r@;
        let p = &parts[i];
        if p.len() > 0 && p[p.len() - 1] == '\r' {
            let line = copy_range(p, 0, p.len() - 1);
            proof {
                assert(line@ =~= strip_cr(p@));
            }
            r.push(line);
        } else {
            let line = copy_range(p, 0, p.len());
            proof {
                assert(line@ =~= p@);
                assert(line@ =~= strip_cr(p@));
            }
            r.push(line);
        }
        i = i + 1;
        proof {
            assert(kept[i - 1] == parts@[i - 1]@);
            assert(kept.map_values(|l: Seq<char>| strip_cr(l))[i - 1] == strip_cr(kept[i - 1]));
            assert(r@.map_values(|l: Vec<char>| l@) =~= kept.map_values(
                |l: Seq<char>| strip_cr(l),
            ).subrange(0, i as int));
        }
    }
    proof {
        assert(r@.map_values(|l: Vec<char>| l@) =~= lines_spec(text@));
    }
    r
}

/// Parses one non-blank description line.
#[verifier::loop_isolation(false)]
fn parse_line_exec(l: &Vec<char>) -> (r: Option<(Vec<char>, Vec<Vec<Expression>>)>)
    ensures
        match parse_line_spec(l@) {
            Option::None => r is None,
            Option::Some(spec_pair) => r matches Option::Some(pair) && pair.0@ == spec_pair.0
                && pair.1@.map_values(|a: Vec<Expression>| alt_view(a@)) == spec_pair.1,
        },
{
    let eq_sep = str_to_chars(" = ");
    let p = match find_sub(l, &eq_sep) {
        Option::None => {
            return Option::None;
        },
        Option::Some(p) => p,
    };
    let name = copy_range(l, 0, p);
    let llen = l.len();
    let rhs = copy_range(l, p + eq_sep.len(), llen);
    let bar_sep = str_to_chars(" | ");
    proof {
        reveal_strlit(" | ");
        reveal_strlit(" ~ ");
    }
    let parts = split_sub(&rhs, &bar_sep);
    let ghost spec_parts = split_rec(rhs@, " | "@, 0);
    let tilde_sep = str_to_chars(" ~ ");
    let mut alts: Vec<Vec<Expression>> = Vec::new();
    let mut i: usize = 0;
    while i < parts.len()
        invariant
            i <= parts@.len(),
            spec_parts == parts@.map_values(|v: Vec<char>| v@),
            tilde_sep@ == " ~ "@,
            tilde_sep@.len() > 0,
            classify_alts(spec_parts, 0) matches Option::Some(all) ==> classify_alts(
                spec_parts,
                i as int,
            ) matches Option::Some(rest) && all == alts@.map_values(
                |a: Vec<Expression>| alt_view(a@),
            ) + rest,
            classify_alts(spec_parts, i as int) is Some ==> classify_alts(spec_parts, 0) is Some,
        decreases parts@.len() - i,
    {
        let comps = split_sub(&parts[i], &tilde_sep);
        let ghost spec_comps = split_rec(spec_parts[i as int], " ~ "@, 0);
        proof {
            assert(spec_parts[i as int] == parts@[i as int]@);
        }
        let mut alt: Vec<Expression> = Vec::new();
        let mut j: usize = 0;
        while j < comps.len()
            invariant
                j <= comps@.len(),
                spec_comps == comps@.map_values(|v: Vec<char>| v@),
                classify_comps(spec_comps, 0) matches Option::Some(all) ==> classify_comps(
                    spec_comps,
                    j as int,
                ) matches Option::Some(rest) && all == alt_view(alt@) + rest,
                classify_comps(spec_comps, j as int) is Some ==> classify_comps(
                    spec_comps,
                    0,
                ) is Some,
            decreases comps@.len() - j,
        {
            let t = trim_chars(&comps[j]);
            proof {
                assert(spec_comps[j as int] == comps@[j as int]@);
            }
            let ghost alt_before = alt@;
            match classify_exec(t) {
                Option::None => {
                    proof {
                        assert(classify(trim_spec(spec_comps[j as int])) is None);
                        assert(classify_comps(spec_comps, j as int) is None);
                        assert(classify_comps(spec_comps, 0) is None);
                        assert(classify_alts(spec_parts, i as int) is None);
                        assert(classify_alts(spec_parts, 0) is None);
                    }
                    return Option::None;
                },
                Option::Some(e) => {
                    alt.push(e);
                    proof {
                        let ghost ev = expr_view(alt@[alt@.len() - 1]);
                        assert(alt_view(alt@) =~= alt_view(alt_before).push(ev));
                        if classify_comps(spec_comps, j + 1) is Some {
                            assert(classify_comps(spec_comps, j as int) is Some);
                        }
                        if classify_comps(spec_comps, 0) is Some {
                            assert(classify_comps(spec_comps, j as int)->Some_0 == seq![ev]
                                + classify_comps(spec_comps, j + 1)->Some_0);
                            assert(alt_view(alt_before) + classify_comps(
                                spec_comps,
                                j as int,
                            )->Some_0 =~= alt_view(alt@) + classify_comps(
                                spec_comps,
                                j + 1,
                            )->Some_0);
                        }
                    }
                },
            }
            j = j + 1;
        }
        let ghost alts_before = alts@;
        alts.push(alt);
        proof {
            let ghost av = alt_view(alts@[alts@.len() - 1]@);
            assert(classify_comps(spec_comps, comps@.len() as int) is Some);
            assert(classify_comps(spec_comps, 0) is Some);
            assert(av =~= classify_comps(spec_comps, 0)->Some_0);
            assert(alts@.map_values(|a: Vec<Expression>| alt_view(a@)) =~= alts_before.map_values(
                |a: Vec<Expression>| alt_view(a@),
            ).push(av));
            if classify_alts(spec_parts, i + 1) is Some {
                assert(classify_alts(spec_parts, i as int) is Some);
            }
            if classify_alts(spec_parts, 0) is Some {
                assert(classify_alts(spec_parts, i as int)->Some_0 == seq![av] + classify_alts(
                    spec_parts,
                    i + 1,
                )->Some_0);
                assert(alts_before.map_values(|a: Vec<Expression>| alt_view(a@)) + classify_alts(
                    spec_parts,
                    i as int,
                )->Some_0 =~= alts@.map_values(|a: Vec<Expression>| alt_view(a@)) + classify_alts(
                    spec_parts,
                    i + 1,
                )->Some_0);
            }
        }
        i = i + 1;
    }
    proof {
        assert(classify_alts(spec_parts, parts@.len() as int) is Some);
        assert(classify_alts(spec_parts, 0) is Some);
        assert(classify_alts(spec_parts, 0)->Some_0 =~= alts@.map_values(
            |a: Vec<Expression>| alt_view(a@),
        ));
    }
    Option::Some((name, alts))
}

/// Index of the first rule of the table named `name`.
#[verifier::loop_isolation(false)]
pub(crate) fn find_rule_exec(rules: &Vec<Rule>, name: &Vec<char>) -> (r: Option<usize>)
    ensures
        match r {
            Option::Some(i) => find_rule_idx(rules_view(rules@), name@) == i as int && i
                < rules@.len(),
            Option::None => find_rule_idx(rules_view(rules@), name@) == -1,
        },
{
    let ghost rv = rules_view(rules@);
    let mut i: usize = 0;
    while i < rules.len()
        invariant
            i <= rules@.len(),
            rv == rules_view(rules@),
            rv.len() == rules@.len(),
            find_rule_from(rv, name@, 0) == find_rule_from(rv, name@, i as int),
        decreases rules@.len() - i,
    {
        if chars_eq(&rules[i].name, name) {
            proof {
                assert(rv[i as int].name == name@);
            }
            return Option::Some(i);
        }
        i = i + 1;
    }
    Option::None
}

impl Analyzer {
    /// Compiles the grammar description into a rule table with the given
    /// start rule. Fails with `InvalidGrammar` naming the 1-based line number
    /// of the first line that lacks the `" = "` separator or holds an empty
    /// component.
    #[verifier::loop_isolation(false)]
    pub fn new(grammar: &str, initial_rule: &str) -> (r: Result<Analyzer, GrammarError>)
        ensures
            match compile_spec(grammar@) {
                Result::Ok(rs) => r matches Result::Ok(a) && grammar_view(a) == (GGrammar {
                    start: initial_rule@,
                    rules: rs,
                }),
                Result::Err(ln) => r matches Result::Err(e) && grammar_err_view(e)
                    == GErr::InvalidGrammar(ln),
            },
    {
        let text = str_to_chars(grammar);
        let lines = lines_exec(&text);
        let ghost linesv = lines_spec(grammar@);
        let mut rules: Vec<Rule> = Vec::new();
        proof {
            assert(rules_view(rules@) =~= Seq::<GRule>::empty());
        }
        let mut i: usize = 0;
        while i < lines.len()
            invariant
                i <= lines@.len(),
                linesv == lines@.map_values(|l: Vec<char>| l@),
                compile_spec(grammar@) == compile_lines(linesv, i as int, rules_view(rules@)),
            decreases lines@.len() - i,
        {
            let line = &lines[i];
            proof {
                assert(linesv[i as int] == lines@[i as int]@);
            }
            if line.len() > 0 {
                match parse_line_exec(line) {
                    Option::None => {
                        return Result::Err(GrammarError::InvalidGrammar(i + 1));
                    },
                    Option::Some((name, alts)) => {
                        let ghost rules_before = rules_view(rules@);
                        let ghost namev = name@;
                        let ghost altsv = alts@.map_values(|a: Vec<Expression>| alt_view(a@));
                        match find_rule_exec(&rules, &name) {
                            Option::Some(j) => {
                                rules[j] = Rule { name, alternatives: alts };
                                proof {
                                    assert(rules_view(rules@) =~= rules_before.update(
                                        j as int,
                                        GRule { name: namev, alts: altsv },
                                    ));
                                }
                            },
                            Option::None => {
                                rules.push(Rule { name, alternatives: alts });
                                proof {
                                    assert(rules_view(rules@) =~= rules_before.push(
                                        GRule { name: namev, alts: altsv },
                                    ));
                                }
                            },
                        }
                    },
                }
            }
            i = i + 1;
        }
        Result::Ok(Analyzer { initial_rule: str_to_chars(initial_rule), grammar: rules })
    }

    /// Whether some alternative somewhere in the grammar references `name`.
    #[verifier::loop_isolation(false)]
    fn is_referenced(&self, name: &Vec<char>) -> (r: bool)
        ensures
            r == referenced(grammar_view(*self), name@),
    {
        let ghost g = grammar_view(*self);
        let mut i: usize = 0;
        while i < self.grammar.len()
            invariant
                i <= self.grammar@.len(),
                g == grammar_view(*self),
                g.rules.len() == self.grammar@.len(),
                forall|i2: int| 0 <= i2 < i ==> !rule_refs(g.rules[i2], name@),
            decreases self.grammar@.len() - i,
        {
            let alts = &self.grammar[i].alternatives;
            let ghost galts = g.rules[i as int].alts;
            let mut j: usize = 0;
            while j < alts.len()
                invariant
                    j <= alts@.len(),
                    galts == g.rules[i as int].alts,
                    galts.len() == alts@.len(),
                    0 <= i < g.rules.len(),
                    galts == rule_view(self.grammar@[i as int]).alts,
                    alts@ == self.grammar@[i as int].alternatives@,
                    forall|j2: int| 0 <= j2 < j ==> !alt_refs(galts[j2], name@),
                decreases alts@.len() - j,
            {
                let exprs = &alts[j];
                let ghost gexprs = galts[j as int];
                let mut k: usize = 0;
                while k < exprs.len()
                    invariant
                        k <= exprs@.len(),
                        gexprs == galts[j as int],
                        0 <= j < galts.len(),
                        gexprs == alt_view(exprs@),
                        gexprs.len() == exprs@.len(),
                        forall|k2: int| 0 <= k2 < k ==> !expr_refs(gexprs[k2], name@),
                    decreases exprs@.len() - k,
                {
                    let hit = match &exprs[k] {
                        Expression::RuleRef(n) => chars_eq(n, name),
                        Expression::KeywordRef(n) => chars_eq(n, name),
                        _ => false,
                    };
                    proof {
                        assert(gexprs[k as int] == expr_view(exprs@[k as int]));
                    }
                    if hit {
                        proof {
                            assert(expr_refs(g.rules[i as int].alts[j as int][k as int], name@));
                            assert(alt_refs(g.rules[i as int].alts[j as int], name@));
                            assert(rule_refs(g.rules[i as int], name@));
                        }
                        return true;
                    }
                    k = k + 1;
                }
                proof {
                    assert(!alt_refs(galts[j as int], name@));
                }
                j = j + 1;
            }
            proof {
                assert(!rule_refs(g.rules[i as int], name@));
            }
            i = i + 1;
        }
        proof {
            assert(!referenced(g, name@));
        }
        false
    }

    /// Checks the structural invariants of the grammar: every referenced rule
    /// is defined, every internal-rule reference names a built-in class,
    /// every rule other than the start rule is referenced somewhere, and
    /// every keyword rule owns exactly one alternative of exactly one
    /// component. Returns the first violation in scan order.
    #[verifier::loop_isolation(false)]
    pub fn validate(&self) -> (r: Result<(), GrammarError>)
        ensures
            match r {
                Result::Ok(()) => validate_spec(grammar_view(*self)) is None,
                Result::Err(e) => validate_spec(grammar_view(*self)) == Option::Some(
                    grammar_err_view(e),
                ),
            },
    {
        let ghost g = grammar_view(*self);
        let mut i: usize = 0;
        while i < self.grammar.len()
            invariant
                i <= self.grammar@.len(),
                g == grammar_view(*self),
                g.rules.len() == self.grammar@.len(),
                check_refs(g, 0) == check_refs(g, i as int),
            decreases self.grammar@.len() - i,
        {
            let alts = &self.grammar[i].alternatives;
            let ghost galts = g.rules[i as int].alts;
            let mut j: usize = 0;
            while j < alts.len()
                invariant
                    j <= alts@.len(),
                    galts == g.rules[i as int].alts,
                    galts == rule_view(self.grammar@[i as int]).alts,
                    alts@ == self.grammar@[i as int].alternatives@,
                    galts.len() == alts@.len(),
                    0 <= i < g.rules.len(),
                    g == grammar_view(*self),
                    check_alts(g, galts, 0) == check_alts(g, galts, j as int),
                decreases alts@.len() - j,
            {
                let exprs = &alts[j];
                let ghost gexprs = galts[j as int];
                let mut k: usize = 0;
                while k < exprs.len()
                    invariant
                        k <= exprs@.len(),
                        gexprs == galts[j as int],
                        0 <= j < galts.len(),
                        gexprs == alt_view(exprs@),
                        gexprs.len() == exprs@.len(),
                        g == grammar_view(*self),
                        check_exprs(g, gexprs, 0) == check_exprs(g, gexprs, k as int),
                    decreases exprs@.len() - k,
                {
                    proof {
                        assert(gexprs[k as int] == expr_view(exprs@[k as int]));
                    }
                    let fail: Option<GrammarError> = match &exprs[k] {
                        Expression::RuleRef(n) => {
                            if matches!(find_rule_exec(&self.grammar, n), Option::None) {
                                Option::Some(GrammarError::InvalidRule(
                                    crate::text::clone_chars(n),
                                ))
                            } else {
                                Option::None
                            }
                        },
                        Expression::KeywordRef(n) => {
                            if matches!(find_rule_exec(&self.grammar, n), Option::None) {
                                Option::Some(GrammarError::InvalidRule(
                                    crate::text::clone_chars(n),
                                ))
                            } else {
                                Option::None
                            }
                        },
                        Expression::InternalRuleRef(n) => {
                            if !is_internal_name_exec(n) {
                                Option::Some(GrammarError::InvalidInternalRule(
                                    crate::text::clone_chars(n),
                                ))
                            } else {
                                Option::None
                            }
                        },
                        Expression::Literal(_) => Option::None,
                    };
                    match fail {
                        Option::Some(e) => {
                            proof {
                                assert(check_exprs(g, gexprs, k as int) == Option::Some(
                                    grammar_err_view(e),
                                ));
                                assert(check_alts(g, galts, j as int) == Option::Some(
                                    grammar_err_view(e),
                                ));
                                assert(check_refs(g, i as int) == Option::Some(
                                    grammar_err_view(e),
                                ));
                            }
                            return Result::Err(e);
                        },
                        Option::None => {},
                    }
                    k = k + 1;
                }
                j = j + 1;
            }
            i = i + 1;
        }
        let mut i2: usize = 0;
        while i2 < self.grammar.len()
            invariant
                i2 <= self.grammar@.len(),
                g == grammar_view(*self),
                g.rules.len() == self.grammar@.len(),
                check_refs(g, 0) is None,
                check_rules(g, 0) == check_rules(g, i2 as int),
            decreases self.grammar@.len() - i2,
        {
            let rule = &self.grammar[i2];
            proof {
                assert(g.rules[i2 as int] == rule_view(self.grammar@[i2 as int]));
            }
            if !self.is_referenced(&rule.name) && !chars_eq(&rule.name, &self.initial_rule) {
                let e = GrammarError::UnusedRule(crate::text::clone_chars(&rule.name));
                proof {
                    assert(check_rules(g, i2 as int) == Option::Some(grammar_err_view(e)));
                }
                return Result::Err(e);
            }
            if is_keyword_name_exec(&rule.name) {
                let shape_ok = rule.alternatives.len() == 1 && rule.alternatives[0].len() == 1;
                proof {
                    assert(g.rules[i2 as int].alts.len() == rule.alternatives@.len());
                    if rule.alternatives@.len() == 1 {
                        assert(g.rules[i2 as int].alts[0].len()
                            == rule.alternatives@[0]@.len());
                    }
                }
                if !shape_ok {
                    let e = GrammarError::InvalidKeywordRule(
                        crate::text::clone_chars(&rule.name),
                    );
                    proof {
                        assert(check_rules(g, i2 as int) == Option::Some(grammar_err_view(e)));
                    }
                    return Result::Err(e);
                }
            }
            i2 = i2 + 1;
        }
        Result::Ok(())
    }

    /// A printable description of a grammar error.
    pub fn describe_error(e: &GrammarError) -> (r: String)
        ensures
            r@ == describe_error_spec(grammar_err_view(*e)),
    {
        let mut out: Vec<char> = Vec::new();
        match e {
            GrammarError::InvalidGrammar(l) => {
                crate::text::push_str_chars(&mut out, "Invalid grammar at line ");
                crate::text::push_dec(&mut out, *l);
            },
            GrammarError::InvalidRule(n) => {
                crate::text::push_str_chars(&mut out, "Invalid rule: ");
                crate::text::push_range(&mut out, n, 0, n.len());
                proof {
                    assert(n@.subrange(0, n@.len() as int) =~= n@);
                }
            },
            GrammarError::InvalidInternalRule(n) => {
                crate::text::push_str_chars(&mut out, "Invalid internal rule: ");
                crate::text::push_range(&mut out, n, 0, n.len());
                proof {
                    assert(n@.subrange(0, n@.len() as int) =~= n@);
                }
            },
            GrammarError::UnusedRule(n) => {
                crate::text::push_str_chars(&mut out, "Unused rule: ");
                crate::text::push_range(&mut out, n, 0, n.len());
                proof {
                    assert(n@.subrange(0, n@.len() as int) =~= n@);
                }
            },
            GrammarError::InvalidKeywordRule(n) => {
                crate::text::push_str_chars(&mut out, "Invalid keyword rule: ");
                crate::text::push_range(&mut out, n, 0, n.len());
                proof {
                    assert(n@.subrange(0, n@.len() as int) =~= n@);
                }
            },
        }
        chars_to_string(&out)
    }
}

/// The message text of each grammar error.
pub open spec fn describe_error_spec(e: GErr) -> Seq<char> {
    match e {
        GErr::InvalidGrammar(l) => "Invalid grammar at line "@ + crate::text::dec_chars(
            l as nat,
        ),
        GErr::InvalidRule(n) => "Invalid rule: "@ + n,
        GErr::InvalidInternalRule(n) => "Invalid internal rule: "@ + n,
        GErr::UnusedRule(n) => "Unused rule: "@ + n,
        GErr::InvalidKeywordRule(n) => "Invalid keyword rule: "@ + n,
    }
}

} // verus!
