//! The parsing engine: a backtracking recursive-descent matcher over the
//! compiled rule table. It produces a positioned parse tree and a list of
//! recoverable syntax errors for one document.
//!
//! Matching is first-match-wins ordered choice. When no alternative of a rule
//! fully succeeds, the failed alternatives' partial progress is kept as
//! candidates, and the best-scoring candidate (earliest on ties) either
//! becomes a recovered partial node with a recorded syntax error, or the rule
//! silently yields an empty node at its start position.
//!
//! Rule references are matched under a recursion budget ([`spec_fuel`]); a
//! reference whose budget is exhausted behaves like a reference that matched
//! nothing. The budget is far beyond what any terminating grammar reaches.
use vstd::prelude::*;

verus! {

use crate::grammar::{
    Analyzer, Expression, GExpr, GGrammar, find_rule_idx, grammar_view, rule_view,
};
use crate::text::{clone_chars, is_space_char, match_at, starts_with_at, str_to_chars, chars_eq_str};

/// One node of the parse tree: a rule name, a span `[start, end)` of
/// character offsets into the document, and, for an interior node, the
/// ordered children.
#[derive(Debug)]
pub struct Token {
    pub rule: Vec<char>,
    pub start: usize,
    pub end: usize,
    pub children: Option<Vec<Token>>,
}

/// One recoverable syntax error: a message and the `[first, last)` character
/// offsets of the region the failed rule covered.
#[derive(Debug)]
pub struct Error {
    pub message: &'static str,
    pub first: usize,
    pub last: usize,
}

// ---------------------------------------------------------------------------
// Mathematical model
// ---------------------------------------------------------------------------

/// Model of one parse-tree node.
pub struct SNode {
    pub rule: Seq<char>,
    pub start: nat,
    pub end: nat,
    pub children: Option<Seq<SNode>>,
}

/// Model of one syntax error.
pub struct SErr {
    pub msg: Seq<char>,
    pub first: nat,
    pub last: nat,
}

/// Partial progress of one failed alternative: the cursor where it stopped,
/// its score over the alternative's component count, and the children built
/// so far.
pub struct SCand {
    pub pos: nat,
    pub score: nat,
    pub total: nat,
    pub children: Seq<SNode>,
}

/// The outcome of matching one rule: the node and the syntax errors emitted
/// while matching it.
pub struct SMatch {
    pub node: SNode,
    pub errs: Seq<SErr>,
}

/// The outcome of walking one alternative: either every component matched,
/// or the alternative was abandoned (with a candidate unless the failing
/// component was a rule reference). Either way the sub-rules walked along the
/// way may have emitted errors.
pub enum SAltOut {
    Done { pos: nat, children: Seq<SNode>, errs: Seq<SErr> },
    Abandon { cand: Option<SCand>, errs: Seq<SErr> },
}

pub open spec fn token_view(t: Token) -> SNode
    decreases t,
{
    SNode {
        rule: t.rule@,
        start: t.start as nat,
        end: t.end as nat,
        children: match t.children {
            Option::Some(cs) => Option::Some(tokens_view(cs@)),
            Option::None => Option::None,
        },
    }
}

pub open spec fn tokens_view(ts: Seq<Token>) -> Seq<SNode>
    decreases ts,
{
    if ts.len() == 0 {
        Seq::empty()
    } else {
        seq![token_view(ts[0])] + tokens_view(ts.drop_first())
    }
}

pub open spec fn err_view(e: Error) -> SErr {
    SErr { msg: e.message@, first: e.first as nat, last: e.last as nat }
}

pub open spec fn errs_view(es: Seq<Error>) -> Seq<SErr> {
    es.map_values(|e: Error| err_view(e))
}

proof fn lemma_tokens_view_push(ts: Seq<Token>, t: Token)
    ensures
        tokens_view(ts.push(t)) == tokens_view(ts).push(token_view(t)),
    decreases ts.len(),
{
    if ts.len() == 0 {
        assert(ts.push(t).drop_first() =~= Seq::<Token>::empty());
        assert(tokens_view(Seq::<Token>::empty()) == Seq::<SNode>::empty());
        assert(ts.push(t)[0] == t);
        assert(tokens_view(ts) == Seq::<SNode>::empty());
        assert(tokens_view(ts.push(t)) =~= tokens_view(ts).push(token_view(t)));
    } else {
        assert(ts.push(t).drop_first() =~= ts.drop_first().push(t));
        lemma_tokens_view_push(ts.drop_first(), t);
        assert(ts.push(t)[0] == ts[0]);
        assert(tokens_view(ts.push(t)) =~= tokens_view(ts).push(token_view(t)));
    }
}

proof fn lemma_tokens_view_len(ts: Seq<Token>)
    ensures
        tokens_view(ts).len() == ts.len(),
    decreases ts.len(),
{
    if ts.len() > 0 {
        lemma_tokens_view_len(ts.drop_first());
    }
}

// ---------------------------------------------------------------------------
// Character classes
// ---------------------------------------------------------------------------

/// The built-in character classes, per single character. A name that is not
/// a class (which validation rejects) holds of no character.
pub open spec fn class_char(name: Seq<char>, c: char) -> bool {
    if name == "ASCII_DIGIT"@ {
        48 <= (c as u32) <= 57
    } else if name == "ASCII_ALPHA"@ {
        (65 <= (c as u32) <= 90) || (97 <= (c as u32) <= 122)
    } else if name == "ASCII_ALPHANUMERIC"@ {
        (48 <= (c as u32) <= 57) || (65 <= (c as u32) <= 90) || (97 <= (c as u32) <= 122)
    } else if name == "ANY"@ {
        (c as u32) < 128
    } else if name == "WHITESPACE"@ {
        is_space_char(c)
    } else {
        false
    }
}

/// End of the greedy run of class characters starting at `pos`.
pub open spec fn run_end(doc: Seq<char>, name: Seq<char>, pos: nat) -> nat
    decreases doc.len() - pos,
{
    if pos < doc.len() && class_char(name, doc[pos as int]) {
        run_end(doc, name, (pos + 1) as nat)
    } else {
        pos
    }
}

// ---------------------------------------------------------------------------
// Keyword resolution
// ---------------------------------------------------------------------------

/// The keyword reference can be resolved without going out of bounds: the
/// named rule exists and owns a first alternative with a first component.
pub open spec fn kw_shape_ok(g: GGrammar, name: Seq<char>) -> bool {
    let i = find_rule_idx(g.rules, name);
    i >= 0 && g.rules[i].alts.len() > 0 && g.rules[i].alts[0].len() > 0
}

/// The first component of the named rule's first alternative.
pub open spec fn kw_first(g: GGrammar, name: Seq<char>) -> GExpr {
    g.rules[find_rule_idx(g.rules, name)].alts[0][0]
}

// ---------------------------------------------------------------------------
// Candidate selection
// ---------------------------------------------------------------------------

/// `a` scores strictly better than `b`: the score fractions `a.score /
/// a.total` and `b.score / b.total` compared by cross-multiplication.
pub open spec fn frac_gt(a: SCand, b: SCand) -> bool {
    a.score * b.total > b.score * a.total
}

/// Index of the best candidate among `cands[best]` and `cands[i..]`;
/// earliest-recorded wins ties.
pub open spec fn best_from(cands: Seq<SCand>, i: int, best: int) -> int
    decreases cands.len() - i,
{
    if i < 0 || i >= cands.len() {
        best
    } else {
        best_from(cands, i + 1, if frac_gt(cands[i], cands[best]) { i } else { best })
    }
}

pub open spec fn best_idx(cands: Seq<SCand>) -> int {
    best_from(cands, 1, 0)
}

proof fn lemma_best_in_range(cands: Seq<SCand>, i: int, best: int)
    requires
        0 <= best < cands.len(),
    ensures
        0 <= best_from(cands, i, best) < cands.len(),
    decreases cands.len() - i,
{
    if 0 <= i < cands.len() {
        lemma_best_in_range(cands, i + 1, if frac_gt(cands[i], cands[best]) { i } else { best });
    }
}

pub open spec fn empty_snode(rule: Seq<char>, start: nat) -> SNode {
    SNode { rule, start, end: start, children: Option::Some(Seq::empty()) }
}

pub open spec fn leaf_snode(rule: Seq<char>, start: nat, end: nat) -> SNode {
    SNode { rule, start, end, children: Option::None }
}

/// What a rule yields when no alternative fully matched: the best candidate
/// becomes a recovered partial node with a recorded syntax error if it kept
/// more than one child, and otherwise the rule yields an empty node at its
/// start position, silently.
pub open spec fn select_cand(rule: Seq<char>, start: nat, cands: Seq<SCand>) -> SMatch {
    if cands.len() == 0 {
        SMatch { node: empty_snode(rule, start), errs: Seq::empty() }
    } else {
        let c = cands[best_idx(cands)];
        if c.children.len() > 1 {
            SMatch {
                node: SNode { rule, start, end: c.pos, children: Option::Some(c.children) },
                errs: seq![SErr { msg: "Syntax error"@, first: start, last: c.pos }],
            }
        } else {
            SMatch { node: empty_snode(rule, start), errs: Seq::empty() }
        }
    }
}

// ---------------------------------------------------------------------------
// The matcher
// ---------------------------------------------------------------------------

/// One rule matched at `start`: ordered choice over its alternatives, with
/// candidate-based recovery when none fully succeeds. `fuel` bounds the
/// depth of rule-reference recursion. The returned errors are exactly those
/// emitted while matching this rule, in order of emission.
pub open spec fn match_rule_spec(
    g: GGrammar,
    rule: Seq<char>,
    start: nat,
    doc: Seq<char>,
    fuel: nat,
) -> SMatch
    decreases fuel, 2int, 0int,
{
    if fuel == 0 {
        SMatch { node: empty_snode(rule, start), errs: Seq::empty() }
    } else {
        let i = find_rule_idx(g.rules, rule);
        if i < 0 {
            SMatch { node: empty_snode(rule, start), errs: Seq::empty() }
        } else {
            alts_loop_spec(g, rule, g.rules[i].alts, 0, start, Seq::empty(), doc, fuel)
        }
    }
}

/// The alternatives of `rule` from index `ai` on, given the candidates
/// collected from the alternatives already abandoned.
pub open spec fn alts_loop_spec(
    g: GGrammar,
    rule: Seq<char>,
    alts: Seq<Seq<GExpr>>,
    ai: int,
    start: nat,
    cands: Seq<SCand>,
    doc: Seq<char>,
    fuel: nat,
) -> SMatch
    decreases fuel, 1int, alts.len() - ai,
{
    if ai < 0 || ai >= alts.len() {
        select_cand(rule, start, cands)
    } else {
        match try_alt_spec(g, alts[ai], 0, start, 0, Seq::empty(), doc, fuel) {
            SAltOut::Done { pos, children, errs } => SMatch {
                node: SNode { rule, start, end: pos, children: Option::Some(children) },
                errs,
            },
            SAltOut::Abandon { cand, errs } => {
                let cands2 = match cand {
                    Option::Some(c) => cands.push(c),
                    Option::None => cands,
                };
                let m = alts_loop_spec(g, rule, alts, ai + 1, start, cands2, doc, fuel);
                SMatch { node: m.node, errs: errs + m.errs }
            },
        }
    }
}

/// The components of one alternative from index `ci` on, walking a local
/// cursor, a score of matched components, and the children built so far.
pub open spec fn try_alt_spec(
    g: GGrammar,
    alt: Seq<GExpr>,
    ci: int,
    pos: nat,
    score: nat,
    children: Seq<SNode>,
    doc: Seq<char>,
    fuel: nat,
) -> SAltOut
    decreases fuel, 0int, alt.len() - ci,
{
    if ci < 0 || ci >= alt.len() {
        SAltOut::Done { pos, children, errs: Seq::empty() }
    } else {
        match alt[ci] {
            GExpr::Literal(l) => if match_at(doc, l, pos as int) {
                try_alt_spec(
                    g,
                    alt,
                    ci + 1,
                    (pos + l.len()) as nat,
                    score + 1,
                    children.push(leaf_snode("string"@, pos, (pos + l.len()) as nat)),
                    doc,
                    fuel,
                )
            } else {
                SAltOut::Abandon {
                    cand: Option::Some(SCand { pos, score, total: alt.len(), children }),
                    errs: Seq::empty(),
                }
            },
            GExpr::KeywordRef(n) => if !kw_shape_ok(g, n) {
                try_alt_spec(g, alt, ci + 1, pos, score, children, doc, fuel)
            } else {
                match kw_first(g, n) {
                    GExpr::Literal(l) => if match_at(doc, l, pos as int) {
                        try_alt_spec(
                            g,
                            alt,
                            ci + 1,
                            (pos + l.len()) as nat,
                            score + 1,
                            children.push(leaf_snode("keyword"@, pos, (pos + l.len()) as nat)),
                            doc,
                            fuel,
                        )
                    } else {
                        SAltOut::Abandon {
                            cand: Option::Some(SCand { pos, score, total: alt.len(), children }),
                            errs: Seq::empty(),
                        }
                    },
                    _ => try_alt_spec(g, alt, ci + 1, pos, score, children, doc, fuel),
                }
            },
            GExpr::InternalRuleRef(n) => if n == "EMPTY"@ {
                try_alt_spec(g, alt, ci + 1, pos, score, children, doc, fuel)
            } else {
                let e = run_end(doc, n, pos);
                if e == pos {
                    SAltOut::Abandon {
                        cand: Option::Some(SCand { pos, score, total: alt.len(), children }),
                        errs: Seq::empty(),
                    }
                } else {
                    try_alt_spec(
                        g,
                        alt,
                        ci + 1,
                        e,
                        score + 1,
                        children.push(leaf_snode("internal_rule"@, pos, e)),
                        doc,
                        fuel,
                    )
                }
            },
            GExpr::RuleRef(n) => if fuel == 0 {
                SAltOut::Abandon { cand: Option::None, errs: Seq::empty() }
            } else {
                let m = match_rule_spec(g, n, pos, doc, (fuel - 1) as nat);
                if m.node.end == pos {
                    SAltOut::Abandon { cand: Option::None, errs: m.errs }
                } else {
                    let rest = try_alt_spec(
                        g,
                        alt,
                        ci + 1,
                        m.node.end,
                        score + 1,
                        children.push(m.node),
                        doc,
                        fuel,
                    );
                    match rest {
                        SAltOut::Done { pos: p2, children: c2, errs } => SAltOut::Done {
                            pos: p2,
                            children: c2,
                            errs: m.errs + errs,
                        },
                        SAltOut::Abandon { cand, errs } => SAltOut::Abandon {
                            cand,
                            errs: m.errs + errs,
                        },
                    }
                }
            },
        }
    }
}

/// The recursion budget for rule references.
pub open spec fn spec_fuel() -> nat {
    u64::MAX as nat
}

/// The top-level scan: units of the start rule collected from `pos` on. One
/// character is skipped after each unit (resynchronization), and while more
/// than one character would remain unconsumed, the skipped character becomes
/// a synthetic `unknown` child of the unit.
pub open spec fn parse_units_spec(g: GGrammar, doc: Seq<char>, pos: nat) -> (Seq<SNode>, Seq<
    SErr,
>)
    decreases doc.len() - pos,
{
    if pos >= doc.len() {
        (Seq::empty(), Seq::empty())
    } else {
        let m = match_rule_spec(g, g.start, pos, doc, spec_fuel());
        let k = m.node.end;
        let unit = if k + 1 < doc.len() {
            match m.node.children {
                Option::Some(cs) => SNode {
                    rule: m.node.rule,
                    start: m.node.start,
                    end: m.node.end,
                    children: Option::Some(cs.push(leaf_snode("unknown"@, k, (k + 1) as nat))),
                },
                Option::None => m.node,
            }
        } else {
            m.node
        };
        let next0 = if k + 1 > pos { (k + 1) as nat } else { (pos + 1) as nat };
        let next = if next0 <= doc.len() { next0 } else { doc.len() };
        let rest = parse_units_spec(g, doc, next);
        (seq![unit] + rest.0, m.errs + rest.1)
    }
}

/// One whole document parsed: a synthetic root node spanning the document
/// whose children are the top-level units, and the syntax errors in order.
pub open spec fn parse_spec(g: GGrammar, doc: Seq<char>) -> (SNode, Seq<SErr>) {
    let units = parse_units_spec(g, doc, 0);
    (
        SNode { rule: "root"@, start: 0, end: doc.len(), children: Option::Some(units.0) },
        units.1,
    )
}

/// Law: a grammar that validation accepts resolves every keyword reference
/// it contains, provided the references name keyword rules (which holds of
/// every compiled grammar): the referenced rule exists and owns exactly one
/// alternative of exactly one component, so keyword matching never skips a
/// component for want of a resolvable rule.
pub proof fn lemma_validated_keyword_refs_resolve(g: GGrammar, i: int, j: int, k: int)
    requires
        crate::grammar::validate_spec(g) is None,
        crate::grammar::rules_kw_named(g.rules),
        0 <= i < g.rules.len(),
        0 <= j < g.rules[i].alts.len(),
        0 <= k < g.rules[i].alts[j].len(),
        g.rules[i].alts[j][k] is KeywordRef,
    ensures
        kw_shape_ok(g, g.rules[i].alts[j][k]->KeywordRef_0),
        g.rules[i].alts[j][k]->KeywordRef_0 == g.rules[find_rule_idx(
            g.rules,
            g.rules[i].alts[j][k]->KeywordRef_0,
        )].name,
{
    let n = g.rules[i].alts[j][k]->KeywordRef_0;
    assert(crate::grammar::check_refs(g, 0) is None);
    assert(crate::grammar::check_rules(g, 0) is None);
    crate::grammar::lemma_check_refs_none(g, 0, i);
    crate::grammar::lemma_check_alts_none(g, g.rules[i].alts, 0, j);
    crate::grammar::lemma_check_exprs_none(g, g.rules[i].alts[j], 0, k);
    let r = find_rule_idx(g.rules, n);
    crate::grammar::lemma_find_rule_found(g.rules, n, 0);
    assert(crate::grammar::is_keyword_name(n)) by {
        assert(crate::grammar::alts_kw_named(g.rules[i].alts));
        assert(crate::grammar::alt_kw_named(g.rules[i].alts[j]));
    }
    crate::grammar::lemma_check_rules_none(g, 0, r);
}

// ---------------------------------------------------------------------------
// Well-formedness of the produced trees and errors
// ---------------------------------------------------------------------------

/// Every span of the subtree lies within a document of length `len`, with
/// `start <= end` at every node.
pub open spec fn snode_wf(n: SNode, len: nat) -> bool
    decreases n,
{
    n.start <= n.end <= len && match n.children {
        Option::Some(cs) => snodes_wf(cs, len),
        Option::None => true,
    }
}

pub open spec fn snodes_wf(cs: Seq<SNode>, len: nat) -> bool
    decreases cs,
{
    cs.len() == 0 || (snode_wf(cs[0], len) && snodes_wf(cs.drop_first(), len))
}

/// Every error's span lies within the document, with `first <= last`.
pub open spec fn serrs_wf(es: Seq<SErr>, len: nat) -> bool {
    forall|i: int| 0 <= i < es.len() ==> (#[trigger] es[i]).first <= es[i].last <= len
}

proof fn lemma_snodes_wf_push(cs: Seq<SNode>, len: nat, x: SNode)
    requires
        snodes_wf(cs, len),
        snode_wf(x, len),
    ensures
        snodes_wf(cs.push(x), len),
    decreases cs.len(),
{
    if cs.len() == 0 {
        assert(cs.push(x)[0] == x);
        assert(cs.push(x).drop_first() =~= Seq::<SNode>::empty());
        assert(snodes_wf(Seq::<SNode>::empty(), len));
    } else {
        assert(cs.push(x)[0] == cs[0]);
        assert(cs.push(x).drop_first() =~= cs.drop_first().push(x));
        lemma_snodes_wf_push(cs.drop_first(), len, x);
    }
}

proof fn lemma_run_end_bounds(doc: Seq<char>, name: Seq<char>, pos: nat)
    requires
        pos <= doc.len(),
    ensures
        pos <= run_end(doc, name, pos) <= doc.len(),
    decreases doc.len() - pos,
{
    if pos < doc.len() && class_char(name, doc[pos as int]) {
        lemma_run_end_bounds(doc, name, (pos + 1) as nat);
    }
}

proof fn lemma_try_alt_wf(
    g: GGrammar,
    alt: Seq<GExpr>,
    ci: int,
    pos: nat,
    score: nat,
    children: Seq<SNode>,
    doc: Seq<char>,
    fuel: nat,
)
    requires
        pos <= doc.len(),
        snodes_wf(children, doc.len()),
    ensures
        match try_alt_spec(g, alt, ci, pos, score, children, doc, fuel) {
            SAltOut::Done { pos: p, children: cs, errs } => pos <= p <= doc.len() && snodes_wf(
                cs,
                doc.len(),
            ) && serrs_wf(errs, doc.len()),
            SAltOut::Abandon { cand, errs } => serrs_wf(errs, doc.len()) && match cand {
                Option::Some(c) => pos <= c.pos <= doc.len() && snodes_wf(c.children, doc.len()),
                Option::None => true,
            },
        },
    decreases fuel, 0int, alt.len() - ci,
{
    if ci < 0 || ci >= alt.len() {
    } else {
        match alt[ci] {
            GExpr::Literal(l) => {
                if match_at(doc, l, pos as int) {
                    let p2 = (pos + l.len()) as nat;
                    lemma_snodes_wf_push(children, doc.len(), leaf_snode("string"@, pos, p2));
                    lemma_try_alt_wf(
                        g,
                        alt,
                        ci + 1,
                        p2,
                        score + 1,
                        children.push(leaf_snode("string"@, pos, p2)),
                        doc,
                        fuel,
                    );
                }
            },
            GExpr::KeywordRef(n) => {
                if !kw_shape_ok(g, n) {
                    lemma_try_alt_wf(g, alt, ci + 1, pos, score, children, doc, fuel);
                } else {
                    match kw_first(g, n) {
                        GExpr::Literal(l) => {
                            if match_at(doc, l, pos as int) {
                                let p2 = (pos + l.len()) as nat;
                                lemma_snodes_wf_push(
                                    children,
                                    doc.len(),
                                    leaf_snode("keyword"@, pos, p2),
                                );
                                lemma_try_alt_wf(
                                    g,
                                    alt,
                                    ci + 1,
                                    p2,
                                    score + 1,
                                    children.push(leaf_snode("keyword"@, pos, p2)),
                                    doc,
                                    fuel,
                                );
                            }
                        },
                        _ => {
                            lemma_try_alt_wf(g, alt, ci + 1, pos, score, children, doc, fuel);
                        },
                    }
                }
            },
            GExpr::InternalRuleRef(n) => {
                if n == "EMPTY"@ {
                    lemma_try_alt_wf(g, alt, ci + 1, pos, score, children, doc, fuel);
                } else {
                    let e = run_end(doc, n, pos);
                    lemma_run_end_bounds(doc, n, pos);
                    if e != pos {
                        lemma_snodes_wf_push(children, doc.len(), leaf_snode("internal_rule"@, pos, e));
                        lemma_try_alt_wf(
                            g,
                            alt,
                            ci + 1,
                            e,
                            score + 1,
                            children.push(leaf_snode("internal_rule"@, pos, e)),
                            doc,
                            fuel,
                        );
                    }
                }
            },
            GExpr::RuleRef(n) => {
                if fuel == 0 {
                } else {
                    let m = match_rule_spec(g, n, pos, doc, (fuel - 1) as nat);
                    lemma_match_rule_wf(g, n, pos, doc, (fuel - 1) as nat);
                    if m.node.end == pos {
                    } else {
                        lemma_snodes_wf_push(children, doc.len(), m.node);
                        lemma_try_alt_wf(
                            g,
                            alt,
                            ci + 1,
                            m.node.end,
                            score + 1,
                            children.push(m.node),
                            doc,
                            fuel,
                        );
                    }
                }
            },
        }
    }
}

proof fn lemma_alts_loop_wf(
    g: GGrammar,
    rule: Seq<char>,
    alts: Seq<Seq<GExpr>>,
    ai: int,
    start: nat,
    cands: Seq<SCand>,
    doc: Seq<char>,
    fuel: nat,
)
    requires
        start <= doc.len(),
        forall|q: int|
            0 <= q < cands.len() ==> start <= (#[trigger] cands[q]).pos <= doc.len() && snodes_wf(
                cands[q].children,
                doc.len(),
            ),
    ensures
        ({
            let m = alts_loop_spec(g, rule, alts, ai, start, cands, doc, fuel);
            snode_wf(m.node, doc.len()) && start <= m.node.end <= doc.len() && serrs_wf(
                m.errs,
                doc.len(),
            )
        }),
    decreases fuel, 1int, alts.len() - ai,
{
    if ai < 0 || ai >= alts.len() {
        if cands.len() > 0 {
            lemma_best_in_range(cands, 1, 0);
        }
    } else {
        lemma_try_alt_wf(g, alts[ai], 0, start, 0, Seq::empty(), doc, fuel);
        match try_alt_spec(g, alts[ai], 0, start, 0, Seq::empty(), doc, fuel) {
            SAltOut::Done { .. } => {},
            SAltOut::Abandon { cand, .. } => {
                let cands2 = match cand {
                    Option::Some(c) => cands.push(c),
                    Option::None => cands,
                };
                assert(forall|q: int|
                    0 <= q < cands2.len() ==> start <= (#[trigger] cands2[q]).pos <= doc.len()
                        && snodes_wf(cands2[q].children, doc.len()));
                lemma_alts_loop_wf(g, rule, alts, ai + 1, start, cands2, doc, fuel);
            },
        }
    }
}

pub proof fn lemma_match_rule_wf(g: GGrammar, rule: Seq<char>, start: nat, doc: Seq<char>, fuel: nat)
    requires
        start <= doc.len(),
    ensures
        ({
            let m = match_rule_spec(g, rule, start, doc, fuel);
            snode_wf(m.node, doc.len()) && start <= m.node.end <= doc.len() && serrs_wf(
                m.errs,
                doc.len(),
            )
        }),
    decreases fuel, 2int, 0int,
{
    if fuel == 0 {
    } else {
        let i = find_rule_idx(g.rules, rule);
        if i < 0 {
        } else {
            lemma_alts_loop_wf(g, rule, g.rules[i].alts, 0, start, Seq::empty(), doc, fuel);
        }
    }
}

proof fn lemma_parse_units_wf(g: GGrammar, doc: Seq<char>, pos: nat)
    requires
        pos <= doc.len(),
    ensures
        ({
            let r = parse_units_spec(g, doc, pos);
            snodes_wf(r.0, doc.len()) && serrs_wf(r.1, doc.len())
        }),
    decreases doc.len() - pos,
{
    if pos >= doc.len() {
    } else {
        let m = match_rule_spec(g, g.start, pos, doc, spec_fuel());
        lemma_match_rule_wf(g, g.start, pos, doc, spec_fuel());
        let k = m.node.end;
        let unit = if k + 1 < doc.len() {
            match m.node.children {
                Option::Some(cs) => SNode {
                    rule: m.node.rule,
                    start: m.node.start,
                    end: m.node.end,
                    children: Option::Some(cs.push(leaf_snode("unknown"@, k, (k + 1) as nat))),
                },
                Option::None => m.node,
            }
        } else {
            m.node
        };
        assert(snode_wf(unit, doc.len())) by {
            if k + 1 < doc.len() {
                match m.node.children {
                    Option::Some(cs) => {
                        lemma_snodes_wf_push(
                            cs,
                            doc.len(),
                            leaf_snode("unknown"@, k, (k + 1) as nat),
                        );
                    },
                    Option::None => {},
                }
            }
        }
        let next0 = if k + 1 > pos { (k + 1) as nat } else { (pos + 1) as nat };
        let next = if next0 <= doc.len() { next0 } else { doc.len() };
        lemma_parse_units_wf(g, doc, next);
        let rest = parse_units_spec(g, doc, next);
        assert(snodes_wf(seq![unit] + rest.0, doc.len())) by {
            assert((seq![unit] + rest.0).len() > 0);
            assert((seq![unit] + rest.0)[0] == unit);
            assert((seq![unit] + rest.0).drop_first() =~= rest.0);
        }
    }
}

/// The whole parse of a document yields a tree whose every span lies within
/// the document and errors whose spans do too.
pub proof fn lemma_parse_wf(g: GGrammar, doc: Seq<char>)
    ensures
        snode_wf(parse_spec(g, doc).0, doc.len()),
        serrs_wf(parse_spec(g, doc).1, doc.len()),
{
    lemma_parse_units_wf(g, doc, 0);
}

// ---------------------------------------------------------------------------
// Executable matcher
// ---------------------------------------------------------------------------

/// Partial progress of one abandoned alternative.
struct Cand {
    pos: usize,
    score: usize,
    total: usize,
    children: Vec<Token>,
}

spec fn cand_view(c: Cand) -> SCand {
    SCand {
        pos: c.pos as nat,
        score: c.score as nat,
        total: c.total as nat,
        children: tokens_view(c.children@),
    }
}

spec fn cands_view(cs: Seq<Cand>) -> Seq<SCand> {
    cs.map_values(|c: Cand| cand_view(c))
}

/// Outcome of walking one alternative.
enum AltOutcome {
    Done { pos: usize, children: Vec<Token> },
    Abandon { cand: Option<Cand> },
}

/// Whether `c` belongs to the class named `name`.
fn class_char_exec(name: &Vec<char>, c: char) -> (r: bool)
    ensures
        r == class_char(name@, c),
{
    let u = c as u32;
    if chars_eq_str(name, "ASCII_DIGIT") {
        48 <= u && u <= 57
    } else if chars_eq_str(name, "ASCII_ALPHA") {
        (65 <= u && u <= 90) || (97 <= u && u <= 122)
    } else if chars_eq_str(name, "ASCII_ALPHANUMERIC") {
        (48 <= u && u <= 57) || (65 <= u && u <= 90) || (97 <= u && u <= 122)
    } else if chars_eq_str(name, "ANY") {
        u < 128
    } else if chars_eq_str(name, "WHITESPACE") {
        crate::text::is_space_exec(c)
    } else {
        false
    }
}

/// The end of the greedy class run starting at `pos`.
#[verifier::loop_isolation(false)]
fn run_end_exec(doc: &Vec<char>, name: &Vec<char>, pos: usize) -> (r: usize)
    requires
        pos <= doc@.len(),
    ensures
        r as nat == run_end(doc@, name@, pos as nat),
        pos <= r <= doc@.len(),
{
    let mut end = pos;
    while end < doc.len() && class_char_exec(name, doc[end])
        invariant
            pos <= end <= doc@.len(),
            run_end(doc@, name@, pos as nat) == run_end(doc@, name@, end as nat),
        decreases doc@.len() - end,
    {
        end = end + 1;
    }
    end
}

/// Whether `a` scores strictly better than `b`.
fn frac_gt_exec(a: &Cand, b: &Cand) -> (r: bool)
    ensures
        r == frac_gt(cand_view(*a), cand_view(*b)),
{
    let sa = a.score as u128;
    let tb = b.total as u128;
    let sb = b.score as u128;
    let ta = a.total as u128;
    proof {
        assert(sa * tb < 0x100000000000000000000000000000000) by (nonlinear_arith)
            requires
                sa < 0x10000000000000000,
                tb < 0x10000000000000000,
        ;
        assert(sb * ta < 0x100000000000000000000000000000000) by (nonlinear_arith)
            requires
                sb < 0x10000000000000000,
                ta < 0x10000000000000000,
        ;
    }
    let x = sa * tb;
    let y = sb * ta;
    x > y
}

impl Analyzer {
    /// Matches `rule` at `start`, appending any recovered syntax errors, and
    /// returns the node together with the cursor after it (which always
    /// equals the node's end).
    #[verifier::loop_isolation(false)]
    fn match_rule(
        &self,
        rule: &Vec<char>,
        start: usize,
        doc: &Vec<char>,
        fuel: u64,
        errors: &mut Vec<Error>,
    ) -> (r: (Token, usize))
        requires
            start <= doc@.len(),
        ensures
            ({
                let m = match_rule_spec(
                    grammar_view(*self),
                    rule@,
                    start as nat,
                    doc@,
                    fuel as nat,
                );
                token_view(r.0) == m.node && r.1 as nat == m.node.end && start <= r.1 <= doc@.len()
                    && errs_view(final(errors)@) == errs_view(old(errors)@) + m.errs
            }),
        decreases fuel, 1int,
    {
        let ghost g = grammar_view(*self);
        let ghost m = match_rule_spec(g, rule@, start as nat, doc@, fuel as nat);
        if fuel == 0 {
            let node = Token {
                rule: clone_chars(rule),
                start,
                end: start,
                children: Option::Some(Vec::new()),
            };
            proof {
                assert(token_view(node) == empty_snode(rule@, start as nat));
                assert(errs_view(errors@) =~= errs_view(errors@) + Seq::<SErr>::empty());
            }
            return (node, start);
        }
        let idx = match crate::grammar::find_rule_exec(&self.grammar, rule) {
            Option::None => {
                let node = Token {
                    rule: clone_chars(rule),
                    start,
                    end: start,
                    children: Option::Some(Vec::new()),
                };
                proof {
                    assert(token_view(node) == empty_snode(rule@, start as nat));
                    assert(errs_view(errors@) =~= errs_view(errors@) + Seq::<SErr>::empty());
                }
                return (node, start);
            },
            Option::Some(i) => i,
        };
        let alts = &self.grammar[idx].alternatives;
        let ghost galts = g.rules[idx as int].alts;
        proof {
            assert(g.rules[idx as int] == rule_view(self.grammar@[idx as int]));
        }
        let dlen = doc.len();
        let mut cands: Vec<Cand> = Vec::new();
        let ghost mut delta: Seq<SErr> = Seq::empty();
        proof {
            assert(cands_view(cands@) =~= Seq::<SCand>::empty());
            let m2 = alts_loop_spec(
                g,
                rule@,
                galts,
                0,
                start as nat,
                Seq::empty(),
                doc@,
                fuel as nat,
            );
            assert(Seq::<SErr>::empty() + m2.errs =~= m2.errs);
        }
        let mut ai: usize = 0;
        while ai < alts.len()
            invariant
                ai <= alts@.len(),
                forall|q: int| 0 <= q < cands@.len() ==> start <= #[trigger] cands@[q].pos
                    <= doc@.len(),
                errs_view(errors@) == errs_view(old(errors)@) + delta,
                m == ({
                    let m2 = alts_loop_spec(
                        g,
                        rule@,
                        galts,
                        ai as int,
                        start as nat,
                        cands_view(cands@),
                        doc@,
                        fuel as nat,
                    );
                    SMatch { node: m2.node, errs: delta + m2.errs }
                }),
            decreases alts@.len() - ai,
        {
            let ghost galt = galts[ai as int];
            proof {
                assert(galt == crate::grammar::alt_view(alts@[ai as int]@));
            }
            let ghost out = try_alt_spec(
                g,
                galt,
                0,
                start as nat,
                0,
                Seq::empty(),
                doc@,
                fuel as nat,
            );
            let ghost cands_before = cands_view(cands@);
            let ghost delta_before = delta;
            match self.try_alt(&alts[ai], start, doc, fuel, errors) {
                AltOutcome::Done { pos, children } => {
                    let node = Token {
                        rule: clone_chars(rule),
                        start,
                        end: pos,
                        children: Option::Some(children),
                    };
                    proof {
                        assert(token_view(node) == m.node);
                        assert(errs_view(errors@) =~= errs_view(old(errors)@) + m.errs);
                    }
                    return (node, pos);
                },
                AltOutcome::Abandon { cand } => {
                    proof {
                        delta = delta_before + out->Abandon_errs;
                    }
                    match cand {
                        Option::Some(c) => {
                            cands.push(c);
                            proof {
                                assert(cands_view(cands@) =~= cands_before.push(
                                    cand_view(cands@[cands@.len() - 1]),
                                ));
                            }
                        },
                        Option::None => {},
                    }
                    ai = ai + 1;
                    proof {
                        assert(delta + alts_loop_spec(
                            g,
                            rule@,
                            galts,
                            ai as int,
                            start as nat,
                            cands_view(cands@),
                            doc@,
                            fuel as nat,
                        ).errs =~= delta_before + (out->Abandon_errs + alts_loop_spec(
                            g,
                            rule@,
                            galts,
                            ai as int,
                            start as nat,
                            cands_view(cands@),
                            doc@,
                            fuel as nat,
                        ).errs));
                    }
                },
            }
        }
        // No alternative fully matched: pick the best candidate.
        if cands.len() == 0 {
            let node = Token {
                rule: clone_chars(rule),
                start,
                end: start,
                children: Option::Some(Vec::new()),
            };
            proof {
                assert(token_view(node) == empty_snode(rule@, start as nat));
                assert(errs_view(errors@) =~= errs_view(old(errors)@) + (delta
                    + Seq::<SErr>::empty()));
            }
            return (node, start);
        }
        let ghost cv = cands_view(cands@);
        let mut best: usize = 0;
        let mut bi: usize = 1;
        while bi < cands.len()
            invariant
                1 <= bi <= cands@.len(),
                best < cands@.len(),
                cv == cands_view(cands@),
                best_from(cv, bi as int, best as int) == best_idx(cv),
            decreases cands@.len() - bi,
        {
            if frac_gt_exec(&cands[bi], &cands[best]) {
                best = bi;
            }
            bi = bi + 1;
        }
        proof {
            assert(best as int == best_idx(cv));
        }
        let use_cand = cands[best].children.len() > 1;
        proof {
            lemma_tokens_view_len(cands@[best as int].children@);
        }
        if use_cand {
            let c = cands.swap_remove(best);
            let ghost errs_before = errors@;
            errors.push(Error { message: "Syntax error", first: start, last: c.pos });
            let node = Token {
                rule: clone_chars(rule),
                start,
                end: c.pos,
                children: Option::Some(c.children),
            };
            proof {
                assert(cand_view(c) == cv[best as int]);
                assert(token_view(node) == m.node);
                assert(err_view(errors@[errors@.len() - 1]) == SErr {
                    msg: "Syntax error"@,
                    first: start as nat,
                    last: c.pos as nat,
                });
                assert(errs_view(errors@) =~= errs_view(errs_before).push(
                    err_view(errors@[errors@.len() - 1]),
                ));
                assert(errs_view(errors@) =~= errs_view(old(errors)@) + (delta + seq![
                    SErr { msg: "Syntax error"@, first: start as nat, last: c.pos as nat },
                ]));
            }
            return (node, c.pos);
        }
        let node = Token {
            rule: clone_chars(rule),
            start,
            end: start,
            children: Option::Some(Vec::new()),
        };
        proof {
            assert(token_view(node) == empty_snode(rule@, start as nat));
            assert(errs_view(errors@) =~= errs_view(old(errors)@) + (delta + Seq::<SErr>::empty()));
        }
        return (node, start);
    }

    /// Parses one whole document against the grammar with the configured
    /// start rule. The outer scan collects top-level units of the start rule,
    /// skipping one character between units (resynchronization); while more
    /// than one character would remain, the skipped character becomes a
    /// synthetic `unknown` child of the unit. The result is a synthetic
    /// `root` node spanning the document, with the recovered syntax errors
    /// in order of emission.
    #[verifier::loop_isolation(false)]
    pub fn parse(&self, input: &str) -> (p: crate::parsed::Parsed)
        requires
            input@.len() < usize::MAX,
        ensures
            p.input@ == input@,
            token_view(p.token) == parse_spec(grammar_view(*self), input@).0,
            errs_view(p.errors@) == parse_spec(grammar_view(*self), input@).1,
    {
        let doc = str_to_chars(input);
        let dlen = doc.len();
        let mut errors: Vec<Error> = Vec::new();
        let mut units: Vec<Token> = Vec::new();
        let mut position: usize = 0;
        let ghost g = grammar_view(*self);
        let ghost full = parse_units_spec(g, doc@, 0);
        proof {
            assert(tokens_view(units@) == Seq::<SNode>::empty());
            assert(errs_view(errors@) =~= Seq::<SErr>::empty());
            assert(full.0 =~= tokens_view(units@) + parse_units_spec(g, doc@, 0).0);
            assert(full.1 =~= errs_view(errors@) + parse_units_spec(g, doc@, 0).1);
        }
        while position < dlen
            invariant
                dlen == doc@.len(),
                dlen < usize::MAX,
                doc@ == input@,
                g == grammar_view(*self),
                full == parse_units_spec(g, doc@, 0),
                full.0 == tokens_view(units@) + parse_units_spec(g, doc@, position as nat).0,
                full.1 == errs_view(errors@) + parse_units_spec(g, doc@, position as nat).1,
            decreases dlen - position,
        {
            let ghost m = match_rule_spec(g, g.start, position as nat, doc@, spec_fuel());
            let ghost errs_entry = errs_view(errors@);
            let ghost rest = parse_units_spec(g, doc@, position as nat);
            let (token, tmp) = self.match_rule(
                &self.initial_rule,
                position,
                &doc,
                u64::MAX,
                &mut errors,
            );
            let ghost units_before = tokens_view(units@);
            let unit = if tmp + 1 < dlen {
                match token.children {
                    Option::Some(mut cs) => {
                        let unk = Token {
                            rule: str_to_chars("unknown"),
                            start: tmp,
                            end: tmp + 1,
                            children: Option::None,
                        };
                        proof {
                            lemma_tokens_view_push(cs@, unk);
                        }
                        cs.push(unk);
                        Token {
                            rule: token.rule,
                            start: token.start,
                            end: token.end,
                            children: Option::Some(cs),
                        }
                    },
                    Option::None => Token {
                        rule: token.rule,
                        start: token.start,
                        end: token.end,
                        children: Option::None,
                    },
                }
            } else {
                token
            };
            proof {
                lemma_tokens_view_push(units@, unit);
            }
            units.push(unit);
            position = if tmp < dlen {
                tmp + 1
            } else {
                dlen
            };
            proof {
                assert(full.0 =~= tokens_view(units@) + parse_units_spec(
                    g,
                    doc@,
                    position as nat,
                ).0) by {
                    assert(units_before + (seq![token_view(units@[units@.len() - 1])]
                        + parse_units_spec(g, doc@, position as nat).0) =~= tokens_view(units@)
                        + parse_units_spec(g, doc@, position as nat).0);
                }
                assert(full.1 =~= errs_view(errors@) + parse_units_spec(
                    g,
                    doc@,
                    position as nat,
                ).1) by {
                    assert(errs_entry + (m.errs + parse_units_spec(g, doc@, position as nat).1)
                        =~= errs_view(errors@) + parse_units_spec(g, doc@, position as nat).1);
                }
            }
        }
        proof {
            assert(full.0 =~= tokens_view(units@));
            assert(full.1 =~= errs_view(errors@));
        }
        let root = Token {
            rule: str_to_chars("root"),
            start: 0,
            end: dlen,
            children: Option::Some(units),
        };
        crate::parsed::Parsed::new(doc, root, errors)
    }

    /// Walks the components of one alternative at `start`, appending the
    /// errors emitted by sub-rules along the way.
    #[verifier::loop_isolation(false)]
    fn try_alt(
        &self,
        alt: &Vec<Expression>,
        start: usize,
        doc: &Vec<char>,
        fuel: u64,
        errors: &mut Vec<Error>,
    ) -> (r: AltOutcome)
        requires
            start <= doc@.len(),
            fuel >= 1,
        ensures
            ({
                let out = try_alt_spec(
                    grammar_view(*self),
                    crate::grammar::alt_view(alt@),
                    0,
                    start as nat,
                    0,
                    Seq::empty(),
                    doc@,
                    fuel as nat,
                );
                match out {
                    SAltOut::Done { pos, children, errs } => r matches AltOutcome::Done {
                        pos: p,
                        children: cs,
                    } && p as nat == pos && tokens_view(cs@) == children && start <= p <= doc@.len()
                        && errs_view(final(errors)@) == errs_view(old(errors)@) + errs,
                    SAltOut::Abandon { cand, errs } => r matches AltOutcome::Abandon { cand: c }
                        && (match cand {
                        Option::Some(sc) => c matches Option::Some(ec) && cand_view(ec) == sc
                            && start <= ec.pos <= doc@.len(),
                        Option::None => c is None,
                    }) && errs_view(final(errors)@) == errs_view(old(errors)@) + errs,
                }
            }),
        decreases fuel, 0int,
    {
        let ghost g = grammar_view(*self);
        let ghost galt = crate::grammar::alt_view(alt@);
        let ghost out = try_alt_spec(g, galt, 0, start as nat, 0, Seq::empty(), doc@, fuel as nat);
        let dlen = doc.len();
        let mut pos = start;
        let mut score: usize = 0;
        let mut children: Vec<Token> = Vec::new();
        let ghost mut delta: Seq<SErr> = Seq::empty();
        let mut ci: usize = 0;
        while ci < alt.len()
            invariant
                ci <= alt@.len(),
                start <= pos <= doc@.len(),
                score <= ci,
                errs_view(errors@) == errs_view(old(errors)@) + delta,
                out == ({
                    let o2 = try_alt_spec(
                        g,
                        galt,
                        ci as int,
                        pos as nat,
                        score as nat,
                        tokens_view(children@),
                        doc@,
                        fuel as nat,
                    );
                    match o2 {
                        SAltOut::Done { pos: p2, children: c2, errs } => SAltOut::Done {
                            pos: p2,
                            children: c2,
                            errs: delta + errs,
                        },
                        SAltOut::Abandon { cand, errs } => SAltOut::Abandon {
                            cand,
                            errs: delta + errs,
                        },
                    }
                }),
            decreases alt@.len() - ci,
        {
            let ghost children_before = tokens_view(children@);
            proof {
                assert(galt[ci as int] == crate::grammar::expr_view(alt@[ci as int]));
            }
            match &alt[ci] {
                Expression::Literal(l) => {
                    if starts_with_at(doc, pos, l) {
                        let tok = Token {
                            rule: str_to_chars("string"),
                            start: pos,
                            end: pos + l.len(),
                            children: Option::None,
                        };
                        proof {
                            lemma_tokens_view_push(children@, tok);
                        }
                        children.push(tok);
                        pos = pos + l.len();
                        score = score + 1;
                    } else {
                        let c = Cand { pos, score, total: alt.len(), children };
                        proof {
                            assert(cand_view(c) == SCand {
                                pos: pos as nat,
                                score: score as nat,
                                total: alt@.len() as nat,
                                children: children_before,
                            });
                            assert(delta + Seq::<SErr>::empty() =~= delta);
                        }
                        return AltOutcome::Abandon { cand: Option::Some(c) };
                    }
                },
                Expression::KeywordRef(n) => {
                    // Resolve the keyword rule's single literal, if it has
                    // one; otherwise the component is skipped.
                    let mut lit: Option<&Vec<char>> = Option::None;
                    match crate::grammar::find_rule_exec(&self.grammar, n) {
                        Option::Some(ri) => {
                            let ralts = &self.grammar[ri].alternatives;
                            proof {
                                assert(g.rules[ri as int] == rule_view(self.grammar@[ri as int]));
                            }
                            if ralts.len() > 0 && ralts[0].len() > 0 {
                                proof {
                                    assert(g.rules[ri as int].alts[0]
                                        == crate::grammar::alt_view(ralts@[0]@));
                                    assert(g.rules[ri as int].alts[0][0]
                                        == crate::grammar::expr_view(ralts@[0]@[0]));
                                    assert(kw_shape_ok(g, n@));
                                    assert(kw_first(g, n@) == crate::grammar::expr_view(
                                        ralts@[0]@[0],
                                    ));
                                }
                                match &ralts[0][0] {
                                    Expression::Literal(l) => {
                                        proof {
                                            assert(kw_first(g, n@) == GExpr::Literal(l@));
                                        }
                                        lit = Option::Some(l);
                                    },
                                    _ => {
                                        proof {
                                            assert(!(kw_first(g, n@) is Literal));
                                        }
                                    },
                                }
                            } else {
                                proof {
                                    assert(!kw_shape_ok(g, n@));
                                }
                            }
                        },
                        Option::None => {
                            proof {
                                assert(!kw_shape_ok(g, n@));
                            }
                        },
                    }
                    match lit {
                        Option::Some(l) => {
                            proof {
                                assert(kw_shape_ok(g, n@));
                                assert(kw_first(g, n@) == GExpr::Literal(l@));
                            }
                            if starts_with_at(doc, pos, l) {
                                let tok = Token {
                                    rule: str_to_chars("keyword"),
                                    start: pos,
                                    end: pos + l.len(),
                                    children: Option::None,
                                };
                                proof {
                                    lemma_tokens_view_push(children@, tok);
                                }
                                children.push(tok);
                                pos = pos + l.len();
                                score = score + 1;
                            } else {
                                let c = Cand { pos, score, total: alt.len(), children };
                                proof {
                                    assert(delta + Seq::<SErr>::empty() =~= delta);
                                }
                                return AltOutcome::Abandon { cand: Option::Some(c) };
                            }
                        },
                        Option::None => {
                            proof {
                                assert(!(kw_shape_ok(g, n@) && kw_first(g, n@) is Literal));
                            }
                        },
                    }
                },
                Expression::InternalRuleRef(n) => {
                    if chars_eq_str(n, "EMPTY") {
                        // Matches nothing, consumes nothing, scores nothing.
                    } else {
                        let e = run_end_exec(doc, n, pos);
                        if e == pos {
                            let c = Cand { pos, score, total: alt.len(), children };
                            proof {
                                assert(delta + Seq::<SErr>::empty() =~= delta);
                            }
                            return AltOutcome::Abandon { cand: Option::Some(c) };
                        } else {
                            let tok = Token {
                                rule: str_to_chars("internal_rule"),
                                start: pos,
                                end: e,
                                children: Option::None,
                            };
                            proof {
                                lemma_tokens_view_push(children@, tok);
                            }
                            children.push(tok);
                            pos = e;
                            score = score + 1;
                        }
                    }
                },
                Expression::RuleRef(n) => {
                    let ghost sub = match_rule_spec(g, n@, pos as nat, doc@, (fuel - 1) as nat);
                    let ghost delta_before = delta;
                    let (tok, subpos) = self.match_rule(n, pos, doc, fuel - 1, errors);
                    proof {
                        delta = delta_before + sub.errs;
                        assert(errs_view(errors@) =~= errs_view(old(errors)@) + delta);
                    }
                    if subpos == pos {
                        proof {
                            assert(delta_before + (sub.errs + Seq::<SErr>::empty()) =~= delta
                                + Seq::<SErr>::empty());
                        }
                        return AltOutcome::Abandon { cand: Option::None };
                    }
                    proof {
                        lemma_tokens_view_push(children@, tok);
                    }
                    children.push(tok);
                    pos = subpos;
                    score = score + 1;
                    proof {
                        let ghost o3 = try_alt_spec(
                            g,
                            galt,
                            ci + 1,
                            pos as nat,
                            score as nat,
                            tokens_view(children@),
                            doc@,
                            fuel as nat,
                        );
                        match o3 {
                            SAltOut::Done { pos: p2, children: c2, errs } => {
                                assert(delta_before + (sub.errs + errs) =~= delta + errs);
                            },
                            SAltOut::Abandon { cand, errs } => {
                                assert(delta_before + (sub.errs + errs) =~= delta + errs);
                            },
                        }
                    }
                },
            }
            ci = ci + 1;
        }
        proof {
            assert(delta + Seq::<SErr>::empty() =~= delta);
        }
        AltOutcome::Done { pos, children }
    }
}

} // verus!
