//! The HTML generator: renders one parsed document into HTML spans keyed by
//! rule name, splices the result into a template before the editor-content
//! marker, appends a textual error report after the error marker, and tints
//! the code block's error lines.
use vstd::prelude::*;

verus! {

use crate::engine::{
    Error, SErr, SNode, errs_view, lemma_parse_wf, parse_spec, snode_wf, token_view,
};
use crate::grammar::{Analyzer, GGrammar, grammar_view};
use crate::parsed::{Parsed, lemma_preorder_wf, preorder};
use crate::text::{
    chars_eq_str, chars_to_string, copy_range, dec_chars, ends_with, find_from, find_sub,
    push_dec, push_range, push_str_chars, seq_ends_with, split_rec, split_sub, str_to_chars,
};
use crate::utils::{lemma_preprocess_preserves_length, preprocess_content, preprocess_spec};

// ---------------------------------------------------------------------------
// Rendering model
// ---------------------------------------------------------------------------

/// A line counter increment that sticks at the largest representable value.
pub open spec fn inc_sat(c: nat) -> nat {
    if c < usize::MAX as nat {
        (c + 1) as nat
    } else {
        c
    }
}

/// Rendering of one whitespace run, character by character: a newline closes
/// the current line span and opens the next numbered one, a space becomes a
/// non-breaking space, any other whitespace character emits nothing.
pub open spec fn ws_emit(value: Seq<char>, j: int, acc: Seq<char>, count: nat) -> (Seq<char>, nat)
    decreases value.len() - j,
{
    if j < 0 || j >= value.len() {
        (acc, count)
    } else {
        let c = value[j];
        if c == '\n' {
            let c2 = inc_sat(count);
            ws_emit(
                value,
                j + 1,
                acc + "</span>"@ + "<br><span class=\"line\">"@ + dec_chars(c2) + " "@,
                c2,
            )
        } else if c == ' ' {
            ws_emit(value, j + 1, acc + "&nbsp;"@, count)
        } else {
            ws_emit(value, j + 1, acc, count)
        }
    }
}

/// The rule names whose nodes are wrapped in a highlight span.
pub open spec fn is_highlight_rule(rule: Seq<char>) -> bool {
    rule == "keyword"@ || rule == "ident"@ || rule == "number"@ || rule == "logical_operators"@
        || rule == "algebraic_operators"@
}

/// What one node adds to the page, given the accumulator and the line
/// counter so far.
pub open spec fn node_emit(doc: Seq<char>, n: SNode, acc: Seq<char>, count: nat) -> (Seq<char>, nat) {
    let value = doc.subrange(n.start as int, n.end as int);
    if n.rule == "WHITESPACE*"@ || n.rule == "WHITESPACE+"@ {
        ws_emit(value, 0, acc, count)
    } else if n.rule == "string"@ {
        if value == ","@ || value == "."@ || value == ";"@ || value == "="@ {
            (acc + "<span class=\"white\">"@ + value + "</span>"@, count)
        } else if value == "{"@ || value == "("@ || value == ")"@ || value == "}"@ {
            (acc + "<span class=\"brackets\">"@ + value + "</span>"@, count)
        } else {
            (acc, count)
        }
    } else if n.rule == "unknown"@ {
        (acc + "<span class=\"unknown\">"@ + value + "</span>"@, count)
    } else {
        let acc1 = if seq_ends_with(acc, "<br>"@) || acc.len() == 0 {
            acc + dec_chars(count) + " "@
        } else {
            acc
        };
        if is_highlight_rule(n.rule) {
            (acc1 + "<span class=\""@ + n.rule + "\">"@ + value + "</span>"@, count)
        } else {
            (acc1, count)
        }
    }
}

/// The page content built by visiting the nodes in pre-order.
pub open spec fn render_nodes(
    doc: Seq<char>,
    nodes: Seq<SNode>,
    i: int,
    acc: Seq<char>,
    count: nat,
) -> (Seq<char>, nat)
    decreases nodes.len() - i,
{
    if i < 0 || i >= nodes.len() {
        (acc, count)
    } else {
        let st = node_emit(doc, nodes[i], acc, count);
        render_nodes(doc, nodes, i + 1, st.0, st.1)
    }
}

/// The generated content of one parsed document: the seed span and line
/// number, then every node's emission in pre-order.
pub open spec fn content_spec(doc: Seq<char>, tree: SNode) -> Seq<char> {
    render_nodes(doc, preorder(tree), 0, "<span></span><br>1 "@, 1).0
}

// ---------------------------------------------------------------------------
// Error report and error-line highlighting model
// ---------------------------------------------------------------------------

/// The number of newlines strictly before position `p`.
pub open spec fn count_nl(raw: Seq<char>, p: int) -> int
    decreases p,
{
    if p <= 0 {
        0
    } else {
        count_nl(raw, p - 1) + if raw[p - 1] == '\n' {
            1int
        } else {
            0int
        }
    }
}

/// The 1-based code-block line an error position falls on: the newlines
/// before it, plus two.
pub open spec fn line_of(raw: Seq<char>, p: int) -> int {
    count_nl(raw, p) + 2
}

/// The textual error report: one line per error, in order.
pub open spec fn report_spec(errs: Seq<SErr>, i: int) -> Seq<char>
    decreases errs.len() - i,
{
    if i < 0 || i >= errs.len() {
        Seq::empty()
    } else {
        ">>Error: "@ + errs[i].msg + " en la posición "@ + dec_chars(errs[i].first) + " a "@
            + dec_chars(errs[i].last) + " \n <br>"@ + report_spec(errs, i + 1)
    }
}

/// Some error falls on the 1-based line `line_num`.
pub open spec fn is_err_line(raw: Seq<char>, errs: Seq<SErr>, line_num: int) -> bool {
    exists|e: int| 0 <= e < errs.len() && line_of(raw, (#[trigger] errs[e]).first as int) == line_num
}

/// The code block's lines rejoined with `<br>`, each error line wrapped in a
/// red-tinted span.
pub open spec fn rebuild_lines(lines: Seq<Seq<char>>, i: int, raw: Seq<char>, errs: Seq<SErr>) -> Seq<
    char,
>
    decreases lines.len() - i,
{
    if i < 0 || i >= lines.len() {
        Seq::empty()
    } else {
        let piece = if is_err_line(raw, errs, i + 1) {
            "<span style=\"background-color: rgba(255, 0, 0, 0.3);\">"@ + lines[i] + "</span>"@
        } else {
            lines[i]
        };
        piece + (if i + 1 < lines.len() {
            "<br>"@
        } else {
            Seq::empty()
        }) + rebuild_lines(lines, i + 1, raw, errs)
    }
}

/// The page with the first code block's error lines tinted: the content
/// between the first `<code class="code">` and the first subsequent
/// `</code>` is split on `<br>`, each line whose 1-based index carries an
/// error is wrapped, and the block is spliced back. A page without the
/// block is returned unchanged.
pub open spec fn highlight_spec(errs: Seq<SErr>, html: Seq<char>, raw: Seq<char>) -> Seq<char> {
    match find_from(html, "<code class=\"code\">"@, 0) {
        Option::None => html,
        Option::Some(cs) => {
            let inner_start = cs + "<code class=\"code\">"@.len();
            match find_from(html, "</code>"@, inner_start) {
                Option::None => html,
                Option::Some(ce) => {
                    let lines = split_rec(html.subrange(inner_start, ce), "<br>"@, 0);
                    html.subrange(0, inner_start) + rebuild_lines(lines, 0, raw, errs)
                        + html.subrange(ce, html.len() as int)
                },
            }
        },
    }
}

// ---------------------------------------------------------------------------
// Whole-page model
// ---------------------------------------------------------------------------

/// Model of one generated page: the final text and whether either insertion
/// marker was missing from the template (a missing marker skips only its own
/// insertion).
pub struct GPage {
    pub html: Seq<char>,
    pub content_marker_missing: bool,
    pub error_marker_missing: bool,
}

/// One file rendered end to end: preprocess, parse, render, splice into the
/// template before the content marker, and, if the parse recovered errors,
/// append the report after the error marker and tint the error lines. Line
/// numbers for tinting are computed against the raw (unpreprocessed) text.
pub open spec fn generate_spec(g: GGrammar, template: Seq<char>, raw: Seq<char>) -> GPage {
    let doc = preprocess_spec(raw);
    let tree = parse_spec(g, doc).0;
    let errs = parse_spec(g, doc).1;
    let content = content_spec(doc, tree);
    let st1 = match find_from(template, "<!-- Insert point for editor content -->"@, 0) {
        Option::Some(p) => (
            template.subrange(0, p) + content + template.subrange(p, template.len() as int),
            false,
        ),
        Option::None => (template, true),
    };
    if errs.len() == 0 {
        GPage { html: st1.0, content_marker_missing: st1.1, error_marker_missing: false }
    } else {
        match find_from(st1.0, "<!-- Insert errors -->"@, 0) {
            Option::None => GPage {
                html: st1.0,
                content_marker_missing: st1.1,
                error_marker_missing: true,
            },
            Option::Some(p) => {
                let at = p + "<!-- Insert errors -->"@.len();
                let html2 = st1.0.subrange(0, at) + report_spec(errs, 0) + st1.0.subrange(
                    at,
                    st1.0.len() as int,
                );
                GPage {
                    html: highlight_spec(errs, html2, raw),
                    content_marker_missing: st1.1,
                    error_marker_missing: false,
                }
            },
        }
    }
}

/// The stem of a file name: everything before the last dot, or the whole
/// name if the only dot leads it or there is none.
pub open spec fn last_dot(s: Seq<char>, j: int) -> int
    decreases j,
{
    if j <= 0 {
        -1
    } else if s[j - 1] == '.' {
        j - 1
    } else {
        last_dot(s, j - 1)
    }
}

pub open spec fn stem_spec(name: Seq<char>) -> Seq<char> {
    let d = last_dot(name, name.len() as int);
    if d > 0 {
        name.subrange(0, d)
    } else {
        name
    }
}

/// The output path of one input file.
pub open spec fn output_path_spec(name: Seq<char>) -> Seq<char> {
    "results/"@ + stem_spec(name) + ".html"@
}

// ---------------------------------------------------------------------------
// Executable renderer
// ---------------------------------------------------------------------------

/// Renders one whitespace run.
#[verifier::loop_isolation(false)]
fn emit_ws(doc: &Vec<char>, start: usize, end: usize, acc: &mut Vec<char>, count: usize) -> (r:
    usize)
    requires
        start <= end <= doc@.len(),
    ensures
        ({
            let st = ws_emit(
                doc@.subrange(start as int, end as int),
                0,
                old(acc)@,
                count as nat,
            );
            final(acc)@ == st.0 && r as nat == st.1
        }),
{
    let ghost value = doc@.subrange(start as int, end as int);
    let ghost target = ws_emit(value, 0, old(acc)@, count as nat);
    let mut j = start;
    let mut c = count;
    while j < end
        invariant
            start <= j <= end,
            target == ws_emit(value, j - start, acc@, c as nat),
        decreases end - j,
    {
        proof {
            assert(value[j - start] == doc@[j as int]);
        }
        let ch = doc[j];
        if ch == '\n' {
            push_str_chars(acc, "</span>");
            c = if c < usize::MAX {
                c + 1
            } else {
                c
            };
            push_str_chars(acc, "<br><span class=\"line\">");
            push_dec(acc, c);
            push_str_chars(acc, " ");
        } else if ch == ' ' {
            push_str_chars(acc, "&nbsp;");
        } else {
        }
        j = j + 1;
    }
    c
}

/// Renders one node, returning the updated line counter.
fn emit_node(doc: &Vec<char>, t: &crate::engine::Token, acc: &mut Vec<char>, count: usize) -> (r:
    usize)
    requires
        t.start <= t.end <= doc@.len(),
    ensures
        ({
            let st = node_emit(doc@, token_view(*t), old(acc)@, count as nat);
            final(acc)@ == st.0 && r as nat == st.1
        }),
{
    let ghost n = token_view(*t);
    if chars_eq_str(&t.rule, "WHITESPACE*") || chars_eq_str(&t.rule, "WHITESPACE+") {
        return emit_ws(doc, t.start, t.end, acc, count);
    }
    let value = copy_range(doc, t.start, t.end);
    if chars_eq_str(&t.rule, "string") {
        if chars_eq_str(&value, ",") || chars_eq_str(&value, ".") || chars_eq_str(&value, ";")
            || chars_eq_str(&value, "=") {
            push_str_chars(acc, "<span class=\"white\">");
            push_range(acc, doc, t.start, t.end);
            push_str_chars(acc, "</span>");
        } else if chars_eq_str(&value, "{") || chars_eq_str(&value, "(") || chars_eq_str(
            &value,
            ")",
        ) || chars_eq_str(&value, "}") {
            push_str_chars(acc, "<span class=\"brackets\">");
            push_range(acc, doc, t.start, t.end);
            push_str_chars(acc, "</span>");
        }
        return count;
    }
    if chars_eq_str(&t.rule, "unknown") {
        push_str_chars(acc, "<span class=\"unknown\">");
        push_range(acc, doc, t.start, t.end);
        push_str_chars(acc, "</span>");
        return count;
    }
    let br = str_to_chars("<br>");
    if ends_with(acc, &br) || acc.len() == 0 {
        push_dec(acc, count);
        push_str_chars(acc, " ");
    }
    if chars_eq_str(&t.rule, "keyword") || chars_eq_str(&t.rule, "ident") || chars_eq_str(
        &t.rule,
        "number",
    ) || chars_eq_str(&t.rule, "logical_operators") || chars_eq_str(&t.rule, "algebraic_operators") {
        push_str_chars(acc, "<span class=\"");
        push_range(acc, &t.rule, 0, t.rule.len());
        proof {
            assert(t.rule@.subrange(0, t.rule@.len() as int) =~= t.rule@);
        }
        push_str_chars(acc, "\">");
        push_range(acc, doc, t.start, t.end);
        push_str_chars(acc, "</span>");
    }
    count
}

/// Builds the generated content of one parsed document: the seed, then the
/// rendering of every chunk in pre-order.
#[verifier::loop_isolation(false)]
pub fn render_content(parsed: &Parsed) -> (r: Vec<char>)
    requires
        snode_wf(token_view(parsed.token), parsed.input@.len()),
    ensures
        r@ == content_spec(parsed.input@, token_view(parsed.token)),
{
    let ghost pre = preorder(token_view(parsed.token));
    proof {
        lemma_preorder_wf(token_view(parsed.token), parsed.input@.len());
    }
    let chunks = parsed.visit();
    let mut acc: Vec<char> = Vec::new();
    push_str_chars(&mut acc, "<span></span><br>1 ");
    let mut count: usize = 1;
    let ghost full = render_nodes(parsed.input@, pre, 0, "<span></span><br>1 "@, 1);
    let mut i: usize = 0;
    while i < chunks.len()
        invariant
            i <= chunks@.len(),
            chunks@.len() == pre.len(),
            forall|k: int|
                0 <= k < chunks@.len() ==> (#[trigger] chunks@[k]).input == &parsed.input
                    && token_view(*chunks@[k].token) == pre[k],
            full == render_nodes(parsed.input@, pre, i as int, acc@, count as nat),
        decreases chunks@.len() - i,
    {
        let t = chunks[i].token;
        proof {
            assert(token_view(*t) == pre[i as int]);
            assert(pre[i as int].start <= pre[i as int].end <= parsed.input@.len());
        }
        count = emit_node(&parsed.input, t, &mut acc, count);
        i = i + 1;
    }
    acc
}

// ---------------------------------------------------------------------------
// Executable page assembly
// ---------------------------------------------------------------------------

/// `base` with `ins` inserted at position `at`.
fn splice(base: &Vec<char>, at: usize, ins: &Vec<char>) -> (r: Vec<char>)
    requires
        at <= base@.len(),
    ensures
        r@ == base@.subrange(0, at as int) + ins@ + base@.subrange(at as int, base@.len() as int),
{
    let mut r: Vec<char> = Vec::new();
    push_range(&mut r, base, 0, at);
    push_range(&mut r, ins, 0, ins.len());
    push_range(&mut r, base, at, base.len());
    proof {
        assert(ins@.subrange(0, ins@.len() as int) =~= ins@);
    }
    r
}

/// Builds the textual error report, one line per error.
#[verifier::loop_isolation(false)]
fn build_report(errors: &Vec<Error>) -> (r: Vec<char>)
    ensures
        r@ == report_spec(errs_view(errors@), 0),
{
    let ghost ev = errs_view(errors@);
    let ghost full = report_spec(ev, 0);
    let mut r: Vec<char> = Vec::new();
    let mut i: usize = 0;
    while i < errors.len()
        invariant
            i <= errors@.len(),
            ev == errs_view(errors@),
            ev.len() == errors@.len(),
            full == r@ + report_spec(ev, i as int),
        decreases errors@.len() - i,
    {
        proof {
            assert(ev[i as int] == crate::engine::err_view(errors@[i as int]));
        }
        let ghost r_before = r@;
        push_str_chars(&mut r, ">>Error: ");
        push_str_chars(&mut r, errors[i].message);
        push_str_chars(&mut r, " en la posición ");
        push_dec(&mut r, errors[i].first);
        push_str_chars(&mut r, " a ");
        push_dec(&mut r, errors[i].last);
        push_str_chars(&mut r, " \n <br>");
        i = i + 1;
        proof {
            assert(full =~= r@ + report_spec(ev, i as int));
        }
    }
    r
}

/// The 1-based code-block line a document position falls on: the newlines
/// before it, plus two.
#[verifier::loop_isolation(false)]
pub fn calculate_line_number_from_position(position: usize, input: &Vec<char>) -> (r: usize)
    requires
        position <= input@.len(),
        input@.len() + 2 <= usize::MAX,
    ensures
        r as int == line_of(input@, position as int),
{
    let mut n: usize = 0;
    let mut i: usize = 0;
    while i < position
        invariant
            i <= position <= input@.len(),
            n == count_nl(input@, i as int),
            n <= i,
        decreases position - i,
    {
        if input[i] == '\n' {
            n = n + 1;
        }
        i = i + 1;
    }
    n + 2
}

/// Whether some recorded error falls on the 1-based line `line_num`.
#[verifier::loop_isolation(false)]
fn is_error_line(errors: &Vec<Error>, input: &Vec<char>, line_num: usize) -> (r: bool)
    requires
        forall|q: int| 0 <= q < errors@.len() ==> (#[trigger] errors@[q]).first <= input@.len(),
        input@.len() + 2 <= usize::MAX,
    ensures
        r == is_err_line(input@, errs_view(errors@), line_num as int),
{
    let ghost ev = errs_view(errors@);
    let mut e: usize = 0;
    while e < errors.len()
        invariant
            e <= errors@.len(),
            ev == errs_view(errors@),
            ev.len() == errors@.len(),
            forall|q: int|
                0 <= q < e ==> line_of(input@, (#[trigger] ev[q]).first as int) != line_num as int,
        decreases errors@.len() - e,
    {
        proof {
            assert(ev[e as int] == crate::engine::err_view(errors@[e as int]));
        }
        let ln = calculate_line_number_from_position(errors[e].first, input);
        if ln == line_num {
            proof {
                assert(line_of(input@, ev[e as int].first as int) == line_num as int);
            }
            return true;
        }
        e = e + 1;
    }
    proof {
        assert(!is_err_line(input@, ev, line_num as int));
    }
    false
}

/// Tints the error lines of the page's first code block: the content
/// between the first `<code class="code">` and the first subsequent
/// `</code>` is split on `<br>`; each 1-based line some error maps to (by
/// newline count in `input`) is wrapped in a red-tinted span; the block is
/// rejoined with `<br>` and spliced back. Without the block or its closing
/// tag the page is left unchanged.
#[verifier::loop_isolation(false)]
pub fn highlight_errors_in_html(errors: &Vec<Error>, html_content: &mut Vec<char>, input: &Vec<
    char,
>)
    requires
        forall|q: int| 0 <= q < errors@.len() ==> (#[trigger] errors@[q]).first <= input@.len(),
        input@.len() + 2 <= usize::MAX,
    ensures
        final(html_content)@ == highlight_spec(errs_view(errors@), old(html_content)@, input@),
{
    let ghost ev = errs_view(errors@);
    let hlen = html_content.len();
    let start_marker = str_to_chars("<code class=\"code\">");
    let end_marker = str_to_chars("</code>");
    let cs = match find_sub(html_content, &start_marker) {
        Option::None => {
            return ;
        },
        Option::Some(p) => p,
    };
    let inner_start = cs + start_marker.len();
    let ce = match crate::text::find_sub_from(html_content, &end_marker, inner_start) {
        Option::None => {
            return ;
        },
        Option::Some(p) => p,
    };
    let inner = copy_range(html_content, inner_start, ce);
    let br = str_to_chars("<br>");
    proof {
        reveal_strlit("<br>");
    }
    let lines = split_sub(&inner, &br);
    let ghost linesv = split_rec(inner@, "<br>"@, 0);
    let mut rebuilt: Vec<char> = Vec::new();
    let mut i: usize = 0;
    while i < lines.len()
        invariant
            i <= lines@.len(),
            linesv == lines@.map_values(|l: Vec<char>| l@),
            linesv.len() == lines@.len(),
            rebuild_lines(linesv, 0, input@, ev) == rebuilt@ + rebuild_lines(
                linesv,
                i as int,
                input@,
                ev,
            ),
        decreases lines@.len() - i,
    {
        proof {
            assert(linesv[i as int] == lines@[i as int]@);
        }
        let ghost r_before = rebuilt@;
        if is_error_line(errors, input, i + 1) {
            push_str_chars(&mut rebuilt, "<span style=\"background-color: rgba(255, 0, 0, 0.3);\">");
            push_range(&mut rebuilt, &lines[i], 0, lines[i].len());
            push_str_chars(&mut rebuilt, "</span>");
        } else {
            push_range(&mut rebuilt, &lines[i], 0, lines[i].len());
        }
        if i + 1 < lines.len() {
            push_str_chars(&mut rebuilt, "<br>");
        }
        i = i + 1;
        proof {
            assert(lines@[i - 1]@.subrange(0, lines@[i - 1]@.len() as int) =~= lines@[i - 1]@);
            assert(rebuild_lines(linesv, 0, input@, ev) =~= rebuilt@ + rebuild_lines(
                linesv,
                i as int,
                input@,
                ev,
            ));
        }
    }
    let out = {
        let head = copy_range(html_content, 0, inner_start);
        let tail = copy_range(html_content, ce, html_content.len());
        let mut out: Vec<char> = Vec::new();
        push_range(&mut out, &head, 0, head.len());
        push_range(&mut out, &rebuilt, 0, rebuilt.len());
        push_range(&mut out, &tail, 0, tail.len());
        out
    };
    proof {
        assert(rebuild_lines(linesv, lines@.len() as int, input@, ev) =~= Seq::<char>::empty());
        assert(out@ =~= old(html_content)@.subrange(0, inner_start as int) + rebuild_lines(
            linesv,
            0,
            input@,
            ev,
        ) + old(html_content)@.subrange(ce as int, old(html_content)@.len() as int));
    }
    *html_content = out;
}

/// One generated page and whether either template marker was missing.
pub struct PageOutput {
    pub html: String,
    pub content_marker_missing: bool,
    pub error_marker_missing: bool,
}

/// Renders one file end to end against a grammar and a template:
/// preprocess, parse, render, splice the content before the content marker,
/// and, when the parse recovered syntax errors, insert the report after the
/// error marker and tint the error lines of the code block. A missing
/// marker skips only its own insertion and is reported in the output.
pub fn generate_page(analyzer: &Analyzer, raw_input: &str, template: &str) -> (r: PageOutput)
    requires
        raw_input@.len() + 2 < usize::MAX,
    ensures
        ({
            let gp = generate_spec(grammar_view(*analyzer), template@, raw_input@);
            r.html@ == gp.html && r.content_marker_missing == gp.content_marker_missing
                && r.error_marker_missing == gp.error_marker_missing
        }),
{
    let ghost g = grammar_view(*analyzer);
    let pre = preprocess_content(raw_input);
    proof {
        lemma_preprocess_preserves_length(raw_input@);
    }
    let parsed = analyzer.parse(pre.as_str());
    proof {
        lemma_parse_wf(g, preprocess_spec(raw_input@));
    }
    let content = render_content(&parsed);
    let tmpl = str_to_chars(template);
    let content_marker = str_to_chars("<!-- Insert point for editor content -->");
    let mut content_marker_missing = false;
    let html1 = match find_sub(&tmpl, &content_marker) {
        Option::Some(p) => splice(&tmpl, p, &content),
        Option::None => {
            content_marker_missing = true;
            tmpl
        },
    };
    if parsed.errors.len() == 0 {
        return PageOutput {
            html: chars_to_string(&html1),
            content_marker_missing,
            error_marker_missing: false,
        };
    }
    let error_marker = str_to_chars("<!-- Insert errors -->");
    match find_sub(&html1, &error_marker) {
        Option::None => PageOutput {
            html: chars_to_string(&html1),
            content_marker_missing,
            error_marker_missing: true,
        },
        Option::Some(p) => {
            let report = build_report(&parsed.errors);
            let h1len = html1.len();
            let mut html2 = splice(&html1, p + error_marker.len(), &report);
            let raw_chars = str_to_chars(raw_input);
            proof {
                let doc = preprocess_spec(raw_input@);
                assert(crate::engine::serrs_wf(errs_view(parsed.errors@), doc.len()));
                assert forall|q: int|
                    0 <= q < parsed.errors@.len() implies (#[trigger] parsed.errors@[q]).first
                        <= raw_chars@.len() by {
                    assert(errs_view(parsed.errors@)[q] == crate::engine::err_view(
                        parsed.errors@[q],
                    ));
                    assert(errs_view(parsed.errors@)[q].first <= doc.len());
                };
            }
            highlight_errors_in_html(&parsed.errors, &mut html2, &raw_chars);
            PageOutput {
                html: chars_to_string(&html2),
                content_marker_missing,
                error_marker_missing: false,
            }
        },
    }
}

/// The output path of one input file: `results/` plus the file stem plus
/// `.html`.
#[verifier::loop_isolation(false)]
pub fn output_path_for(name: &str) -> (r: String)
    ensures
        r@ == output_path_spec(name@),
{
    let chars = str_to_chars(name);
    let mut j = chars.len();
    let mut dot: Option<usize> = Option::None;
    while j > 0
        invariant
            j <= chars@.len(),
            dot is None,
            last_dot(chars@, chars@.len() as int) == last_dot(chars@, j as int),
        decreases j,
    {
        if chars[j - 1] == '.' {
            dot = Option::Some(j - 1);
            break ;
        }
        j = j - 1;
    }
    let mut out: Vec<char> = Vec::new();
    push_str_chars(&mut out, "results/");
    match dot {
        Option::Some(d) if d > 0 => {
            push_range(&mut out, &chars, 0, d);
        },
        _ => {
            push_range(&mut out, &chars, 0, chars.len());
            proof {
                assert(chars@.subrange(0, chars@.len() as int) =~= chars@);
            }
        },
    }
    push_str_chars(&mut out, ".html");
    chars_to_string(&out)
}

/// One discovered input file: its name and its full text.
pub struct FileJob {
    pub name: String,
    pub content: String,
}

/// One finished output: where to write it and what to write, with the
/// marker diagnostics of the job.
pub struct RenderedPage {
    pub path: String,
    pub html: String,
    pub content_marker_missing: bool,
    pub error_marker_missing: bool,
}

/// Processes a queue of files in order against one shared grammar and
/// template. Each output is a function of the grammar, the template and its
/// own file alone, so any scheduling of the same jobs yields the same set
/// of pages.
#[verifier::loop_isolation(false)]
pub fn process_batch(analyzer: &Analyzer, template: &str, files: &Vec<FileJob>) -> (r: Vec<
    RenderedPage,
>)
    requires
        forall|q: int| 0 <= q < files@.len() ==> (#[trigger] files@[q]).content@.len() + 2
            < usize::MAX,
    ensures
        r@.len() == files@.len(),
        forall|q: int|
            0 <= q < files@.len() ==> {
                let gp = generate_spec(
                    grammar_view(*analyzer),
                    template@,
                    (#[trigger] files@[q]).content@,
                );
                r@[q].path@ == output_path_spec(files@[q].name@) && r@[q].html@ == gp.html
                    && r@[q].content_marker_missing == gp.content_marker_missing
                    && r@[q].error_marker_missing == gp.error_marker_missing
            },
{
    let mut out: Vec<RenderedPage> = Vec::new();
    let mut i: usize = 0;
    while i < files.len()
        invariant
            i <= files@.len(),
            out@.len() == i,
            forall|q: int|
                0 <= q < i ==> {
                    let gp = generate_spec(
                        grammar_view(*analyzer),
                        template@,
                        (#[trigger] files@[q]).content@,
                    );
                    out@[q].path@ == output_path_spec(files@[q].name@) && out@[q].html@ == gp.html
                        && out@[q].content_marker_missing == gp.content_marker_missing
                        && out@[q].error_marker_missing == gp.error_marker_missing
                },
        decreases files@.len() - i,
    {
        let page = generate_page(analyzer, files[i].content.as_str(), template);
        let path = output_path_for(files[i].name.as_str());
        out.push(
            RenderedPage {
                path,
                html: page.html,
                content_marker_missing: page.content_marker_missing,
                error_marker_missing: page.error_marker_missing,
            },
        );
        i = i + 1;
    }
    out
}

// ---------------------------------------------------------------------------
// Laws
// ---------------------------------------------------------------------------

/// The outputs of a whole batch, as a pure function of the grammar, the
/// template and the (name, text) pairs.
pub open spec fn batch_spec(
    g: GGrammar,
    template: Seq<char>,
    files: Seq<(Seq<char>, Seq<char>)>,
) -> Seq<(Seq<char>, Seq<char>)> {
    Seq::new(
        files.len(),
        |q: int| (output_path_spec(files[q].0), generate_spec(g, template, files[q].1).html),
    )
}

/// Law: one file's output page and output path depend only on the grammar,
/// the template and that file itself — not on the rest of the batch, its
/// order, or the scheduling strategy. Sequential and parallel orchestration
/// of the same jobs therefore produce identical output sets.
pub proof fn lemma_batch_order_independent(
    g: GGrammar,
    template: Seq<char>,
    f1: Seq<(Seq<char>, Seq<char>)>,
    f2: Seq<(Seq<char>, Seq<char>)>,
    i: int,
    j: int,
)
    requires
        0 <= i < f1.len(),
        0 <= j < f2.len(),
        f1[i] == f2[j],
    ensures
        batch_spec(g, template, f1)[i] == batch_spec(g, template, f2)[j],
{
}

/// Law: an input file's output path is determined by its name alone; in
/// particular the stem is kept and the extension is replaced by `.html`.
pub proof fn lemma_output_path_of_name(name: Seq<char>, f1: Seq<(Seq<char>, Seq<char>)>, i: int)
    requires
        0 <= i < f1.len(),
        f1[i].0 == name,
    ensures
        forall|g: GGrammar, template: Seq<char>|
            #[trigger] batch_spec(g, template, f1)[i].0 == output_path_spec(name),
{
}

} // verus!

