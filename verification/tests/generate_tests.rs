use syntax_highlighter::generate::{
    calculate_line_number_from_position, generate_page, highlight_errors_in_html, output_path_for,
    process_batch, render_content, FileJob,
};
use syntax_highlighter::grammar::Analyzer;

fn cv(s: &str) -> Vec<char> {
    s.chars().collect()
}

fn cs(v: &[char]) -> String {
    v.iter().collect()
}

const LETTERS_GRAMMAR: &str =
    "program = ident ~ WHITESPACE* ~ ident\nident = ASCII_ALPHA\nWHITESPACE* = WHITESPACE";

#[test]
fn newline_opens_a_numbered_line_span() {
    let a = Analyzer::new(LETTERS_GRAMMAR, "program").unwrap();
    assert!(a.validate().is_ok());
    let parsed = a.parse("a\nb");
    assert!(parsed.errors.is_empty());
    let content = cs(&render_content(&parsed));
    assert_eq!(
        content,
        "<span></span><br>1 <span class=\"ident\">a</span></span><br><span class=\"line\">2 <span class=\"ident\">b</span>"
    );
    // Exactly one line transition, and the line number 1 precedes the
    // rendering of `a`.
    assert_eq!(content.matches("<br><span class=\"line\">2 ").count(), 1);
    let one = content.find("1 ").unwrap();
    let a_span = content.find("<span class=\"ident\">a</span>").unwrap();
    assert!(one < a_span);
}

#[test]
fn string_nodes_wrap_only_the_listed_values() {
    for (value, expect) in [
        (";", Some("<span class=\"white\">;</span>")),
        ("{", Some("<span class=\"brackets\">{</span>")),
        ("+", None),
    ] {
        let grammar = format!("program = \"{}\"", value);
        let a = Analyzer::new(&grammar, "program").unwrap();
        let parsed = a.parse(value);
        assert!(parsed.errors.is_empty());
        let content = cs(&render_content(&parsed));
        match expect {
            Some(s) => assert_eq!(content, format!("<span></span><br>1 {}", s)),
            None => assert_eq!(content, "<span></span><br>1 "),
        }
    }
}

#[test]
fn unknown_nodes_are_always_wrapped() {
    let a = Analyzer::new("program = ASCII_DIGIT", "program").unwrap();
    let parsed = a.parse("1?2");
    let content = cs(&render_content(&parsed));
    assert!(content.contains("<span class=\"unknown\">?</span>"));
}

#[test]
fn line_numbers_count_newlines_plus_two() {
    let input = cv("ab\ncd\ne");
    assert_eq!(calculate_line_number_from_position(0, &input), 2);
    assert_eq!(calculate_line_number_from_position(4, &input), 3);
    assert_eq!(calculate_line_number_from_position(6, &input), 4);
}

#[test]
fn highlighter_tints_exactly_the_error_lines() {
    let a = Analyzer::new("program = \"a\" ~ \"b\" ~ \"c\"", "program").unwrap();
    let parsed = a.parse("abX");
    assert_eq!(parsed.errors.len(), 1);
    let mut html = cv("<p><code class=\"code\">one<br>two<br>three</code></p>");
    let input = cv("abX");
    // The error at position 0 lies on line 2 of the block.
    highlight_errors_in_html(&parsed.errors, &mut html, &input);
    assert_eq!(
        cs(&html),
        "<p><code class=\"code\">one<br><span style=\"background-color: rgba(255, 0, 0, 0.3);\">two</span><br>three</code></p>"
    );
}

#[test]
fn highlighter_leaves_pages_without_a_code_block_unchanged() {
    let a = Analyzer::new("program = \"a\" ~ \"b\" ~ \"c\"", "program").unwrap();
    let parsed = a.parse("abX");
    let mut html = cv("<p>no block here</p>");
    let before = cs(&html);
    highlight_errors_in_html(&parsed.errors, &mut html, &cv("abX"));
    assert_eq!(cs(&html), before);
}

const TEMPLATE: &str = "<html><code class=\"code\">one<br>two</code>\
<!-- Insert point for editor content -->\
<!-- Insert errors --></html>";

#[test]
fn page_without_errors_splices_content_before_the_marker() {
    let a = Analyzer::new("program = \"a\"", "program").unwrap();
    let page = generate_page(&a, "a", TEMPLATE);
    assert!(!page.content_marker_missing);
    assert!(!page.error_marker_missing);
    assert_eq!(
        page.html,
        "<html><code class=\"code\">one<br>two</code>\
<span></span><br>1 <!-- Insert point for editor content -->\
<!-- Insert errors --></html>"
    );
}

#[test]
fn page_with_errors_gets_report_and_tinted_lines() {
    let a = Analyzer::new("program = \"a\" ~ \"b\" ~ \"c\"", "program").unwrap();
    let page = generate_page(&a, "abX", TEMPLATE);
    assert!(!page.content_marker_missing);
    assert!(!page.error_marker_missing);
    assert!(page.html.contains(
        "<!-- Insert errors -->>>Error: Syntax error en la posici\u{f3}n 0 a 2 \n <br>"
    ));
    // The error lies on line 2 of the code block, which gets tinted.
    assert!(page.html.contains(
        "<code class=\"code\">one<br><span style=\"background-color: rgba(255, 0, 0, 0.3);\">two</span></code>"
    ));
}

#[test]
fn missing_markers_skip_only_their_own_insertion() {
    let a = Analyzer::new("program = \"a\" ~ \"b\" ~ \"c\"", "program").unwrap();
    let page = generate_page(&a, "abX", "<html>nothing</html>");
    assert!(page.content_marker_missing);
    assert!(page.error_marker_missing);
    assert_eq!(page.html, "<html>nothing</html>");
}

#[test]
fn output_paths_come_from_the_stem() {
    assert_eq!(output_path_for("demo.txt"), "results/demo.html");
    assert_eq!(output_path_for("a.b.txt"), "results/a.b.html");
    assert_eq!(output_path_for("noext"), "results/noext.html");
    assert_eq!(output_path_for(".txt"), "results/.txt.html");
}

#[test]
fn demo_txt_maps_to_demo_html_regardless_of_batch_shape() {
    let a = Analyzer::new("program = \"a\"", "program").unwrap();
    let small = vec![FileJob { name: "demo.txt".to_string(), content: "a".to_string() }];
    let big = vec![
        FileJob { name: "other.txt".to_string(), content: "aa".to_string() },
        FileJob { name: "demo.txt".to_string(), content: "a".to_string() },
        FileJob { name: "third.txt".to_string(), content: "".to_string() },
    ];
    let r1 = process_batch(&a, TEMPLATE, &small);
    let r2 = process_batch(&a, TEMPLATE, &big);
    assert_eq!(r1[0].path, "results/demo.html");
    assert_eq!(r2[1].path, "results/demo.html");
    assert_eq!(r1[0].html, r2[1].html);
}

#[test]
fn batch_outputs_match_per_file_generation_in_any_order() {
    let a = Analyzer::new("program = \"a\"", "program").unwrap();
    let files = vec![
        FileJob { name: "x.txt".to_string(), content: "a".to_string() },
        FileJob { name: "y.txt".to_string(), content: "ba".to_string() },
        FileJob { name: "z.txt".to_string(), content: "".to_string() },
    ];
    let reversed = vec![
        FileJob { name: "z.txt".to_string(), content: "".to_string() },
        FileJob { name: "y.txt".to_string(), content: "ba".to_string() },
        FileJob { name: "x.txt".to_string(), content: "a".to_string() },
    ];
    let seq = process_batch(&a, TEMPLATE, &files);
    let rev = process_batch(&a, TEMPLATE, &reversed);
    // The same jobs produce the same (path, page) pairs whatever the order:
    // the batch output is a set keyed by the input file alone.
    for i in 0..3 {
        let j = 2 - i;
        assert_eq!(seq[i].path, rev[j].path);
        assert_eq!(seq[i].html, rev[j].html);
    }
    // And each output equals the single-file pipeline's result.
    for f in 0..3 {
        let single = generate_page(&a, &files[f].content, TEMPLATE);
        assert_eq!(seq[f].html, single.html);
    }
}

#[test]
fn whitespace_plus_regions_render_like_whitespace_star() {
    let grammar =
        "program = ident ~ WHITESPACE+ ~ ident\nident = ASCII_ALPHA\nWHITESPACE+ = WHITESPACE";
    let a = Analyzer::new(grammar, "program").unwrap();
    assert!(a.validate().is_ok());
    let parsed = a.parse("a b");
    let content = cs(&render_content(&parsed));
    assert_eq!(
        content,
        "<span></span><br>1 <span class=\"ident\">a</span>&nbsp;<span class=\"ident\">b</span>"
    );
}

#[test]
fn tabs_in_whitespace_regions_emit_nothing() {
    let a = Analyzer::new(LETTERS_GRAMMAR, "program").unwrap();
    let parsed = a.parse("a\tb");
    let content = cs(&render_content(&parsed));
    assert_eq!(
        content,
        "<span></span><br>1 <span class=\"ident\">a</span><span class=\"ident\">b</span>"
    );
}
