use syntax_highlighter::utils::preprocess_content;

#[test]
fn accents_map_to_ascii_base_letters() {
    assert_eq!(preprocess_content("caf\u{e9}"), "cafe");
    assert_eq!(preprocess_content("\u{e1}\u{e9}\u{ed}\u{f3}\u{fa}"), "aeiou");
    assert_eq!(preprocess_content("\u{c1}\u{c9}\u{cd}\u{d3}\u{da}"), "aeiou");
    assert_eq!(preprocess_content("\u{e7}\u{f1}\u{d1}"), "cnn");
    assert_eq!(preprocess_content("\u{153}\u{e6}"), "oo");
}

#[test]
fn byte_order_mark_becomes_a_space() {
    assert_eq!(preprocess_content("\u{feff}x"), " x");
}

#[test]
fn ascii_text_is_unchanged() {
    let s = "plain ASCII text 123 {};=\n\ttabs too";
    assert_eq!(preprocess_content(s), s);
}

#[test]
fn preprocessing_is_idempotent() {
    for s in ["caf\u{e9} con a\u{f1}o", "\u{feff}\u{c9}l", "mixed \u{f2}\u{ec}\u{e8} text"] {
        let once = preprocess_content(s);
        let twice = preprocess_content(&once);
        assert_eq!(twice, once);
    }
}

#[test]
fn unmapped_characters_pass_through() {
    assert_eq!(preprocess_content("\u{fc}ber"), "\u{fc}ber");
}
