use regex::Regex;
use scala_wrapper::pattern::{is_wrapper_end, is_wrapper_start};

#[test]
fn wrapper_start_matches_plain_declaration() {
    assert!(is_wrapper_start("object wrapper {"));
    assert!(is_wrapper_start("object wrapper {\n"));
}

#[test]
fn wrapper_start_allows_anything_between_name_and_brace() {
    assert!(is_wrapper_start("object wrapper extends App {\n"));
    assert!(is_wrapper_start("object wrapper{"));
    assert!(is_wrapper_start("object wrapperX {"));
}

#[test]
fn wrapper_start_is_not_anchored_at_line_start() {
    assert!(is_wrapper_start("  object wrapper {\n"));
    assert!(is_wrapper_start("private object wrapper {\n"));
    assert!(is_wrapper_start("\tfinal object wrapper { // opener\n"));
}

#[test]
fn wrapper_start_finds_opener_on_a_later_line() {
    assert!(is_wrapper_start("import a.b\nobject wrapper {\n"));
    assert!(is_wrapper_start("object wrapper\nobject wrapper {"));
}

#[test]
fn wrapper_start_needs_brace_on_the_same_line() {
    assert!(!is_wrapper_start("object wrapper\n{"));
    assert!(!is_wrapper_start("object wrapper\n"));
    assert!(!is_wrapper_start("{ object wrapper"));
    assert!(!is_wrapper_start("{\nobject wrapper"));
}

#[test]
fn wrapper_start_needs_exact_words() {
    assert!(!is_wrapper_start(""));
    assert!(!is_wrapper_start("object wrapper"));
    assert!(!is_wrapper_start("object  wrapper {"));
    assert!(!is_wrapper_start("Object wrapper {"));
    assert!(!is_wrapper_start("object Wrapper {"));
    assert!(!is_wrapper_start("object wrap per {"));
    assert!(!is_wrapper_start("object\nwrapper {"));
    assert!(!is_wrapper_start("objectwrapper {"));
    assert!(!is_wrapper_start("object other {"));
}

#[test]
fn wrapper_start_false_without_object_line() {
    assert!(!is_wrapper_start("val x = 1\n"));
    assert!(!is_wrapper_start("class wrapper {\n"));
    assert!(!is_wrapper_start("wrapper {\n"));
    assert!(!is_wrapper_start("{ } { }"));
    assert!(!is_wrapper_start("object\n{"));
}

#[test]
fn wrapper_start_does_not_look_into_strings_or_comments() {
    assert!(is_wrapper_start("val s = \"object wrapper {\""));
    assert!(is_wrapper_start("// object wrapper {"));
}

#[test]
fn wrapper_start_handles_text_beyond_ascii() {
    assert!(is_wrapper_start("é object wrapper ü {"));
    assert!(!is_wrapper_start("object wrappér {"));
    assert!(is_wrapper_start("日本語 object wrapper 日本語 { 日本語"));
}

#[test]
fn wrapper_start_with_repeated_partial_words() {
    assert!(is_wrapper_start("object object wrapper {"));
    assert!(is_wrapper_start("object wrappeobject wrapper {"));
    assert!(!is_wrapper_start("object wrappeobject wrappe {"));
    assert!(is_wrapper_start("object wrapper\nx object wrapper y {"));
    assert!(!is_wrapper_start("x { object wrapper\n{ y"));
}

#[test]
fn wrapper_end_needs_brace_first() {
    assert!(is_wrapper_end("}"));
    assert!(is_wrapper_end("}\n"));
    assert!(is_wrapper_end("} // end of wrapper\n"));
    assert!(is_wrapper_end("}}"));
    assert!(is_wrapper_end("}é"));
}

#[test]
fn wrapper_end_ignores_later_braces() {
    assert!(!is_wrapper_end(""));
    assert!(!is_wrapper_end(" }"));
    assert!(!is_wrapper_end("\n}"));
    assert!(!is_wrapper_end("x}"));
    assert!(!is_wrapper_end("{"));
    assert!(!is_wrapper_end("  }\n"));
    assert!(!is_wrapper_end("é}"));
}

fn samples() -> Vec<&'static str> {
    vec![
        "",
        "}",
        " }",
        "}\n",
        "{",
        "object wrapper {",
        "object wrapper {\n",
        "object wrapper",
        "object wrapper\n{",
        "object wrapper{",
        "  object wrapper extends App { // x\n",
        "object  wrapper {",
        "a\nb object wrapper c { d\ne",
        "object wrapper\nobject wrapper\n{",
        "object wrapper \r{",
        "é object wrapper ü {",
        "object wrappeobject wrapper {",
        "{ object wrapper",
        "} object wrapper {",
        "val x = 1\n",
    ]
}

#[test]
fn wrapper_start_agrees_with_regex() {
    let pattern = Regex::new(r"object wrapper.*\{").unwrap();
    for text in samples() {
        assert_eq!(is_wrapper_start(text), pattern.is_match(text), "text: {:?}", text);
    }
}

#[test]
fn wrapper_end_agrees_with_regex() {
    let pattern = Regex::new(r"^\}").unwrap();
    for text in samples() {
        assert_eq!(is_wrapper_end(text), pattern.is_match(text), "text: {:?}", text);
    }
}
