use scala_wrapper::{Chapter, PreprocessError, ScalaWrapper};

fn chapter(name: &str, content: &str) -> Chapter {
    Chapter { name: name.to_string(), content: content.to_string() }
}

fn transform(content: &str) -> String {
    ScalaWrapper::new().remove_wrappers(&chapter("Intro", content)).unwrap()
}

fn rendered_unfiltered(content: &str) -> String {
    let mut buf = String::new();
    pulldown_cmark_to_cmark::fmt::cmark(pulldown_cmark::Parser::new(content), &mut buf, None).unwrap();
    buf
}

#[test]
fn preprocessor_name_is_fixed() {
    assert_eq!(ScalaWrapper::new().name(), "scala-wrapper-preprocessor");
}

#[test]
fn strips_wrapper_lines_of_a_scala_block() {
    let input = "```scala\nobject wrapper {\n  val x = 1\n  println(x)\n}\n```\n";
    assert_eq!(transform(input), "````scala\n  val x = 1\n  println(x)\n````");
}

#[test]
fn keeps_unwrapped_scala_block_with_all_its_lines() {
    let input = "```scala\nval x = 1\nif (x > 0) {\n  println(x)\n}\n```\n";
    assert_eq!(transform(input), "````scala\nval x = 1\nif (x > 0) {\n  println(x)\n}\n````");
    assert_eq!(transform(input), rendered_unfiltered(input));
}

#[test]
fn leaves_blocks_of_other_languages_alone() {
    let input = "```rust\nobject wrapper {\n  x\n}\n```\n\n```\nobject wrapper {\n}\n```\n";
    assert_eq!(
        transform(input),
        "````rust\nobject wrapper {\n  x\n}\n````\n\n````\nobject wrapper {\n}\n````"
    );
    assert_eq!(transform(input), rendered_unfiltered(input));
}

#[test]
fn tag_with_anything_added_is_another_language() {
    let input = "```scala,ignore\nobject wrapper {\n  x\n}\n```\n";
    assert_eq!(transform(input), rendered_unfiltered(input));
}

#[test]
fn chapter_without_target_block_passes_as_rendered() {
    let input = "# Title\n\nSome *text* with `code` and a [link](http://example.com).\n\n* one\n* two\n\n> object wrapper {\n> }\n";
    assert_eq!(transform(input), rendered_unfiltered(input));
}

#[test]
fn plain_chapter_has_exact_rendering() {
    assert_eq!(transform("# Title\n\nSome *text* here.\n"), "# Title\n\nSome *text* here.");
}

#[test]
fn empty_chapter_stays_empty() {
    assert_eq!(transform(""), "");
}

#[test]
fn blocks_of_one_chapter_are_independent() {
    let input = "```scala\nobject wrapper {\n  val a = 1\n}\n```\n\ntext\n\n```scala\nif (a) {\n  b\n}\n```\n\n```scala\nobject wrapper {\n  c\n}\n```\n";
    assert_eq!(
        transform(input),
        "````scala\n  val a = 1\n````\n\ntext\n\n````scala\nif (a) {\n  b\n}\n````\n\n````scala\n  c\n````"
    );
}

#[test]
fn wrapper_opener_with_leading_indent_is_not_seen() {
    let input = "```scala\n  object wrapper {\n  x\n}\n```\n";
    assert_eq!(transform(input), rendered_unfiltered(input));
}

#[test]
fn text_outside_code_blocks_is_kept() {
    let input = "object wrapper {\n\n}\n\n```scala\nobject wrapper {\nx\n}\n```\n";
    assert_eq!(transform(input), "object wrapper {\n\n}\n\n````scala\nx\n````");
}

#[test]
fn remove_wrappers_leaves_chapter_as_it_is() {
    let input = chapter("Intro", "```scala\nobject wrapper {\nx\n}\n```\n");
    let output = ScalaWrapper::new().remove_wrappers(&input).unwrap();
    assert_eq!(output, "````scala\nx\n````");
    assert_eq!(input, chapter("Intro", "```scala\nobject wrapper {\nx\n}\n```\n"));
}

#[test]
fn error_message_names_component_and_quotes_detail() {
    let error = PreprocessError {
        component: "scala-wrapper-preprocessor".to_string(),
        chapter: "Intro".to_string(),
        detail: "an error occurred when formatting an argument".to_string(),
    };
    assert_eq!(
        error.message(),
        "Markdown serialization failed within scala-wrapper-preprocessor: an error occurred when formatting an argument"
    );
}

#[test]
fn diagnostic_lines_have_fixed_wording() {
    let wrapper = ScalaWrapper::new();
    assert_eq!(wrapper.announcement(), "Running 'scala-wrapper-preprocessor' preprocessor");
    assert_eq!(
        wrapper.chapter_notice("Getting Started"),
        "scala-wrapper-preprocessor: processing chapter 'Getting Started'"
    );
    assert_eq!(wrapper.chapter_notice(""), "scala-wrapper-preprocessor: processing chapter ''");
}

#[test]
fn run_rewrites_every_chapter_in_order() {
    let mut chapters = vec![
        chapter("One", "```scala\nobject wrapper {\n  val x = 1\n}\n```\n"),
        chapter("Two", "plain *text*\n"),
        chapter("Three", ""),
    ];
    let mut diagnostics = vec!["earlier line".to_string()];
    let outcome = ScalaWrapper::new().run(&mut chapters, &mut diagnostics);
    assert_eq!(outcome, Ok(()));
    assert_eq!(
        chapters,
        vec![
            chapter("One", "````scala\n  val x = 1\n````"),
            chapter("Two", "plain *text*"),
            chapter("Three", ""),
        ]
    );
    assert_eq!(
        diagnostics,
        vec![
            "earlier line".to_string(),
            "Running 'scala-wrapper-preprocessor' preprocessor".to_string(),
            "scala-wrapper-preprocessor: processing chapter 'One'".to_string(),
            "scala-wrapper-preprocessor: processing chapter 'Two'".to_string(),
            "scala-wrapper-preprocessor: processing chapter 'Three'".to_string(),
        ]
    );
}

#[test]
fn run_on_no_chapters_only_announces() {
    let mut chapters: Vec<Chapter> = Vec::new();
    let mut diagnostics = Vec::new();
    assert_eq!(ScalaWrapper::new().run(&mut chapters, &mut diagnostics), Ok(()));
    assert_eq!(chapters, Vec::new());
    assert_eq!(diagnostics, vec!["Running 'scala-wrapper-preprocessor' preprocessor".to_string()]);
}

#[test]
fn run_twice_strips_nothing_more() {
    let mut chapters = vec![chapter("One", "```scala\nobject wrapper {\n  val x = 1\n}\n```\n")];
    let mut diagnostics = Vec::new();
    assert_eq!(ScalaWrapper::new().run(&mut chapters, &mut diagnostics), Ok(()));
    assert_eq!(ScalaWrapper::new().run(&mut chapters, &mut diagnostics), Ok(()));
    assert_eq!(chapters, vec![chapter("One", "````scala\n  val x = 1\n````")]);
    assert_eq!(diagnostics.len(), 4);
}

#[test]
fn serializer_failure_becomes_preprocess_error() {
    let input = chapter("Intro", "text");
    let outcome = ScalaWrapper::new().serialization_outcome(&input, Err(std::fmt::Error));
    let error = outcome.unwrap_err();
    assert_eq!(error.component, "scala-wrapper-preprocessor");
    assert_eq!(error.chapter, "Intro");
    assert_eq!(error.detail, format!("{}", std::fmt::Error));
    assert_eq!(
        error.message(),
        format!("Markdown serialization failed within scala-wrapper-preprocessor: {}", std::fmt::Error)
    );
}

#[test]
fn serializer_success_is_handed_on() {
    let input = chapter("Intro", "text");
    let outcome = ScalaWrapper::new().serialization_outcome(&input, Ok("written".to_string()));
    assert_eq!(outcome, Ok("written".to_string()));
}
