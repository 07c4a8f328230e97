//! The preprocessor: the transform of one chapter, and the run over the
//! chapters of a book.

use crate::event::views;
use crate::machine::TransformState;
use crate::markdown::{
    all_parser_made, lemma_parsed_is_parser_made, markdown_events, parse_events, parser_made,
    render_events, rendered_markdown,
};
use crate::stream::{
    lemma_passthrough_without_target_block, lemma_strip_keeps_only_given, no_target_block, strip,
    strip_wrappers,
};
use vstd::prelude::*;

verus! {

/// A chapter of the book: its name, which the diagnostics quote, and its
/// markdown text.
#[derive(Debug, PartialEq, Eq)]
pub struct Chapter {
    pub name: String,
    pub content: String,
}

/// The failure of a run: the serializer could not write the events of a
/// chapter back to markdown.
#[derive(Debug, PartialEq, Eq)]
pub struct PreprocessError {
    /// The name of the preprocessor that failed.
    pub component: String,
    /// The name of the chapter it was working on.
    pub chapter: String,
    /// What the serializer reported.
    pub detail: String,
}

impl PreprocessError {
    /// The line that is shown to the user.
    pub open spec fn spec_message(self) -> Seq<char> {
        "Markdown serialization failed within "@ + self.component@ + ": "@ + self.detail@
    }

    /// The line that is shown to the user: it names the preprocessor and
    /// quotes the serializer's report.
    pub fn message(&self) -> (text: String)
        ensures
            text@ == self.spec_message(),
    {
        let mut text = "Markdown serialization failed within ".to_owned();
        text.append(self.component.as_str());
        text.append(": ");
        text.append(self.detail.as_str());
        text
    }
}

/// The name under which the preprocessor is known to its host.
pub open spec fn preprocessor_name() -> Seq<char> {
    "scala-wrapper-preprocessor"@
}

/// What the transform makes of a chapter's text: the parser's events,
/// without the wrapper boilerplate, written back to markdown. `None` where
/// the serializer fails.
pub open spec fn transformed(content: Seq<char>) -> Option<Seq<char>> {
    rendered_markdown(strip(markdown_events(content)))
}

/// The line that announces a run.
pub open spec fn announcement() -> Seq<char> {
    "Running '"@ + preprocessor_name() + "' preprocessor"@
}

/// The line that announces the work on one chapter.
pub open spec fn chapter_notice(chapter: Seq<char>) -> Seq<char> {
    preprocessor_name() + ": processing chapter '"@ + chapter + "'"@
}

/// The diagnostic lines of a run that has started work on the first `count`
/// chapters.
pub open spec fn run_diagnostics(chapters: Seq<Chapter>, count: int) -> Seq<Seq<char>> {
    seq![announcement()] + Seq::new(count as nat, |i: int| chapter_notice(chapters[i].name@))
}

/// The texts of a list of lines.
pub open spec fn lines(log: Seq<String>) -> Seq<Seq<char>> {
    log.map_values(|line: String| line@)
}

/// How many chapters, from the first on, the transform succeeds on before it
/// fails for the first time.
pub open spec fn rewritten_count(chapters: Seq<Chapter>) -> nat
    decreases chapters.len(),
{
    if chapters.len() == 0 || transformed(chapters[0].content@) is None {
        0
    } else {
        1 + rewritten_count(chapters.drop_first())
    }
}

/// A chapter without a code block in the target language comes out as the
/// serializer writes its events, none taken out.
pub proof fn lemma_chapter_without_target_block(content: Seq<char>)
    requires
        no_target_block(markdown_events(content)),
    ensures
        transformed(content) == rendered_markdown(markdown_events(content)),
{
    lemma_passthrough_without_target_block(markdown_events(content));
}

/// The preprocessor that strips the wrappers from Scala code blocks.
#[derive(Clone, Copy, Debug, PartialEq, Eq, Structural)]
pub struct ScalaWrapper;

impl ScalaWrapper {
    /// The preprocessor. It holds no state: all its values are alike.
    pub fn new() -> (wrapper: ScalaWrapper)
        ensures
            wrapper == ScalaWrapper,
    {
        ScalaWrapper
    }

    /// The name under which the preprocessor is known to its host.
    pub fn name(&self) -> (name: &'static str)
        ensures
            name@ == preprocessor_name(),
    {
        "scala-wrapper-preprocessor"
    }

    /// What the transform of a chapter returns for what the serializer
    /// returned: the text it wrote, or an error that names this preprocessor
    /// and the chapter and carries the serializer's own words.
    pub fn serialization_outcome(
        &self,
        chapter: &Chapter,
        rendered: Result<String, core::fmt::Error>,
    ) -> (outcome: Result<String, PreprocessError>)
        ensures
            match rendered {
                Ok(written) => outcome == Ok::<String, PreprocessError>(written),
                Err(failure) => {
                    &&& outcome matches Err(error)
                    &&& error.component@ == preprocessor_name()
                    &&& error.chapter@ == chapter.name@
                    &&& vstd::string::to_string_from_display_ensures::<core::fmt::Error>(
                        &failure,
                        error.detail,
                    )
                },
            },
    {
        match rendered {
            Ok(written) => Ok(written),
            Err(failure) => Err(
                PreprocessError {
                    component: self.name().to_owned(),
                    chapter: chapter.name.clone(),
                    detail: failure.to_string(),
                },
            ),
        }
    }

    /// Transforms the text of one chapter: parses it, takes the wrapper
    /// boilerplate out of its events and writes the rest back to markdown.
    /// The chapter itself is left as it is: the new text is returned. Where
    /// the serializer fails, the error is that of `serialization_outcome`.
    pub fn remove_wrappers(&self, chapter: &Chapter) -> (outcome: Result<String, PreprocessError>)
        ensures
            match transformed(chapter.content@) {
                Some(text) => outcome matches Ok(written) && written@ == text,
                None => outcome matches Err(error) && error.component@ == preprocessor_name()
                    && error.chapter@ == chapter.name@,
            },
    {
        let events = parse_events(chapter.content.as_str());
        let kept = strip_wrappers(events);
        proof {
            let parsed = markdown_events(chapter.content@);
            lemma_parsed_is_parser_made(chapter.content@);
            lemma_strip_keeps_only_given(TransformState::Outside, parsed);
            assert forall|i: int| 0 <= i < strip(parsed).len() implies parser_made(
                #[trigger] strip(parsed)[i],
            ) by {
                let at = choose|at: int| 0 <= at < parsed.len() && parsed[at] == strip(parsed)[i];
                assert(parser_made(parsed[at]));
            }
            assert(all_parser_made(strip(parsed)));
        }
        self.serialization_outcome(chapter, render_events(kept))
    }

    /// The line that announces a run.
    pub fn announcement(&self) -> (line: String)
        ensures
            line@ == announcement(),
    {
        let mut line = "Running '".to_owned();
        line.append(self.name());
        line.append("' preprocessor");
        line
    }

    /// The line that announces the work on the chapter of the given name.
    pub fn chapter_notice(&self, chapter: &str) -> (line: String)
        ensures
            line@ == chapter_notice(chapter@),
    {
        let mut line = self.name().to_owned();
        line.append(": processing chapter '");
        line.append(chapter);
        line.append("'");
        line
    }

    /// Transforms the chapters of a book in their order and puts each new
    /// text in the place of the old one. The first failure ends the run: the
    /// chapters before it stay rewritten, the failing one and those after it
    /// stay as they were. The diagnostic lines of the run are added to
    /// `diagnostics`: one that announces the run, then one for each chapter
    /// that work was started on.
    pub fn run(&self, chapters: &mut Vec<Chapter>, diagnostics: &mut Vec<String>) -> (outcome: Result<
        (),
        PreprocessError,
    >)
        ensures
            final(chapters)@.len() == old(chapters)@.len(),
            forall|i: int|
                0 <= i < rewritten_count(old(chapters)@) ==> {
                    &&& (#[trigger] final(chapters)@[i]).name == old(chapters)@[i].name
                    &&& transformed(old(chapters)@[i].content@) == Some(final(chapters)@[i].content@)
                },
            forall|i: int|
                rewritten_count(old(chapters)@) <= i < old(chapters)@.len()
                    ==> #[trigger] final(chapters)@[i] == old(chapters)@[i],
            outcome is Ok <==> rewritten_count(old(chapters)@) == old(chapters)@.len(),
            outcome matches Err(error) ==> {
                let failed = old(chapters)@[rewritten_count(old(chapters)@) as int];
                &&& transformed(failed.content@) is None
                &&& error.component@ == preprocessor_name()
                &&& error.chapter@ == failed.name@
            },
            lines(final(diagnostics)@) == lines(old(diagnostics)@) + run_diagnostics(
                old(chapters)@,
                if outcome is Ok {
                    old(chapters)@.len() as int
                } else {
                    rewritten_count(old(chapters)@) as int + 1
                },
            ),
    {
        diagnostics.push(self.announcement());
        let mut i: usize = 0;
        proof {
            assert(old(chapters)@.skip(0) == old(chapters)@);
            assert(lines(diagnostics@) == lines(old(diagnostics)@) + run_diagnostics(
                old(chapters)@,
                0,
            ));
        }
        while i < chapters.len()
            invariant
                i <= chapters@.len(),
                chapters@.len() == old(chapters)@.len(),
                rewritten_count(old(chapters)@) == i + rewritten_count(old(chapters)@.skip(i as int)),
                forall|j: int|
                    0 <= j < i ==> {
                        &&& (#[trigger] chapters@[j]).name == old(chapters)@[j].name
                        &&& transformed(old(chapters)@[j].content@) == Some(chapters@[j].content@)
                    },
                forall|j: int| i <= j < chapters@.len() ==> #[trigger] chapters@[j] == old(chapters)@[j],
                lines(diagnostics@) == lines(old(diagnostics)@) + run_diagnostics(
                    old(chapters)@,
                    i as int,
                ),
            decreases chapters@.len() - i,
        {
            let notice = self.chapter_notice(chapters[i].name.as_str());
            let ghost logged = diagnostics@;
            diagnostics.push(notice);
            proof {
                let rest = old(chapters)@.skip(i as int);
                assert(rest[0] == old(chapters)@[i as int]);
                assert(rest.drop_first() == old(chapters)@.skip(i + 1));
                assert(lines(diagnostics@) == lines(logged).push(notice@));
                assert(run_diagnostics(old(chapters)@, i + 1) == run_diagnostics(
                    old(chapters)@,
                    i as int,
                ).push(notice@));
            }
            let ghost earlier = chapters@;
            match self.remove_wrappers(&chapters[i]) {
                Ok(written) => {
                    chapters[i].content = written;
                    assert(chapters@[i as int].name == earlier[i as int].name);
                    assert(forall|j: int|
                        0 <= j < chapters@.len() && j != i ==> chapters@[j] == earlier[j]);
                },
                Err(error) => {
                    return Err(error);
                },
            }
            i += 1;
        }
        Ok(())
    }
}

} // verus!
