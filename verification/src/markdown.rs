//! The markdown parser and the markdown serializer between which the
//! transform stands. Both are outside code: what is written of them here is
//! taken on trust.

use crate::event::{views, MdEvent, MdEventView};
use vstd::prelude::*;

verus! {

/// The error of `core::fmt`: a formatter could not take what was written
/// to it.
#[verifier::external_type_specification]
#[verifier::external_body]
pub struct ExFormatError(core::fmt::Error);

/// The events that `pulldown_cmark::Parser::new` yields for a document, in
/// their order.
pub uninterp spec fn markdown_events(content: Seq<char>) -> Seq<MdEventView<'static>>;

/// The text that `pulldown_cmark_to_cmark::fmt::cmark` writes for a stream
/// of events, or `None` where it reports an error.
pub uninterp spec fn rendered_markdown(events: Seq<MdEventView<'static>>) -> Option<Seq<char>>;

/// An event that is handed on unread is one that the parser made for some
/// document.
pub open spec fn parser_made(event: MdEventView) -> bool {
    event is Other ==> exists|content: Seq<char>| #[trigger] markdown_events(content).contains(event)
}

/// Every event of the stream that is handed on unread came from the parser.
pub open spec fn all_parser_made(events: Seq<MdEventView>) -> bool {
    forall|i: int| 0 <= i < events.len() ==> parser_made(#[trigger] events[i])
}

/// What the parser yields for a document is, event by event, parser-made.
pub proof fn lemma_parsed_is_parser_made(content: Seq<char>)
    ensures
        all_parser_made(markdown_events(content)),
{
    let events = markdown_events(content);
    assert forall|i: int| 0 <= i < events.len() implies parser_made(#[trigger] events[i]) by {
        assert(markdown_events(content).contains(events[i]));
    }
}

/// Parses a document with `pulldown_cmark::Parser::new`, which enables no
/// extension, and collects the events it yields.
///
/// Trusted: the parser returns for every document, and the events depend on
/// the text of the document alone. A start or end of a code block and a run
/// of text are handed out as the kinds of `MdEvent` of those names, with the
/// parser's string; every other event is handed out as it is.
#[verifier::external_body]
pub(crate) fn parse_events<'a>(content: &'a str) -> (events: Vec<MdEvent<'a>>)
    ensures
        views(events@) == markdown_events(content@),
{
    pulldown_cmark::Parser::new(content).map(|raw| match raw {
        pulldown_cmark::Event::Start(pulldown_cmark::Tag::CodeBlock(lang)) => MdEvent::CodeBlockStart(lang.into_owned()),
        pulldown_cmark::Event::End(pulldown_cmark::Tag::CodeBlock(lang)) => MdEvent::CodeBlockEnd(lang.into_owned()),
        pulldown_cmark::Event::Text(text) => MdEvent::Text(text.into_owned()),
        other => MdEvent::Other(other),
    }).collect()
}

/// Writes a stream of events back to markdown with
/// `pulldown_cmark_to_cmark::fmt::cmark`, from a fresh state into an empty
/// string.
///
/// Trusted: the text written depends on the events alone, and an error is
/// the formatter's. The serializer subtracts one from the length of each
/// header cell of a table, so a table with an empty header cell must not
/// reach it; the parser, run without its table extension, yields no table,
/// hence the demand that the events handed on unread be the parser's.
#[verifier::external_body]
pub(crate) fn render_events<'a>(events: Vec<MdEvent<'a>>) -> (rendered: Result<String, core::fmt::Error>)
    requires
        all_parser_made(views(events@)),
    ensures
        match rendered {
            Ok(text) => rendered_markdown(views(events@)) == Some(text@),
            Err(_) => rendered_markdown(views(events@)) is None,
        },
{
    let mut buf = String::new();
    let raw = events.into_iter().map(|event| match event {
        MdEvent::CodeBlockStart(lang) => pulldown_cmark::Event::Start(pulldown_cmark::Tag::CodeBlock(lang.into())),
        MdEvent::CodeBlockEnd(lang) => pulldown_cmark::Event::End(pulldown_cmark::Tag::CodeBlock(lang.into())),
        MdEvent::Text(text) => pulldown_cmark::Event::Text(text.into()),
        MdEvent::Other(other) => other,
    });
    pulldown_cmark_to_cmark::fmt::cmark(raw, &mut buf, None).map(|_| buf)
}

} // verus!
