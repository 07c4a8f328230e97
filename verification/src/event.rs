//! The markdown events that the transform tells apart.

use vstd::prelude::*;

verus! {

/// An event of `pulldown_cmark`, carried through unread.
#[verifier::external_type_specification]
#[verifier::external_body]
pub struct ExRawEvent<'a>(pulldown_cmark::Event<'a>);

/// One structural unit of a markdown document.
///
/// The three kinds that the transform reads hold their text as plain
/// strings. Every other unit is kept as the parser made it and handed on
/// untouched.
#[derive(Debug, PartialEq)]
pub enum MdEvent<'a> {
    /// A code block opens; the string is its language tag, empty where the
    /// block declares none.
    CodeBlockStart(String),
    /// A code block closes; the string is the tag it was opened with.
    CodeBlockEnd(String),
    /// A run of text.
    Text(String),
    /// Anything else.
    Other(pulldown_cmark::Event<'a>),
}

/// What an `MdEvent` is to the specifications: the same four kinds, with the
/// strings as sequences of characters.
pub ghost enum MdEventView<'a> {
    CodeBlockStart(Seq<char>),
    CodeBlockEnd(Seq<char>),
    Text(Seq<char>),
    Other(pulldown_cmark::Event<'a>),
}

impl<'a> View for MdEvent<'a> {
    type V = MdEventView<'a>;

    open spec fn view(&self) -> MdEventView<'a> {
        match *self {
            MdEvent::CodeBlockStart(lang) => MdEventView::CodeBlockStart(lang@),
            MdEvent::CodeBlockEnd(lang) => MdEventView::CodeBlockEnd(lang@),
            MdEvent::Text(text) => MdEventView::Text(text@),
            MdEvent::Other(raw) => MdEventView::Other(raw),
        }
    }
}

/// The views of a sequence of events, in the same order.
pub open spec fn views<'a>(events: Seq<MdEvent<'a>>) -> Seq<MdEventView<'a>> {
    events.map_values(|event: MdEvent<'a>| event@)
}

/// The language tag of the code blocks that are searched for a wrapper.
pub open spec fn target_language() -> Seq<char> {
    "scala"@
}

} // verus!
