//! The state machine that decides, event by event, what is wrapper
//! boilerplate.

use crate::event::{target_language, MdEvent, MdEventView};
use crate::pattern::{is_wrapper_end, is_wrapper_start, spec_is_wrapper_end, spec_is_wrapper_start};
use vstd::prelude::*;

verus! {

/// Where the transform stands in the stream.
#[derive(Clone, Copy, Debug, PartialEq, Eq, Structural)]
pub enum TransformState {
    /// Not in a Scala code block.
    Outside,
    /// In a Scala code block of which no text has been seen yet.
    FirstLine,
    /// In a Scala code block whose first text opened a wrapper.
    InsideWrapped,
    /// In a Scala code block whose first text opened no wrapper.
    InsideUnwrapped,
}

impl TransformState {
    /// The state after `event`.
    pub open spec fn next(self, event: MdEventView) -> TransformState {
        match event {
            MdEventView::CodeBlockStart(lang) => if lang == target_language() {
                TransformState::FirstLine
            } else {
                self
            },
            MdEventView::CodeBlockEnd(_) => TransformState::Outside,
            MdEventView::Text(text) => match self {
                TransformState::FirstLine => if spec_is_wrapper_start(text) {
                    TransformState::InsideWrapped
                } else {
                    TransformState::InsideUnwrapped
                },
                _ => self,
            },
            MdEventView::Other(_) => self,
        }
    }

    /// Whether `event`, met in this state, is wrapper boilerplate and is
    /// left out of the output.
    pub open spec fn suppresses(self, event: MdEventView) -> bool {
        match event {
            MdEventView::Text(text) => match self {
                TransformState::FirstLine => spec_is_wrapper_start(text),
                TransformState::InsideWrapped => spec_is_wrapper_end(text),
                _ => false,
            },
            _ => false,
        }
    }

    /// The state in which every stream begins.
    pub fn new() -> (state: TransformState)
        ensures
            state == TransformState::Outside,
    {
        TransformState::Outside
    }

    /// One transition: the state after `event`, and `event` itself unless it
    /// is suppressed.
    pub fn step<'a>(self, event: MdEvent<'a>) -> (out: (TransformState, Option<MdEvent<'a>>))
        ensures
            out.0 == self.next(event@),
            out.1 == if self.suppresses(event@) {
                None
            } else {
                Some(event)
            },
    {
        match event {
            MdEvent::CodeBlockStart(lang) => {
                let state = if is_target_language(&lang) {
                    TransformState::FirstLine
                } else {
                    self
                };
                (state, Some(MdEvent::CodeBlockStart(lang)))
            },
            MdEvent::CodeBlockEnd(lang) => (TransformState::Outside, Some(MdEvent::CodeBlockEnd(lang))),
            MdEvent::Text(text) => match self {
                TransformState::FirstLine => {
                    if is_wrapper_start(text.as_str()) {
                        (TransformState::InsideWrapped, None)
                    } else {
                        (TransformState::InsideUnwrapped, Some(MdEvent::Text(text)))
                    }
                },
                TransformState::InsideWrapped => {
                    if is_wrapper_end(text.as_str()) {
                        (TransformState::InsideWrapped, None)
                    } else {
                        (TransformState::InsideWrapped, Some(MdEvent::Text(text)))
                    }
                },
                _ => (self, Some(MdEvent::Text(text))),
            },
            MdEvent::Other(raw) => (self, Some(MdEvent::Other(raw))),
        }
    }
}

/// Whether a language tag is the one of the blocks that are searched.
pub fn is_target_language(lang: &String) -> (target: bool)
    ensures
        target == (lang@ == target_language()),
{
    let scala = "scala".to_owned();
    *lang == scala
}

} // verus!
