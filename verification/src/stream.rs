//! The run of the state machine over a stream of events, and what holds of
//! every such run.

use crate::event::{target_language, views, MdEvent, MdEventView};
use crate::machine::TransformState;
use crate::pattern::{spec_is_wrapper_end, spec_is_wrapper_start};
use vstd::prelude::*;

verus! {

/// The state after all of `events`, starting from `state`.
pub open spec fn state_from(state: TransformState, events: Seq<MdEventView>) -> TransformState
    decreases events.len(),
{
    if events.len() == 0 {
        state
    } else {
        state_from(state, events.drop_last()).next(events.last())
    }
}

/// What is left of `events` when the machine, starting from `state`, has
/// taken out the boilerplate.
pub open spec fn strip_from(state: TransformState, events: Seq<MdEventView>) -> Seq<MdEventView>
    decreases events.len(),
{
    if events.len() == 0 {
        Seq::empty()
    } else {
        let before = strip_from(state, events.drop_last());
        if state_from(state, events.drop_last()).suppresses(events.last()) {
            before
        } else {
            before.push(events.last())
        }
    }
}

/// What is left of the events of a whole document.
pub open spec fn strip(events: Seq<MdEventView>) -> Seq<MdEventView> {
    strip_from(TransformState::Outside, events)
}

/// Runs the machine over the events of a document and returns those that it
/// does not suppress, in their order.
pub fn strip_wrappers<'a>(events: Vec<MdEvent<'a>>) -> (kept: Vec<MdEvent<'a>>)
    ensures
        views(kept@) == strip(views(events@)),
{
    let mut kept: Vec<MdEvent<'a>> = Vec::new();
    let mut state = TransformState::new();
    for event in it: events
        invariant
            it.seq() == events@,
            state == state_from(TransformState::Outside, views(events@.take(it.index()))),
            views(kept@) == strip_from(TransformState::Outside, views(events@.take(it.index()))),
    {
        proof {
            let done = events@.take(it.index());
            let more = events@.take(it.index() + 1);
            assert(views(more).drop_last() == views(done));
            assert(views(more).last() == event@);
        }
        let ghost before = kept@;
        let (next, emitted) = state.step(event);
        state = next;
        match emitted {
            Some(out) => {
                kept.push(out);
                assert(views(kept@) == views(before).push(out@));
            },
            None => {},
        }
    }
    proof {
        assert(events@.take(events@.len() as int) == events@);
    }
    kept
}

/// The event opens a code block in the target language.
pub open spec fn is_target_start(event: MdEventView) -> bool {
    event matches MdEventView::CodeBlockStart(lang) && lang == target_language()
}

/// The event opens a code block in another language, or in none.
pub open spec fn is_other_start(event: MdEventView) -> bool {
    event matches MdEventView::CodeBlockStart(lang) && lang != target_language()
}

/// Every event of the sequence is a run of text.
pub open spec fn all_text(events: Seq<MdEventView>) -> bool {
    forall|i: int| 0 <= i < events.len() ==> #[trigger] events[i] is Text
}

/// The event is a run of text that begins with a closing brace.
pub open spec fn closes_wrapper(event: MdEventView) -> bool {
    event matches MdEventView::Text(text) && spec_is_wrapper_end(text)
}

/// The event is a run of text that opens a wrapper.
pub open spec fn opens_wrapper_text(event: MdEventView) -> bool {
    event matches MdEventView::Text(text) && spec_is_wrapper_start(text)
}

/// A run over one event: the state moves by one transition, and the event
/// is left unless the state suppresses it.
pub proof fn lemma_strip_one(state: TransformState, event: MdEventView)
    ensures
        state_from(state, seq![event]) == state.next(event),
        strip_from(state, seq![event]) == if state.suppresses(event) {
            Seq::<MdEventView>::empty()
        } else {
            seq![event]
        },
{
    let one = seq![event];
    assert(one.drop_last() == Seq::<MdEventView>::empty());
    assert(one.last() == event);
    assert(state_from(state, one.drop_last()) == state);
    assert(strip_from(state, one.drop_last()) == Seq::<MdEventView>::empty());
    assert(Seq::<MdEventView>::empty().push(event) == one);
}

/// A run over two streams, one after the other, is the run over the first
/// followed by the run over the second from the state that the first left:
/// nothing but that state passes from one to the other.
pub proof fn lemma_strip_append(
    state: TransformState,
    first: Seq<MdEventView>,
    second: Seq<MdEventView>,
)
    ensures
        state_from(state, first + second) == state_from(state_from(state, first), second),
        strip_from(state, first + second) == strip_from(state, first) + strip_from(
            state_from(state, first),
            second,
        ),
    decreases second.len(),
{
    let between = state_from(state, first);
    if second.len() == 0 {
        assert(first + second == first);
        assert(strip_from(state, first) + strip_from(between, second) == strip_from(state, first));
    } else {
        let all = first + second;
        assert(all.drop_last() == first + second.drop_last());
        assert(all.last() == second.last());
        lemma_strip_append(state, first, second.drop_last());
        let head = strip_from(state, first);
        let tail = strip_from(between, second.drop_last());
        assert((head + tail).push(second.last()) == head + tail.push(second.last()));
    }
}

/// The machine only takes events out: each event that is left is one of
/// those that came in.
pub proof fn lemma_strip_keeps_only_given(state: TransformState, events: Seq<MdEventView>)
    ensures
        forall|i: int|
            0 <= i < strip_from(state, events).len() ==> events.contains(
                #[trigger] strip_from(state, events)[i],
            ),
    decreases events.len(),
{
    if events.len() > 0 {
        let before = events.drop_last();
        lemma_strip_keeps_only_given(state, before);
        let left = strip_from(state, events);
        assert forall|i: int| 0 <= i < left.len() implies events.contains(#[trigger] left[i]) by {
            if i < strip_from(state, before).len() {
                let found = strip_from(state, before)[i];
                assert(before.contains(found));
                let at = choose|at: int| 0 <= at < before.len() && before[at] == found;
                assert(events[at] == found);
            } else {
                assert(events[events.len() - 1] == left[i]);
            }
        }
    }
}

/// Only runs of text are ever taken out: every other event is left, in
/// whatever state it is met.
pub proof fn lemma_only_text_is_suppressed(state: TransformState, event: MdEventView)
    ensures
        state.suppresses(event) ==> event is Text,
        state.suppresses(event) ==> opens_wrapper_text(event) || closes_wrapper(event),
{
}

/// The end of a code block brings the machine back to `Outside` from every
/// state, and the start of a block in the target language brings it to
/// `FirstLine` from every state: what a block left behind does not reach the
/// next one.
pub proof fn lemma_block_bounds_reset(state: TransformState, event: MdEventView)
    ensures
        event is CodeBlockEnd ==> state.next(event) == TransformState::Outside,
        is_target_start(event) ==> state.next(event) == TransformState::FirstLine,
        event is CodeBlockEnd || event is CodeBlockStart ==> !state.suppresses(event),
{
}

/// A stream that begins with the start of a block in the target language is
/// treated alike whatever went before it: the state in which it is met does
/// not show in what is left of it, nor in the state after it.
pub proof fn lemma_target_block_forgets_state(
    one: TransformState,
    other: TransformState,
    events: Seq<MdEventView>,
)
    requires
        events.len() > 0,
        is_target_start(events[0]),
    ensures
        strip_from(one, events) == strip_from(other, events),
        state_from(one, events) == state_from(other, events),
{
    let start = seq![events[0]];
    let rest = events.subrange(1, events.len() as int);
    assert(events == start + rest);
    lemma_strip_one(one, events[0]);
    lemma_strip_one(other, events[0]);
    lemma_strip_append(one, start, rest);
    lemma_strip_append(other, start, rest);
}

/// Outside a block in the target language, and in one whose first text
/// opened no wrapper, runs of text pass and leave the state as it is.
pub proof fn lemma_text_passes(state: TransformState, texts: Seq<MdEventView>)
    requires
        all_text(texts),
        state == TransformState::Outside || state == TransformState::InsideUnwrapped,
    ensures
        strip_from(state, texts) == texts,
        state_from(state, texts) == state,
    decreases texts.len(),
{
    if texts.len() > 0 {
        let before = texts.drop_last();
        assert forall|i: int| 0 <= i < before.len() implies #[trigger] before[i] is Text by {
            assert(before[i] == texts[i]);
        }
        lemma_text_passes(state, before);
        assert(texts.last() is Text);
        assert(before.push(texts.last()) == texts);
    }
}

/// In a block whose first text opened a wrapper, a run of text is taken out
/// where it begins with a closing brace and passes where it does not; the
/// state stays as it is.
pub proof fn lemma_wrapped_text(texts: Seq<MdEventView>)
    requires
        all_text(texts),
    ensures
        strip_from(TransformState::InsideWrapped, texts) == texts.filter(
            |event: MdEventView| !closes_wrapper(event),
        ),
        state_from(TransformState::InsideWrapped, texts) == TransformState::InsideWrapped,
    decreases texts.len(),
{
    reveal(Seq::filter);
    if texts.len() > 0 {
        let before = texts.drop_last();
        assert forall|i: int| 0 <= i < before.len() implies #[trigger] before[i] is Text by {
            assert(before[i] == texts[i]);
        }
        lemma_wrapped_text(before);
        assert(texts.last() is Text);
    }
}

/// No start of a block in the target language stands in the stream.
pub open spec fn no_target_block(events: Seq<MdEventView>) -> bool {
    forall|i: int| 0 <= i < events.len() ==> !is_target_start(#[trigger] events[i])
}

/// A document without a code block in the target language passes whole:
/// nothing is taken out of its events, and the machine never leaves
/// `Outside`.
pub proof fn lemma_passthrough_without_target_block(events: Seq<MdEventView>)
    requires
        no_target_block(events),
    ensures
        strip(events) == events,
        state_from(TransformState::Outside, events) == TransformState::Outside,
    decreases events.len(),
{
    if events.len() > 0 {
        let before = events.drop_last();
        assert forall|i: int| 0 <= i < before.len() implies !is_target_start(
            #[trigger] before[i],
        ) by {
            assert(before[i] == events[i]);
        }
        lemma_passthrough_without_target_block(before);
        assert(!is_target_start(events[events.len() - 1]));
        assert(before.push(events.last()) == events);
    }
}

/// A code block: its start, the runs of text of its body, and its end.
pub open spec fn code_block<'a>(
    start: MdEventView<'a>,
    body: Seq<MdEventView<'a>>,
    end: MdEventView<'a>,
) -> Seq<MdEventView<'a>> {
    seq![start] + body + seq![end]
}

/// A block in the target language whose first text opens no wrapper comes
/// out with all its text, the first included, in whatever state it is met;
/// after it the machine is `Outside`.
pub proof fn lemma_unwrapped_block_is_kept(
    state: TransformState,
    start: MdEventView,
    body: Seq<MdEventView>,
    end: MdEventView,
)
    requires
        is_target_start(start),
        all_text(body),
        body.len() > 0 ==> !opens_wrapper_text(body[0]),
        end is CodeBlockEnd,
    ensures
        strip_from(state, code_block(start, body, end)) == code_block(start, body, end),
        state_from(state, code_block(start, body, end)) == TransformState::Outside,
{
    let opened = seq![start];
    let closed = seq![end];
    lemma_strip_one(state, start);
    lemma_strip_append(state, opened, body);
    let inside = state_from(TransformState::FirstLine, body);
    if body.len() == 0 {
        assert(strip_from(TransformState::FirstLine, body) == body);
    } else {
        let first = seq![body[0]];
        let rest = body.subrange(1, body.len() as int);
        assert(body == first + rest);
        assert(body[0] is Text);
        assert forall|i: int| 0 <= i < rest.len() implies #[trigger] rest[i] is Text by {
            assert(rest[i] == body[i + 1]);
        }
        lemma_strip_one(TransformState::FirstLine, body[0]);
        lemma_strip_append(TransformState::FirstLine, first, rest);
        lemma_text_passes(TransformState::InsideUnwrapped, rest);
    }
    lemma_strip_append(state, opened + body, closed);
    lemma_strip_one(inside, end);
}

/// A block in the target language whose first text opens a wrapper comes
/// out without that text and without the later runs of text that begin with
/// a closing brace; all its other text is left, in its order.
pub proof fn lemma_wrapped_block_is_stripped(
    state: TransformState,
    start: MdEventView,
    first: MdEventView,
    rest: Seq<MdEventView>,
    end: MdEventView,
)
    requires
        is_target_start(start),
        opens_wrapper_text(first),
        all_text(rest),
        end is CodeBlockEnd,
    ensures
        strip_from(state, code_block(start, seq![first] + rest, end)) == code_block(
            start,
            rest.filter(|event: MdEventView| !closes_wrapper(event)),
            end,
        ),
        state_from(state, code_block(start, seq![first] + rest, end)) == TransformState::Outside,
{
    let opened = seq![start];
    let closed = seq![end];
    let body = seq![first] + rest;
    lemma_strip_one(state, start);
    lemma_strip_append(state, opened, body);
    lemma_strip_one(TransformState::FirstLine, first);
    lemma_strip_append(TransformState::FirstLine, seq![first], rest);
    lemma_wrapped_text(rest);
    lemma_strip_append(state, opened + body, closed);
    lemma_strip_one(TransformState::InsideWrapped, end);
    let left = rest.filter(|event: MdEventView| !closes_wrapper(event));
    assert(Seq::<MdEventView>::empty() + left == left);
}

/// A code block in another language comes out as it went in, whatever its
/// text holds, where it is met outside of any block in the target language
/// or in one whose first text opened no wrapper; after it the machine is
/// `Outside`.
pub proof fn lemma_other_block_is_untouched(
    state: TransformState,
    start: MdEventView,
    body: Seq<MdEventView>,
    end: MdEventView,
)
    requires
        state == TransformState::Outside || state == TransformState::InsideUnwrapped,
        is_other_start(start),
        all_text(body),
        end is CodeBlockEnd,
    ensures
        strip_from(state, code_block(start, body, end)) == code_block(start, body, end),
        state_from(state, code_block(start, body, end)) == TransformState::Outside,
{
    let opened = seq![start];
    let closed = seq![end];
    lemma_strip_one(state, start);
    lemma_strip_append(state, opened, body);
    lemma_text_passes(state, body);
    lemma_strip_append(state, opened + body, closed);
    lemma_strip_one(state, end);
}

/// A code block in another language that stands in a document after
/// events that left the machine `Outside` comes out as it went in, and
/// what stands before and after it is treated as if the block were not
/// there.
pub proof fn lemma_other_block_in_document(
    before: Seq<MdEventView>,
    start: MdEventView,
    body: Seq<MdEventView>,
    end: MdEventView,
    after: Seq<MdEventView>,
)
    requires
        state_from(TransformState::Outside, before) == TransformState::Outside,
        is_other_start(start),
        all_text(body),
        end is CodeBlockEnd,
    ensures
        strip(before + code_block(start, body, end) + after) == strip(before) + code_block(
            start,
            body,
            end,
        ) + strip(after),
{
    let block = code_block(start, body, end);
    lemma_other_block_is_untouched(TransformState::Outside, start, body, end);
    lemma_strip_append(TransformState::Outside, before, block);
    lemma_strip_append(TransformState::Outside, before + block, after);
}

/// Blocks are processed independently: where the first of two streams ends
/// with the end of a code block, what is left of both together is what is
/// left of each alone.
pub proof fn lemma_blocks_are_independent(first: Seq<MdEventView>, second: Seq<MdEventView>)
    requires
        first.len() > 0,
        first.last() is CodeBlockEnd,
    ensures
        strip(first + second) == strip(first) + strip(second),
        state_from(TransformState::Outside, first) == TransformState::Outside,
{
    lemma_strip_append(TransformState::Outside, first, second);
}

} // verus!
