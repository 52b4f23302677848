//! The reasoning that a thinking model streams before its answer.
//!
//! A thinking model writes its reasoning first and its answer after it, in one
//! stream. [`ThoughtStream`] turns the deltas of that stream into events:
//! a piece of reasoning, the transition, a piece of the answer.
//!
//! The reasoning ends at a closing marker, which is dropped, or in front of
//! the first section of the answer (a heading or a bold label after an empty
//! line), which is kept. A marker can be cut between two deltas, so the last
//! [`MARKER_LOOKBEHIND`] characters are kept back until more is known. A section
//! brings out with it the reasoning that was kept back in front of it. Where a
//! text longer than that ends in an empty line, so that a section may begin with
//! the next delta, what is kept back in front of the empty line is also less
//! than [`MARKER_LOOKBEHIND`] bytes.

use crate::outside;
use crate::prompt::notify::{SessionUpdate, SessionUpdateView};
use crate::text;
use vstd::prelude::*;
use vstd::string::*;

verus! {

/// How much is kept back, in characters.
pub const MARKER_LOOKBEHIND: usize = 32;

#[derive(Debug, Clone, Copy, PartialEq, Eq, Structural)]
pub enum ThoughtPhase {
    Response,
    Thinking,
    Completed,
}

#[derive(Debug, Clone, PartialEq, Eq)]
pub enum ThoughtEvent {
    ThoughtChunk(String),
    ThoughtEnd,
    ResponseChunk(String),
}

/// An event with its text as a sequence of characters.
pub enum ThoughtEventView {
    ThoughtChunk(Seq<char>),
    ThoughtEnd,
    ResponseChunk(Seq<char>),
}

impl View for ThoughtEvent {
    type V = ThoughtEventView;

    open spec fn view(&self) -> ThoughtEventView {
        match *self {
            ThoughtEvent::ThoughtChunk(t) => ThoughtEventView::ThoughtChunk(t@),
            ThoughtEvent::ThoughtEnd => ThoughtEventView::ThoughtEnd,
            ThoughtEvent::ResponseChunk(t) => ThoughtEventView::ResponseChunk(t@),
        }
    }
}

pub open spec fn events_of(events: Seq<ThoughtEvent>) -> Seq<ThoughtEventView> {
    Seq::new(events.len(), |i: int| events[i]@)
}

/// The state of a stream: where it is, what it keeps back, and whether a
/// piece of reasoning has come out of it.
pub struct ThoughtState {
    pub phase: ThoughtPhase,
    pub pending: Seq<char>,
    pub emitted: bool,
}

// ---------------------------------------------------------------------------
// Where the reasoning ends
// ---------------------------------------------------------------------------

/// `s` without the opening marker that it may begin with.
pub open spec fn opened(s: Seq<char>) -> Seq<char> {
    if text::starts_with_spec(s, "<think>"@) {
        s.skip("<think>"@.len() as int)
    } else if text::starts_with_spec(s, "<thinking>"@) {
        s.skip("<thinking>"@.len() as int)
    } else {
        s
    }
}

/// A section of the answer begins at `i`: a heading of the first four levels,
/// or a bold label.
pub open spec fn section_at(s: Seq<char>, i: int) -> bool {
    ||| text::matches_at(s, "# "@, i)
    ||| text::matches_at(s, "## "@, i)
    ||| text::matches_at(s, "### "@, i)
    ||| text::matches_at(s, "#### "@, i)
    ||| (text::matches_at(s, "**"@, i) && i + 2 < s.len() && outside::alphanumeric(s[i + 2]))
}

/// The first of the empty lines, read in pairs of line ends from `from` on,
/// that a section follows.
pub open spec fn section_break(s: Seq<char>, from: int) -> Option<int>
    decreases s.len() - from,
{
    match text::find_from(s, "\n\n"@, from) {
        Some(i) => if i < from || i + 2 > s.len() {
            None
        } else if section_at(s, i + 2) {
            Some(i)
        } else {
            section_break(s, i + 2)
        },
        None => None,
    }
}

/// Where the reasoning in `s` ends and where the answer begins.
pub open spec fn thought_end(s: Seq<char>) -> Option<(int, int)> {
    match text::first_match(s, "</thinking>"@) {
        Some(i) => Some((i, (i + "</thinking>"@.len()))),
        None => match text::first_match(s, "</think>"@) {
            Some(i) => Some((i, (i + "</think>"@.len()))),
            None => match section_break(s, 0) {
                Some(i) => Some((i, i)),
                None => None,
            },
        },
    }
}

// ---------------------------------------------------------------------------
// What a delta does
// ---------------------------------------------------------------------------

/// The event for a text, or none where the text is empty.
pub open spec fn thought_chunk(t: Seq<char>) -> Seq<ThoughtEventView> {
    if t.len() == 0 {
        Seq::empty()
    } else {
        seq![ThoughtEventView::ThoughtChunk(t)]
    }
}

pub open spec fn response_chunk(t: Seq<char>) -> Seq<ThoughtEventView> {
    if t.len() == 0 {
        Seq::empty()
    } else {
        seq![ThoughtEventView::ResponseChunk(t)]
    }
}

/// The text ends in an empty line.
pub open spec fn ends_in_empty_line(s: Seq<char>) -> bool {
    s.len() >= 2 && s[s.len() - 2] == '\n' && s[s.len() - 1] == '\n'
}

/// The longest end of a text with fewer than [`MARKER_LOOKBEHIND`] bytes in
/// front of the empty line.
pub open spec fn shortened(s: Seq<char>) -> Seq<char>
    decreases s.len(),
{
    if s.len() <= 2 || text::utf8_len(s.take(s.len() - 2)) < MARKER_LOOKBEHIND {
        s
    } else {
        shortened(s.drop_first())
    }
}

/// The end of a text that is kept back: its last characters. Where a longer text
/// ends in an empty line, after which a section may follow at once, that end is
/// shortened.
pub open spec fn held_back(s: Seq<char>) -> Seq<char> {
    if s.len() <= MARKER_LOOKBEHIND {
        s
    } else {
        let end = s.skip(s.len() - MARKER_LOOKBEHIND);
        if ends_in_empty_line(end) {
            shortened(end)
        } else {
            end
        }
    }
}

/// The state after a delta, and the events that it gives.
pub open spec fn fed(state: ThoughtState, delta: Seq<char>) -> (ThoughtState, Seq<ThoughtEventView>) {
    match state.phase {
        ThoughtPhase::Completed => (state, Seq::empty()),
        ThoughtPhase::Response => (state, response_chunk(delta)),
        ThoughtPhase::Thinking => if delta.len() == 0 {
            (state, Seq::empty())
        } else {
            let buffer = opened(state.pending + delta);
            match thought_end(buffer) {
                Some((end, start)) => (
                    ThoughtState {
                        phase: ThoughtPhase::Response,
                        pending: Seq::empty(),
                        emitted: state.emitted || end > 0,
                    },
                    thought_chunk(buffer.take(end)) + seq![ThoughtEventView::ThoughtEnd]
                        + response_chunk(buffer.skip(start)),
                ),
                None => {
                    let kept = held_back(buffer);
                    let cut = buffer.len() - kept.len();
                    (
                        ThoughtState {
                            phase: ThoughtPhase::Thinking,
                            pending: kept,
                            emitted: state.emitted || cut > 0,
                        },
                        thought_chunk(buffer.take(cut)),
                    )
                },
            }
        },
    }
}

/// The state after the end of the stream, and the events that it gives.
pub open spec fn finished(state: ThoughtState) -> (ThoughtState, Seq<ThoughtEventView>) {
    let thinking = state.phase == ThoughtPhase::Thinking;
    (
        if state.phase == ThoughtPhase::Completed {
            state
        } else {
            ThoughtState {
                phase: ThoughtPhase::Completed,
                pending: Seq::empty(),
                emitted: state.emitted || (thinking && state.pending.len() > 0),
            }
        },
        match state.phase {
            ThoughtPhase::Completed => Seq::empty(),
            ThoughtPhase::Thinking => thought_chunk(state.pending).push(
                ThoughtEventView::ThoughtEnd,
            ),
            ThoughtPhase::Response => response_chunk(state.pending),
        },
    )
}

/// The state in which a stream begins.
pub open spec fn fresh(is_thinking_model: bool) -> ThoughtState {
    ThoughtState {
        phase: if is_thinking_model {
            ThoughtPhase::Thinking
        } else {
            ThoughtPhase::Response
        },
        pending: Seq::empty(),
        emitted: false,
    }
}

/// The state after the deltas, one after the other, and all their events.
pub open spec fn fed_all(state: ThoughtState, deltas: Seq<Seq<char>>) -> (
    ThoughtState,
    Seq<ThoughtEventView>,
)
    decreases deltas.len(),
{
    if deltas.len() == 0 {
        (state, Seq::empty())
    } else {
        let before = fed_all(state, deltas.drop_last());
        let last = fed(before.0, deltas.last());
        (last.0, before.1 + last.1)
    }
}

/// The reasoning that the events hold, put together.
pub open spec fn thought_text(events: Seq<ThoughtEventView>) -> Seq<char>
    decreases events.len(),
{
    if events.len() == 0 {
        Seq::empty()
    } else {
        match events.last() {
            ThoughtEventView::ThoughtChunk(t) => thought_text(events.drop_last()) + t,
            _ => thought_text(events.drop_last()),
        }
    }
}

/// The answer that the events hold, put together.
pub open spec fn response_text(events: Seq<ThoughtEventView>) -> Seq<char>
    decreases events.len(),
{
    if events.len() == 0 {
        Seq::empty()
    } else {
        match events.last() {
            ThoughtEventView::ResponseChunk(t) => response_text(events.drop_last()) + t,
            _ => response_text(events.drop_last()),
        }
    }
}

// ---------------------------------------------------------------------------
// Laws
// ---------------------------------------------------------------------------

/// What every stream keeps: text is kept back only while the model thinks, and
/// then no more than a marker may need.
pub open spec fn valid(state: ThoughtState) -> bool {
    if state.phase == ThoughtPhase::Thinking {
        state.pending.len() <= MARKER_LOOKBEHIND
    } else {
        state.pending.len() == 0
    }
}

proof fn lemma_shortened(s: Seq<char>)
    ensures
        shortened(s).len() <= s.len(),
        s.len() >= 2 ==> shortened(s).len() >= 2,
        shortened(s) == s.skip(s.len() - shortened(s).len()),
        s.len() >= 2 ==> text::utf8_len(shortened(s).take(shortened(s).len() - 2))
            < MARKER_LOOKBEHIND,
    decreases s.len(),
{
    assert(s.skip(0) =~= s);
    if s.len() == 2 {
        assert(s.take(0) =~= Seq::<char>::empty());
        assert(text::utf8_len(Seq::<char>::empty()) == 0);
    }
    if s.len() > 2 && text::utf8_len(s.take(s.len() - 2)) >= MARKER_LOOKBEHIND {
        let rest = s.drop_first();
        lemma_shortened(rest);
        let n = shortened(rest).len();
        assert(rest.skip(rest.len() - n) =~= s.skip(s.len() - n));
    }
}

proof fn lemma_held_back(s: Seq<char>)
    ensures
        held_back(s).len() <= s.len(),
        held_back(s) == s.skip(s.len() - held_back(s).len()),
        held_back(s).len() <= MARKER_LOOKBEHIND,
{
    assert(s.skip(0) =~= s);
    if s.len() > MARKER_LOOKBEHIND {
        let end = s.skip(s.len() - MARKER_LOOKBEHIND);
        lemma_shortened(end);
        let n = shortened(end).len();
        assert(end.skip(end.len() - n) =~= s.skip(s.len() - n));
    }
}

/// Where the reasoning is long and ends in an empty line, less than
/// [`MARKER_LOOKBEHIND`] bytes of it are kept back in front of that line: no
/// more comes out with the section that may follow.
pub proof fn law_little_comes_with_the_section(state: ThoughtState, delta: Seq<char>)
    requires
        state.phase == ThoughtPhase::Thinking,
        delta.len() > 0,
        thought_end(opened(state.pending + delta)) is None,
        opened(state.pending + delta).len() > MARKER_LOOKBEHIND,
        ends_in_empty_line(opened(state.pending + delta)),
    ensures
        ({
            let pending = fed(state, delta).0.pending;
            &&& ends_in_empty_line(pending)
            &&& text::utf8_len(pending.take(pending.len() - 2)) < MARKER_LOOKBEHIND
        }),
{
    let buffer = opened(state.pending + delta);
    let end = buffer.skip(buffer.len() - MARKER_LOOKBEHIND);
    assert(ends_in_empty_line(end));
    lemma_shortened(end);
}

/// A stream begins valid and stays so, and no delta leads back to thinking.
pub proof fn law_stream_stays_valid(state: ThoughtState, delta: Seq<char>, is_thinking_model: bool)
    requires
        valid(state),
    ensures
        valid(fresh(is_thinking_model)),
        valid(fed(state, delta).0),
        valid(finished(state).0),
        state.phase != ThoughtPhase::Thinking ==> fed(state, delta).0 == state,
        finished(state).0.phase == ThoughtPhase::Completed,
{
    lemma_held_back(opened(state.pending + delta));
}

/// After the end nothing comes out any more.
pub proof fn law_nothing_after_the_end(state: ThoughtState, delta: Seq<char>)
    ensures
        fed(finished(state).0, delta) == (finished(state).0, Seq::<ThoughtEventView>::empty()),
        finished(finished(state).0) == (finished(state).0, Seq::<ThoughtEventView>::empty()),
{
}

/// The texts that a list of events holds are those of its parts, in order.
pub proof fn lemma_texts_add(a: Seq<ThoughtEventView>, b: Seq<ThoughtEventView>)
    ensures
        thought_text(a + b) == thought_text(a) + thought_text(b),
        response_text(a + b) == response_text(a) + response_text(b),
    decreases b.len(),
{
    if b.len() == 0 {
        assert(a + b =~= a);
        assert(thought_text(a) + thought_text(b) =~= thought_text(a));
        assert(response_text(a) + response_text(b) =~= response_text(a));
    } else {
        lemma_texts_add(a, b.drop_last());
        assert((a + b).drop_last() =~= a + b.drop_last());
        assert((a + b).last() == b.last());
        assert(thought_text(a + b) =~= thought_text(a) + thought_text(b));
        assert(response_text(a + b) =~= response_text(a) + response_text(b));
    }
}

proof fn lemma_chunk_texts(t: Seq<char>)
    ensures
        thought_text(thought_chunk(t)) == t,
        response_text(thought_chunk(t)).len() == 0,
        thought_text(response_chunk(t)).len() == 0,
        response_text(response_chunk(t)) == t,
        thought_text(seq![ThoughtEventView::ThoughtEnd]).len() == 0,
        response_text(seq![ThoughtEventView::ThoughtEnd]).len() == 0,
{
    let nothing = Seq::<ThoughtEventView>::empty();
    assert(thought_text(nothing) =~= Seq::<char>::empty());
    assert(response_text(nothing) =~= Seq::<char>::empty());
    if t.len() == 0 {
        assert(t =~= Seq::<char>::empty());
    } else {
        assert(thought_chunk(t).drop_last() =~= nothing);
        assert(response_chunk(t).drop_last() =~= nothing);
        assert(thought_text(nothing) + t =~= t);
        assert(response_text(nothing) + t =~= t);
    }
    assert(seq![ThoughtEventView::ThoughtEnd].drop_last() =~= nothing);
}

/// While the model thinks, a delta loses no text: the reasoning that comes
/// out, the marker that ends it, and the answer or what is kept back are what
/// was kept back before and the delta, without an opening marker.
pub proof fn law_no_text_is_lost(state: ThoughtState, delta: Seq<char>)
    requires
        state.phase == ThoughtPhase::Thinking,
        delta.len() > 0,
    ensures
        ({
            let buffer = opened(state.pending + delta);
            let (next, events) = fed(state, delta);
            match thought_end(buffer) {
                Some((end, start)) => {
                    &&& 0 <= end <= start <= buffer.len()
                    &&& thought_text(events) == buffer.take(end)
                    &&& response_text(events) == buffer.skip(start)
                    &&& {
                        ||| start == end
                        ||| buffer.subrange(end, start) == "</think>"@
                        ||| buffer.subrange(end, start) == "</thinking>"@
                    }
                },
                None => {
                    &&& thought_text(events) + next.pending == buffer
                    &&& response_text(events).len() == 0
                },
            }
        }),
{
    let buffer = opened(state.pending + delta);
    let (next, events) = fed(state, delta);
    text::lemma_find_from(buffer, "</thinking>"@, 0);
    text::lemma_find_from(buffer, "</think>"@, 0);
    lemma_section_break(buffer, 0);
    match thought_end(buffer) {
        Some((end, start)) => {
            let a = thought_chunk(buffer.take(end));
            let b = seq![ThoughtEventView::ThoughtEnd];
            let c = response_chunk(buffer.skip(start));
            lemma_chunk_texts(buffer.take(end));
            lemma_chunk_texts(buffer.skip(start));
            lemma_texts_add(a + b, c);
            lemma_texts_add(a, b);
            assert(thought_text(events) =~= buffer.take(end));
            assert(response_text(events) =~= buffer.skip(start));
        },
        None => {
            let cut = buffer.len() - next.pending.len();
            lemma_held_back(buffer);
            lemma_chunk_texts(buffer.take(cut));
            assert(buffer.take(cut) + buffer.skip(cut) =~= buffer);
        },
    }
}

proof fn lemma_section_break(s: Seq<char>, from: int)
    requires
        0 <= from,
    ensures
        match section_break(s, from) {
            Some(i) => from <= i && i + 2 <= s.len() && text::matches_at(s, "\n\n"@, i)
                && section_at(s, i + 2),
            None => true,
        },
    decreases s.len() - from,
{
    reveal_strlit("\n\n");
    text::lemma_find_from(s, "\n\n"@, from);
    match text::find_from(s, "\n\n"@, from) {
        Some(i) => {
            if i + 2 <= s.len() && !section_at(s, i + 2) {
                lemma_section_break(s, i + 2);
            }
        },
        None => {},
    }
}

/// The stream of a model that does not think is its answer, delta by delta.
pub proof fn law_no_thinking_no_thought(deltas: Seq<Seq<char>>)
    ensures
        ({
            let (state, events) = fed_all(fresh(false), deltas);
            &&& state == fresh(false)
            &&& thought_text(events).len() == 0
            &&& response_text(events) == text::concatenated(deltas)
            &&& finished(state).1.len() == 0
        }),
    decreases deltas.len(),
{
    if deltas.len() > 0 {
        law_no_thinking_no_thought(deltas.drop_last());
        let before = fed_all(fresh(false), deltas.drop_last());
        let last = fed(before.0, deltas.last());
        lemma_texts_add(before.1, last.1);
        lemma_chunk_texts(deltas.last());
    }
}

/// A stream says that reasoning has come out of it if and only if it has.
pub proof fn law_emitted_means_emitted(is_thinking_model: bool, deltas: Seq<Seq<char>>)
    ensures
        ({
            let (state, events) = fed_all(fresh(is_thinking_model), deltas);
            let (done, tail) = finished(state);
            &&& state.emitted == (thought_text(events).len() > 0)
            &&& done.emitted == (thought_text(events + tail).len() > 0)
        }),
    decreases deltas.len(),
{
    let (state, events) = fed_all(fresh(is_thinking_model), deltas);
    if deltas.len() > 0 {
        law_emitted_means_emitted(is_thinking_model, deltas.drop_last());
        let before = fed_all(fresh(is_thinking_model), deltas.drop_last());
        let delta = deltas.last();
        let last = fed(before.0, delta);
        lemma_texts_add(before.1, last.1);
        match before.0.phase {
            ThoughtPhase::Thinking => {
                if delta.len() > 0 {
                    law_no_text_is_lost(before.0, delta);
                }
            },
            ThoughtPhase::Response => {
                lemma_chunk_texts(delta);
            },
            ThoughtPhase::Completed => {},
        }
    }
    let (done, tail) = finished(state);
    lemma_texts_add(events, tail);
    lemma_chunk_texts(state.pending);
    lemma_texts_add(thought_chunk(state.pending), seq![ThoughtEventView::ThoughtEnd]);
    assert(thought_chunk(state.pending) + seq![ThoughtEventView::ThoughtEnd] =~= thought_chunk(
        state.pending,
    ).push(ThoughtEventView::ThoughtEnd));
}

/// The events up to `k` are pieces of reasoning, that at `k` is the
/// transition, and those after it are pieces of the answer; none is empty.
pub open spec fn turns_at(events: Seq<ThoughtEventView>, k: int) -> bool {
    &&& 0 <= k < events.len()
    &&& events[k] == ThoughtEventView::ThoughtEnd
    &&& forall|i: int| 0 <= i < k ==> is_thought(#[trigger] events[i])
    &&& forall|i: int| k < i < events.len() ==> is_response(#[trigger] events[i])
}

pub open spec fn is_thought(e: ThoughtEventView) -> bool {
    e matches ThoughtEventView::ThoughtChunk(t) && t.len() > 0
}

pub open spec fn is_response(e: ThoughtEventView) -> bool {
    e matches ThoughtEventView::ResponseChunk(t) && t.len() > 0
}

proof fn lemma_shape(deltas: Seq<Seq<char>>) -> (k: int)
    ensures
        ({
            let (state, events) = fed_all(fresh(true), deltas);
            &&& valid(state)
            &&& state.phase != ThoughtPhase::Completed
            &&& state.phase == ThoughtPhase::Thinking ==> forall|i: int|
                0 <= i < events.len() ==> is_thought(#[trigger] events[i])
            &&& state.phase == ThoughtPhase::Response ==> turns_at(events, k)
        }),
    decreases deltas.len(),
{
    if deltas.len() == 0 {
        0
    } else {
        let k = lemma_shape(deltas.drop_last());
        let before = fed_all(fresh(true), deltas.drop_last());
        let last = fed(before.0, deltas.last());
        let events = before.1 + last.1;
        law_stream_stays_valid(before.0, deltas.last(), true);
        if before.0.phase == ThoughtPhase::Response {
            assert forall|i: int| k < i < events.len() implies is_response(#[trigger] events[i]) by {
                if i < before.1.len() {
                    assert(events[i] == before.1[i]);
                } else {
                    assert(events[i] == last.1[i - before.1.len()]);
                }
            }
            assert forall|i: int| 0 <= i < k implies is_thought(#[trigger] events[i]) by {
                assert(events[i] == before.1[i]);
            }
            assert(events[k] == before.1[k]);
            k
        } else if last.0.phase == ThoughtPhase::Thinking {
            assert forall|i: int| 0 <= i < events.len() implies is_thought(#[trigger] events[i]) by {
                if i < before.1.len() {
                    assert(events[i] == before.1[i]);
                } else {
                    assert(events[i] == last.1[i - before.1.len()]);
                }
            }
            0
        } else {
            let buffer = opened(before.0.pending + deltas.last());
            let (end, start) = thought_end(buffer)->0;
            let lead = thought_chunk(buffer.take(end));
            let at = before.1.len() + lead.len();
            assert(events[at as int] == last.1[lead.len() as int]);
            assert forall|i: int| 0 <= i < at implies is_thought(#[trigger] events[i]) by {
                if i < before.1.len() {
                    assert(events[i] == before.1[i]);
                } else {
                    assert(events[i] == last.1[i - before.1.len()]);
                    assert(last.1[i - before.1.len()] == lead[i - before.1.len()]);
                }
            }
            assert forall|i: int| at < i < events.len() implies is_response(#[trigger] events[i]) by {
                assert(events[i] == last.1[i - before.1.len()]);
            }
            at as int
        }
    }
}

/// The stream of a thinking model, taken to its end, turns exactly once:
/// reasoning, the transition, the answer. No piece is empty.
pub proof fn law_turns_exactly_once(deltas: Seq<Seq<char>>)
    ensures
        ({
            let (state, events) = fed_all(fresh(true), deltas);
            exists|k: int| turns_at(events + finished(state).1, k)
        }),
{
    let k = lemma_shape(deltas);
    let (state, events) = fed_all(fresh(true), deltas);
    let tail = finished(state).1;
    let all = events + tail;
    if state.phase == ThoughtPhase::Response {
        assert(all =~= events);
        assert(turns_at(all, k));
    } else {
        let lead = thought_chunk(state.pending);
        let at = events.len() + lead.len();
        assert forall|i: int| 0 <= i < at implies is_thought(#[trigger] all[i]) by {
            if i < events.len() {
                assert(all[i] == events[i]);
            } else {
                assert(all[i] == lead[i - events.len()]);
            }
        }
        assert(all[at as int] == ThoughtEventView::ThoughtEnd);
        assert(turns_at(all, at as int));
    }
}

/// Nothing but `marker`, right after `reasoning`, ends the reasoning of
/// `reasoning + marker + answer`, wherever the text is cut: no other closing
/// marker, no section and no opening marker can be seen first.
pub open spec fn ends_only_at(
    reasoning: Seq<char>,
    marker: Seq<char>,
    answer: Seq<char>,
) -> bool {
    let read = reasoning + marker;
    let whole = read + answer;
    &&& text::first_match(whole, marker) == Some(reasoning.len() as int)
    &&& {
        ||| marker == "</think>"@ && !text::occurs(whole, "</thinking>"@)
        ||| marker == "</thinking>"@ && !text::occurs(read, "</think>"@)
    }
    &&& forall|i: int|
        !(#[trigger] text::matches_at(read, "\n\n"@, i) && section_at(read, i + 2))
    &&& forall|i: int|
        i < read.len() ==> !(#[trigger] text::matches_at(whole, "<think>"@, i))
    &&& forall|i: int|
        i < read.len() ==> !(#[trigger] text::matches_at(whole, "<thinking>"@, i))
}

/// A pattern stands in a part of a text where it stands in the text.
proof fn lemma_window(s: Seq<char>, from: int, to: int, pattern: Seq<char>, i: int)
    requires
        0 <= from <= to <= s.len(),
        0 <= i,
        i + pattern.len() <= to - from,
    ensures
        text::matches_at(s.subrange(from, to), pattern, i) == text::matches_at(s, pattern, from + i),
{
    assert(s.subrange(from, to).subrange(i, i + pattern.len()) =~= s.subrange(
        from + i,
        from + i + pattern.len(),
    ));
}

/// A section that begins in a part of a text begins in the text.
proof fn lemma_section_window(s: Seq<char>, from: int, to: int, i: int)
    requires
        0 <= from <= to <= s.len(),
        0 <= i,
        section_at(s.subrange(from, to), i),
    ensures
        section_at(s, from + i),
{
    let part = s.subrange(from, to);
    reveal_strlit("**");
    if text::matches_at(part, "# "@, i) {
        lemma_window(s, from, to, "# "@, i);
    } else if text::matches_at(part, "## "@, i) {
        lemma_window(s, from, to, "## "@, i);
    } else if text::matches_at(part, "### "@, i) {
        lemma_window(s, from, to, "### "@, i);
    } else if text::matches_at(part, "#### "@, i) {
        lemma_window(s, from, to, "#### "@, i);
    } else {
        lemma_window(s, from, to, "**"@, i);
        assert(part[i + 2] == s[from + i + 2]);
    }
}

/// What has come out of the stream, and what is kept back, once `seen` has
/// been read of a text whose reasoning ends only at its marker.
spec fn on_track(
    run: (ThoughtState, Seq<ThoughtEventView>),
    seen: Seq<char>,
    reasoning: Seq<char>,
    marker: Seq<char>,
) -> bool {
    let read = (reasoning + marker).len();
    if seen.len() < read {
        &&& run.0.phase == ThoughtPhase::Thinking
        &&& run.0.pending.len() <= seen.len()
        &&& run.0.pending == seen.skip(seen.len() - run.0.pending.len())
        &&& seen.len() - run.0.pending.len() <= reasoning.len()
        &&& thought_text(run.1) == seen.take(seen.len() - run.0.pending.len())
        &&& response_text(run.1).len() == 0
    } else {
        &&& run.0.phase == ThoughtPhase::Response
        &&& thought_text(run.1) == reasoning
        &&& response_text(run.1) == seen.skip(read as int)
    }
}

/// What was read of the closing marker is kept back.
proof fn lemma_marker_is_held_back(
    now: Seq<char>,
    buffer: Seq<char>,
    more: Seq<char>,
    reasoning: Seq<char>,
    marker: Seq<char>,
    answer: Seq<char>,
)
    requires
        marker == "</think>"@ || marker == "</thinking>"@,
        now + more == reasoning + marker + answer,
        now.len() < reasoning.len() + marker.len(),
        buffer.len() <= now.len(),
        buffer == now.skip(now.len() - buffer.len()),
        now.len() - buffer.len() <= reasoning.len(),
    ensures
        now.len() - held_back(buffer).len() <= reasoning.len(),
{
    reveal_strlit("</think>");
    reveal_strlit("</thinking>");
    lemma_held_back(buffer);
    if now.len() > reasoning.len() {
        let whole = reasoning + marker + answer;
        let k = now.len() - reasoning.len();
        assert(now[now.len() - 1] == whole[now.len() - 1]);
        assert(whole[now.len() - 1] == marker[k - 1]);
        assert(marker[k - 1] != '\n');
        assert(buffer[buffer.len() - 1] == now[now.len() - 1]);
        if buffer.len() > MARKER_LOOKBEHIND {
            let end = buffer.skip(buffer.len() - MARKER_LOOKBEHIND);
            assert(end[end.len() - 1] == buffer[buffer.len() - 1]);
        }
    }
}

proof fn lemma_markers()
    ensures
        "</think>"@.len() == 8,
        "</thinking>"@.len() == 11,
        "<think>"@.len() == 7,
        "<thinking>"@.len() == 10,
        "\n\n"@.len() == 2,
{
    reveal_strlit("</think>");
    reveal_strlit("</thinking>");
    reveal_strlit("<think>");
    reveal_strlit("<thinking>");
    reveal_strlit("\n\n");
}

/// One more delta keeps the stream on track.
#[verifier::spinoff_prover]
#[verifier::rlimit(60)]
proof fn lemma_stays_on_track(
    run: (ThoughtState, Seq<ThoughtEventView>),
    seen: Seq<char>,
    delta: Seq<char>,
    more: Seq<char>,
    reasoning: Seq<char>,
    marker: Seq<char>,
    answer: Seq<char>,
)
    requires
        ends_only_at(reasoning, marker, answer),
        seen + delta + more == reasoning + marker + answer,
        on_track(run, seen, reasoning, marker),
    ensures
        ({
            let last = fed(run.0, delta);
            on_track((last.0, run.1 + last.1), seen + delta, reasoning, marker)
        }),
{
    let read = reasoning + marker;
    let whole = read + answer;
    let last = fed(run.0, delta);
    let now = seen + delta;
    lemma_texts_add(run.1, last.1);
    lemma_markers();
    text::lemma_find_from(whole, marker, 0);
    if seen.len() >= read.len() {
        lemma_chunk_texts(delta);
        assert(now.skip(read.len() as int) =~= seen.skip(read.len() as int) + delta);
    } else if delta.len() == 0 {
        assert(now =~= seen);
        assert(run.1 + last.1 =~= run.1);
    } else {
        assert(seen + (delta + more) =~= seen + delta + more);
        let off = seen.len() - run.0.pending.len();
        let buffer = run.0.pending + delta;
        let to = now.len() as int;
        assert(buffer =~= whole.subrange(off, to)) by {
            assert(whole.take(to) =~= now);
            assert(now.skip(off) =~= buffer);
            assert(whole.subrange(off, to) =~= whole.take(to).skip(off));
        }
        assert(opened(buffer) == buffer) by {
            if text::starts_with_spec(buffer, "<think>"@) {
                lemma_window(whole, off, to, "<think>"@, 0);
            }
            if text::starts_with_spec(buffer, "<thinking>"@) {
                lemma_window(whole, off, to, "<thinking>"@, 0);
            }
        }
        law_no_text_is_lost(run.0, delta);
        text::lemma_find_from(buffer, "</thinking>"@, 0);
        text::lemma_find_from(buffer, "</think>"@, 0);
        let at = reasoning.len() - off;
        // A closing marker in the buffer is the one that ends the reasoning.
        assert forall|m: Seq<char>, j: int|
            (m == "</think>"@ || m == "</thinking>"@) && text::matches_at(buffer, m, j) && (
            now.len() < read.len() || m == "</thinking>"@ || marker == m) implies m == marker
            && j >= at by {
            lemma_window(whole, off, to, m, j);
            if m != marker {
                if marker == "</think>"@ {
                    assert(text::matches_at(whole, "</thinking>"@, off + j));
                } else {
                    assert(to < read.len());
                    assert(whole.subrange(off + j, off + j + 8) =~= read.subrange(
                        off + j,
                        off + j + 8,
                    ));
                    assert(text::matches_at(read, "</think>"@, off + j));
                }
            }
        }
        if now.len() < read.len() {
            if text::first_match(buffer, "</thinking>"@) is Some {
                let j = text::first_match(buffer, "</thinking>"@)->0;
                assert(text::matches_at(buffer, "</thinking>"@, j));
                assert(off + j + marker.len() <= to);
            }
            if text::first_match(buffer, "</think>"@) is Some {
                let j = text::first_match(buffer, "</think>"@)->0;
                assert(text::matches_at(buffer, "</think>"@, j));
                assert(off + j + marker.len() <= to);
            }
            lemma_section_break(buffer, 0);
            if section_break(buffer, 0) is Some {
                let i = section_break(buffer, 0)->0;
                assert(buffer =~= read.subrange(off, to)) by {
                    assert(read.subrange(off, to) =~= whole.subrange(off, to));
                }
                lemma_window(read, off, to, "\n\n"@, i);
                lemma_section_window(read, off, to, i + 2);
                assert(off + i + 2 == off + (i + 2));
                assert(text::matches_at(read, "\n\n"@, off + i));
            }
            assert(thought_end(buffer) is None);
            let kept = last.0.pending;
            assert(buffer =~= now.skip(now.len() - buffer.len())) by {
                assert(now =~= seen.take(off) + buffer);
            }
            lemma_held_back(buffer);
            lemma_marker_is_held_back(now, buffer, more, reasoning, marker, answer);
            assert(kept =~= now.skip(now.len() - kept.len())) by {
                assert(now =~= seen.take(off) + buffer);
            }
            assert(thought_text(run.1 + last.1) =~= now.take(now.len() - kept.len())) by {
                assert(now =~= seen.take(off) + buffer);
            }
        } else {
            assert(off <= reasoning.len());
            lemma_window(whole, off, to, marker, at);
            assert(text::matches_at(buffer, marker, at));
            assert forall|j: int| 0 <= j < at implies !text::matches_at(buffer, marker, j) by {
                if text::matches_at(buffer, marker, j) {
                    assert(marker == "</think>"@ || marker == "</thinking>"@);
                }
            }
            text::lemma_find_from_is(buffer, marker, 0, at);
            if marker == "</think>"@ {
                if text::first_match(buffer, "</thinking>"@) is Some {
                    let j = text::first_match(buffer, "</thinking>"@)->0;
                    assert(text::matches_at(buffer, "</thinking>"@, j));
                }
            }
            assert(thought_end(buffer) == Some((at, at + marker.len())));
            assert(seen.take(off) + buffer.take(at) =~= reasoning) by {
                assert(whole.take(reasoning.len() as int) =~= reasoning);
                assert(seen.take(off) =~= whole.take(off)) by {
                    assert(whole.take(seen.len() as int) =~= seen);
                }
            }
            assert(buffer.skip(at + marker.len()) =~= now.skip(read.len() as int)) by {
                assert(whole.take(to) =~= now);
            }
            assert(response_text(run.1) + response_text(last.1) =~= now.skip(read.len() as int));
            assert(thought_text(run.1 + last.1) =~= reasoning);
        }
    }
}

proof fn lemma_all_on_track(
    deltas: Seq<Seq<char>>,
    more: Seq<char>,
    reasoning: Seq<char>,
    marker: Seq<char>,
    answer: Seq<char>,
)
    requires
        ends_only_at(reasoning, marker, answer),
        text::concatenated(deltas) + more == reasoning + marker + answer,
    ensures
        on_track(fed_all(fresh(true), deltas), text::concatenated(deltas), reasoning, marker),
    decreases deltas.len(),
{
    lemma_markers();
    if deltas.len() == 0 {
        let nothing = Seq::<char>::empty();
        assert(nothing.skip(0) =~= nothing);
        assert(nothing.take(0) =~= nothing);
        assert(thought_text(Seq::empty()) =~= nothing);
    } else {
        let before = text::concatenated(deltas.drop_last());
        let delta = deltas.last();
        assert(before + (delta + more) =~= before + delta + more);
        lemma_all_on_track(deltas.drop_last(), delta + more, reasoning, marker, answer);
        lemma_stays_on_track(
            fed_all(fresh(true), deltas.drop_last()),
            before,
            delta,
            more,
            reasoning,
            marker,
            answer,
        );
    }
}

/// The closing marker is found however the stream is cut, inside the marker
/// too: what stands before it comes out as reasoning, what stands after it as
/// the answer.
pub proof fn law_closing_marker_found_however_cut(
    deltas: Seq<Seq<char>>,
    reasoning: Seq<char>,
    marker: Seq<char>,
    answer: Seq<char>,
)
    requires
        ends_only_at(reasoning, marker, answer),
        text::concatenated(deltas) == reasoning + marker + answer,
    ensures
        ({
            let (state, events) = fed_all(fresh(true), deltas);
            &&& state.phase == ThoughtPhase::Response
            &&& thought_text(events) == reasoning
            &&& response_text(events) == answer
        }),
{
    let whole = reasoning + marker + answer;
    assert(text::concatenated(deltas) + Seq::<char>::empty() =~= whole);
    lemma_all_on_track(deltas, Seq::empty(), reasoning, marker, answer);
    assert(whole.skip((reasoning + marker).len() as int) =~= answer);
}

// ---------------------------------------------------------------------------
// The stream
// ---------------------------------------------------------------------------

#[derive(Debug)]
pub struct ThoughtStream {
    phase: ThoughtPhase,
    pending: String,
    emitted_thought: bool,
}

impl View for ThoughtStream {
    type V = ThoughtState;

    closed spec fn view(&self) -> ThoughtState {
        ThoughtState {
            phase: self.phase,
            pending: self.pending@,
            emitted: self.emitted_thought,
        }
    }
}

impl ThoughtStream {
    pub fn new(is_thinking_model: bool) -> (r: Self)
        ensures
            r@ == fresh(is_thinking_model),
    {
        ThoughtStream {
            phase: if is_thinking_model {
                ThoughtPhase::Thinking
            } else {
                ThoughtPhase::Response
            },
            pending: String::new(),
            emitted_thought: false,
        }
    }

    pub fn phase(&self) -> (r: ThoughtPhase)
        ensures
            r == self@.phase,
    {
        self.phase
    }

    pub fn has_emitted_thought(&self) -> (r: bool)
        ensures
            r == self@.emitted,
    {
        self.emitted_thought
    }

    /// Reads one delta.
    pub fn feed(&mut self, delta: &str) -> (events: Vec<ThoughtEvent>)
        ensures
            (final(self)@, events_of(events@)) == fed(old(self)@, delta@),
    {
        let mut events: Vec<ThoughtEvent> = Vec::new();
        if delta.is_empty() || self.phase == ThoughtPhase::Completed {
            proof {
                assert(events_of(events@) =~= Seq::empty());
            }
            return events;
        }
        if self.phase == ThoughtPhase::Response {
            events.push(ThoughtEvent::ResponseChunk(delta.to_owned()));
            proof {
                assert(events_of(events@) =~= seq![ThoughtEventView::ResponseChunk(delta@)]);
            }
            return events;
        }
        self.pending.append(delta);
        self.consume_open_marker();
        let chars = text::chars_of(self.pending.as_str());
        let buffer = chars.as_slice();
        let total: usize = chars.len();
        match find_thought_end(buffer) {
            Some((end, start)) => {
                let thought = text::string_of_range(buffer, 0, end);
                let message = text::string_of_range(buffer, start, total);
                self.pending = String::new();
                self.phase = ThoughtPhase::Response;
                let ghost before = buffer@.take(end as int);
                let ghost after = buffer@.skip(start as int);
                proof {
                    assert(thought@ =~= before);
                    assert(message@ =~= after);
                }
                if !thought.as_str().is_empty() {
                    self.emitted_thought = true;
                    events.push(ThoughtEvent::ThoughtChunk(thought));
                }
                proof {
                    assert(events_of(events@) =~= thought_chunk(before));
                }
                events.push(ThoughtEvent::ThoughtEnd);
                if !message.as_str().is_empty() {
                    events.push(ThoughtEvent::ResponseChunk(message));
                }
                proof {
                    assert(events_of(events@) =~= thought_chunk(before)
                        + seq![ThoughtEventView::ThoughtEnd] + response_chunk(after));
                }
                return events;
            },
            None => {},
        }
        let cut: usize = cut_of(buffer);
        if cut > 0 {
            let thought = text::string_of_range(buffer, 0, cut);
            self.pending = text::string_of_range(buffer, cut, total);
            self.emitted_thought = true;
            proof {
                assert(thought@ =~= buffer@.take(cut as int));
                assert(self.pending@ =~= held_back(buffer@));
            }
            events.push(ThoughtEvent::ThoughtChunk(thought));
            proof {
                assert(events_of(events@) =~= thought_chunk(buffer@.take(cut as int)));
            }
            return events;
        }
        proof {
            assert(buffer@.skip(0) =~= buffer@);
            assert(events_of(events@) =~= thought_chunk(buffer@.take(0)));
        }
        events
    }

    /// Ends the stream.
    pub fn finish(&mut self) -> (events: Vec<ThoughtEvent>)
        ensures
            (final(self)@, events_of(events@)) == finished(old(self)@),
    {
        let mut events: Vec<ThoughtEvent> = Vec::new();
        if self.phase == ThoughtPhase::Completed {
            proof {
                assert(events_of(events@) =~= Seq::empty());
            }
            return events;
        }
        let ghost kept = self.pending@;
        let mut pending: String = String::new();
        core::mem::swap(&mut pending, &mut self.pending);
        if !pending.as_str().is_empty() {
            if self.phase == ThoughtPhase::Thinking {
                self.emitted_thought = true;
                events.push(ThoughtEvent::ThoughtChunk(pending));
                proof {
                    assert(events_of(events@) =~= thought_chunk(kept));
                }
            } else {
                events.push(ThoughtEvent::ResponseChunk(pending));
                proof {
                    assert(events_of(events@) =~= response_chunk(kept));
                }
            }
        }
        proof {
            if kept.len() == 0 {
                assert(events_of(events@) =~= Seq::empty());
            }
        }
        let ghost before = events@;
        if self.phase == ThoughtPhase::Thinking {
            events.push(ThoughtEvent::ThoughtEnd);
            proof {
                assert(events_of(events@) =~= events_of(before).push(ThoughtEventView::ThoughtEnd));
            }
        }
        self.phase = ThoughtPhase::Completed;
        events
    }

    fn consume_open_marker(&mut self)
        ensures
            final(self)@ == (ThoughtState { pending: opened(old(self)@.pending), ..old(self)@ }),
    {
        let rest: Option<String> = match text::strip_prefix(self.pending.as_str(), "<think>") {
            Some(rest) => Some(rest.to_owned()),
            None => match text::strip_prefix(self.pending.as_str(), "<thinking>") {
                Some(rest) => Some(rest.to_owned()),
                None => None,
            },
        };
        match rest {
            Some(rest) => {
                self.pending = rest;
            },
            None => {},
        }
    }
}

/// Splits the stream into reasoning and answer: the events of a
/// [`ThoughtStream`], put together per delta.
#[derive(Debug)]
pub struct ThoughtSplitter {
    stream: ThoughtStream,
}

impl View for ThoughtSplitter {
    type V = ThoughtState;

    closed spec fn view(&self) -> ThoughtState {
        self.stream@
    }
}

impl ThoughtSplitter {
    pub fn new(is_thinking_model: bool) -> (r: Self)
        ensures
            r@ == fresh(is_thinking_model),
    {
        ThoughtSplitter { stream: ThoughtStream::new(is_thinking_model) }
    }

    /// The reasoning and the answer that one delta brings.
    pub fn feed(&mut self, delta: &str) -> (r: (String, String))
        ensures
            ({
                let (state, events) = fed(old(self)@, delta@);
                &&& final(self)@ == state
                &&& r.0@ == thought_text(events)
                &&& r.1@ == response_text(events)
            }),
    {
        let events = self.stream.feed(delta);
        split_events(&events)
    }

    /// The reasoning and the answer that were still kept back.
    pub fn flush(&mut self) -> (r: (String, String))
        ensures
            ({
                let (state, events) = finished(old(self)@);
                &&& final(self)@ == state
                &&& r.0@ == thought_text(events)
                &&& r.1@ == response_text(events)
            }),
    {
        let events = self.stream.finish();
        split_events(&events)
    }

    pub fn has_emitted_thought(&self) -> (r: bool)
        ensures
            r == self@.emitted,
    {
        self.stream.has_emitted_thought()
    }
}

/// What the client is told of a piece of reasoning: nothing where it is empty.
pub fn notify_thought(message_id: &str, text: &str) -> (r: Option<SessionUpdate>)
    ensures
        match r {
            Some(update) => text@.len() > 0 && update@ == (SessionUpdateView::AgentThoughtChunk {
                message_id: message_id@,
                text: text@,
            }),
            None => text@.len() == 0,
        },
{
    if text.is_empty() {
        return None;
    }
    Some(
        SessionUpdate::AgentThoughtChunk {
            message_id: message_id.to_owned(),
            text: text.to_owned(),
        },
    )
}

fn split_events(events: &Vec<ThoughtEvent>) -> (r: (String, String))
    ensures
        r.0@ == thought_text(events_of(events@)),
        r.1@ == response_text(events_of(events@)),
{
    let mut thought: String = String::new();
    let mut message: String = String::new();
    let ghost all = events_of(events@);
    let mut i: usize = 0;
    while i < events.len()
        invariant
            i <= events@.len(),
            all == events_of(events@),
            thought@ == thought_text(all.take(i as int)),
            message@ == response_text(all.take(i as int)),
        decreases events@.len() - i,
    {
        proof {
            assert(all.take(i + 1).drop_last() =~= all.take(i as int));
            assert(all.take(i + 1).last() == events@[i as int]@);
        }
        match &events[i] {
            ThoughtEvent::ThoughtChunk(t) => {
                thought.append(t.as_str());
            },
            ThoughtEvent::ResponseChunk(t) => {
                message.append(t.as_str());
            },
            ThoughtEvent::ThoughtEnd => {},
        }
        i += 1;
    }
    proof {
        assert(all.take(events@.len() as int) =~= all);
    }
    (thought, message)
}

fn starts_section(s: &[char], at: usize) -> (r: bool)
    ensures
        r == section_at(s@, at as int),
{
    let h1 = text::chars_of("# ");
    let h2 = text::chars_of("## ");
    let h3 = text::chars_of("### ");
    let h4 = text::chars_of("#### ");
    if text::matches_in(s, h1.as_slice(), at) || text::matches_in(s, h2.as_slice(), at)
        || text::matches_in(s, h3.as_slice(), at) || text::matches_in(s, h4.as_slice(), at) {
        return true;
    }
    let bold = text::chars_of("**");
    proof {
        reveal_strlit("**");
    }
    text::matches_in(s, bold.as_slice(), at) && s.len() - at > 2 && outside::is_alphanumeric(
        s[at + 2],
    )
}

/// Where the part of the buffer that is kept back begins.
fn cut_of(buffer: &[char]) -> (r: usize)
    ensures
        r <= buffer@.len(),
        held_back(buffer@) == buffer@.skip(r as int),
{
    let n: usize = buffer.len();
    if n <= MARKER_LOOKBEHIND {
        proof {
            assert(buffer@.skip(0) =~= buffer@);
        }
        return 0;
    }
    let mut cut: usize = n - MARKER_LOOKBEHIND;
    let ghost end = buffer@.skip(cut as int);
    proof {
        assert(ends_in_empty_line(end) == (buffer@[n - 2] == '\n' && buffer@[n - 1] == '\n'));
    }
    if buffer[n - 2] != '\n' || buffer[n - 1] != '\n' {
        return cut;
    }
    while cut < n - 2 && bytes_between(buffer, cut, n - 2) >= MARKER_LOOKBEHIND
        invariant
            n == buffer@.len(),
            n - MARKER_LOOKBEHIND <= cut <= n - 2,
            n > MARKER_LOOKBEHIND,
            shortened(end) == shortened(buffer@.skip(cut as int)),
        decreases n - cut,
    {
        proof {
            let s = buffer@.skip(cut as int);
            assert(s.take(s.len() - 2) =~= buffer@.subrange(cut as int, n - 2));
            assert(s.drop_first() =~= buffer@.skip(cut + 1));
        }
        cut += 1;
    }
    proof {
        let s = buffer@.skip(cut as int);
        assert(s.take(s.len() - 2) =~= buffer@.subrange(cut as int, n - 2));
    }
    cut
}

/// How many bytes the characters of a range take.
fn bytes_between(buffer: &[char], from: usize, to: usize) -> (r: usize)
    requires
        from <= to <= buffer@.len(),
        to - from <= MARKER_LOOKBEHIND,
    ensures
        r == text::utf8_len(buffer@.subrange(from as int, to as int)),
{
    let mut size: usize = 0;
    let mut i: usize = from;
    proof {
        assert(buffer@.subrange(from as int, from as int) =~= Seq::<char>::empty());
        assert(text::utf8_len(Seq::<char>::empty()) == 0);
    }
    while i < to
        invariant
            from <= i <= to <= buffer@.len(),
            to - from <= MARKER_LOOKBEHIND,
            size == text::utf8_len(buffer@.subrange(from as int, i as int)),
            size <= 4 * (i - from),
        decreases to - i,
    {
        proof {
            let before = buffer@.subrange(from as int, i as int);
            text::lemma_utf8_len_add(before, seq![buffer@[i as int]]);
            assert(before + seq![buffer@[i as int]] =~= buffer@.subrange(from as int, i + 1));
        }
        size = size + text::char_bytes(buffer[i]);
        i += 1;
    }
    size
}

/// Where the reasoning in the buffer ends and where the answer begins.
fn find_thought_end(buffer: &[char]) -> (r: Option<(usize, usize)>)
    ensures
        match r {
            Some((end, start)) => {
                &&& thought_end(buffer@) == Some((end as int, start as int))
                &&& end <= start <= buffer@.len()
            },
            None => thought_end(buffer@) is None,
        },
{
    let long = text::chars_of("</thinking>");
    proof {
        text::lemma_find_from(buffer@, "</thinking>"@, 0);
        text::lemma_find_from(buffer@, "</think>"@, 0);
    }
    let total: usize = buffer.len();
    match text::find_in(buffer, long.as_slice(), 0) {
        Some(i) => {
            return Some((i, i + long.len()));
        },
        None => {},
    }
    let short = text::chars_of("</think>");
    match text::find_in(buffer, short.as_slice(), 0) {
        Some(i) => {
            return Some((i, i + short.len()));
        },
        None => {},
    }
    let empty_line = text::chars_of("\n\n");
    proof {
        reveal_strlit("\n\n");
    }
    let mut search_from: usize = 0;
    loop
        invariant
            total == buffer@.len(),
            empty_line@ == "\n\n"@,
            empty_line@.len() == 2,
            search_from <= total,
            text::first_match(buffer@, "</thinking>"@) is None,
            text::first_match(buffer@, "</think>"@) is None,
            section_break(buffer@, 0) == section_break(buffer@, search_from as int),
        decreases total - search_from,
    {
        proof {
            text::lemma_find_from(buffer@, "\n\n"@, search_from as int);
        }
        match text::find_in(buffer, empty_line.as_slice(), search_from) {
            None => {
                return None;
            },
            Some(i) => {
                if starts_section(buffer, i + 2) {
                    return Some((i, i));
                }
                search_from = i + 2;
            },
        }
    }
}

// ---------------------------------------------------------------------------
// Where the reasoning ends
// ---------------------------------------------------------------------------


/// A heading or a bold label behind an empty line begins the answer: what stands
/// before the empty line is the reasoning, and the answer begins with it.
pub proof fn law_section_begins_the_answer(reasoning: Seq<char>, section: Seq<char>)
    requires
        !text::occurs(reasoning + "\n\n"@ + section, "</think>"@),
        !text::occurs(reasoning + "\n\n"@ + section, "</thinking>"@),
        text::first_match(reasoning + "\n\n"@ + section, "\n\n"@) == Some(reasoning.len() as int),
        ({
            ||| text::starts_with_spec(section, "# "@)
            ||| text::starts_with_spec(section, "## "@)
            ||| text::starts_with_spec(section, "### "@)
            ||| text::starts_with_spec(section, "#### "@)
            ||| (text::starts_with_spec(section, "**"@) && section.len() > 2
                && outside::alphanumeric(section[2]))
        }),
    ensures
        thought_end(reasoning + "\n\n"@ + section) == Some(
            (reasoning.len() as int, reasoning.len() as int),
        ),
{
    reveal_strlit("\n\n");
    let s = reasoning + "\n\n"@ + section;
    let n = reasoning.len() as int;
    text::lemma_occurs(s, "</think>"@);
    text::lemma_occurs(s, "</thinking>"@);
    lemma_moved(s, n + 2, section, "# "@);
    lemma_moved(s, n + 2, section, "## "@);
    lemma_moved(s, n + 2, section, "### "@);
    lemma_moved(s, n + 2, section, "#### "@);
    lemma_moved(s, n + 2, section, "**"@);
    if section.len() > 2 {
        assert(s[n + 4] == section[2]);
    }
    assert(section_at(s, n + 2));
}

proof fn lemma_moved(s: Seq<char>, at: int, section: Seq<char>, pattern: Seq<char>)
    requires
        0 <= at <= s.len(),
        s.skip(at) =~= section,
    ensures
        text::starts_with_spec(section, pattern) ==> text::matches_at(s, pattern, at),
{
    if text::starts_with_spec(section, pattern) {
        assert(s.subrange(at, at + pattern.len()) =~= section.subrange(0, pattern.len() as int));
    }
}

/// An empty line alone does not end the reasoning, nor does a heading without
/// one.
pub proof fn law_no_section_no_end(s: Seq<char>)
    requires
        !text::occurs(s, "</think>"@),
        !text::occurs(s, "</thinking>"@),
        !text::occurs(s, "\n\n"@) || (forall|i: int| 0 <= i <= s.len() ==> !#[trigger] section_at(s, i)),
    ensures
        thought_end(s) is None,
{
    text::lemma_occurs(s, "</think>"@);
    text::lemma_occurs(s, "</thinking>"@);
    text::lemma_occurs(s, "\n\n"@);
    lemma_no_break(s, 0);
}

proof fn lemma_no_break(s: Seq<char>, from: int)
    requires
        0 <= from,
        !text::occurs(s, "\n\n"@) || (forall|i: int| 0 <= i <= s.len() ==> !#[trigger] section_at(s, i)),
    ensures
        section_break(s, from) is None,
    decreases s.len() - from,
{
    text::lemma_find_from(s, "\n\n"@, from);
    match text::find_from(s, "\n\n"@, from) {
        Some(i) => {
            reveal_strlit("\n\n");
            if i >= from && i + 2 <= s.len() {
                assert(text::occurs(s, "\n\n"@));
                lemma_no_break(s, i + 2);
            }
        },
        None => {},
    }
}

/// A section has a mark: a text without `#` and `*` has none.
pub proof fn law_section_has_a_mark(s: Seq<char>, i: int)
    requires
        !s.contains('#'),
        !s.contains('*'),
    ensures
        !section_at(s, i),
{
    reveal_strlit("# ");
    reveal_strlit("## ");
    reveal_strlit("### ");
    reveal_strlit("#### ");
    reveal_strlit("**");
    if section_at(s, i) {
        assert(s.contains(s[i]));
        if text::matches_at(s, "# "@, i) {
            assert(s.subrange(i, i + 2)[0] == s[i]);
        } else if text::matches_at(s, "## "@, i) {
            assert(s.subrange(i, i + 3)[0] == s[i]);
        } else if text::matches_at(s, "### "@, i) {
            assert(s.subrange(i, i + 4)[0] == s[i]);
        } else if text::matches_at(s, "#### "@, i) {
            assert(s.subrange(i, i + 5)[0] == s[i]);
        } else {
            assert(s.subrange(i, i + 2)[0] == s[i]);
        }
    }
}

/// The marker with which the reasoning may open is dropped; a text without it
/// stays as it is.
pub proof fn law_opening_marker_is_dropped(s: Seq<char>)
    ensures
        opened("<think>"@ + s) == s,
        opened("<thinking>"@ + s) == s,
        s.len() == 0 || s[0] != '<' ==> opened(s) == s,
{
    reveal_strlit("<think>");
    reveal_strlit("<thinking>");
    let a = "<think>"@ + s;
    assert(a.subrange(0, 7) =~= "<think>"@);
    assert(a.skip(7) =~= s);
    let b = "<thinking>"@ + s;
    assert(b.subrange(0, 7)[6] == 'i');
    assert("<think>"@[6] == '>');
    assert(b.subrange(0, 10) =~= "<thinking>"@);
    assert(b.skip(10) =~= s);
    if s.len() > 0 && s[0] != '<' {
        if s.len() >= 7 {
            assert(s.subrange(0, 7)[0] == s[0]);
        }
        if s.len() >= 10 {
            assert(s.subrange(0, 10)[0] == s[0]);
        }
        assert("<think>"@[0] == '<');
        assert("<thinking>"@[0] == '<');
    }
}

/// Of reasoning that does not end, all but the last 32 characters comes out at
/// once, and the rest with the end of the stream.
pub proof fn law_reasoning_comes_out_as_it_arrives(s: Seq<char>)
    requires
        s.len() > 0,
        s[0] != '<',
        thought_end(s) is None,
        s.last() != '\n',
    ensures
        s.len() > 32 ==> fed(fresh(true), s).1 == seq![
            ThoughtEventView::ThoughtChunk(s.take(s.len() - 32)),
        ] && finished(fed(fresh(true), s).0).1 == seq![
            ThoughtEventView::ThoughtChunk(s.skip(s.len() - 32)),
            ThoughtEventView::ThoughtEnd,
        ],
        s.len() <= 32 ==> fed(fresh(true), s).1.len() == 0 && finished(fed(fresh(true), s).0).1
            == seq![ThoughtEventView::ThoughtChunk(s), ThoughtEventView::ThoughtEnd],
{
    law_opening_marker_is_dropped(s);
    assert(Seq::<char>::empty() + s =~= s);
    if s.len() > 32 {
        let end = s.skip(s.len() - 32);
        assert(end[end.len() - 1] == s.last());
        assert(finished(fed(fresh(true), s).0).1 =~= seq![
            ThoughtEventView::ThoughtChunk(end),
            ThoughtEventView::ThoughtEnd,
        ]);
    } else {
        assert(finished(fed(fresh(true), s).0).1 =~= seq![
            ThoughtEventView::ThoughtChunk(s),
            ThoughtEventView::ThoughtEnd,
        ]);
    }
}

/// In the answer every delta comes out as it is, at once.
pub proof fn law_answer_comes_out_as_it_arrives(state: ThoughtState, delta: Seq<char>)
    requires
        state.phase == ThoughtPhase::Response,
        delta.len() > 0,
    ensures
        fed(state, delta) == (state, seq![ThoughtEventView::ResponseChunk(delta)]),
{
}

} // verus!
