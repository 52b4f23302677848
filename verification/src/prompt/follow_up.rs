//! `<FollowUp … />` components in the answer stream.
//!
//! The model may end an answer with a `<FollowUp label="…" query="…" />`
//! component: a next step that the client shows as something to click. The
//! text that reaches the user must not hold the component, and the stream is
//! cut into chunks at arbitrary places, so [`StreamNormalizer`] keeps back
//! whatever may still turn out to be the beginning of one.

use crate::json::{Json, JsonView};
use crate::outside;
use crate::prompt::notify::{ToolCard, ToolCardView, ToolKind, ToolStatus};
use crate::text;
use vstd::prelude::*;
use vstd::string::*;

verus! {

pub const FOLLOW_UP_MARKER: &'static str = "<FollowUp";

// ---------------------------------------------------------------------------
// The action that the client shows
// ---------------------------------------------------------------------------

/// What a client that knows components reads: a prompt to send once, on a
/// click, and nothing to execute.
pub open spec fn action_view(label: Seq<char>, query: Seq<char>) -> JsonView {
    let dispatch = JsonView::object().with("method"@, JsonView::Text("session/prompt"@)).with(
        "prompt"@,
        JsonView::Text(query),
    );
    let ui = JsonView::object().with("component"@, JsonView::Text("action"@)).with(
        "action"@,
        JsonView::Text("follow_up"@),
    ).with("kind"@, JsonView::Text("prompt"@)).with("label"@, JsonView::Text(label)).with(
        "query"@,
        JsonView::Text(query),
    ).with("singleUse"@, JsonView::Bool(true)).with("dispatch"@, dispatch);
    JsonView::object().with(
        "geminiAcp"@,
        JsonView::object().with("nonExecutionKind"@, JsonView::Text("action"@)).with("ui"@, ui),
    )
}

/// The metadata of an action.
pub fn action_meta(label: &str, query: &str) -> (r: Json)
    ensures
        r@ == action_view(label@, query@),
{
    let dispatch = Json::object().with("method", Json::from_text("session/prompt")).with(
        "prompt",
        Json::from_text(query),
    );
    let ui = Json::object().with("component", Json::from_text("action")).with(
        "action",
        Json::from_text("follow_up"),
    ).with("kind", Json::from_text("prompt")).with("label", Json::from_text(label)).with(
        "query",
        Json::from_text(query),
    ).with("singleUse", Json::Bool(true)).with("dispatch", dispatch);
    let inner = Json::object().with("nonExecutionKind", Json::from_text("action")).with("ui", ui);
    Json::object().with("geminiAcp", inner)
}

/// A text of at most `max` characters: the text, or its beginning and an
/// ellipsis.
pub open spec fn truncated(value: Seq<char>, max: int) -> Seq<char> {
    if value.len() <= max {
        value
    } else {
        value.take(max) + "…"@
    }
}

fn truncate(value: &str, max: usize) -> (r: String)
    ensures
        r@ == truncated(value@, max as int),
{
    if text::char_count(value) <= max {
        return value.to_owned();
    }
    let cut = value.substring_char(0, max);
    proof {
        assert(value@.subrange(0, max as int) =~= value@.take(max as int));
    }
    text::cat(cut, "…")
}

/// The card for an action, under the given identifier.
pub open spec fn action_card(id: Seq<char>, label: Seq<char>, query: Seq<char>) -> ToolCardView {
    ToolCardView {
        id,
        title: "Follow-up · "@ + truncated(label, 80),
        kind: ToolKind::Other,
        status: ToolStatus::Pending,
        content: Some(
            "**"@ + label + "**\n\n"@ + query
                + "\n\n_Select cette action pour envoyer cette proposition au modèle._"@,
        ),
        raw_input: Some(
            JsonView::object().with("label"@, JsonView::Text(label)).with(
                "query"@,
                JsonView::Text(query),
            ),
        ),
        meta: Some(action_view(label, query)),
    }
}

/// The card for an action, under a new identifier.
pub fn emit_action(label: &str, query: &str) -> (r: ToolCard)
    ensures
        exists|id: Seq<char>|
            #[trigger] outside::is_plain_id(id) && r@ == action_card(
                "followup_"@ + id,
                label@,
                query@,
            ),
{
    let id = outside::plain_id();
    let cut = truncate(label, 80);
    let mut body: String = "**".to_owned();
    body.append(label);
    body.append("**\n\n");
    body.append(query);
    body.append("\n\n_Select cette action pour envoyer cette proposition au modèle._");
    let raw_input = Json::object().with("label", Json::from_text(label)).with(
        "query",
        Json::from_text(query),
    );
    ToolCard {
        id: text::cat("followup_", id.as_str()),
        title: text::cat("Follow-up · ", cut.as_str()),
        kind: ToolKind::Other,
        status: ToolStatus::Pending,
        content: Some(body),
        raw_input: Some(raw_input),
        meta: Some(action_meta(label, query)),
    }
}

// ---------------------------------------------------------------------------
// Models of the filter
// ---------------------------------------------------------------------------

/// The length of the longest end of `s` that is the beginning, but not the
/// whole, of `marker`, looked for among lengths up to `len`.
pub open spec fn partial_up_to(s: Seq<char>, marker: Seq<char>, len: int) -> int
    decreases len,
{
    if len <= 0 {
        0
    } else if len < marker.len() && len <= s.len() && s.skip(s.len() - len) == marker.take(len) {
        len
    } else {
        partial_up_to(s, marker, len - 1)
    }
}

/// The length of the longest end of `s` that may still grow into `marker`.
pub open spec fn partial_len(s: Seq<char>, marker: Seq<char>) -> int {
    partial_up_to(s, marker, marker.len() - 1)
}

/// The position at or after `i` of the first `>` that stands outside the
/// quotes, where `quote` is the quote that is open at `i`.
pub open spec fn tag_end(s: Seq<char>, i: int, quote: Option<char>) -> Option<int>
    decreases s.len() - i,
{
    if i < 0 || i >= s.len() {
        None
    } else {
        match quote {
            Some(q) => if s[i] == q {
                tag_end(s, i + 1, None)
            } else {
                tag_end(s, i + 1, quote)
            },
            None => if s[i] == '\'' || s[i] == '"' {
                tag_end(s, i + 1, Some(s[i]))
            } else if s[i] == '>' {
                Some(i)
            } else {
                tag_end(s, i + 1, None)
            },
        }
    }
}

/// What reading `s` lets out, and what is kept back: complete components
/// disappear, a component that has begun is kept, and so is an end of `s` that
/// may still become the beginning of one.
pub open spec fn filtered(s: Seq<char>) -> (Seq<char>, Seq<char>)
    decreases s.len(),
{
    let marker = FOLLOW_UP_MARKER@;
    match text::first_match(s, marker) {
        Some(start) => match tag_end(s, start + marker.len(), None) {
            Some(end) => if s.len() <= end || end < 0 {
                (s, Seq::empty())
            } else {
                let rest = filtered(s.skip(end + 1));
                (s.take(start) + rest.0, rest.1)
            },
            None => (s.take(start), s.skip(start)),
        },
        None => {
            let keep = partial_len(s, marker);
            (s.take(s.len() - keep), s.skip(s.len() - keep))
        },
    }
}

/// What is let out of `kept` when no more text comes: a component that has
/// begun is dropped, anything else was plain text after all.
pub open spec fn flushed(kept: Seq<char>) -> Seq<char> {
    if text::occurs(kept, FOLLOW_UP_MARKER@) {
        Seq::empty()
    } else {
        kept
    }
}

/// A whole text without its components.
pub open spec fn without_components(s: Seq<char>) -> Seq<char> {
    let (out, kept) = filtered(s);
    out + flushed(kept)
}

/// What a normalizer that holds `kept` lets out of the given chunks, pushed
/// one after the other, and what it then holds.
pub open spec fn pushed(kept: Seq<char>, chunks: Seq<Seq<char>>) -> (Seq<char>, Seq<char>)
    decreases chunks.len(),
{
    if chunks.len() == 0 {
        (Seq::empty(), kept)
    } else {
        let before = pushed(kept, chunks.drop_last());
        let last = filtered(before.1 + chunks.last());
        (before.0 + last.0, last.1)
    }
}

// ---------------------------------------------------------------------------
// Facts about the models
// ---------------------------------------------------------------------------

proof fn lemma_marker()
    ensures
        FOLLOW_UP_MARKER@.len() == 9,
{
    reveal_strlit("<FollowUp");
}

proof fn lemma_partial_up_to(s: Seq<char>, marker: Seq<char>, len: int)
    requires
        0 <= len < marker.len(),
    ensures
        0 <= partial_up_to(s, marker, len) <= len,
        partial_up_to(s, marker, len) <= s.len(),
        ({
            let k = partial_up_to(s, marker, len);
            k == 0 || s.skip(s.len() - k) == marker.take(k)
        }),
        forall|j: int|
            partial_up_to(s, marker, len) < j <= len && j <= s.len() ==> #[trigger] s.skip(
                s.len() - j,
            ) != marker.take(j),
    decreases len,
{
    if len > 0 && !(len <= s.len() && s.skip(s.len() - len) == marker.take(len)) {
        lemma_partial_up_to(s, marker, len - 1);
    }
}

/// The search for the end of a tag does not look past the end it finds.
proof fn lemma_tag_end(s: Seq<char>, more: Seq<char>, i: int, quote: Option<char>)
    requires
        0 <= i,
    ensures
        match tag_end(s, i, quote) {
            Some(e) => i <= e < s.len() && tag_end(s + more, i, quote) == Some(e),
            None => true,
        },
    decreases s.len() - i,
{
    if i < s.len() {
        assert((s + more)[i] == s[i]);
        match quote {
            Some(q) => {
                if s[i] == q {
                    lemma_tag_end(s, more, i + 1, None);
                } else {
                    lemma_tag_end(s, more, i + 1, quote);
                }
            },
            None => {
                if s[i] == '\'' || s[i] == '"' {
                    lemma_tag_end(s, more, i + 1, Some(s[i]));
                } else if s[i] == '>' {
                } else {
                    lemma_tag_end(s, more, i + 1, None);
                }
            },
        }
    }
}

/// The search for the end of a tag does not look behind its start.
proof fn lemma_tag_end_shift(head: Seq<char>, s: Seq<char>, i: int, quote: Option<char>)
    requires
        0 <= i,
    ensures
        tag_end(head + s, head.len() + i, quote) == match tag_end(s, i, quote) {
            Some(e) => Some(head.len() + e),
            None => None,
        },
    decreases s.len() - i,
{
    if i < s.len() {
        assert((head + s)[head.len() + i] == s[i]);
        match quote {
            Some(q) => {
                if s[i] == q {
                    lemma_tag_end_shift(head, s, i + 1, None);
                } else {
                    lemma_tag_end_shift(head, s, i + 1, quote);
                }
            },
            None => {
                if s[i] == '\'' || s[i] == '"' {
                    lemma_tag_end_shift(head, s, i + 1, Some(s[i]));
                } else if s[i] == '>' {
                } else {
                    lemma_tag_end_shift(head, s, i + 1, None);
                }
            },
        }
    }
}

/// Where no marker begins inside `head`, the first marker of `head + s` is
/// that of `s`.
proof fn lemma_first_match_shift(head: Seq<char>, s: Seq<char>, marker: Seq<char>)
    requires
        marker.len() > 0,
        forall|j: int| 0 <= j < head.len() ==> !text::matches_at(head + s, marker, j),
    ensures
        text::first_match(head + s, marker) == match text::first_match(s, marker) {
            Some(i) => Some(head.len() + i),
            None => None::<int>,
        },
{
    text::lemma_find_from(s, marker, 0);
    text::lemma_find_from(head + s, marker, 0);
    assert forall|i: int| 0 <= i implies text::matches_at(head + s, marker, head.len() + i)
        == text::matches_at(s, marker, i) by {
        if i + marker.len() <= s.len() {
            assert((head + s).subrange(head.len() + i, head.len() + i + marker.len())
                =~= s.subrange(i, i + marker.len()));
        }
    }
    match text::first_match(s, marker) {
        Some(i) => {
            assert(text::matches_at(head + s, marker, head.len() + i));
            assert forall|j: int| 0 <= j < head.len() + i implies !text::matches_at(
                head + s,
                marker,
                j,
            ) by {
                if j >= head.len() {
                    assert(!text::matches_at(s, marker, j - head.len()));
                }
            }
            text::lemma_find_from_is(head + s, marker, 0, head.len() + i);
        },
        None => {
            match text::first_match(head + s, marker) {
                Some(k) => {
                    assert(k >= head.len());
                    assert(text::matches_at(s, marker, k - head.len()));
                },
                None => {},
            }
        },
    }
}

/// A text in which no marker begins and that ends in no partial marker longer
/// than `keep` passes through: what follows is read as if it stood alone.
proof fn lemma_filtered_plain_head(s: Seq<char>, more: Seq<char>)
    requires
        text::first_match(s, FOLLOW_UP_MARKER@) is None,
    ensures
        ({
            let n = s.len() - partial_len(s, FOLLOW_UP_MARKER@);
            let tail = filtered(s.skip(n) + more);
            filtered(s + more) == (s.take(n) + tail.0, tail.1)
        }),
{
    let marker = FOLLOW_UP_MARKER@;
    lemma_marker();
    lemma_partial_up_to(s, marker, marker.len() - 1);
    let keep = partial_len(s, marker);
    let n = s.len() - keep;
    let head = s.take(n);
    let u = s.skip(n) + more;
    assert(head + u =~= s + more);
    text::lemma_find_from(s, marker, 0);
    assert forall|j: int| 0 <= j < head.len() implies !text::matches_at(head + u, marker, j) by {
        if text::matches_at(head + u, marker, j) {
            if j + marker.len() <= s.len() {
                text::lemma_matches_at_prefix(s, more, marker, j);
            } else {
                let len = s.len() - j;
                assert((s + more).subrange(j, j + marker.len()) == marker);
                assert(s.skip(s.len() - len) =~= marker.take(len)) by {
                    assert forall|x: int| 0 <= x < len implies s.skip(s.len() - len)[x]
                        == marker.take(len)[x] by {
                        assert((s + more).subrange(j, j + marker.len())[x] == (s + more)[j + x]);
                    }
                }
            }
        }
    }
    lemma_first_match_shift(head, u, marker);
    text::lemma_find_from(u, marker, 0);
    match text::first_match(u, marker) {
        Some(i) => {
            lemma_tag_end_shift(head, u, i + marker.len(), None);
            lemma_tag_end(u, Seq::empty(), i + marker.len(), None);
            match tag_end(u, i + marker.len(), None) {
                Some(e) => {
                    assert((head + u).skip(head.len() + e + 1) =~= u.skip(e + 1));
                    assert((head + u).take(head.len() + i) =~= head + u.take(i));
                    let rest = filtered(u.skip(e + 1));
                    assert(head + (u.take(i) + rest.0) =~= (head + u.take(i)) + rest.0);
                },
                None => {
                    assert((head + u).take(head.len() + i) =~= head + u.take(i));
                    assert((head + u).skip(head.len() + i) =~= u.skip(i));
                },
            }
        },
        None => {
            lemma_partial_up_to(u, marker, marker.len() - 1);
            lemma_partial_up_to(head + u, marker, marker.len() - 1);
            let ku = partial_len(u, marker);
            let kw = partial_len(head + u, marker);
            let w = head + u;
            // The end that is kept lies inside `u`.
            assert(kw <= u.len()) by {
                if kw > u.len() {
                    let j = w.len() - kw;
                    let len = s.len() - j;
                    assert(w.skip(j) == marker.take(kw));
                    assert(s.skip(s.len() - len) =~= marker.take(len)) by {
                        assert forall|x: int| 0 <= x < len implies s.skip(s.len() - len)[x]
                            == marker.take(len)[x] by {
                            assert(w.skip(j)[x] == w[j + x]);
                            assert(marker.take(kw)[x] == marker[x]);
                        }
                    }
                }
            }
            assert(kw == ku) by {
                if ku < kw {
                    assert(u.skip(u.len() - kw) =~= w.skip(w.len() - kw));
                }
                if kw < ku {
                    assert(w.skip(w.len() - ku) =~= u.skip(u.len() - ku));
                }
            }
            assert(w.take(w.len() - kw) =~= head + u.take(u.len() - ku));
            assert(w.skip(w.len() - kw) =~= u.skip(u.len() - ku));
        },
    }
}

/// Reading a text in two pieces lets out and keeps back what reading it whole
/// does, wherever the cut is.
pub proof fn law_filter_in_two_pieces(s: Seq<char>, more: Seq<char>)
    ensures
        ({
            let first = filtered(s);
            let second = filtered(first.1 + more);
            filtered(s + more) == (first.0 + second.0, second.1)
        }),
    decreases s.len(),
{
    let marker = FOLLOW_UP_MARKER@;
    lemma_marker();
    text::lemma_find_from(s, marker, 0);
    match text::first_match(s, marker) {
        None => {
            lemma_filtered_plain_head(s, more);
        },
        Some(i) => {
            assert(text::matches_at(s + more, marker, i)) by {
                text::lemma_matches_at_prefix(s, more, marker, i);
            }
            assert forall|j: int| 0 <= j < i implies !text::matches_at(s + more, marker, j) by {
                text::lemma_matches_at_prefix(s, more, marker, j);
            }
            text::lemma_find_from_is(s + more, marker, 0, i);
            lemma_tag_end(s, more, i + marker.len(), None);
            match tag_end(s, i + marker.len(), None) {
                Some(e) => {
                    let rest = s.skip(e + 1);
                    law_filter_in_two_pieces(rest, more);
                    assert((s + more).skip(e + 1) =~= rest + more);
                    assert((s + more).take(i) =~= s.take(i));
                    let first = filtered(rest);
                    let second = filtered(first.1 + more);
                    assert(s.take(i) + (first.0 + second.0) =~= (s.take(i) + first.0) + second.0);
                },
                None => {
                    let kept = s.skip(i);
                    let u = kept + more;
                    assert(s + more =~= s.take(i) + u);
                    assert(text::matches_at(u, marker, 0)) by {
                        assert(u.subrange(0, marker.len() as int) =~= (s + more).subrange(
                            i,
                            i + marker.len(),
                        ));
                    }
                    text::lemma_find_from_is(u, marker, 0, 0);
                    lemma_tag_end_shift(s.take(i), u, marker.len() as int, None);
                    lemma_tag_end(u, Seq::empty(), marker.len() as int, None);
                    match tag_end(u, marker.len() as int, None) {
                        Some(e) => {
                            assert((s + more).skip(i + e + 1) =~= u.skip(e + 1));
                            assert((s + more).take(i) =~= s.take(i));
                            let rest = filtered(u.skip(e + 1));
                            assert(u.take(0) + rest.0 =~= rest.0);
                        },
                        None => {
                            assert((s + more).take(i) =~= s.take(i) + u.take(0));
                            assert((s + more).skip(i) =~= u.skip(0));
                        },
                    }
                },
            }
        },
    }
}

/// However a text is cut into chunks, pushing them one after the other lets
/// out and keeps back what reading the whole text at once does.
pub proof fn law_chunks_do_not_matter(chunks: Seq<Seq<char>>)
    ensures
        pushed(Seq::empty(), chunks) == filtered(text::concatenated(chunks)),
    decreases chunks.len(),
{
    lemma_marker();
    let nothing = Seq::<char>::empty();
    if chunks.len() == 0 {
        text::lemma_find_from(nothing, FOLLOW_UP_MARKER@, 0);
        lemma_partial_up_to(nothing, FOLLOW_UP_MARKER@, 8);
        assert(nothing.take(0) =~= nothing);
        assert(nothing.skip(0) =~= nothing);
    } else {
        law_chunks_do_not_matter(chunks.drop_last());
        law_filter_in_two_pieces(text::concatenated(chunks.drop_last()), chunks.last());
    }
}

/// However an answer is cut into chunks, what the normalizer lets out of them,
/// with what it lets out at the end, is the answer without its components.
pub proof fn law_stream_without_components(chunks: Seq<Seq<char>>)
    ensures
        ({
            let run = pushed(Seq::empty(), chunks);
            run.0 + without_components(run.1) == without_components(text::concatenated(chunks))
        }),
{
    law_chunks_do_not_matter(chunks);
    law_rest_is_flushed(text::concatenated(chunks));
}

/// What was kept back of a text, let out at its end, completes the text
/// without its components.
pub proof fn law_rest_is_flushed(s: Seq<char>)
    ensures
        filtered(s).0 + without_components(filtered(s).1) == without_components(s),
{
    let nothing = Seq::<char>::empty();
    let (out, kept) = filtered(s);
    law_filter_in_two_pieces(s, nothing);
    assert(s + nothing =~= s);
    assert(kept + nothing =~= kept);
    let again = filtered(kept);
    assert(again.0 =~= nothing) by {
        assert((out + again.0).len() == out.len());
    }
    assert(nothing + flushed(kept) =~= flushed(kept));
}

/// Nothing comes of nothing.
pub proof fn lemma_filtered_empty()
    ensures
        filtered(Seq::<char>::empty()) == (Seq::<char>::empty(), Seq::<char>::empty()),
{
    law_chunks_do_not_matter(Seq::empty());
}

/// A text without a marker passes through unchanged.
pub proof fn law_plain_text_passes(s: Seq<char>)
    requires
        !text::occurs(s, FOLLOW_UP_MARKER@),
    ensures
        without_components(s) == s,
{
    let marker = FOLLOW_UP_MARKER@;
    lemma_marker();
    text::lemma_occurs(s, marker);
    lemma_partial_up_to(s, marker, marker.len() - 1);
    let n = s.len() - partial_len(s, marker);
    let kept = s.skip(n);
    assert forall|j: int| !text::matches_at(kept, marker, j) by {
        if text::matches_at(kept, marker, j) {
            assert(kept.len() < marker.len());
        }
    }
    assert(s.take(n) + kept =~= s);
}

// ---------------------------------------------------------------------------
// The filter
// ---------------------------------------------------------------------------

/// Takes the components out of an answer that arrives in chunks.
#[derive(Debug)]
pub struct StreamNormalizer {
    pending: String,
}

impl View for StreamNormalizer {
    type V = Seq<char>;

    /// The text that is kept back.
    closed spec fn view(&self) -> Seq<char> {
        self.pending@
    }
}

impl Default for StreamNormalizer {
    fn default() -> (r: Self)
        ensures
            r@ == Seq::<char>::empty(),
    {
        StreamNormalizer { pending: String::new() }
    }
}

impl StreamNormalizer {
    /// Reads one more chunk and lets out what is certain.
    pub fn push(&mut self, chunk: &str) -> (out: String)
        ensures
            (out@, final(self)@) == filtered(old(self)@ + chunk@),
    {
        self.pending.append(chunk);
        self.drain(false)
    }

    /// Ends the stream: nothing is kept back any more.
    pub fn finish(&mut self) -> (out: String)
        ensures
            out@ == without_components(old(self)@),
            final(self)@ == Seq::<char>::empty(),
    {
        self.drain(true)
    }

    fn drain(&mut self, final_flush: bool) -> (out: String)
        ensures
            !final_flush ==> (out@, final(self)@) == filtered(old(self)@),
            final_flush ==> out@ == filtered(old(self)@).0 + flushed(filtered(old(self)@).1)
                && final(self)@ == Seq::<char>::empty(),
    {
        let chars = text::chars_of(self.pending.as_str());
        let marker = text::chars_of(FOLLOW_UP_MARKER);
        let total: usize = chars.len();
        let ghost whole = self@;
        let mut out: String = String::new();
        let mut from: usize = 0;
        proof {
            lemma_marker();
            assert(whole.skip(0) =~= whole);
            assert(filtered(whole).0 =~= Seq::<char>::empty() + filtered(whole).0);
        }
        loop
            invariant
                chars@ == whole,
                whole == old(self)@,
                marker@ == FOLLOW_UP_MARKER@,
                marker@.len() == 9,
                total == chars@.len(),
                from <= total,
                filtered(whole) == (
                    out@ + filtered(whole.skip(from as int)).0,
                    filtered(whole.skip(from as int)).1,
                ),
            decreases total - from,
        {
            let ghost rest = whole.skip(from as int);
            proof {
                text::lemma_find_from(rest, marker@, 0);
                text::lemma_find_from(whole, marker@, from as int);
                lemma_found(whole, from as int);
            }
            match text::find_in(chars.as_slice(), marker.as_slice(), from) {
                None => {
                    if final_flush {
                        let tail = text::string_of_range(chars.as_slice(), from, total);
                        out.append(tail.as_str());
                        self.pending = String::new();
                        proof {
                            lemma_partial_up_to(rest, marker@, 8);
                            let n = rest.len() - partial_len(rest, marker@);
                            assert forall|j: int| !text::matches_at(rest.skip(n), marker@, j) by {
                                assert(rest.skip(n).len() < marker@.len());
                            }
                            assert(rest.take(n) + rest.skip(n) =~= rest);
                            assert(whole.subrange(from as int, total as int) =~= rest);
                        }
                        return out;
                    }
                    let keep: usize = partial_marker_len(chars.as_slice(), from, marker.as_slice());
                    let emitted = text::string_of_range(chars.as_slice(), from, total - keep);
                    out.append(emitted.as_str());
                    self.pending = text::string_of_range(chars.as_slice(), total - keep, total);
                    proof {
                        assert(rest.take(rest.len() - keep) =~= whole.subrange(
                            from as int,
                            total - keep,
                        ));
                        assert(rest.skip(rest.len() - keep) =~= whole.subrange(
                            total - keep,
                            total as int,
                        ));
                    }
                    return out;
                },
                Some(start) => {
                    let ghost before = out@;
                    let lead = text::string_of_range(chars.as_slice(), from, start);
                    out.append(lead.as_str());
                    proof {
                        assert(rest.take(start - from) =~= whole.subrange(from as int, start as int));
                    }
                    match find_tag_end(chars.as_slice(), start + marker.len()) {
                        None => {
                            if final_flush {
                                self.pending = String::new();
                                proof {
                                    let kept = whole.skip(start as int);
                                    lemma_begun(whole, start as int);
                                    assert(rest.skip(start - from) =~= kept);
                                    assert(flushed(kept) =~= Seq::<char>::empty());
                                }
                                return out;
                            }
                            self.pending = text::string_of_range(chars.as_slice(), start, total);
                            proof {
                                assert(rest.skip(start - from) =~= whole.subrange(
                                    start as int,
                                    total as int,
                                ));
                            }
                            return out;
                        },
                        Some(end) => {
                            proof {
                                assert(rest.skip(end - from + 1) =~= whole.skip(end + 1));
                                let tail = filtered(whole.skip(end + 1));
                                assert(before + (rest.take(start - from) + tail.0) =~= out@ + tail.0);
                            }
                            from = end + 1;
                        },
                    }
                },
            }
        }
    }
}

/// Searches from a position and searches of what stands there agree.
proof fn lemma_found(whole: Seq<char>, from: int)
    requires
        0 <= from <= whole.len(),
    ensures
        ({
            let rest = whole.skip(from);
            let marker = FOLLOW_UP_MARKER@;
            match text::find_from(whole, marker, from) {
                Some(start) => {
                    &&& from <= start
                    &&& start + marker.len() <= whole.len()
                    &&& text::first_match(rest, marker) == Some(start - from)
                    &&& tag_end(rest, start - from + marker.len(), None) == match tag_end(
                        whole,
                        start + marker.len(),
                        None,
                    ) {
                        Some(end) => Some(end - from),
                        None => None,
                    }
                    &&& match tag_end(whole, start + marker.len(), None) {
                        Some(end) => start <= end < whole.len(),
                        None => true,
                    }
                },
                None => text::first_match(rest, marker) is None,
            }
        }),
{
    let marker = FOLLOW_UP_MARKER@;
    let rest = whole.skip(from);
    let head = whole.take(from);
    lemma_marker();
    assert(head + rest =~= whole);
    text::lemma_find_from(rest, marker, 0);
    text::lemma_find_from(whole, marker, from);
    assert forall|i: int| 0 <= i implies text::matches_at(whole, marker, from + i)
        == text::matches_at(rest, marker, i) by {
        if i + marker.len() <= rest.len() {
            assert(whole.subrange(from + i, from + i + marker.len()) =~= rest.subrange(
                i,
                i + marker.len(),
            ));
        }
    }
    match text::find_from(whole, marker, from) {
        Some(start) => {
            assert(text::matches_at(rest, marker, start - from));
            assert forall|j: int| 0 <= j < start - from implies !text::matches_at(
                rest,
                marker,
                j,
            ) by {
                assert(!text::matches_at(whole, marker, from + j));
            }
            text::lemma_find_from_is(rest, marker, 0, start - from);
            lemma_tag_end_shift(head, rest, start - from + marker.len(), None);
            lemma_tag_end(whole, Seq::empty(), start + marker.len(), None);
        },
        None => {
            match text::first_match(rest, marker) {
                Some(i) => {
                    assert(text::matches_at(whole, marker, from + i));
                },
                None => {},
            }
        },
    }
}

/// A kept component lets nothing out when the stream ends.
proof fn lemma_begun(whole: Seq<char>, start: int)
    requires
        text::matches_at(whole, FOLLOW_UP_MARKER@, start),
        tag_end(whole, start + FOLLOW_UP_MARKER@.len(), None) is None,
    ensures
        filtered(whole.skip(start)) == (Seq::<char>::empty(), whole.skip(start)),
        text::occurs(whole.skip(start), FOLLOW_UP_MARKER@),
{
    let marker = FOLLOW_UP_MARKER@;
    let kept = whole.skip(start);
    lemma_marker();
    assert(kept.subrange(0, 9) =~= whole.subrange(start, start + 9));
    assert(text::matches_at(kept, marker, 0));
    text::lemma_find_from_is(kept, marker, 0, 0);
    assert(whole.take(start) + kept =~= whole);
    lemma_tag_end_shift(whole.take(start), kept, 9, None);
    assert(kept.take(0) =~= Seq::<char>::empty());
    assert(kept.skip(0) =~= kept);
}

/// The text without a change: components are taken out while the answer
/// streams, not here.
pub fn replace_components(input: &str) -> (out: String)
    ensures
        out@ == input@,
{
    input.to_owned()
}

/// The length of the longest end of `s`, from `from` on, that may still grow
/// into `marker`.
fn partial_marker_len(s: &[char], from: usize, marker: &[char]) -> (len: usize)
    requires
        from <= s@.len(),
        0 < marker@.len(),
    ensures
        len == partial_len(s@.skip(from as int), marker@),
        from + len <= s@.len(),
{
    let total: usize = s.len();
    let ghost rest = s@.skip(from as int);
    let mut len: usize = marker.len() - 1;
    while len > 0
        invariant
            total == s@.len(),
            from <= total,
            rest == s@.skip(from as int),
            len < marker@.len(),
            partial_len(rest, marker@) == partial_up_to(rest, marker@, len as int),
        decreases len,
    {
        if len <= total - from {
            let begun = vstd::slice::slice_subrange(marker, 0, len);
            proof {
                assert(rest.skip(rest.len() - len) =~= s@.subrange(total - len, total as int));
                assert(marker@.take(len as int) =~= begun@);
            }
            if text::matches_in(s, begun, total - len) {
                return len;
            }
        }
        len -= 1;
    }
    0
}

/// The position at or after `from` of the first `>` outside quotes.
fn find_tag_end(s: &[char], from: usize) -> (r: Option<usize>)
    requires
        from <= s@.len(),
    ensures
        match r {
            Some(end) => end < s@.len() && tag_end(s@, from as int, None) == Some(end as int),
            None => tag_end(s@, from as int, None) is None,
        },
{
    let mut quote: Option<char> = None;
    let mut i: usize = from;
    while i < s.len()
        invariant
            i <= s@.len(),
            tag_end(s@, from as int, None) == tag_end(s@, i as int, quote),
        decreases s@.len() - i,
    {
        let c: char = s[i];
        match quote {
            Some(q) => {
                if c == q {
                    quote = None;
                }
            },
            None => {
                if c == '\'' || c == '"' {
                    quote = Some(c);
                } else if c == '>' {
                    return Some(i);
                }
            },
        }
        i += 1;
    }
    None
}

// ---------------------------------------------------------------------------
// What becomes of a component
// ---------------------------------------------------------------------------


/// No quote is open and none opens, and no `>` comes.
pub open spec fn is_plain_attribute(s: Seq<char>) -> bool {
    forall|i: int|
        0 <= i < s.len() ==> #[trigger] s[i] != '"' && s[i] != '\'' && s[i] != '>'
}

proof fn lemma_tag_passes(s: Seq<char>, i: int, j: int)
    requires
        0 <= i <= j <= s.len(),
        forall|k: int| i <= k < j ==> #[trigger] s[k] != '"' && s[k] != '\'' && s[k] != '>',
    ensures
        tag_end(s, i, None) == tag_end(s, j, None),
    decreases j - i,
{
    if i < j {
        assert(s[i] != '"');
        lemma_tag_passes(s, i + 1, j);
    }
}

proof fn lemma_quote_passes(s: Seq<char>, i: int, j: int, q: char)
    requires
        0 <= i <= j < s.len(),
        s[j] == q,
        forall|k: int| i <= k < j ==> #[trigger] s[k] != q,
    ensures
        tag_end(s, i, Some(q)) == tag_end(s, j + 1, None),
    decreases j - i,
{
    if i < j {
        assert(s[i] != q);
        lemma_quote_passes(s, i + 1, j, q);
    }
}

/// A component disappears, wherever it stands: what stands before it comes out,
/// and what follows it is read on. A `>` in one of its quoted values, of either
/// quote, does not end it.
pub proof fn law_component_disappears(
    before: Seq<char>,
    name: Seq<char>,
    q: char,
    value: Seq<char>,
    rest: Seq<char>,
    after: Seq<char>,
)
    requires
        q == '"' || q == '\'',
        is_plain_attribute(name),
        is_plain_attribute(rest),
        !value.contains(q),
        text::first_match(
            before + "<FollowUp"@ + name + seq![q] + value + seq![q] + rest + seq!['>'] + after,
            "<FollowUp"@,
        ) == Some(before.len() as int),
    ensures
        without_components(
            before + "<FollowUp"@ + name + seq![q] + value + seq![q] + rest + seq!['>'] + after,
        ) == before + without_components(after),
        filtered(
            before + "<FollowUp"@ + name + seq![q] + value + seq![q] + rest + seq!['>'] + after,
        ).0 == before + filtered(after).0,
{
    lemma_marker();
    let marker = "<FollowUp"@;
    let s = before + marker + name + seq![q] + value + seq![q] + rest + seq!['>'] + after;
    let a: int = before.len() as int + 9;
    let b: int = a + name.len();
    let c: int = b + 1 + value.len();
    let d: int = c + 1 + rest.len();
    assert forall|k: int| a <= k < b implies #[trigger] s[k] != '"' && s[k] != '\'' && s[k]
        != '>' by {
        assert(s[k] == name[k - a]);
    }
    lemma_tag_passes(s, a as int, b as int);
    assert(s[b as int] == q);
    assert forall|k: int| b + 1 <= k < c implies #[trigger] s[k] != q by {
        assert(s[k] == value[k - b - 1]);
        assert(value.contains(value[k - b - 1]));
    }
    assert(s[c as int] == q);
    lemma_quote_passes(s, b + 1, c as int, q);
    assert forall|k: int| c + 1 <= k < d implies #[trigger] s[k] != '"' && s[k] != '\'' && s[k]
        != '>' by {
        assert(s[k] == rest[k - c - 1]);
    }
    lemma_tag_passes(s, c + 1, d as int);
    assert(s[d as int] == '>');
    assert(tag_end(s, a as int, None) == Some(d as int));
    assert(s.skip(d + 1) =~= after);
    assert(s.take(before.len() as int) =~= before);
    let (out, kept) = filtered(after);
    assert(before + out + flushed(kept) =~= before + (out + flushed(kept)));
}

/// A component that has no end is dropped when the stream ends; what stands
/// before it is not.
pub proof fn law_unfinished_component_is_dropped(before: Seq<char>, name: Seq<char>)
    requires
        is_plain_attribute(name),
        text::first_match(before + "<FollowUp"@ + name, "<FollowUp"@) == Some(before.len() as int),
    ensures
        without_components(before + "<FollowUp"@ + name) == before,
        filtered(before + "<FollowUp"@ + name) == (before, "<FollowUp"@ + name),
{
    lemma_marker();
    let s = before + "<FollowUp"@ + name;
    let a: int = before.len() as int + 9;
    assert forall|k: int| a <= k < s.len() implies #[trigger] s[k] != '"' && s[k] != '\'' && s[k]
        != '>' by {
        assert(s[k] == name[k - a]);
    }
    lemma_tag_passes(s, a as int, s.len() as int);
    assert(s.take(before.len() as int) =~= before);
    let kept = s.skip(before.len() as int);
    assert(kept =~= "<FollowUp"@ + name);
    assert(kept.subrange(0, 9) =~= "<FollowUp"@);
    assert(text::matches_at(kept, "<FollowUp"@, 0));
    assert(before + Seq::<char>::empty() =~= before);
}

/// A text in which nothing can be the beginning of a component comes out at
/// once.
pub proof fn law_text_comes_out_at_once(s: Seq<char>)
    requires
        !s.contains('<'),
    ensures
        filtered(s) == (s, Seq::<char>::empty()),
{
    reveal_strlit("<FollowUp");
    let marker = FOLLOW_UP_MARKER@;
    text::lemma_find_from(s, marker, 0);
    match text::first_match(s, marker) {
        Some(i) => {
            assert(s.subrange(i, i + 9)[0] == s[i]);
            assert(marker[0] == '<');
            assert(s.contains(s[i]));
        },
        None => {},
    }
    lemma_partial_up_to(s, marker, 8);
    let k = partial_len(s, marker);
    if k > 0 {
        assert(s.skip(s.len() - k)[0] == s[s.len() - k]);
        assert(marker.take(k)[0] == '<');
        assert(s.contains(s[s.len() - k]));
    }
    assert(s.take(s.len() as int) =~= s);
    assert(s.skip(s.len() as int) =~= Seq::<char>::empty());
}

/// What the client is offered carries the label and the query as they came, to
/// be sent once as a prompt.
pub proof fn law_action_carries_the_query(label: Seq<char>, query: Seq<char>)
    ensures
        action_view(label, query).get("geminiAcp"@) matches Some(inner) && inner.get("ui"@) matches Some(
            ui,
        ) && {
            &&& ui.get("label"@) == Some(JsonView::Text(label))
            &&& ui.get("query"@) == Some(JsonView::Text(query))
            &&& ui.get("singleUse"@) == Some(JsonView::Bool(true))
            &&& ui.get("action"@) == Some(JsonView::Text("follow_up"@))
            &&& ui.get("dispatch"@) matches Some(dispatch) && dispatch.get("method"@) == Some(
                JsonView::Text("session/prompt"@),
            ) && dispatch.get("prompt"@) == Some(JsonView::Text(query))
        },
{
    reveal_strlit("method");
    reveal_strlit("prompt");
    reveal_strlit("component");
    reveal_strlit("action");
    reveal_strlit("kind");
    reveal_strlit("label");
    reveal_strlit("query");
    reveal_strlit("singleUse");
    reveal_strlit("dispatch");
    reveal_strlit("nonExecutionKind");
    reveal_strlit("ui");
    reveal_strlit("geminiAcp");
    assert("method"@[0] != "prompt"@[0]);
    assert("component"@.len() == 9 && "action"@.len() == 6 && "kind"@.len() == 4);
    assert("label"@.len() == 5 && "query"@.len() == 5 && "singleUse"@.len() == 9);
    assert("dispatch"@.len() == 8 && "ui"@.len() == 2 && "nonExecutionKind"@.len() == 16);
    assert("label"@[0] != "query"@[0]);
    assert("component"@[0] != "singleUse"@[0]);
    let dispatch = JsonView::object().with("method"@, JsonView::Text("session/prompt"@)).with(
        "prompt"@,
        JsonView::Text(query),
    );
    crate::json::lemma_object_of_2(
        "method"@,
        JsonView::Text("session/prompt"@),
        "prompt"@,
        JsonView::Text(query),
    );
    let ui = JsonView::object().with("component"@, JsonView::Text("action"@)).with(
        "action"@,
        JsonView::Text("follow_up"@),
    ).with("kind"@, JsonView::Text("prompt"@)).with("label"@, JsonView::Text(label)).with(
        "query"@,
        JsonView::Text(query),
    ).with("singleUse"@, JsonView::Bool(true)).with("dispatch"@, dispatch);
    crate::json::lemma_object_of_7(
        "component"@,
        JsonView::Text("action"@),
        "action"@,
        JsonView::Text("follow_up"@),
        "kind"@,
        JsonView::Text("prompt"@),
        "label"@,
        JsonView::Text(label),
        "query"@,
        JsonView::Text(query),
        "singleUse"@,
        JsonView::Bool(true),
        "dispatch"@,
        dispatch,
    );
    crate::json::lemma_object_of_2(
        "nonExecutionKind"@,
        JsonView::Text("action"@),
        "ui"@,
        ui,
    );
    crate::json::lemma_object_of_1(
        "geminiAcp"@,
        JsonView::object().with("nonExecutionKind"@, JsonView::Text("action"@)).with("ui"@, ui),
    );
}

/// The card shows the label, cut after 80 characters in its title, and the
/// label and the query whole in its text; it waits to be chosen.
pub proof fn law_card_shows_the_step(id: Seq<char>, label: Seq<char>, query: Seq<char>)
    ensures
        action_card(id, label, query).id == id,
        action_card(id, label, query).status == ToolStatus::Pending,
        label.len() <= 80 ==> action_card(id, label, query).title == "Follow-up · "@ + label,
        label.len() > 80 ==> action_card(id, label, query).title == "Follow-up · "@ + (label.take(
            80,
        ) + "…"@),
        action_card(id, label, query).content == Some(
            "**"@ + label + "**\n\n"@ + query
                + "\n\n_Select cette action pour envoyer cette proposition au modèle._"@,
        ),
        action_card(id, label, query).meta == Some(action_view(label, query)),
{
}

} // verus!
