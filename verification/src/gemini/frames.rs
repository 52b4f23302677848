//! The answer of `StreamGenerate`.
//!
//! The body is `)]}'` and then lines of JSON. A line that matters holds
//! `"wrb.fr"`; the text so far stands in it as a string of JSON of its own,
//! whose fifth element lists the candidates, each with its segments.

use crate::json;
use crate::json::{Json, JsonView};
use crate::outside;
use crate::text;
use vstd::prelude::*;
use vstd::string::*;

verus! {

// ---------------------------------------------------------------------------
// Cleaning
// ---------------------------------------------------------------------------

/// A text without the code blocks and the card addresses that the service
/// puts into it.
pub open spec fn cleaned(s: Seq<char>, strip: bool) -> Seq<char> {
    let out = outside::matches_removed(
        outside::CARD_CONTENT@,
        outside::matches_removed(outside::CODE_REFERENCE@, s),
    );
    if strip {
        text::trimmed(out)
    } else {
        out
    }
}

/// Takes out the code blocks and the card addresses that the service puts into
/// an answer, and on demand the white space at its ends.
pub fn clean_text(s: &str, strip: bool) -> (r: String)
    ensures
        r@ == cleaned(s@, strip),
{
    let without_code = outside::remove_matches(outside::CODE_REFERENCE, s);
    let out = outside::remove_matches(outside::CARD_CONTENT, without_code.as_str());
    if strip {
        text::trim(out.as_str()).to_owned()
    } else {
        out
    }
}

// ---------------------------------------------------------------------------
// Errors in the body
// ---------------------------------------------------------------------------

/// The code that the first of the groups spells.
pub open spec fn first_code(groups: Seq<Seq<char>>) -> Option<int> {
    if groups.len() == 0 {
        None
    } else {
        text::signed_of(groups[0], i64::MAX as nat)
    }
}

/// The code of the first `BardErrorInfo [n]` in a body.
pub open spec fn bard_code(raw: Seq<char>) -> Option<int> {
    first_code(outside::first_groups(outside::BARD_ERROR@, raw))
}

/// The code that the first of the groups spells.
pub fn code_in(groups: &[String]) -> (r: Option<i64>)
    ensures
        match r {
            Some(code) => first_code(text::texts_of(groups@)) == Some(code as int),
            None => first_code(text::texts_of(groups@)) is None,
        },
{
    if groups.len() == 0 {
        None
    } else {
        text::parse_signed(groups[0].as_str())
    }
}

/// The code of the first `BardErrorInfo [n]` in a body, such as that for
/// cookies that have expired.
pub fn bard_error(raw: &str) -> (r: Option<i64>)
    ensures
        match r {
            Some(code) => bard_code(raw@) == Some(code as int),
            None => bard_code(raw@) is None,
        },
{
    let groups = outside::groups_of_matches(outside::BARD_ERROR, raw);
    code_in(groups.as_slice())
}

// ---------------------------------------------------------------------------
// Candidates
// ---------------------------------------------------------------------------

/// The texts among the segments, put together.
pub open spec fn segments_text(segments: Seq<JsonView>) -> Seq<char>
    decreases segments.len(),
{
    if segments.len() == 0 {
        Seq::empty()
    } else {
        match segments.last() {
            JsonView::Text(t) => segments_text(segments.drop_last()) + t,
            _ => segments_text(segments.drop_last()),
        }
    }
}

/// The text of a candidate, if it lists segments.
pub open spec fn candidate_text(candidate: JsonView) -> Option<Seq<char>> {
    match candidate.at(1) {
        Some(JsonView::Array(segments)) => Some(segments_text(segments)),
        _ => None,
    }
}

/// The texts of the candidates that have one.
pub open spec fn texts_of_candidates(candidates: Seq<JsonView>) -> Seq<Seq<char>>
    decreases candidates.len(),
{
    if candidates.len() == 0 {
        Seq::empty()
    } else {
        let before = texts_of_candidates(candidates.drop_last());
        match candidate_text(candidates.last()) {
            Some(t) => if t.len() > 0 {
                before.push(t)
            } else {
                before
            },
            None => before,
        }
    }
}

/// The string of JSON that a line carries.
pub open spec fn payload_of(frame: JsonView) -> Option<Seq<char>> {
    match frame.at(0) {
        Some(first) => match first.at(2) {
            Some(JsonView::Text(t)) => Some(t),
            _ => None,
        },
        None => None,
    }
}

/// The texts of the candidates that a payload lists.
pub open spec fn texts_in_payload(payload: JsonView) -> Seq<Seq<char>> {
    match payload.at(4) {
        Some(JsonView::Array(candidates)) => texts_of_candidates(candidates),
        _ => Seq::empty(),
    }
}

/// The texts of the candidates in a line.
pub open spec fn texts_in_line(line: Seq<char>) -> Seq<Seq<char>> {
    if !text::occurs(line, "\"wrb.fr\""@) || text::utf8_len(line) < 200 {
        Seq::empty()
    } else {
        match json::json_parsed(line) {
            Some(frame) => match payload_of(frame) {
                Some(inner) => if text::utf8_len(inner) < 50 {
                    Seq::empty()
                } else {
                    match json::json_parsed(inner) {
                        Some(payload) => texts_in_payload(payload),
                        None => Seq::empty(),
                    }
                },
                None => Seq::empty(),
            },
            None => Seq::empty(),
        }
    }
}

fn text_of_segments(segments: &Vec<Json>) -> (r: String)
    ensures
        r@ == segments_text(json::items_view(segments@)),
{
    let ghost all = json::items_view(segments@);
    proof {
        json::lemma_items_view(segments@);
    }
    let mut out: String = String::new();
    let mut i: usize = 0;
    while i < segments.len()
        invariant
            i <= segments@.len(),
            all.len() == segments@.len(),
            forall|k: int| 0 <= k < all.len() ==> #[trigger] all[k] == segments@[k]@,
            out@ == segments_text(all.take(i as int)),
        decreases segments@.len() - i,
    {
        proof {
            assert(all.take(i + 1).drop_last() =~= all.take(i as int));
            assert(all.take(i + 1).last() == segments@[i as int]@);
        }
        match &segments[i] {
            Json::Text(t) => {
                out.append(t.as_str());
            },
            _ => {},
        }
        i += 1;
    }
    proof {
        assert(all.take(all.len() as int) =~= all);
    }
    out
}

/// The string of JSON that a line carries.
pub fn payload_text(frame: &Json) -> (r: Option<&str>)
    ensures
        match r {
            Some(t) => payload_of(frame@) == Some(t@),
            None => payload_of(frame@) is None,
        },
{
    match frame.at(0) {
        Some(first) => match first.at(2) {
            Some(Json::Text(t)) => Some(t.as_str()),
            _ => None,
        },
        None => None,
    }
}

/// The texts of the candidates that a payload lists.
pub fn payload_candidates(payload: &Json) -> (r: Vec<String>)
    ensures
        text::texts_of(r@) == texts_in_payload(payload@),
{
    let mut out: Vec<String> = Vec::new();
    proof {
        assert(text::texts_of(out@) =~= Seq::empty());
    }
    match payload.at(4) {
        Some(Json::Array(candidates)) => {
            let ghost all = json::items_view(candidates@);
            proof {
                json::lemma_items_view(candidates@);
            }
            let mut i: usize = 0;
            while i < candidates.len()
                invariant
                    i <= candidates@.len(),
                    all.len() == candidates@.len(),
                    forall|k: int| 0 <= k < all.len() ==> #[trigger] all[k] == candidates@[k]@,
                    text::texts_of(out@) == texts_of_candidates(all.take(i as int)),
                decreases candidates@.len() - i,
            {
                proof {
                    assert(all.take(i + 1).drop_last() =~= all.take(i as int));
                    assert(all.take(i + 1).last() == candidates@[i as int]@);
                }
                match candidates[i].at(1) {
                    Some(Json::Array(segments)) => {
                        let t = text_of_segments(segments);
                        if !t.as_str().is_empty() {
                            proof {
                                text::lemma_texts_push(out@, t);
                            }
                            out.push(t);
                        }
                    },
                    _ => {},
                }
                i += 1;
            }
            proof {
                assert(all.take(all.len() as int) =~= all);
            }
        },
        _ => {},
    }
    out
}

/// The texts of the candidates in a line: the segments of each candidate put
/// together, for the candidates that have any.
pub fn candidate_texts(line: &str) -> (r: Vec<String>)
    ensures
        text::texts_of(r@) == texts_in_line(line@),
{
    let none: Vec<String> = Vec::new();
    proof {
        assert(text::texts_of(none@) =~= Seq::empty());
    }
    if !text::contains(line, "\"wrb.fr\"") || text::byte_len(line) < 200 {
        return none;
    }
    match Json::parse(line) {
        Some(frame) => match payload_text(&frame) {
            Some(inner) => if text::byte_len(inner) < 50 {
                none
            } else {
                match Json::parse(inner) {
                    Some(payload) => payload_candidates(&payload),
                    None => none,
                }
            },
            None => none,
        },
        None => none,
    }
}

// ---------------------------------------------------------------------------
// Refusals
// ---------------------------------------------------------------------------

/// The reason that stands behind the colon: between its quotes, or up to the
/// next quote where it is not quoted itself.
pub open spec fn reason_in(after: Seq<char>) -> Option<Seq<char>> {
    let value = text::trimmed_start(after);
    let rest = if text::starts_with_spec(value, "\""@) {
        value.skip("\""@.len() as int)
    } else {
        value
    };
    match text::first_match(rest, "\""@) {
        Some(end) => Some(rest.take(end)),
        None => None,
    }
}

/// What a text that speaks of a `blockReason` is answered: with the reason,
/// where one is given, else in general terms.
pub open spec fn block_message(raw: Seq<char>) -> Seq<char> {
    let general = "Gemini a refusé de répondre (politique de sécurité). Reformulez votre prompt."@;
    match text::first_match(raw, "\"blockReason\":"@) {
        Some(start) => {
            match reason_in(raw.skip(start + "\"blockReason\":"@.len())) {
                Some(reason) => if reason.len() > 0 {
                    "Gemini a refusé de répondre (blockReason: "@ + reason
                        + "). Reformulez votre prompt en évitant le contenu sensible."@
                } else {
                    general
                },
                None => general,
            }
        },
        None => general,
    }
}

/// A text in lower case holds one of the phrases with which the service
/// refuses.
pub open spec fn refuses(lower: Seq<char>) -> bool {
    ||| text::occurs(lower, "i can't help with that"@)
    ||| text::occurs(lower, "i'm not able to help with that"@)
    ||| text::occurs(lower, "i cannot fulfill this request"@)
    ||| text::occurs(lower, "i won't be able to help"@)
    ||| text::occurs(lower, "content safety"@)
    ||| text::occurs(lower, "against my safety guidelines"@)
    ||| text::occurs(lower, "violates safety policy"@)
}

/// What the user is told of a refusal in `raw`, given `raw` in lower case.
pub open spec fn refusal(raw: Seq<char>, lower: Seq<char>) -> Option<Seq<char>> {
    if text::occurs(raw, "blockReason"@) {
        Some(block_message(raw))
    } else if refuses(lower) {
        Some(
            "Gemini a refusé de répondre à ce prompt (politique de contenu). Reformulez votre demande."@,
        )
    } else {
        None
    }
}

fn read_reason(after: &str) -> (r: Option<&str>)
    ensures
        match r {
            Some(reason) => reason_in(after@) == Some(reason@),
            None => reason_in(after@) is None,
        },
{
    let value = text::trim_start(after);
    let rest: &str = match text::strip_prefix(value, "\"") {
        Some(rest) => rest,
        None => value,
    };
    match text::find(rest, "\"") {
        Some(end) => {
            let reason = rest.substring_char(0, end);
            proof {
                assert(rest@.subrange(0, end as int) =~= rest@.take(end as int));
            }
            Some(reason)
        },
        None => None,
    }
}

fn block_text(raw: &str) -> (r: String)
    ensures
        r@ == block_message(raw@),
{
    let general =
        "Gemini a refusé de répondre (politique de sécurité). Reformulez votre prompt.";
    match text::split_once(raw, "\"blockReason\":") {
        Some((_, after)) => match read_reason(after) {
            Some(reason) => {
                if !reason.is_empty() {
                    return text::cat3(
                        "Gemini a refusé de répondre (blockReason: ",
                        reason,
                        "). Reformulez votre prompt en évitant le contenu sensible.",
                    );
                }
            },
            None => {},
        },
        None => {},
    }
    general.to_owned()
}

fn holds_refusal(lower: &str) -> (r: bool)
    ensures
        r == refuses(lower@),
{
    text::contains(lower, "i can't help with that") || text::contains(
        lower,
        "i'm not able to help with that",
    ) || text::contains(lower, "i cannot fulfill this request") || text::contains(
        lower,
        "i won't be able to help",
    ) || text::contains(lower, "content safety") || text::contains(
        lower,
        "against my safety guidelines",
    ) || text::contains(lower, "violates safety policy")
}

/// What the user is told of a refusal in `raw`, given `raw` in lower case.
pub fn refusal_message(raw: &str, lower: &str) -> (r: Option<String>)
    ensures
        match r {
            Some(message) => refusal(raw@, lower@) == Some(message@),
            None => refusal(raw@, lower@) is None,
        },
{
    if text::contains(raw, "blockReason") {
        return Some(block_text(raw));
    }
    if holds_refusal(lower) {
        return Some(
            "Gemini a refusé de répondre à ce prompt (politique de contenu). Reformulez votre demande.".to_owned(),
        );
    }
    None
}

/// What the user is told where the service refused to answer: where the text
/// names a `blockReason`, or holds a phrase of refusal in any mix of cases.
pub fn detect_safety_block(raw: &str) -> (r: Option<String>)
    ensures
        match r {
            Some(message) => refusal(raw@, outside::lowercased(raw@)) == Some(message@),
            None => refusal(raw@, outside::lowercased(raw@)) is None,
        },
{
    let lower = outside::to_lowercase(raw);
    refusal_message(raw, lower.as_str())
}

// ---------------------------------------------------------------------------
// The whole answer
// ---------------------------------------------------------------------------

/// The texts of the candidates in the lines, in order.
pub open spec fn texts_in_lines(lines: Seq<Seq<char>>) -> Seq<Seq<char>>
    decreases lines.len(),
{
    if lines.len() == 0 {
        Seq::empty()
    } else {
        texts_in_lines(lines.drop_last()) + texts_in_line(lines.last())
    }
}

/// The longest of the texts in bytes, the last one where several are.
pub open spec fn longest(texts: Seq<Seq<char>>) -> Option<Seq<char>>
    decreases texts.len(),
{
    if texts.len() == 0 {
        None
    } else {
        match longest(texts.drop_last()) {
            Some(best) => if text::utf8_len(texts.last()) >= text::utf8_len(best) {
                Some(texts.last())
            } else {
                Some(best)
            },
            None => Some(texts.last()),
        }
    }
}

/// The longest candidate of a body, or nothing.
pub open spec fn longest_in_body(raw: Seq<char>) -> Seq<char> {
    match longest(texts_in_lines(text::lines_of(raw))) {
        Some(t) => t,
        None => Seq::empty(),
    }
}

fn all_candidates(lines: &[String]) -> (r: Vec<String>)
    ensures
        text::texts_of(r@) == texts_in_lines(text::texts_of(lines@)),
{
    let ghost all = text::texts_of(lines@);
    let mut out: Vec<String> = Vec::new();
    let mut i: usize = 0;
    proof {
        assert(text::texts_of(out@) =~= Seq::empty());
    }
    while i < lines.len()
        invariant
            i <= lines@.len(),
            all == text::texts_of(lines@),
            text::texts_of(out@) == texts_in_lines(all.take(i as int)),
        decreases lines@.len() - i,
    {
        let mut found = candidate_texts(lines[i].as_str());
        proof {
            assert(all.take(i + 1).drop_last() =~= all.take(i as int));
            assert(all.take(i + 1).last() == lines@[i as int]@);
            assert(text::texts_of(out@ + found@) =~= text::texts_of(out@) + text::texts_of(found@));
        }
        out.append(&mut found);
        i += 1;
    }
    proof {
        assert(all.take(all.len() as int) =~= all);
    }
    out
}

/// The longest of the texts in bytes, the last one where several are.
pub fn longest_text(texts: &[String]) -> (r: Option<String>)
    ensures
        match r {
            Some(t) => longest(text::texts_of(texts@)) == Some(t@),
            None => longest(text::texts_of(texts@)) is None,
        },
{
    let ghost all = text::texts_of(texts@);
    if texts.len() == 0 {
        return None;
    }
    let mut best: usize = 0;
    let mut i: usize = 1;
    proof {
        reveal_with_fuel(longest, 2);
        assert(all.take(1).drop_last() =~= Seq::empty());
        assert(all.take(1).last() == all[0]);
    }
    while i < texts.len()
        invariant
            1 <= i <= texts@.len(),
            all == text::texts_of(texts@),
            best < texts@.len(),
            longest(all.take(i as int)) == Some(all[best as int]),
        decreases texts@.len() - i,
    {
        proof {
            assert(all.take(i + 1).drop_last() =~= all.take(i as int));
            assert(all.take(i + 1).last() == all[i as int]);
        }
        if text::byte_len(texts[i].as_str()) >= text::byte_len(texts[best].as_str()) {
            best = i;
        }
        i += 1;
    }
    proof {
        assert(all.take(all.len() as int) =~= all);
    }
    Some(texts[best].clone())
}

/// What the caller is told of an error of the service.
pub open spec fn rejected(code: int) -> Seq<char> {
    "Gemini upstream rejected request: BardErrorInfo ["@ + text::signed_decimal(code) + "]"@
}

/// The text of a whole answer, or the error that its body holds.
pub open spec fn answer_in(raw: Seq<char>) -> Result<Seq<char>, Seq<char>> {
    match bard_code(raw) {
        Some(code) => Err(rejected(code)),
        None => Ok(cleaned(longest_in_body(raw), true)),
    }
}

/// The text of a whole answer: the longest candidate, cleaned. An error where
/// the body holds one of the service.
pub fn final_text(raw: &str) -> (r: Result<String, String>)
    ensures
        match r {
            Ok(t) => answer_in(raw@) == Ok::<Seq<char>, Seq<char>>(t@),
            Err(message) => answer_in(raw@) == Err::<Seq<char>, Seq<char>>(message@),
        },
{
    match bard_error(raw) {
        Some(code) => {
            let code_text = text::signed_text(code);
            return Err(
                text::cat3(
                    "Gemini upstream rejected request: BardErrorInfo [",
                    code_text.as_str(),
                    "]",
                ),
            );
        },
        None => {},
    }
    let lines = text::lines(raw);
    let candidates = all_candidates(lines.as_slice());
    match longest_text(candidates.as_slice()) {
        Some(t) => Ok(clean_text(t.as_str(), true)),
        None => {
            proof {
                reveal_strlit("");
                assert(""@ =~= Seq::empty());
            }
            Ok(clean_text("", true))
        },
    }
}

// ---------------------------------------------------------------------------
// A refusal without a word
// ---------------------------------------------------------------------------

/// The body holds a frame, and none of its lines a candidate, though it is
/// long: a refusal without a word.
pub open spec fn silent_refusal(raw: Seq<char>) -> bool {
    &&& text::occurs(raw, "\"wrb.fr\""@)
    &&& texts_in_lines(text::lines_of(raw)).len() == 0
    &&& text::utf8_len(raw) > 500
}

/// A body with a text in one of its lines is no refusal without a word.
pub proof fn law_a_text_is_no_silence(raw: Seq<char>, i: int)
    requires
        0 <= i < text::lines_of(raw).len(),
        texts_in_line(text::lines_of(raw)[i]).len() > 0,
    ensures
        !silent_refusal(raw),
{
    lemma_texts_of_a_line(text::lines_of(raw), i);
}

proof fn lemma_texts_of_a_line(lines: Seq<Seq<char>>, i: int)
    requires
        0 <= i < lines.len(),
        texts_in_line(lines[i]).len() > 0,
    ensures
        texts_in_lines(lines).len() > 0,
    decreases lines.len(),
{
    if i < lines.len() - 1 {
        lemma_texts_of_a_line(lines.drop_last(), i);
    }
}

/// Whether the stream ended without any text: the service sent frames and no
/// candidate.
pub fn is_empty_stream(raw: &str) -> (r: bool)
    ensures
        r == silent_refusal(raw@),
{
    if text::contains(raw, "\"wrb.fr\"") {
        let lines = text::lines(raw);
        let texts = all_candidates(lines.as_slice());
        proof {
            assert(text::texts_of(texts@).len() == texts@.len());
        }
        if texts.len() == 0 && text::byte_len(raw) > 500 {
            return true;
        }
    }
    false
}

// ---------------------------------------------------------------------------
// The decoder
// ---------------------------------------------------------------------------

/// The most that is kept of a line that does not end. A line of the service
/// has a few thousand bytes; one that passes this limit is dropped.
pub const MAX_BUFFER_BYTES: usize = 67_108_864;

/// What is kept after a chunk, and the texts of the lines that it completes.
pub open spec fn decoded(kept: Seq<char>, chunk: Seq<char>) -> (Seq<char>, Seq<Seq<char>>) {
    let lines = text::split_at_char(kept + chunk, '\n');
    (
        if text::utf8_len(lines.last()) > MAX_BUFFER_BYTES {
            Seq::empty()
        } else {
            lines.last()
        },
        texts_in_lines(lines.drop_last()),
    )
}

/// Whatever arrives, no more than [`MAX_BUFFER_BYTES`] is kept.
pub proof fn law_buffer_is_bounded(chunks: Seq<Seq<char>>)
    ensures
        text::utf8_len(decoded_all(chunks).0) <= 67_108_864,
    decreases chunks.len(),
{
    assert(text::utf8_len(Seq::<char>::empty()) == 0);
}

/// A line that passes the limit without an end leaves nothing behind.
pub proof fn law_endless_line_is_dropped(kept: Seq<char>, chunk: Seq<char>)
    requires
        !(kept + chunk).contains('\n'),
        text::utf8_len(kept + chunk) > 67_108_864,
    ensures
        decoded(kept, chunk) == (Seq::<char>::empty(), Seq::<Seq<char>>::empty()),
{
    text::lemma_split_pieces(kept + chunk, '\n');
    assert(seq![kept + chunk].drop_last() =~= Seq::<Seq<char>>::empty());
}

/// What is kept after the chunks, one after the other, and all their texts.
pub open spec fn decoded_all(chunks: Seq<Seq<char>>) -> (Seq<char>, Seq<Seq<char>>)
    decreases chunks.len(),
{
    if chunks.len() == 0 {
        (Seq::empty(), Seq::empty())
    } else {
        let before = decoded_all(chunks.drop_last());
        let last = decoded(before.0, chunks.last());
        (last.0, before.1 + last.1)
    }
}

proof fn lemma_texts_in_lines_add(a: Seq<Seq<char>>, b: Seq<Seq<char>>)
    ensures
        texts_in_lines(a + b) == texts_in_lines(a) + texts_in_lines(b),
    decreases b.len(),
{
    if b.len() == 0 {
        assert(a + b =~= a);
        assert(texts_in_lines(a) + texts_in_lines(b) =~= texts_in_lines(a));
    } else {
        lemma_texts_in_lines_add(a, b.drop_last());
        assert((a + b).drop_last() =~= a + b.drop_last());
        assert(texts_in_lines(a + b) =~= texts_in_lines(a) + texts_in_lines(b));
    }
}

/// The line that has begun after the first `k` chunks.
pub open spec fn begun_after(chunks: Seq<Seq<char>>, k: int) -> Seq<char> {
    text::split_at_char(text::concatenated(chunks.take(k)), '\n').last()
}

/// However a body is cut into chunks, the decoder gives the texts of its
/// complete lines, in order, and keeps what follows the last of them. A body in
/// which a line that has begun passes the limit is left out: such a line is
/// dropped.
pub proof fn law_chunks_do_not_matter(chunks: Seq<Seq<char>>)
    requires
        forall|k: int|
            0 <= k <= chunks.len() ==> text::utf8_len(#[trigger] begun_after(chunks, k))
                <= 67_108_864,
    ensures
        ({
            let lines = text::split_at_char(text::concatenated(chunks), '\n');
            decoded_all(chunks) == (lines.last(), texts_in_lines(lines.drop_last()))
        }),
    decreases chunks.len(),
{
    if chunks.len() == 0 {
        let lines = text::split_at_char(Seq::<char>::empty(), '\n');
        assert(lines.drop_last() =~= Seq::<Seq<char>>::empty());
    } else {
        let front = chunks.drop_last();
        let before = text::concatenated(front);
        let chunk = chunks.last();
        assert forall|k: int| 0 <= k <= front.len() implies text::utf8_len(
            #[trigger] begun_after(front, k),
        ) <= 67_108_864 by {
            assert(front.take(k) =~= chunks.take(k));
            assert(text::utf8_len(begun_after(chunks, k)) <= 67_108_864);
        }
        law_chunks_do_not_matter(front);
        let lines = text::split_at_char(before, '\n');
        text::lemma_split_nonempty(before, '\n');
        text::lemma_split_add(before, chunk, '\n');
        let more = text::split_at_char(lines.last() + chunk, '\n');
        text::lemma_split_nonempty(lines.last() + chunk, '\n');
        assert(chunks.take(chunks.len() as int) =~= chunks);
        assert(text::utf8_len(begun_after(chunks, chunks.len() as int)) <= 67_108_864);
        assert((lines.drop_last() + more).last() == more.last());
        assert((lines.drop_last() + more).drop_last() =~= lines.drop_last() + more.drop_last());
        lemma_texts_in_lines_add(lines.drop_last(), more.drop_last());
    }
}

/// Reads the lines of a body that arrives in chunks: what follows the last
/// line end is kept for the next chunk.
#[derive(Debug)]
pub struct StreamDecoder {
    buf: String,
}

impl View for StreamDecoder {
    type V = Seq<char>;

    /// The line that has begun.
    closed spec fn view(&self) -> Seq<char> {
        self.buf@
    }
}

impl Default for StreamDecoder {
    fn default() -> (r: Self)
        ensures
            r@ == Seq::<char>::empty(),
    {
        StreamDecoder { buf: String::new() }
    }
}

impl StreamDecoder {
    pub fn new() -> (r: Self)
        ensures
            r@ == Seq::<char>::empty(),
    {
        StreamDecoder { buf: String::new() }
    }

    /// Reads one chunk and gives the texts of the lines that it completes. A
    /// line that passes [`MAX_BUFFER_BYTES`] without an end is dropped.
    pub fn feed(&mut self, chunk: &str) -> (r: Vec<String>)
        ensures
            (final(self)@, text::texts_of(r@)) == decoded(old(self)@, chunk@),
            text::utf8_len(final(self)@) <= MAX_BUFFER_BYTES,
    {
        self.buf.append(chunk);
        let mut lines = text::split(self.buf.as_str(), '\n');
        let ghost pieces = text::split_at_char(self.buf@, '\n');
        proof {
            text::lemma_split_nonempty(self.buf@, '\n');
            assert(text::texts_of(lines@).len() == lines@.len());
        }
        match lines.pop() {
            Some(last) => {
                proof {
                    assert(pieces.last() == last@);
                    assert(text::texts_of(lines@) =~= pieces.drop_last());
                }
                if text::byte_len(last.as_str()) > MAX_BUFFER_BYTES {
                    self.buf = String::new();
                } else {
                    self.buf = last;
                }
            },
            None => {},
        }
        proof {
            assert(text::utf8_len(Seq::<char>::empty()) == 0);
        }
        all_candidates(lines.as_slice())
    }

    /// The line that has begun.
    pub fn pending(&self) -> (r: &str)
        ensures
            r@ == self@,
    {
        self.buf.as_str()
    }

    /// Drops the line that has begun.
    pub fn clear(&mut self)
        ensures
            final(self)@ == Seq::<char>::empty(),
    {
        self.buf = String::new();
    }
}

// ---------------------------------------------------------------------------
// What is read of an answer
// ---------------------------------------------------------------------------


/// A candidate as the service lists it: the array `parts`, whose second element
/// is the array of the segments.
pub open spec fn is_candidate(candidate: JsonView, segments: Seq<Seq<char>>) -> bool {
    candidate matches JsonView::Array(parts) && parts.len() >= 2 && parts[1] == JsonView::Array(
        Seq::new(segments.len(), |i: int| JsonView::Text(segments[i])),
    )
}

/// A line that the service wrote gives the text of every candidate, in order,
/// each made of its segments, however long the line and the texts are: the line
/// names `"wrb.fr"` and has at least 200 bytes, its first record carries the
/// payload, of at least 50 bytes, and the fifth element of the payload lists the
/// candidates. What else stands in the line or in the payload does not matter.
pub proof fn law_a_line_gives_its_candidates(
    line: Seq<char>,
    records: Seq<JsonView>,
    record: Seq<JsonView>,
    inner: Seq<char>,
    payload: Seq<JsonView>,
    candidates: Seq<JsonView>,
    segments: Seq<Seq<Seq<char>>>,
)
    requires
        text::occurs(line, "\"wrb.fr\""@),
        vstd::utf8::encode_utf8(line).len() >= 200,
        json::json_parsed(line) == Some(JsonView::Array(records)),
        records.len() > 0,
        records[0] == JsonView::Array(record),
        record.len() > 2,
        record[2] == JsonView::Text(inner),
        vstd::utf8::encode_utf8(inner).len() >= 50,
        json::json_parsed(inner) == Some(JsonView::Array(payload)),
        payload.len() > 4,
        payload[4] == JsonView::Array(candidates),
        candidates.len() == segments.len(),
        forall|k: int|
            0 <= k < candidates.len() ==> is_candidate(#[trigger] candidates[k], segments[k]),
        forall|k: int|
            0 <= k < segments.len() ==> text::concatenated(#[trigger] segments[k]).len() > 0,
    ensures
        texts_in_line(line) == Seq::new(
            segments.len(),
            |k: int| text::concatenated(segments[k]),
        ),
{
    lemma_listed_candidates(candidates, segments);
}

proof fn lemma_segments(segments: Seq<Seq<char>>)
    ensures
        segments_text(Seq::new(segments.len(), |i: int| JsonView::Text(segments[i])))
            == text::concatenated(segments),
    decreases segments.len(),
{
    let all = Seq::new(segments.len(), |i: int| JsonView::Text(segments[i]));
    if segments.len() > 0 {
        lemma_segments(segments.drop_last());
        assert(all.drop_last() =~= Seq::new(
            segments.drop_last().len(),
            |i: int| JsonView::Text(segments.drop_last()[i]),
        ));
    }
}

proof fn lemma_listed_candidates(candidates: Seq<JsonView>, segments: Seq<Seq<Seq<char>>>)
    requires
        candidates.len() == segments.len(),
        forall|k: int|
            0 <= k < candidates.len() ==> is_candidate(#[trigger] candidates[k], segments[k]),
        forall|k: int|
            0 <= k < segments.len() ==> text::concatenated(#[trigger] segments[k]).len() > 0,
    ensures
        texts_of_candidates(candidates) == Seq::new(
            segments.len(),
            |k: int| text::concatenated(segments[k]),
        ),
    decreases candidates.len(),
{
    let wanted = Seq::new(segments.len(), |k: int| text::concatenated(segments[k]));
    if candidates.len() > 0 {
        let n = candidates.len() - 1;
        assert forall|k: int| 0 <= k < n implies is_candidate(
            #[trigger] candidates.drop_last()[k],
            segments.drop_last()[k],
        ) by {
            assert(is_candidate(candidates[k], segments[k]));
        }
        assert forall|k: int| 0 <= k < n implies text::concatenated(
            #[trigger] segments.drop_last()[k],
        ).len() > 0 by {
            assert(text::concatenated(segments[k]).len() > 0);
        }
        lemma_listed_candidates(candidates.drop_last(), segments.drop_last());
        assert(is_candidate(candidates[n], segments[n]));
        assert(text::concatenated(segments[n]).len() > 0);
        lemma_segments(segments[n]);
        assert(texts_of_candidates(candidates) =~= wanted);
    } else {
        assert(texts_of_candidates(candidates) =~= wanted);
    }
}

/// Two lines that carry the same payload give the same texts, whatever else
/// stands in them.
pub proof fn law_padding_does_not_matter(a: Seq<char>, b: Seq<char>, inner: Seq<char>)
    requires
        text::occurs(a, "\"wrb.fr\""@),
        text::occurs(b, "\"wrb.fr\""@),
        vstd::utf8::encode_utf8(a).len() >= 200,
        vstd::utf8::encode_utf8(b).len() >= 200,
        json::json_parsed(a) matches Some(frame) && payload_of(frame) == Some(inner),
        json::json_parsed(b) matches Some(frame) && payload_of(frame) == Some(inner),
    ensures
        texts_in_line(a) == texts_in_line(b),
{
}

/// A line without the name of a frame, a short line, and a line that is no JSON
/// give nothing.
pub proof fn law_other_lines_give_nothing(line: Seq<char>)
    requires
        !text::occurs(line, "\"wrb.fr\""@) || vstd::utf8::encode_utf8(line).len() < 200
            || json::json_parsed(line) is None,
    ensures
        texts_in_line(line).len() == 0,
{
}

/// The candidates of a payload are read one by one: one whose segments hold no
/// text is left out, and a segment that is no text is passed over.
pub proof fn law_candidates_one_by_one(
    a: Seq<JsonView>,
    b: Seq<JsonView>,
    candidate: JsonView,
    more: Seq<JsonView>,
    odd: JsonView,
)
    requires
        !(odd is Text),
    ensures
        texts_of_candidates(a + b) == texts_of_candidates(a) + texts_of_candidates(b),
        candidate_text(candidate) is None ==> texts_of_candidates(seq![candidate]).len() == 0,
        !(candidate is Array) ==> candidate_text(candidate) is None,
        segments_text(more.push(odd)) == segments_text(more),
    decreases b.len(),
{
    reveal_with_fuel(texts_of_candidates, 2);
    assert(more.push(odd).drop_last() =~= more);
    assert(seq![candidate].drop_last() =~= Seq::<JsonView>::empty());
    if b.len() == 0 {
        assert(a + b =~= a);
        assert(texts_of_candidates(a) + texts_of_candidates(b) =~= texts_of_candidates(a));
    } else {
        law_candidates_one_by_one(a, b.drop_last(), candidate, more, odd);
        assert((a + b).drop_last() =~= a + b.drop_last());
        assert((a + b).last() == b.last());
        assert(texts_of_candidates(a + b) =~= texts_of_candidates(a) + texts_of_candidates(b));
    }
}

/// A line is read as soon as its end has come: its texts come first, then those
/// of what follows it.
pub proof fn law_a_complete_line_is_read(kept: Seq<char>, line: Seq<char>, rest: Seq<char>)
    requires
        !(kept + line).contains('\n'),
    ensures
        decoded(kept, line + seq!['\n'] + rest).1 == texts_in_line(kept + line) + decoded(
            Seq::empty(),
            rest,
        ).1,
        decoded(kept, line).1.len() == 0,
        vstd::utf8::encode_utf8(kept + line).len() <= 67_108_864 ==> decoded(kept, line).0 == kept
            + line,
{
    let whole = kept + line;
    let head = whole + seq!['\n'];
    text::lemma_split_pieces(whole, '\n');
    assert(head.drop_last() =~= whole);
    let pieces = text::split_at_char(head, '\n');
    assert(pieces =~= seq![whole, Seq::<char>::empty()]);
    text::lemma_split_add(head, rest, '\n');
    assert(Seq::<char>::empty() + rest =~= rest);
    assert(kept + (line + seq!['\n'] + rest) =~= head + rest);
    text::lemma_split_nonempty(rest, '\n');
    let tail = text::split_at_char(rest, '\n');
    assert(pieces.drop_last() =~= seq![whole]);
    assert((seq![whole] + tail).drop_last() =~= seq![whole] + tail.drop_last());
    lemma_texts_in_lines_add(seq![whole], tail.drop_last());
    reveal_with_fuel(texts_in_lines, 2);
    assert(seq![whole].drop_last() =~= Seq::<Seq<char>>::empty());
    assert(texts_in_lines(seq![whole]) =~= texts_in_line(whole));
}

/// The longest candidate is one of the texts, none has more bytes, and among
/// those that have as many it is the last.
pub proof fn law_longest_text(texts: Seq<Seq<char>>) -> (best: int)
    requires
        texts.len() > 0,
    ensures
        0 <= best < texts.len(),
        longest(texts) == Some(texts[best]),
        forall|k: int|
            0 <= k < texts.len() ==> vstd::utf8::encode_utf8(#[trigger] texts[k]).len()
                <= vstd::utf8::encode_utf8(texts[best]).len(),
        forall|k: int|
            best < k < texts.len() ==> vstd::utf8::encode_utf8(#[trigger] texts[k]).len()
                < vstd::utf8::encode_utf8(texts[best]).len(),
    decreases texts.len(),
{
    let n = texts.len() - 1;
    if n == 0 {
        reveal_with_fuel(longest, 2);
        return 0;
    }
    let before = law_longest_text(texts.drop_last());
    assert(texts.drop_last()[before] == texts[before]);
    assert forall|k: int| 0 <= k < n implies vstd::utf8::encode_utf8(#[trigger] texts[k]).len()
        <= vstd::utf8::encode_utf8(texts[before]).len() by {
        assert(texts.drop_last()[k] == texts[k]);
    }
    assert forall|k: int| before < k < n implies vstd::utf8::encode_utf8(#[trigger] texts[k]).len()
        < vstd::utf8::encode_utf8(texts[before]).len() by {
        assert(texts.drop_last()[k] == texts[k]);
    }
    if text::utf8_len(texts[n]) >= text::utf8_len(texts[before]) {
        n
    } else {
        before
    }
}

/// A whole answer of one line with one candidate is that candidate.
pub proof fn law_answer_of_one_line(line: Seq<char>, t: Seq<char>)
    requires
        line.len() > 0,
        !line.contains('\n'),
        line.last() != '\r',
        texts_in_line(line) == seq![t],
    ensures
        longest_in_body(line) == t,
        longest_in_body(line + seq!['\n']) == t,
{
    text::law_lines_one_by_one(line, Seq::empty());
    assert(line + seq!['\n'] + Seq::<char>::empty() =~= line + seq!['\n']);
    assert(text::lines_of(line + seq!['\n']) =~= seq![line]);
    reveal_with_fuel(texts_in_lines, 2);
    reveal_with_fuel(longest, 2);
    assert(seq![line].drop_last() =~= Seq::<Seq<char>>::empty());
    assert(texts_in_lines(seq![line]) =~= seq![t]);
    assert(seq![t].drop_last() =~= Seq::<Seq<char>>::empty());
}

/// A text in which the service has put nothing is left as it is; on demand the
/// white space at its ends goes.
pub proof fn law_clean_text_is_left(s: Seq<char>)
    requires
        outside::matches_removed(outside::CODE_REFERENCE@, s) == s,
        outside::matches_removed(outside::CARD_CONTENT@, s) == s,
    ensures
        cleaned(s, false) == s,
        cleaned(s, true) == text::trimmed(s),
{
}

/// The code of an error is the number that its brackets hold.
pub proof fn law_error_code_is_read(raw: Seq<char>, code: int, others: Seq<Seq<char>>)
    requires
        -0x8000_0000_0000_0000 <= code <= 0x7fff_ffff_ffff_ffff,
        outside::first_groups(outside::BARD_ERROR@, raw) == seq![text::signed_decimal(code)]
            + others,
    ensures
        bard_code(raw) == Some(code),
        rejected(code) == "Gemini upstream rejected request: BardErrorInfo ["@
            + text::signed_decimal(code) + "]"@,
{
    text::law_signed_decimal_read_back(code, i64::MAX as nat);
    let groups = seq![text::signed_decimal(code)] + others;
    assert(groups[0] == text::signed_decimal(code));
}

/// Without an error in the body there is no code.
pub proof fn law_no_error_no_code(raw: Seq<char>)
    requires
        outside::first_groups(outside::BARD_ERROR@, raw).len() == 0,
    ensures
        bard_code(raw) is None,
{
}

/// A reason that the service gives for blocking an answer reaches the user, word
/// for word.
pub proof fn law_block_reason_is_told(
    before: Seq<char>,
    reason: Seq<char>,
    after: Seq<char>,
    lower: Seq<char>,
)
    requires
        reason.len() > 0,
        !reason.contains('"'),
        text::first_match(
            before + "\"blockReason\":\""@ + reason + "\""@ + after,
            "\"blockReason\":"@,
        ) == Some(before.len() as int),
    ensures
        refusal(before + "\"blockReason\":\""@ + reason + "\""@ + after, lower) == Some(
            "Gemini a refusé de répondre (blockReason: "@ + reason
                + "). Reformulez votre prompt en évitant le contenu sensible."@,
        ),
{
    reveal_strlit("\"blockReason\":\"");
    reveal_strlit("\"blockReason\":");
    reveal_strlit("blockReason");
    reveal_strlit("\"");
    let raw = before + "\"blockReason\":\""@ + reason + "\""@ + after;
    let n = before.len() as int;
    assert(raw.subrange(n + 1, n + 12) =~= "blockReason"@);
    assert(text::matches_at(raw, "blockReason"@, n + 1));
    let behind = raw.skip(n + 14);
    assert(behind =~= "\""@ + reason + "\""@ + after);
    assert(behind[0] == '"');
    assert(text::trimmed_start(behind) == behind);
    assert(behind.subrange(0, 1) =~= "\""@);
    let rest = behind.skip(1);
    assert(rest =~= reason + "\""@ + after);
    assert(rest.subrange(reason.len() as int, reason.len() as int + 1) =~= "\""@);
    assert(text::matches_at(rest, "\""@, reason.len() as int));
    assert forall|j: int| 0 <= j < reason.len() implies !text::matches_at(rest, "\""@, j) by {
        assert(rest.subrange(j, j + 1)[0] == reason[j]);
        assert("\""@[0] == '"');
    }
    text::lemma_find_from_is(rest, "\""@, 0, reason.len() as int);
    assert(rest.take(reason.len() as int) =~= reason);
    assert(reason_in(behind) == Some(reason));
}

/// Each of the phrases with which the service refuses is seen, wherever it
/// stands and whatever the case of its letters was; where there is none of them
/// and no word of a reason, the answer is no refusal.
pub proof fn law_refusals_are_seen(raw: Seq<char>, lower: Seq<char>)
    ensures
        text::occurs(lower, "i can't help with that"@) ==> refusal(raw, lower) is Some,
        text::occurs(lower, "i'm not able to help with that"@) ==> refusal(raw, lower) is Some,
        text::occurs(lower, "i cannot fulfill this request"@) ==> refusal(raw, lower) is Some,
        text::occurs(lower, "i won't be able to help"@) ==> refusal(raw, lower) is Some,
        text::occurs(lower, "content safety"@) ==> refusal(raw, lower) is Some,
        text::occurs(lower, "against my safety guidelines"@) ==> refusal(raw, lower) is Some,
        text::occurs(lower, "violates safety policy"@) ==> refusal(raw, lower) is Some,
        text::occurs(raw, "blockReason"@) ==> refusal(raw, lower) is Some,
        !text::occurs(raw, "blockReason"@) ==> match refusal(raw, lower) {
            Some(message) => message
                == "Gemini a refusé de répondre à ce prompt (politique de contenu). Reformulez votre demande."@,
            None => true,
        },
        !text::occurs(raw, "blockReason"@) && !text::occurs(lower, "help"@) && !text::occurs(
            lower,
            "request"@,
        ) && !text::occurs(lower, "safety"@) ==> refusal(raw, lower) is None,
{
    reveal_strlit("help");
    reveal_strlit("request");
    reveal_strlit("safety");
    reveal_strlit("i can't help with that");
    reveal_strlit("i'm not able to help with that");
    reveal_strlit("i cannot fulfill this request");
    reveal_strlit("i won't be able to help");
    reveal_strlit("content safety");
    reveal_strlit("against my safety guidelines");
    reveal_strlit("violates safety policy");
    assert("i can't help with that"@.subrange(8, 12) =~= "help"@);
    lemma_part_of(lower, "i can't help with that"@, "help"@, 8);
    assert("i'm not able to help with that"@.subrange(16, 20) =~= "help"@);
    lemma_part_of(lower, "i'm not able to help with that"@, "help"@, 16);
    assert("i won't be able to help"@.subrange(19, 23) =~= "help"@);
    lemma_part_of(lower, "i won't be able to help"@, "help"@, 19);
    assert("i cannot fulfill this request"@.subrange(22, 29) =~= "request"@);
    lemma_part_of(lower, "i cannot fulfill this request"@, "request"@, 22);
    assert("content safety"@.subrange(8, 14) =~= "safety"@);
    lemma_part_of(lower, "content safety"@, "safety"@, 8);
    assert("against my safety guidelines"@.subrange(11, 17) =~= "safety"@);
    lemma_part_of(lower, "against my safety guidelines"@, "safety"@, 11);
    assert("violates safety policy"@.subrange(9, 15) =~= "safety"@);
    lemma_part_of(lower, "violates safety policy"@, "safety"@, 9);
}

/// Where a phrase occurs, each of its words does.
proof fn lemma_part_of(s: Seq<char>, phrase: Seq<char>, word: Seq<char>, at: int)
    requires
        text::matches_at(phrase, word, at),
    ensures
        text::occurs(s, phrase) ==> text::occurs(s, word),
{
    if text::occurs(s, phrase) {
        let i = choose|i: int| text::matches_at(s, phrase, i);
        assert(s.subrange(i + at, i + at + word.len()) =~= s.subrange(
            i,
            i + phrase.len(),
        ).subrange(at, at + word.len()));
        assert(text::matches_at(s, word, i + at));
    }
}

/// A long body with frames and without any text is a refusal without a word; one
/// of at most 500 bytes, or without a frame, is not.
pub proof fn law_silence_is_long(raw: Seq<char>)
    ensures
        text::occurs(raw, "\"wrb.fr\""@) && vstd::utf8::encode_utf8(raw).len() > 500 && (forall|
            i: int,
        |
            0 <= i < text::lines_of(raw).len() ==> (#[trigger] texts_in_line(
                text::lines_of(raw)[i],
            )).len() == 0) ==> silent_refusal(raw),
        vstd::utf8::encode_utf8(raw).len() <= 500 ==> !silent_refusal(raw),
        !text::occurs(raw, "\"wrb.fr\""@) ==> !silent_refusal(raw),
{
    let lines = text::lines_of(raw);
    if forall|i: int| 0 <= i < lines.len() ==> (#[trigger] texts_in_line(lines[i])).len() == 0 {
        lemma_no_texts(lines);
    }
}

proof fn lemma_no_texts(lines: Seq<Seq<char>>)
    requires
        forall|i: int| 0 <= i < lines.len() ==> (#[trigger] texts_in_line(lines[i])).len() == 0,
    ensures
        texts_in_lines(lines).len() == 0,
    decreases lines.len(),
{
    if lines.len() > 0 {
        let front = lines.drop_last();
        assert forall|i: int| 0 <= i < front.len() implies (#[trigger] texts_in_line(
            front[i],
        )).len() == 0 by {
            assert(front[i] == lines[i]);
            assert(texts_in_line(lines[i]).len() == 0);
        }
        lemma_no_texts(front);
        assert(texts_in_line(lines[lines.len() - 1]).len() == 0);
    }
}

/// A whole answer is its longest text without what the service put into it and
/// without white space at its ends; a body with an error of the service is that
/// error.
pub proof fn law_whole_answer(raw: Seq<char>, t: Seq<char>, code: int)
    ensures
        bard_code(raw) == Some(code) ==> answer_in(raw) == Err::<Seq<char>, Seq<char>>(
            "Gemini upstream rejected request: BardErrorInfo ["@ + text::signed_decimal(code)
                + "]"@,
        ),
        bard_code(raw) is None && longest(texts_in_lines(text::lines_of(raw))) == Some(t)
            && outside::matches_removed(outside::CODE_REFERENCE@, t) == t
            && outside::matches_removed(outside::CARD_CONTENT@, t) == t ==> answer_in(raw) == Ok::<
            Seq<char>,
            Seq<char>,
        >(text::trimmed(t)),
{
}

/// A word of a reason that gives none is told in general terms.
pub proof fn law_block_without_a_reason(raw: Seq<char>, lower: Seq<char>)
    requires
        text::occurs(raw, "blockReason"@),
        !text::occurs(raw, "\"blockReason\":"@),
    ensures
        refusal(raw, lower) == Some(
            "Gemini a refusé de répondre (politique de sécurité). Reformulez votre prompt."@,
        ),
{
    text::lemma_occurs(raw, "\"blockReason\":"@);
}

} // verus!
