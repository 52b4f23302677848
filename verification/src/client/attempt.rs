//! One attempt to get an answer: its body is read chunk by chunk, and what is
//! new in the text is handed on.

use crate::gemini::frames;
use crate::gemini::frames::StreamDecoder;
use crate::outside;
use crate::text;
use vstd::prelude::*;
use vstd::string::*;

verus! {

/// How much of the beginning of a body is kept, in bytes, to see whether the
/// service refused.
pub const MAX_RAW_ACCUMULATOR: usize = 65_536;

// ---------------------------------------------------------------------------
// Deltas
// ---------------------------------------------------------------------------

/// What a text that has grown adds to what was handed on: nothing where it is
/// the same or falls back, an error where it is another text.
pub open spec fn delta_of(emitted: Seq<char>, candidate: Seq<char>) -> Result<
    Option<Seq<char>>,
    (),
> {
    if text::starts_with_spec(candidate, emitted) {
        let more = candidate.skip(emitted.len() as int);
        if more.len() > 0 {
            Ok(Some(more))
        } else {
            Ok(None)
        }
    } else if text::starts_with_spec(emitted, candidate) {
        Ok(None)
    } else {
        Err(())
    }
}

/// What was handed on after the candidates, one after the other, the deltas,
/// and whether the text changed.
pub open spec fn deltas_of(emitted: Seq<char>, candidates: Seq<Seq<char>>) -> (
    Seq<char>,
    Seq<Seq<char>>,
    bool,
)
    decreases candidates.len(),
{
    if candidates.len() == 0 {
        (emitted, Seq::empty(), false)
    } else {
        let before = deltas_of(emitted, candidates.drop_last());
        if before.2 {
            before
        } else {
            match delta_of(before.0, candidates.last()) {
                Ok(Some(d)) => (before.0 + d, before.1.push(d), false),
                Ok(None) => before,
                Err(_) => (before.0, before.1, true),
            }
        }
    }
}

/// The deltas, put together, are what was handed on: nothing is handed on
/// twice, and nothing is lost.
pub proof fn law_deltas_add_up(emitted: Seq<char>, candidates: Seq<Seq<char>>)
    ensures
        ({
            let (after, deltas, changed) = deltas_of(emitted, candidates);
            after == emitted + text::concatenated(deltas)
        }),
    decreases candidates.len(),
{
    if candidates.len() == 0 {
        assert(emitted + Seq::<char>::empty() =~= emitted);
    } else {
        law_deltas_add_up(emitted, candidates.drop_last());
        let before = deltas_of(emitted, candidates.drop_last());
        if !before.2 {
            match delta_of(before.0, candidates.last()) {
                Ok(Some(d)) => {
                    text::lemma_concatenated_push(before.1, d);
                    assert(before.0 + d =~= emitted + text::concatenated(before.1.push(d)));
                },
                _ => {},
            }
        }
    }
}

/// A text that only grows is handed on whole: after its last form, that form
/// is what was handed on.
pub proof fn law_growing_text_is_handed_on(emitted: Seq<char>, candidate: Seq<char>)
    requires
        text::starts_with_spec(candidate, emitted),
    ensures
        deltas_of(emitted, seq![candidate]).0 == candidate,
        !deltas_of(emitted, seq![candidate]).2,
{
    reveal_with_fuel(deltas_of, 2);
    let one = seq![candidate];
    assert(one.drop_last() =~= Seq::<Seq<char>>::empty());
    assert(candidate.subrange(0, emitted.len() as int) =~= candidate.take(emitted.len() as int));
    assert(emitted + candidate.skip(emitted.len() as int) =~= candidate);
    if candidate.skip(emitted.len() as int).len() == 0 {
        assert(candidate =~= emitted);
    }
}

/// What a text adds to what was handed on, which then holds it; an error where
/// it is another text.
pub fn emit_delta(candidate: &str, emitted: &mut String) -> (r: Result<Option<String>, String>)
    ensures
        match r {
            Ok(Some(d)) => delta_of(old(emitted)@, candidate@) == Ok::<Option<Seq<char>>, ()>(
                Some(d@),
            ) && final(emitted)@ == old(emitted)@ + d@,
            Ok(None) => delta_of(old(emitted)@, candidate@) == Ok::<Option<Seq<char>>, ()>(None)
                && final(emitted)@ == old(emitted)@,
            Err(e) => delta_of(old(emitted)@, candidate@) is Err && final(emitted)@
                == old(emitted)@ && e@ == "content changed during streaming"@,
        },
{
    match text::strip_prefix(candidate, emitted.as_str()) {
        Some(more) => {
            if more.is_empty() {
                return Ok(None);
            }
            let d = more.to_owned();
            emitted.append(d.as_str());
            return Ok(Some(d));
        },
        None => {},
    }
    if text::starts_with(emitted.as_str(), candidate) {
        return Ok(None);
    }
    Err("content changed during streaming".to_owned())
}

// ---------------------------------------------------------------------------
// The attempt
// ---------------------------------------------------------------------------

/// The longest beginning of a text that takes at most `max` bytes.
pub open spec fn within(s: Seq<char>, max: nat) -> Seq<char>
    decreases s.len(),
{
    if s.len() == 0 || text::utf8_len(s) <= max {
        s
    } else {
        within(s.drop_last(), max)
    }
}

/// The state of an attempt: the line that has begun, what was handed on, and
/// the beginning of the body.
pub struct AttemptView {
    pub kept: Seq<char>,
    pub emitted: Seq<char>,
    pub raw: Seq<char>,
}

/// How a chunk ends.
#[derive(Debug)]
pub enum ChunkEnd {
    /// The next one can be read.
    Continue,
    /// The service refused; the text says what the user is told. The attempt is
    /// over.
    Refused(String),
    /// The attempt failed.
    Failed(String),
}

pub enum ChunkEndView {
    Continue,
    Refused(Seq<char>),
    Failed(Seq<char>),
}

impl View for ChunkEnd {
    type V = ChunkEndView;

    open spec fn view(&self) -> ChunkEndView {
        match *self {
            ChunkEnd::Continue => ChunkEndView::Continue,
            ChunkEnd::Refused(m) => ChunkEndView::Refused(m@),
            ChunkEnd::Failed(m) => ChunkEndView::Failed(m@),
        }
    }
}

/// The code of the error in a text, 0 where it has none.
pub open spec fn code_or_zero(s: Seq<char>) -> int {
    match frames::bard_code(s) {
        Some(code) => code,
        None => 0,
    }
}

/// The state after a chunk, what is handed on, and how it ends.
pub open spec fn chunk_read(a: AttemptView, chunk: Seq<char>) -> (
    AttemptView,
    Seq<Seq<char>>,
    ChunkEndView,
) {
    let raw = if text::utf8_len(a.raw) < MAX_RAW_ACCUMULATOR {
        within(a.raw + chunk, MAX_RAW_ACCUMULATOR as nat)
    } else {
        a.raw
    };
    let combined = a.kept + chunk;
    let next = AttemptView { raw, ..a };
    if text::occurs(combined, "BardErrorInfo"@) {
        (
            next,
            Seq::empty(),
            ChunkEndView::Failed(frames::rejected(code_or_zero(combined))),
        )
    } else {
        match frames::refusal(combined, outside::lowercased(combined)) {
            Some(reason) => (next, Seq::empty(), ChunkEndView::Refused(reason)),
            None => {
                let (kept, texts) = frames::decoded(a.kept, chunk);
                let (emitted, deltas, changed) = deltas_of(a.emitted, texts);
                (
                    AttemptView { kept, emitted, raw },
                    deltas,
                    if changed {
                        ChunkEndView::Failed("content changed during streaming"@)
                    } else {
                        ChunkEndView::Continue
                    },
                )
            },
        }
    }
}

/// Whatever a chunk holds, what it hands on is what is new: put behind what was
/// handed on before, it is what was handed on since.
pub proof fn law_chunk_hands_on_what_is_new(a: AttemptView, chunk: Seq<char>)
    ensures
        chunk_read(a, chunk).0.emitted == a.emitted + text::concatenated(chunk_read(a, chunk).1),
{
    law_deltas_add_up(a.emitted, frames::decoded(a.kept, chunk).1);
    assert(a.emitted + text::concatenated(Seq::empty()) =~= a.emitted);
}

/// What the user is told when the body has ended, if the service refused.
pub open spec fn end_refusal(a: AttemptView) -> Option<Seq<char>> {
    match frames::refusal(a.raw, outside::lowercased(a.raw)) {
        Some(reason) => Some(reason),
        None => if a.emitted.len() == 0 && frames::silent_refusal(a.raw) {
            Some("Gemini n'a produit aucune réponse (refus silencieux). Reformulez votre prompt."@)
        } else {
            None
        },
    }
}

/// The state in which the next attempt begins.
pub open spec fn restarted(a: AttemptView) -> AttemptView {
    AttemptView { kept: Seq::empty(), emitted: a.emitted, raw: Seq::empty() }
}

/// An attempt in progress.
#[derive(Debug)]
pub struct Attempt {
    decoder: StreamDecoder,
    emitted: String,
    raw: String,
}

impl View for Attempt {
    type V = AttemptView;

    closed spec fn view(&self) -> AttemptView {
        AttemptView { kept: self.decoder@, emitted: self.emitted@, raw: self.raw@ }
    }
}

proof fn lemma_within(s: Seq<char>, max: nat, n: int)
    requires
        0 <= n <= s.len(),
        text::utf8_len(s.take(n)) <= max,
        n < s.len() ==> text::utf8_len(s.take(n + 1)) > max,
    ensures
        within(s, max) == s.take(n),
    decreases s.len(),
{
    if n == s.len() {
        assert(s.take(n) =~= s);
    } else {
        assert(text::utf8_len(s) > max) by {
            assert(s.take(n + 1) + s.skip(n + 1) =~= s);
            text::lemma_utf8_len_add(s.take(n + 1), s.skip(n + 1));
        }
        let front = s.drop_last();
        assert(front.take(n) =~= s.take(n));
        if n < front.len() {
            assert(front.take(n + 1) =~= s.take(n + 1));
        }
        lemma_within(front, max, n);
    }
}

/// The longest beginning of a text that takes at most `max` bytes.
fn cut_to_bytes(s: &str, max: usize) -> (r: String)
    requires
        max <= 0x1000_0000,
    ensures
        r@ == within(s@, max as nat),
{
    let mut out: String = String::new();
    let mut size: usize = 0;
    proof {
        assert(text::utf8_len(Seq::<char>::empty()) == 0);
    }
    for c in it: s.chars()
        invariant
            it.seq() == s@,
            max <= 0x1000_0000,
            out@ =~= s@.take(it.index()),
            size == text::utf8_len(out@),
            size <= max,
    {
        let more: usize = text::char_bytes(c);
        proof {
            assert(s@.take(it.index() + 1) =~= out@ + seq![c]);
            text::lemma_utf8_len_add(out@, seq![c]);
        }
        if size + more > max {
            proof {
                lemma_within(s@, max as nat, it.index() as int);
            }
            return out;
        }
        size = size + more;
        out.push(c);
        proof {
            assert(out@ =~= s@.take(it.index() + 1));
        }
    }
    proof {
        assert(s@.take(s@.len() as int) =~= s@);
        lemma_within(s@, max as nat, s@.len() as int);
    }
    out
}

impl Attempt {
    /// The first attempt: nothing was handed on yet.
    pub fn new() -> (r: Self)
        ensures
            r@ == (AttemptView {
                kept: Seq::empty(),
                emitted: Seq::empty(),
                raw: Seq::empty(),
            }),
    {
        Attempt { decoder: StreamDecoder::new(), emitted: String::new(), raw: String::new() }
    }

    /// The next attempt: the line that had begun is dropped, what was handed on
    /// stays.
    pub fn restart(&mut self)
        ensures
            final(self)@ == restarted(old(self)@),
    {
        self.decoder.clear();
        self.raw = String::new();
    }

    /// Whether nothing was handed on yet.
    pub fn is_silent(&self) -> (r: bool)
        ensures
            r == (self@.emitted.len() == 0),
    {
        self.emitted.as_str().is_empty()
    }

    fn keep_raw(&mut self, chunk: &str)
        ensures
            final(self)@ == (AttemptView {
                raw: if text::utf8_len(old(self)@.raw) < MAX_RAW_ACCUMULATOR {
                    within(old(self)@.raw + chunk@, MAX_RAW_ACCUMULATOR as nat)
                } else {
                    old(self)@.raw
                },
                ..old(self)@
            }),
    {
        if text::byte_len(self.raw.as_str()) < MAX_RAW_ACCUMULATOR {
            self.raw.append(chunk);
            self.raw = cut_to_bytes(self.raw.as_str(), MAX_RAW_ACCUMULATOR);
        }
    }

    /// Reads a chunk of text: the deltas that it gives, and how it ends.
    pub fn read_text(&mut self, chunk: &str) -> (r: (Vec<String>, ChunkEnd))
        ensures
            (final(self)@, text::texts_of(r.0@), r.1@) == chunk_read(old(self)@, chunk@),
    {
        let ghost start = self@;
        self.keep_raw(chunk);
        let combined = text::cat(self.decoder.pending(), chunk);
        let mut deltas: Vec<String> = Vec::new();
        proof {
            assert(text::texts_of(deltas@) =~= Seq::empty());
        }
        if text::contains(combined.as_str(), "BardErrorInfo") {
            let code: i64 = match frames::bard_error(combined.as_str()) {
                Some(code) => code,
                None => 0,
            };
            let shown = text::signed_text(code);
            let message = text::cat3(
                "Gemini upstream rejected request: BardErrorInfo [",
                shown.as_str(),
                "]",
            );
            return (deltas, ChunkEnd::Failed(message));
        }
        match frames::detect_safety_block(combined.as_str()) {
            Some(reason) => {
                return (deltas, ChunkEnd::Refused(reason));
            },
            None => {},
        }
        let texts = self.decoder.feed(chunk);
        let ghost all = text::texts_of(texts@);
        let ghost emitted0 = self.emitted@;
        let ghost kept = self.decoder@;
        let ghost raw = self.raw@;
        let mut i: usize = 0;
        while i < texts.len()
            invariant
                i <= texts@.len(),
                start == old(self)@,
                all == text::texts_of(texts@),
                self@.kept == kept,
                self@.raw == raw,
                kept == frames::decoded(start.kept, chunk@).0,
                all == frames::decoded(start.kept, chunk@).1,
                emitted0 == start.emitted,
                raw == chunk_read(start, chunk@).0.raw,
                !text::occurs(start.kept + chunk@, "BardErrorInfo"@),
                frames::refusal(
                    start.kept + chunk@,
                    outside::lowercased(start.kept + chunk@),
                ) is None,
                (self@.emitted, text::texts_of(deltas@), false) == deltas_of(
                    emitted0,
                    all.take(i as int),
                ),
            decreases texts@.len() - i,
        {
            proof {
                assert(all.take(i + 1).drop_last() =~= all.take(i as int));
                assert(all.take(i + 1).last() == texts@[i as int]@);
            }
            match emit_delta(texts[i].as_str(), &mut self.emitted) {
                Ok(Some(d)) => {
                    proof {
                        text::lemma_texts_push(deltas@, d);
                    }
                    deltas.push(d);
                },
                Ok(None) => {},
                Err(e) => {
                    proof {
                        lemma_changed(emitted0, all, i + 1);
                    }
                    return (deltas, ChunkEnd::Failed(e));
                },
            }
            i += 1;
        }
        proof {
            assert(all.take(all.len() as int) =~= all);
        }
        (deltas, ChunkEnd::Continue)
    }

    /// Reads a chunk of bytes: the deltas that it gives, and how it ends.
    pub fn read_chunk(&mut self, bytes: &[u8]) -> (r: (Vec<String>, ChunkEnd))
        ensures
            (final(self)@, text::texts_of(r.0@), r.1@) == chunk_read(
                old(self)@,
                outside::lossy_text(bytes@),
            ),
    {
        let chunk = outside::text_of_bytes(bytes);
        self.read_text(chunk.as_str())
    }

    /// What the user is told when the body has ended, if the service refused.
    pub fn finish(&self) -> (r: Option<String>)
        ensures
            text::option_view(r) == end_refusal(self@),
    {
        match frames::detect_safety_block(self.raw.as_str()) {
            Some(reason) => {
                return Some(reason);
            },
            None => {},
        }
        if self.emitted.as_str().is_empty() && frames::is_empty_stream(self.raw.as_str()) {
            return Some(
                "Gemini n'a produit aucune réponse (refus silencieux). Reformulez votre prompt.".to_owned(),
            );
        }
        None
    }
}

/// A text that changed stays changed.
proof fn lemma_changed(emitted: Seq<char>, all: Seq<Seq<char>>, n: int)
    requires
        0 <= n <= all.len(),
        deltas_of(emitted, all.take(n)).2,
    ensures
        deltas_of(emitted, all) == deltas_of(emitted, all.take(n)),
    decreases all.len() - n,
{
    if n < all.len() {
        assert(all.take(n + 1).drop_last() =~= all.take(n));
        lemma_changed(emitted, all, n + 1);
    } else {
        assert(all.take(n) =~= all);
    }
}

// ---------------------------------------------------------------------------
// The whole answer
// ---------------------------------------------------------------------------

/// The items of a stream, put together up to the first error.
pub open spec fn collected(items: Seq<Result<String, String>>) -> Result<Seq<char>, Seq<char>>
    decreases items.len(),
{
    if items.len() == 0 {
        Ok(Seq::empty())
    } else {
        match collected(items.drop_last()) {
            Ok(before) => match items.last() {
                Ok(d) => Ok(before + d@),
                Err(e) => Err(e@),
            },
            Err(e) => Err(e),
        }
    }
}

proof fn lemma_collected_error(items: Seq<Result<String, String>>, n: int)
    requires
        0 <= n <= items.len(),
        collected(items.take(n)) is Err,
    ensures
        collected(items) == collected(items.take(n)),
    decreases items.len() - n,
{
    if n < items.len() {
        assert(items.take(n + 1).drop_last() =~= items.take(n));
        lemma_collected_error(items, n + 1);
    } else {
        assert(items.take(n) =~= items);
    }
}

/// The whole answer: the deltas put together, or the first error.
pub fn complete(items: &Vec<Result<String, String>>) -> (r: Result<String, String>)
    ensures
        match r {
            Ok(t) => collected(items@) == Ok::<Seq<char>, Seq<char>>(t@),
            Err(e) => collected(items@) == Err::<Seq<char>, Seq<char>>(e@),
        },
{
    let mut out: String = String::new();
    let mut i: usize = 0;
    while i < items.len()
        invariant
            i <= items@.len(),
            collected(items@.take(i as int)) == Ok::<Seq<char>, Seq<char>>(out@),
        decreases items@.len() - i,
    {
        proof {
            assert(items@.take(i + 1).drop_last() =~= items@.take(i as int));
            assert(items@.take(i + 1).last() == items@[i as int]);
        }
        match &items[i] {
            Ok(d) => {
                out.append(d.as_str());
            },
            Err(e) => {
                proof {
                    lemma_collected_error(items@, i + 1);
                }
                return Err(e.clone());
            },
        }
        i += 1;
    }
    proof {
        assert(items@.take(items@.len() as int) =~= items@);
    }
    Ok(out)
}

// ---------------------------------------------------------------------------
// What an attempt hands on
// ---------------------------------------------------------------------------


/// What a text adds to what was handed on is exactly what it has more; the same
/// text and a shorter form of it add nothing; another text is an error.
pub proof fn law_only_what_is_new(emitted: Seq<char>, more: Seq<char>, other: Seq<char>)
    ensures
        more.len() > 0 ==> delta_of(emitted, emitted + more) == Ok::<Option<Seq<char>>, ()>(
            Some(more),
        ),
        delta_of(emitted, emitted) == Ok::<Option<Seq<char>>, ()>(None),
        more.len() > 0 ==> delta_of(emitted + more, emitted) == Ok::<Option<Seq<char>>, ()>(None),
        (exists|i: int| 0 <= i < emitted.len() && i < other.len() && emitted[i] != other[i])
            ==> delta_of(emitted, other) is Err,
{
    let longer = emitted + more;
    let n = emitted.len() as int;
    assert(longer.subrange(0, n) =~= emitted);
    assert(longer.skip(n) =~= more);
    assert(emitted.subrange(0, n) =~= emitted);
    assert(emitted.skip(n).len() == 0);
    if exists|i: int| 0 <= i < emitted.len() && i < other.len() && emitted[i] != other[i] {
        let i = choose|i: int| 0 <= i < emitted.len() && i < other.len() && emitted[i] != other[i];
        if text::starts_with_spec(other, emitted) {
            assert(other.subrange(0, n)[i] == other[i]);
        }
        if text::starts_with_spec(emitted, other) {
            assert(emitted.subrange(0, other.len() as int)[i] == emitted[i]);
        }
    }
}

/// A text of the service is handed on as soon as its line is complete: what it
/// has more than what was handed on before, and nothing else.
pub proof fn law_complete_line_is_handed_on(
    a: AttemptView,
    line: Seq<char>,
    more: Seq<char>,
)
    requires
        !(a.kept + line).contains('\n'),
        !text::occurs(a.kept + (line + seq!['\n']), "BardErrorInfo"@),
        frames::refusal(
            a.kept + (line + seq!['\n']),
            outside::lowercased(a.kept + (line + seq!['\n'])),
        ) is None,
        frames::texts_in_line(a.kept + line) == seq![a.emitted + more],
        more.len() > 0,
    ensures
        ({
            let (next, deltas, end) = chunk_read(a, line + seq!['\n']);
            &&& deltas == seq![more]
            &&& end == ChunkEndView::Continue
            &&& next.emitted == a.emitted + more
            &&& next.kept.len() == 0
        }),
{
    let nothing = Seq::<char>::empty();
    let chunk = line + seq!['\n'];
    frames::law_a_complete_line_is_read(a.kept, line, nothing);
    frames::law_a_complete_line_is_read(nothing, nothing, nothing);
    assert(chunk + nothing =~= chunk);
    assert(nothing + nothing =~= nothing);
    let texts = seq![a.emitted + more];
    assert(frames::decoded(a.kept, chunk).1 =~= texts);
    reveal_with_fuel(deltas_of, 2);
    assert(texts.drop_last() =~= Seq::<Seq<char>>::empty());
    law_only_what_is_new(a.emitted, more, nothing);
    assert(Seq::<Seq<char>>::empty().push(more) =~= seq![more]);
    let whole = a.kept + chunk;
    assert(whole.drop_last() =~= a.kept + line);
    assert(whole.last() == '\n');
    text::lemma_split_nonempty(a.kept + line, '\n');
    assert(text::split_at_char(whole, '\n').last().len() == 0);
}

/// An error of the service ends the attempt and is told with its code; nothing is
/// handed on.
pub proof fn law_error_ends_the_attempt(a: AttemptView, chunk: Seq<char>, code: int)
    requires
        text::occurs(a.kept + chunk, "BardErrorInfo"@),
    ensures
        chunk_read(a, chunk).1.len() == 0,
        frames::bard_code(a.kept + chunk) == Some(code) ==> chunk_read(a, chunk).2
            == ChunkEndView::Failed(
            "Gemini upstream rejected request: BardErrorInfo ["@ + text::signed_decimal(code)
                + "]"@,
        ),
        frames::bard_code(a.kept + chunk) is None ==> chunk_read(a, chunk).2
            == ChunkEndView::Failed(
            "Gemini upstream rejected request: BardErrorInfo ["@ + text::signed_decimal(0) + "]"@,
        ),
{
}

/// A refusal ends the attempt with what the user is told of it; nothing is handed
/// on.
pub proof fn law_refusal_ends_the_attempt(a: AttemptView, chunk: Seq<char>, reason: Seq<char>)
    requires
        !text::occurs(a.kept + chunk, "BardErrorInfo"@),
        frames::refusal(a.kept + chunk, outside::lowercased(a.kept + chunk)) == Some(reason),
    ensures
        chunk_read(a, chunk).1.len() == 0,
        chunk_read(a, chunk).2 == ChunkEndView::Refused(reason),
{
}

/// A text that is not what was handed on is an error of the stream.
pub proof fn law_changed_text_is_an_error(a: AttemptView, chunk: Seq<char>)
    requires
        !text::occurs(a.kept + chunk, "BardErrorInfo"@),
        frames::refusal(a.kept + chunk, outside::lowercased(a.kept + chunk)) is None,
    ensures
        deltas_of(a.emitted, frames::decoded(a.kept, chunk).1).2 ==> chunk_read(a, chunk).2
            == ChunkEndView::Failed("content changed during streaming"@),
        !deltas_of(a.emitted, frames::decoded(a.kept, chunk).1).2 ==> chunk_read(a, chunk).2
            == ChunkEndView::Continue,
{
}

/// Of the body so much is kept as 65 536 bytes hold: all of it while it fits, and
/// never more than that.
pub proof fn law_body_is_kept_up_to_a_limit(a: AttemptView, chunk: Seq<char>)
    requires
        text::utf8_len(a.raw) <= 65_536,
    ensures
        text::utf8_len(chunk_read(a, chunk).0.raw) <= 65_536,
        text::utf8_len(a.raw + chunk) <= 65_536 && text::utf8_len(a.raw) < 65_536 ==> chunk_read(
            a,
            chunk,
        ).0.raw == a.raw + chunk,
        text::starts_with_spec(a.raw + chunk, chunk_read(a, chunk).0.raw),
{
    let whole = a.raw + chunk;
    lemma_fits(whole, 65_536);
    assert(whole.subrange(0, a.raw.len() as int) =~= a.raw);
}

proof fn lemma_fits(s: Seq<char>, max: nat)
    ensures
        text::utf8_len(within(s, max)) <= max,
        text::starts_with_spec(s, within(s, max)),
    decreases s.len(),
{
    if s.len() == 0 {
        text::law_bytes_add_up(s, s, ' ');
        assert(s =~= Seq::<char>::empty());
        assert(s.subrange(0, 0) =~= s);
    } else if text::utf8_len(s) <= max {
        assert(s.subrange(0, s.len() as int) =~= s);
    } else {
        lemma_fits(s.drop_last(), max);
        let w = within(s, max);
        assert(s.subrange(0, w.len() as int) =~= s.drop_last().subrange(0, w.len() as int));
    }
}

/// At the end of the body a refusal is told; a silence is one only where nothing
/// was handed on.
pub proof fn law_end_of_the_body(a: AttemptView)
    ensures
        frames::refusal(a.raw, outside::lowercased(a.raw)) matches Some(reason) ==> end_refusal(a)
            == Some(reason),
        frames::refusal(a.raw, outside::lowercased(a.raw)) is None && a.emitted.len() > 0
            ==> end_refusal(a) is None,
        frames::refusal(a.raw, outside::lowercased(a.raw)) is None && a.emitted.len() == 0
            && frames::silent_refusal(a.raw) ==> end_refusal(a) == Some(
            "Gemini n'a produit aucune réponse (refus silencieux). Reformulez votre prompt."@,
        ),
        frames::refusal(a.raw, outside::lowercased(a.raw)) is None && !frames::silent_refusal(a.raw)
            ==> end_refusal(a) is None,
{
}

/// A stream without errors is all its texts, in order; one with an error is that
/// error, the first of them.
pub proof fn law_stream_is_its_texts(
    items: Seq<Result<String, String>>,
    more: Seq<Result<String, String>>,
    e: String,
)
    ensures
        (forall|i: int| 0 <= i < items.len() ==> #[trigger] items[i] is Ok) ==> collected(items)
            == Ok::<Seq<char>, Seq<char>>(
            text::concatenated(
                Seq::new(
                    items.len(),
                    |i: int|
                        match items[i] {
                            Ok(d) => d@,
                            Err(_) => Seq::empty(),
                        },
                ),
            ),
        ),
        collected(items) is Ok ==> collected(items.push(Err(e)) + more) == Err::<
            Seq<char>,
            Seq<char>,
        >(e@),
    decreases items.len() + more.len(),
{
    let texts = Seq::new(
        items.len(),
        |i: int|
            match items[i] {
                Ok(d) => d@,
                Err(_) => Seq::empty(),
            },
    );
    if more.len() > 0 {
        law_stream_is_its_texts(items, more.drop_last(), e);
        assert((items.push(Err(e)) + more).drop_last() =~= items.push(Err(e)) + more.drop_last());
    } else {
        assert(items.push(Err(e)) + more =~= items.push(Err(e)));
        assert(items.push(Err(e)).drop_last() =~= items);
        if items.len() > 0 {
            law_stream_is_its_texts(items.drop_last(), more, e);
        }
    }
    if (forall|i: int| 0 <= i < items.len() ==> #[trigger] items[i] is Ok) && items.len() > 0 {
        let front = items.drop_last();
        assert forall|i: int| 0 <= i < front.len() implies #[trigger] front[i] is Ok by {
            assert(items[i] is Ok);
        }
        if more.len() > 0 {
            law_stream_is_its_texts(front, Seq::empty(), e);
        }
        assert(items[items.len() - 1] is Ok);
        assert(texts.drop_last() =~= Seq::new(
            front.len(),
            |i: int|
                match front[i] {
                    Ok(d) => d@,
                    Err(_) => Seq::empty(),
                },
        ));
    }
}

/// The next attempt knows what was handed on, so that nothing is handed on
/// twice, and nothing else of the one before.
pub proof fn law_next_attempt_repeats_nothing(a: AttemptView, more: Seq<char>)
    ensures
        restarted(a).emitted == a.emitted,
        restarted(a).kept.len() == 0,
        restarted(a).raw.len() == 0,
        more.len() > 0 ==> delta_of(restarted(a).emitted, a.emitted + more) == Ok::<
            Option<Seq<char>>,
            (),
        >(Some(more)),
{
    law_only_what_is_new(a.emitted, more, Seq::empty());
}

} // verus!
