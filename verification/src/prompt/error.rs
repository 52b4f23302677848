//! What the user is told of a failure: what to do next, and the failure as a
//! detail.

use crate::text;
use vstd::prelude::*;
use vstd::string::*;

verus! {

/// A text with every line end as `\n`.
pub open spec fn line_ends(raw: Seq<char>) -> Seq<char> {
    Seq::new(
        raw.len(),
        |i: int|
            if raw[i] == '\r' {
                '\n'
            } else {
                raw[i]
            },
    )
}

/// The lines without white space around them, those that are not empty.
pub open spec fn spoken(lines: Seq<Seq<char>>) -> Seq<Seq<char>>
    decreases lines.len(),
{
    if lines.len() == 0 {
        Seq::empty()
    } else {
        let before = spoken(lines.drop_last());
        let line = text::trimmed(lines.last());
        if line.len() == 0 {
            before
        } else {
            before.push(line)
        }
    }
}

/// A text on one line: its lines without white space around them and without
/// the empty ones, with a space between two.
pub open spec fn on_one_line(raw: Seq<char>) -> Seq<char> {
    text::joined(spoken(text::split_at_char(line_ends(raw), '\n')), " "@)
}

/// The service refused for what the text says.
pub open spec fn about_safety(raw: Seq<char>) -> bool {
    let lower = text::ascii_lowered(raw);
    ||| text::occurs(lower, "safetyblocked"@)
    ||| text::occurs(lower, "refus"@)
    ||| text::occurs(lower, "politique de sécurité"@)
    ||| text::occurs(lower, "politique de contenu"@)
    ||| text::occurs(lower, "content policy"@)
}

/// The history was too long for the model.
pub open spec fn about_context(raw: Seq<char>) -> bool {
    let lower = text::ascii_lowered(raw);
    ||| text::occurs(lower, "context window"@)
    ||| text::occurs(lower, "context length"@)
    ||| text::occurs(lower, "maximum context"@)
    ||| text::occurs(lower, "too many tokens"@)
    ||| text::occurs(lower, "context overflow"@)
}

/// The connection failed.
pub open spec fn about_transport(raw: Seq<char>) -> bool {
    let lower = text::ascii_lowered(raw);
    ||| text::occurs(lower, "timeout"@)
    ||| text::occurs(lower, "timed out"@)
    ||| text::occurs(lower, "connection reset"@)
    ||| text::occurs(lower, "connection refused"@)
    ||| text::occurs(lower, "network"@)
    ||| text::occurs(lower, "transport"@)
}

/// What a refusal says, without its name in front.
pub open spec fn refusal_detail(msg: Seq<char>) -> Seq<char> {
    if text::starts_with_spec(msg, "SafetyBlocked:"@) {
        text::trimmed(msg.skip("SafetyBlocked:"@.len() as int))
    } else if text::starts_with_spec(msg, "SafetyBlocked"@) {
        text::trimmed(msg.skip("SafetyBlocked"@.len() as int))
    } else {
        text::trimmed(msg)
    }
}

/// What the user is told of an error on one line.
pub open spec fn error_advice(msg: Seq<char>) -> Seq<char> {
    if text::occurs(msg, "BardErrorInfo"@) {
        "Authentification Gemini expirée. Réexportez `vendor/cookie.json` depuis un navigateur connecté à gemini.google.com, puis relancez l’agent.\n\nDétail : "@
            + msg
    } else if about_safety(msg) {
        let detail = refusal_detail(msg);
        if detail.len() == 0 {
            "Gemini a refusé ce contenu pour des raisons de politique. Reformulez le prompt ou retirez les éléments sensibles."@
        } else {
            "Gemini a refusé ce contenu pour des raisons de politique : "@ + detail
                + "\n\nAction : reformulez le prompt ou retirez les éléments sensibles."@
        }
    } else if text::occurs(msg, "Unknown model"@) || text::occurs(msg, "modèle inconnu"@) {
        "Le modèle Gemini demandé n’est pas disponible. Choisissez un modèle valide dans les config options.\n\nDétail : "@
            + msg
    } else if about_context(msg) {
        "Le contexte de cette session est trop volumineux. Réessayez après compaction, ou démarrez une nouvelle session.\n\nDétail : "@
            + msg
    } else if about_transport(msg) {
        "La connexion avec Gemini a échoué ou a expiré. Vérifiez le réseau puis réessayez.\n\nDétail : "@
            + msg
    } else {
        "Gemini n’a pas pu terminer cette opération.\n\nDétail : "@ + msg
    }
}

/// What the user is told of an error in the middle of an answer.
pub open spec fn stream_advice(msg: Seq<char>) -> Seq<char> {
    if text::occurs(msg, "BardErrorInfo"@) {
        "Authentification Gemini expirée. Réexportez `vendor/cookie.json`, puis relancez l’agent."@
    } else if about_safety(msg) {
        "Gemini a refusé ce contenu pour des raisons de politique. Reformulez le prompt et réessayez."@
    } else if text::occurs(msg, "content changed"@) {
        "Le flux Gemini a divergé pendant la génération. Aucun état partiel n’est considéré comme fiable : réessayez le tour."@
    } else if about_context(msg) {
        "La fenêtre de contexte est saturée. Réessayez après compaction ou démarrez une nouvelle session."@
    } else if about_transport(msg) {
        "La connexion avec Gemini a expiré ou a été interrompue. Vérifiez le réseau et réessayez."@
    } else {
        "Le flux Gemini a échoué. Réessayez le tour.\n\nDétail : "@ + msg
    }
}

// ---------------------------------------------------------------------------
// Functions
// ---------------------------------------------------------------------------

fn normalize(raw: &str) -> (r: String)
    ensures
        r@ == on_one_line(raw@),
{
    let mut ended: String = String::new();
    for c in it: raw.chars()
        invariant
            it.seq() == raw@,
            ended@ =~= line_ends(raw@).take(it.index()),
    {
        if c == '\r' {
            ended.push('\n');
        } else {
            ended.push(c);
        }
    }
    proof {
        assert(ended@ =~= line_ends(raw@));
    }
    let lines = text::split(ended.as_str(), '\n');
    let ghost all = text::texts_of(lines@);
    let mut kept: Vec<String> = Vec::new();
    let mut i: usize = 0;
    proof {
        assert(text::texts_of(kept@) =~= Seq::empty());
    }
    while i < lines.len()
        invariant
            i <= lines@.len(),
            all == text::texts_of(lines@),
            text::texts_of(kept@) == spoken(all.take(i as int)),
        decreases lines@.len() - i,
    {
        proof {
            assert(all.take(i + 1).drop_last() =~= all.take(i as int));
            assert(all.take(i + 1).last() == lines@[i as int]@);
        }
        let line = text::trim(lines[i].as_str());
        if !line.is_empty() {
            let owned = line.to_owned();
            proof {
                text::lemma_texts_push(kept@, owned);
            }
            kept.push(owned);
        }
        i += 1;
    }
    proof {
        assert(all.take(all.len() as int) =~= all);
    }
    text::join(kept.as_slice(), " ")
}

fn is_safety(raw: &str) -> (r: bool)
    ensures
        r == about_safety(raw@),
{
    let lower = text::to_ascii_lowercase(raw);
    let l = lower.as_str();
    text::contains(l, "safetyblocked") || text::contains(l, "refus") || text::contains(
        l,
        "politique de sécurité",
    ) || text::contains(l, "politique de contenu") || text::contains(l, "content policy")
}

fn is_context_overflow(raw: &str) -> (r: bool)
    ensures
        r == about_context(raw@),
{
    let lower = text::to_ascii_lowercase(raw);
    let l = lower.as_str();
    text::contains(l, "context window") || text::contains(l, "context length") || text::contains(
        l,
        "maximum context",
    ) || text::contains(l, "too many tokens") || text::contains(l, "context overflow")
}

fn is_transport(raw: &str) -> (r: bool)
    ensures
        r == about_transport(raw@),
{
    let lower = text::to_ascii_lowercase(raw);
    let l = lower.as_str();
    text::contains(l, "timeout") || text::contains(l, "timed out") || text::contains(
        l,
        "connection reset",
    ) || text::contains(l, "connection refused") || text::contains(l, "network") || text::contains(
        l,
        "transport",
    )
}

fn detail_of(msg: &str) -> (r: &str)
    ensures
        r@ == refusal_detail(msg@),
{
    match text::strip_prefix(msg, "SafetyBlocked:") {
        Some(rest) => text::trim(rest),
        None => match text::strip_prefix(msg, "SafetyBlocked") {
            Some(rest) => text::trim(rest),
            None => text::trim(msg),
        },
    }
}

/// What the user is told of an error, given with its causes.
pub fn actionable_error_message(e: &str) -> (r: String)
    ensures
        r@ == error_advice(on_one_line(e@)),
{
    let line = normalize(e);
    let msg = line.as_str();
    if text::contains(msg, "BardErrorInfo") {
        return text::cat(
            "Authentification Gemini expirée. Réexportez `vendor/cookie.json` depuis un navigateur connecté à gemini.google.com, puis relancez l’agent.\n\nDétail : ",
            msg,
        );
    }
    if is_safety(msg) {
        let detail = detail_of(msg);
        return if detail.is_empty() {
            "Gemini a refusé ce contenu pour des raisons de politique. Reformulez le prompt ou retirez les éléments sensibles.".to_owned()
        } else {
            text::cat3(
                "Gemini a refusé ce contenu pour des raisons de politique : ",
                detail,
                "\n\nAction : reformulez le prompt ou retirez les éléments sensibles.",
            )
        };
    }
    if text::contains(msg, "Unknown model") || text::contains(msg, "modèle inconnu") {
        return text::cat(
            "Le modèle Gemini demandé n’est pas disponible. Choisissez un modèle valide dans les config options.\n\nDétail : ",
            msg,
        );
    }
    if is_context_overflow(msg) {
        return text::cat(
            "Le contexte de cette session est trop volumineux. Réessayez après compaction, ou démarrez une nouvelle session.\n\nDétail : ",
            msg,
        );
    }
    if is_transport(msg) {
        return text::cat(
            "La connexion avec Gemini a échoué ou a expiré. Vérifiez le réseau puis réessayez.\n\nDétail : ",
            msg,
        );
    }
    text::cat("Gemini n’a pas pu terminer cette opération.\n\nDétail : ", msg)
}

/// What the user is told of an error in the middle of an answer.
pub fn actionable_stream_error(raw: &str) -> (r: String)
    ensures
        r@ == stream_advice(on_one_line(raw@)),
{
    let line = normalize(raw);
    let msg = line.as_str();
    if text::contains(msg, "BardErrorInfo") {
        return "Authentification Gemini expirée. Réexportez `vendor/cookie.json`, puis relancez l’agent.".to_owned();
    }
    if is_safety(msg) {
        return "Gemini a refusé ce contenu pour des raisons de politique. Reformulez le prompt et réessayez.".to_owned();
    }
    if text::contains(msg, "content changed") {
        return "Le flux Gemini a divergé pendant la génération. Aucun état partiel n’est considéré comme fiable : réessayez le tour.".to_owned();
    }
    if is_context_overflow(msg) {
        return "La fenêtre de contexte est saturée. Réessayez après compaction ou démarrez une nouvelle session.".to_owned();
    }
    if is_transport(msg) {
        return "La connexion avec Gemini a expiré ou a été interrompue. Vérifiez le réseau et réessayez.".to_owned();
    }
    text::cat("Le flux Gemini a échoué. Réessayez le tour.\n\nDétail : ", msg)
}

// ---------------------------------------------------------------------------
// Laws
// ---------------------------------------------------------------------------


/// A text of one line without white space at its ends stays as it is.
pub proof fn law_one_line_stays(line: Seq<char>)
    requires
        line.len() > 0,
        !text::is_white(line[0]),
        !text::is_white(line.last()),
        !line.contains('\n'),
        !line.contains('\r'),
    ensures
        on_one_line(line) == line,
{
    assert forall|i: int| 0 <= i < line.len() implies #[trigger] line_ends(line)[i] == line[i] by {
        assert(line.contains(line[i]));
    }
    assert(line_ends(line) =~= line);
    text::lemma_split_pieces(line, '\n');
    let nothing = Seq::<char>::empty();
    text::law_trimming_takes_white_space_only(nothing, line, nothing);
    assert(nothing + line + nothing =~= line);
    reveal_with_fuel(spoken, 2);
    assert(seq![line].drop_last() =~= Seq::<Seq<char>>::empty());
    assert(spoken(seq![line]) =~= seq![line]);
}

/// The lines of a text are put on one, in order, a space between two; blank ones
/// leave no trace.
pub proof fn law_lines_are_put_on_one(a: Seq<Seq<char>>, b: Seq<Seq<char>>, line: Seq<char>)
    ensures
        spoken(a + b) == spoken(a) + spoken(b),
        text::trimmed(line).len() > 0 ==> spoken(seq![line]) == seq![text::trimmed(line)],
        text::trimmed(line).len() == 0 ==> spoken(seq![line]).len() == 0,
    decreases b.len(),
{
    reveal_with_fuel(spoken, 2);
    assert(seq![line].drop_last() =~= Seq::<Seq<char>>::empty());
    if b.len() == 0 {
        assert(a + b =~= a);
        assert(spoken(a) + spoken(b) =~= spoken(a));
    } else {
        law_lines_are_put_on_one(a, b.drop_last(), line);
        assert((a + b).drop_last() =~= a + b.drop_last());
        assert((a + b).last() == b.last());
        assert(spoken(a + b) =~= spoken(a) + spoken(b));
    }
}

/// What the user is told of an error holds the error itself, unless it is a
/// refusal, of which it holds the reason.
pub proof fn law_advice_holds_the_error(msg: Seq<char>)
    ensures
        !about_safety(msg) || text::occurs(msg, "BardErrorInfo"@) ==> text::ends_with_spec(
            error_advice(msg),
            msg,
        ),
        about_safety(msg) ==> text::occurs(error_advice(msg), refusal_detail(msg)) || text::occurs(
            error_advice(msg),
            msg,
        ),
{
    let advice = error_advice(msg);
    let detail = refusal_detail(msg);
    if text::occurs(msg, "BardErrorInfo"@) || !about_safety(msg) {
        let k = advice.len() - msg.len();
        assert(advice.subrange(k, advice.len() as int) =~= msg);
        assert(text::matches_at(advice, msg, k));
    } else if detail.len() == 0 {
        assert(advice.subrange(0, 0) =~= detail);
        assert(text::matches_at(advice, detail, 0));
    } else {
        let k = "Gemini a refusé ce contenu pour des raisons de politique : "@.len() as int;
        assert(advice.subrange(k, k + detail.len()) =~= detail);
        assert(text::matches_at(advice, detail, k));
    }
}

/// Each kind of error has its advice: expired cookies first, then a refusal, an
/// unknown model, a history that is too long, a failed connection; any other
/// error is told as it is.
pub proof fn law_advice_by_kind(msg: Seq<char>)
    ensures
        text::occurs(msg, "BardErrorInfo"@) ==> error_advice(msg)
            == "Authentification Gemini expirée. Réexportez `vendor/cookie.json` depuis un navigateur connecté à gemini.google.com, puis relancez l’agent.\n\nDétail : "@
            + msg && stream_advice(msg)
            == "Authentification Gemini expirée. Réexportez `vendor/cookie.json`, puis relancez l’agent."@,
        !text::occurs(msg, "BardErrorInfo"@) && about_safety(msg) ==> stream_advice(msg)
            == "Gemini a refusé ce contenu pour des raisons de politique. Reformulez le prompt et réessayez."@
            && (refusal_detail(msg).len() > 0 ==> error_advice(msg)
            == "Gemini a refusé ce contenu pour des raisons de politique : "@ + refusal_detail(msg)
            + "\n\nAction : reformulez le prompt ou retirez les éléments sensibles."@),
        !text::occurs(msg, "BardErrorInfo"@) && !about_safety(msg) && text::occurs(
            msg,
            "Unknown model"@,
        ) ==> error_advice(msg)
            == "Le modèle Gemini demandé n’est pas disponible. Choisissez un modèle valide dans les config options.\n\nDétail : "@
            + msg,
        !text::occurs(msg, "BardErrorInfo"@) && !about_safety(msg) && text::occurs(
            msg,
            "content changed"@,
        ) ==> stream_advice(msg)
            == "Le flux Gemini a divergé pendant la génération. Aucun état partiel n’est considéré comme fiable : réessayez le tour."@,
        !text::occurs(msg, "BardErrorInfo"@) && !about_safety(msg) && !text::occurs(
            msg,
            "Unknown model"@,
        ) && !text::occurs(msg, "modèle inconnu"@) && about_context(msg) ==> error_advice(msg)
            == "Le contexte de cette session est trop volumineux. Réessayez après compaction, ou démarrez une nouvelle session.\n\nDétail : "@
            + msg,
        !text::occurs(msg, "BardErrorInfo"@) && !about_safety(msg) && !text::occurs(
            msg,
            "Unknown model"@,
        ) && !text::occurs(msg, "modèle inconnu"@) && !about_context(msg) && about_transport(msg)
            ==> error_advice(msg)
            == "La connexion avec Gemini a échoué ou a expiré. Vérifiez le réseau puis réessayez.\n\nDétail : "@
            + msg,
        !text::occurs(msg, "BardErrorInfo"@) && !about_safety(msg) && !text::occurs(
            msg,
            "content changed"@,
        ) && !about_context(msg) && !about_transport(msg) ==> stream_advice(msg)
            == "Le flux Gemini a échoué. Réessayez le tour.\n\nDétail : "@ + msg,
        !text::occurs(msg, "BardErrorInfo"@) && !about_safety(msg) && !text::occurs(
            msg,
            "content changed"@,
        ) && about_context(msg) ==> stream_advice(msg)
            == "La fenêtre de contexte est saturée. Réessayez après compaction ou démarrez une nouvelle session."@,
        !text::occurs(msg, "BardErrorInfo"@) && !about_safety(msg) && !text::occurs(
            msg,
            "content changed"@,
        ) && !about_context(msg) && about_transport(msg) ==> stream_advice(msg)
            == "La connexion avec Gemini a expiré ou a été interrompue. Vérifiez le réseau et réessayez."@,
{
}

/// The words that tell the kind of an error, in whatever case they come.
pub proof fn law_words_tell_the_kind(msg: Seq<char>)
    ensures
        about_safety(msg) <==> (text::occurs(text::ascii_lowered(msg), "safetyblocked"@)
            || text::occurs(text::ascii_lowered(msg), "refus"@) || text::occurs(
            text::ascii_lowered(msg),
            "politique de sécurité"@,
        ) || text::occurs(text::ascii_lowered(msg), "politique de contenu"@) || text::occurs(
            text::ascii_lowered(msg),
            "content policy"@,
        )),
        about_context(msg) <==> (text::occurs(text::ascii_lowered(msg), "context window"@)
            || text::occurs(text::ascii_lowered(msg), "context length"@) || text::occurs(
            text::ascii_lowered(msg),
            "maximum context"@,
        ) || text::occurs(text::ascii_lowered(msg), "too many tokens"@) || text::occurs(
            text::ascii_lowered(msg),
            "context overflow"@,
        )),
        about_transport(msg) <==> (text::occurs(text::ascii_lowered(msg), "timeout"@)
            || text::occurs(text::ascii_lowered(msg), "timed out"@) || text::occurs(
            text::ascii_lowered(msg),
            "connection reset"@,
        ) || text::occurs(text::ascii_lowered(msg), "connection refused"@) || text::occurs(
            text::ascii_lowered(msg),
            "network"@,
        ) || text::occurs(text::ascii_lowered(msg), "transport"@)),
{
}

/// The reason of a refusal is told without the name of the error in front of it.
pub proof fn law_refusal_is_told_by_its_reason(reason: Seq<char>)
    requires
        reason.len() > 0,
        !text::is_white(reason[0]),
        !text::is_white(reason.last()),
        reason[0] != ':',
    ensures
        refusal_detail("SafetyBlocked: "@ + reason) == reason,
        refusal_detail("SafetyBlocked "@ + reason) == reason,
{
    reveal_strlit("SafetyBlocked");
    reveal_strlit("SafetyBlocked:");
    reveal_strlit("SafetyBlocked: ");
    reveal_strlit("SafetyBlocked ");
    let nothing = Seq::<char>::empty();
    let space = seq![' '];
    text::law_trimming_takes_white_space_only(space, reason, nothing);
    assert(space + reason + nothing =~= space + reason);
    let a = "SafetyBlocked: "@ + reason;
    assert(a.subrange(0, 14) =~= "SafetyBlocked:"@);
    assert(a.skip(14) =~= space + reason);
    let b = "SafetyBlocked "@ + reason;
    assert(b.subrange(0, 13) =~= "SafetyBlocked"@);
    assert(b.subrange(0, 14)[13] == ' ');
    assert("SafetyBlocked:"@[13] == ':');
    assert(b.skip(13) =~= space + reason);
}

/// Two lines, however they end, are put on one with a space between them.
pub proof fn law_two_lines_become_one(a: Seq<char>, b: Seq<char>)
    requires
        a.len() > 0,
        b.len() > 0,
        !text::is_white(a[0]),
        !text::is_white(a.last()),
        !text::is_white(b[0]),
        !text::is_white(b.last()),
        !a.contains('\n') && !a.contains('\r'),
        !b.contains('\n') && !b.contains('\r'),
    ensures
        on_one_line(a + seq!['\n'] + b) == a + seq![' '] + b,
        on_one_line(a + seq!['\r', '\n'] + b) == a + seq![' '] + b,
{
    reveal_strlit(" ");
    let nothing = Seq::<char>::empty();
    text::law_trimming_takes_white_space_only(nothing, a, nothing);
    assert(nothing + a + nothing =~= a);
    text::law_trimming_takes_white_space_only(nothing, b, nothing);
    assert(nothing + b + nothing =~= b);
    text::law_white_space_is_blank(nothing);
    text::lemma_split_pieces(a, '\n');
    text::lemma_split_pieces(b, '\n');
    let head = a + seq!['\n'];
    assert(head.drop_last() =~= a);
    assert(text::split_at_char(head, '\n') =~= seq![a, nothing]);
    text::lemma_split_add(head, b, '\n');
    assert(nothing + b =~= b);
    assert(seq![a, nothing].drop_last() + seq![b] =~= seq![a, b]);
    let one = a + seq!['\n'] + b;
    assert forall|i: int| 0 <= i < one.len() implies #[trigger] line_ends(one)[i] == one[i] by {
        if i < a.len() {
            assert(a.contains(a[i]));
        } else if i > a.len() {
            assert(b.contains(b[i - a.len() - 1]));
        }
    }
    assert(line_ends(one) =~= one);
    let head2 = head + seq!['\n'];
    assert(head2.drop_last() =~= head);
    assert(text::split_at_char(head2, '\n') =~= seq![a, nothing, nothing]);
    text::lemma_split_add(head2, b, '\n');
    assert(seq![a, nothing, nothing].drop_last() + seq![b] =~= seq![a, nothing, b]);
    let two = a + seq!['\r', '\n'] + b;
    let ended = head2 + b;
    assert forall|i: int| 0 <= i < two.len() implies #[trigger] line_ends(two)[i] == ended[i] by {
        if i < a.len() {
            assert(a.contains(a[i]));
        } else if i > a.len() + 1 {
            assert(b.contains(b[i - a.len() - 2]));
        }
    }
    assert(line_ends(two) =~= ended);
    reveal_with_fuel(spoken, 4);
    assert(seq![a, b].drop_last() =~= seq![a]);
    assert(seq![a].drop_last() =~= Seq::<Seq<char>>::empty());
    assert(seq![a, nothing, b].drop_last() =~= seq![a, nothing]);
    assert(seq![a, nothing].drop_last() =~= seq![a]);
    assert(spoken(seq![a]) =~= seq![a]);
    assert(spoken(seq![a, nothing]) =~= seq![a]);
    assert(spoken(seq![a, b]) =~= seq![a, b]);
    assert(spoken(seq![a, nothing, b]) =~= seq![a, b]);
    text::law_joined_in_order(seq![a], seq![b], a, " "@);
    text::law_joined_in_order(seq![a], seq![b], b, " "@);
    assert(seq![a] + seq![b] =~= seq![a, b]);
    assert(" "@ =~= seq![' ']);
}

} // verus!
