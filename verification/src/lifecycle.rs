//! The life of a session: how it is created, replayed, changed and closed.
//!
//! The store keeps the sessions; what is decided here is which requests are
//! refused and with what words, and what the client is shown of a session that
//! is loaded again.

use crate::json::{Json, JsonView};
use crate::outside;
use crate::prompt::notify::{SessionUpdate, SessionUpdateView, ToolStatus};
use crate::prompt::turn;
use crate::prompt::turn::{ToolRequest, ToolRequestView};
use crate::session;
use crate::session::{MessageView, Role, SessionMode};
use crate::text;
use vstd::prelude::*;
use vstd::string::*;

verus! {

// ---------------------------------------------------------------------------
// Identifiers and modes
// ---------------------------------------------------------------------------

/// An identifier of a session: `sess_` and 32 lower-case hexadecimal digits.
pub open spec fn is_session_id(id: Seq<char>) -> bool {
    text::starts_with_spec(id, "sess_"@) && outside::is_plain_id(id.skip("sess_"@.len() as int))
}

fn all_hex(s: &str) -> (r: bool)
    ensures
        r == forall|i: int| 0 <= i < s@.len() ==> outside::is_hex(#[trigger] s@[i]),
{
    for c in it: s.chars()
        invariant
            it.seq() == s@,
            forall|i: int| 0 <= i < it.index() ==> outside::is_hex(#[trigger] s@[i]),
    {
        if !(('0' <= c && c <= '9') || ('a' <= c && c <= 'f')) {
            proof {
                assert(!outside::is_hex(s@[it.index()]));
            }
            return false;
        }
    }
    true
}

/// Whether a text is the identifier of a session.
pub fn is_valid_session_id(id: &str) -> (r: bool)
    ensures
        r == is_session_id(id@),
{
    match text::strip_prefix(id, "sess_") {
        Some(rest) => text::char_count(rest) == 32 && all_hex(rest),
        None => false,
    }
}

/// An identifier for a new session, left to chance.
pub fn new_session_id() -> (r: String)
    ensures
        is_session_id(r@),
        exists|id: Seq<char>| #[trigger] outside::is_plain_id(id) && r@ == "sess_"@ + id,
{
    let id = outside::plain_id();
    let r = text::cat("sess_", id.as_str());
    proof {
        reveal_strlit("sess_");
        assert(r@.skip("sess_"@.len() as int) =~= id@);
        assert(r@.subrange(0, "sess_"@.len() as int) =~= "sess_"@);
    }
    r
}

pub open spec fn mode_id(mode: SessionMode) -> Seq<char> {
    match mode {
        SessionMode::Default => "default"@,
        SessionMode::AcceptEdits => "accept_edits"@,
        SessionMode::BypassPermissions => "bypass_permissions"@,
    }
}

/// The identifier of a mode.
pub fn session_mode_id(mode: SessionMode) -> (r: &'static str)
    ensures
        r@ == mode_id(mode),
{
    match mode {
        SessionMode::Default => "default",
        SessionMode::AcceptEdits => "accept_edits",
        SessionMode::BypassPermissions => "bypass_permissions",
    }
}

/// The mode of an identifier.
pub fn mode_of_id(id: &str) -> (r: Option<SessionMode>)
    ensures
        match r {
            Some(mode) => mode_id(mode) == id@,
            None => forall|mode: SessionMode| #[trigger] mode_id(mode) != id@,
        },
{
    if text::same(id, "default") {
        Some(SessionMode::Default)
    } else if text::same(id, "accept_edits") {
        Some(SessionMode::AcceptEdits)
    } else if text::same(id, "bypass_permissions") {
        Some(SessionMode::BypassPermissions)
    } else {
        None
    }
}

/// Each mode has an identifier of its own.
pub proof fn law_mode_ids_differ(a: SessionMode, b: SessionMode)
    requires
        mode_id(a) == mode_id(b),
    ensures
        a == b,
{
    reveal_strlit("default");
    reveal_strlit("accept_edits");
    reveal_strlit("bypass_permissions");
    assert("default"@.len() == 7);
    assert("accept_edits"@.len() == 12);
    assert("bypass_permissions"@.len() == 18);
}

/// A mode that can be chosen.
#[derive(Debug)]
pub struct ModeEntry {
    pub mode: SessionMode,
    pub id: String,
}

/// The mode of a session, and those that can be chosen.
#[derive(Debug)]
pub struct ModeState {
    pub current_mode_id: String,
    pub available_modes: Vec<ModeEntry>,
}

/// The three modes, in order, each with its identifier.
pub open spec fn lists_modes(modes: Seq<ModeEntry>) -> bool {
    &&& modes.len() == 3
    &&& modes[0].mode == SessionMode::Default
    &&& modes[1].mode == SessionMode::AcceptEdits
    &&& modes[2].mode == SessionMode::BypassPermissions
    &&& forall|i: int| 0 <= i < 3 ==> (#[trigger] modes[i]).id@ == mode_id(modes[i].mode)
}

/// The modes that can be chosen.
pub fn build_available_modes() -> (r: Vec<ModeEntry>)
    ensures
        lists_modes(r@),
{
    let mut modes: Vec<ModeEntry> = Vec::new();
    modes.push(
        ModeEntry {
            mode: SessionMode::Default,
            id: session_mode_id(SessionMode::Default).to_owned(),
        },
    );
    modes.push(
        ModeEntry {
            mode: SessionMode::AcceptEdits,
            id: session_mode_id(SessionMode::AcceptEdits).to_owned(),
        },
    );
    modes.push(
        ModeEntry {
            mode: SessionMode::BypassPermissions,
            id: session_mode_id(SessionMode::BypassPermissions).to_owned(),
        },
    );
    modes
}

/// The mode of a session, and those that can be chosen.
pub fn build_mode_state(current: SessionMode) -> (r: ModeState)
    ensures
        r.current_mode_id@ == mode_id(current),
        lists_modes(r.available_modes@),
{
    ModeState {
        current_mode_id: session_mode_id(current).to_owned(),
        available_modes: build_available_modes(),
    }
}

// ---------------------------------------------------------------------------
// Replies
// ---------------------------------------------------------------------------

/// What a request is answered.
#[derive(Debug)]
pub enum Reply {
    /// It was carried out.
    Done,
    /// Its parameters are not valid; the data says why.
    InvalidParams(Json),
    /// It failed inside.
    Internal(String),
}

pub enum ReplyView {
    Done,
    InvalidParams(JsonView),
    Internal(Seq<char>),
}

impl View for Reply {
    type V = ReplyView;

    open spec fn view(&self) -> ReplyView {
        match *self {
            Reply::Done => ReplyView::Done,
            Reply::InvalidParams(j) => ReplyView::InvalidParams(j@),
            Reply::Internal(m) => ReplyView::Internal(m@),
        }
    }
}

/// The data that goes with a refusal.
pub open spec fn refusal_data(id: Seq<char>, why: Seq<char>) -> JsonView {
    JsonView::object().with("session_id"@, JsonView::Text(id)).with("error"@, JsonView::Text(why))
}

fn refuse(id: &str, why: &str) -> (r: Reply)
    ensures
        r@ == ReplyView::InvalidParams(refusal_data(id@, why@)),
{
    Reply::InvalidParams(
        Json::object().with("session_id", Json::from_text(id)).with("error", Json::from_text(why)),
    )
}

/// The refusal of an identifier that is none.
pub open spec fn bad_id(id: Seq<char>) -> ReplyView {
    ReplyView::InvalidParams(refusal_data(id, "identifiant de session invalide"@))
}

/// The refusal of an identifier that is none.
pub fn session_id_error(id: &str) -> (r: Reply)
    ensures
        r@ == bad_id(id@),
{
    refuse(id, "identifiant de session invalide")
}

/// What the store made of a request.
pub open spec fn result_view<T>(r: Result<T, String>) -> Result<T, Seq<char>> {
    match r {
        Ok(v) => Ok(v),
        Err(e) => Err(e@),
    }
}

/// The reply to a request that removes a session: whether there was one.
pub open spec fn removal(
    id: Seq<char>,
    outcome: Result<bool, Seq<char>>,
    what: Seq<char>,
) -> ReplyView {
    if !is_session_id(id) {
        bad_id(id)
    } else {
        match outcome {
            Ok(true) => ReplyView::Done,
            Ok(false) => ReplyView::InvalidParams(refusal_data(id, "session introuvable"@)),
            Err(e) => ReplyView::Internal(what + e),
        }
    }
}

/// The reply to a request that finds a session.
pub open spec fn finding(
    id: Seq<char>,
    outcome: Result<(), Seq<char>>,
    what: Seq<char>,
) -> ReplyView {
    if !is_session_id(id) {
        bad_id(id)
    } else {
        match outcome {
            Ok(_) => ReplyView::Done,
            Err(e) => ReplyView::InvalidParams(refusal_data(id, what + e)),
        }
    }
}

fn removed(id: &str, outcome: Result<bool, String>, what: &str) -> (r: Reply)
    ensures
        r@ == removal(id@, result_view(outcome), what@),
{
    if !is_valid_session_id(id) {
        return session_id_error(id);
    }
    match outcome {
        Ok(there) => if there {
            Reply::Done
        } else {
            refuse(id, "session introuvable")
        },
        Err(e) => Reply::Internal(text::cat(what, e.as_str())),
    }
}

fn found(id: &str, outcome: Result<(), String>, what: &str) -> (r: Reply)
    ensures
        r@ == finding(id@, result_view(outcome), what@),
{
    if !is_valid_session_id(id) {
        return session_id_error(id);
    }
    match outcome {
        Ok(_) => Reply::Done,
        Err(e) => {
            let why = text::cat(what, e.as_str());
            refuse(id, why.as_str())
        },
    }
}

/// The reply to a request that asks for no session in particular.
pub open spec fn carried_out(outcome: Result<(), Seq<char>>, what: Seq<char>) -> ReplyView {
    match outcome {
        Ok(_) => ReplyView::Done,
        Err(e) => ReplyView::Internal(what + e),
    }
}

/// The reply to `session/new`.
pub fn handle_new(outcome: Result<(), String>) -> (r: Reply)
    ensures
        r@ == carried_out(result_view(outcome), "création de session: "@),
{
    match outcome {
        Ok(_) => Reply::Done,
        Err(e) => Reply::Internal(text::cat("création de session: ", e.as_str())),
    }
}

/// The reply to `session/list`.
pub fn handle_list(outcome: Result<(), String>) -> (r: Reply)
    ensures
        r@ == carried_out(result_view(outcome), "liste des sessions: "@),
{
    match outcome {
        Ok(_) => Reply::Done,
        Err(e) => Reply::Internal(text::cat("liste des sessions: ", e.as_str())),
    }
}

/// The reply to `session/load`, once the history was shown. The store is asked
/// only for an identifier that is one.
pub fn handle_load(id: &str, outcome: Result<(), String>) -> (r: Reply)
    ensures
        r@ == finding(
            id@,
            result_view(outcome),
            "session introuvable ou workspace incompatible: "@,
        ),
{
    found(id, outcome, "session introuvable ou workspace incompatible: ")
}

/// The reply to `session/resume`.
pub fn handle_resume(id: &str, outcome: Result<(), String>) -> (r: Reply)
    ensures
        r@ == finding(
            id@,
            result_view(outcome),
            "session introuvable ou workspace incompatible: "@,
        ),
{
    found(id, outcome, "session introuvable ou workspace incompatible: ")
}

/// The reply to `session/fork`.
pub fn handle_fork(id: &str, outcome: Result<(), String>) -> (r: Reply)
    ensures
        r@ == finding(id@, result_view(outcome), "fork impossible: "@),
{
    found(id, outcome, "fork impossible: ")
}

/// The reply to `session/delete`: the store says whether there was a session.
pub fn handle_delete(id: &str, outcome: Result<bool, String>) -> (r: Reply)
    ensures
        r@ == removal(id@, result_view(outcome), "suppression de session: "@),
{
    removed(id, outcome, "suppression de session: ")
}

/// The reply to `session/close`: the store says whether there was a session.
pub fn handle_close(id: &str, outcome: Result<bool, String>) -> (r: Reply)
    ensures
        r@ == removal(id@, result_view(outcome), "fermeture de session: "@),
{
    removed(id, outcome, "fermeture de session: ")
}

/// The refusal of a mode that is none.
pub open spec fn bad_mode(mode: Seq<char>) -> ReplyView {
    ReplyView::InvalidParams(
        JsonView::object().with("mode_id"@, JsonView::Text(mode)).with(
            "error"@,
            JsonView::Text(
                "mode_id invalide. Modes valides: default, accept_edits, bypass_permissions"@,
            ),
        ),
    )
}

/// The reply to a request that sets the mode of a session.
pub open spec fn setting_mode(
    id: Seq<char>,
    wanted: Seq<char>,
    outcome: Result<(), Seq<char>>,
) -> ReplyView {
    if forall|mode: SessionMode| #[trigger] mode_id(mode) != wanted {
        bad_mode(wanted)
    } else {
        match outcome {
            Ok(_) => ReplyView::Done,
            Err(e) => ReplyView::InvalidParams(
                refusal_data(id, "impossible de changer le mode: "@ + e),
            ),
        }
    }
}

/// The reply to `session/set_mode`: the mode is checked before the store is
/// asked.
pub fn handle_set_mode(id: &str, wanted: &str, outcome: Result<(), String>) -> (r: Reply)
    ensures
        r@ == setting_mode(id@, wanted@, result_view(outcome)),
{
    match mode_of_id(wanted) {
        None => Reply::InvalidParams(
            Json::object().with("mode_id", Json::from_text(wanted)).with(
                "error",
                Json::from_text(
                    "mode_id invalide. Modes valides: default, accept_edits, bypass_permissions",
                ),
            ),
        ),
        Some(mode) => {
            proof {
                assert(mode_id(mode) == wanted@);
            }
            match outcome {
                Ok(_) => Reply::Done,
                Err(e) => {
                    let why = text::cat("impossible de changer le mode: ", e.as_str());
                    refuse(id, why.as_str())
                },
            }
        },
    }
}

/// Why a turn cannot begin.
#[derive(Debug, Clone, Copy, PartialEq, Eq, Structural)]
pub enum TurnError {
    NotFound,
    AlreadyRunning,
}

/// The data of the refusal to begin a turn.
pub open spec fn turn_refusal(id: Seq<char>, e: TurnError) -> JsonView {
    let data = JsonView::object().with("session_id"@, JsonView::Text(id));
    match e {
        TurnError::NotFound => data,
        TurnError::AlreadyRunning => data.with(
            "error"@,
            JsonView::Text("a turn is already running; send session/cancel first"@),
        ),
    }
}

/// The refusal to begin a turn.
pub fn refuse_turn(id: &str, e: TurnError) -> (r: Reply)
    ensures
        r@ == ReplyView::InvalidParams(turn_refusal(id@, e)),
{
    let data = Json::object().with("session_id", Json::from_text(id));
    match e {
        TurnError::NotFound => Reply::InvalidParams(data),
        TurnError::AlreadyRunning => Reply::InvalidParams(
            data.with(
                "error",
                Json::from_text("a turn is already running; send session/cancel first"),
            ),
        ),
    }
}

/// The title of a session that is loaded again, as the client is told it.
pub fn send_restored_title(title: Option<&str>) -> (r: Option<SessionUpdate>)
    ensures
        match title {
            Some(t) => r matches Some(u) && u@ == (SessionUpdateView::SessionInfo { title: t@ }),
            None => r is None,
        },
{
    match title {
        Some(t) => Some(SessionUpdate::SessionInfo { title: t.to_owned() }),
        None => None,
    }
}

// ---------------------------------------------------------------------------
// Replay
// ---------------------------------------------------------------------------

/// An answer, parsed: its text, and the calls that it makes.
#[derive(Debug)]
pub struct ParsedAnswer {
    pub text: String,
    pub calls: Vec<ToolRequest>,
}

pub struct ParsedView {
    pub text: Seq<char>,
    pub calls: Seq<ToolRequestView>,
}

impl View for ParsedAnswer {
    type V = ParsedView;

    open spec fn view(&self) -> ParsedView {
        ParsedView { text: self.text@, calls: turn::calls_view(self.calls@) }
    }
}

pub open spec fn parsed_view(parsed: Seq<ParsedAnswer>) -> Seq<ParsedView> {
    Seq::new(parsed.len(), |i: int| parsed[i]@)
}

/// Something that the client is shown of a session that is loaded again.
#[derive(Debug)]
pub enum ReplayItem {
    User { message_id: String, text: String },
    Agent { message_id: String, text: String },
    /// A call, with its result if it has one.
    Tool {
        call_id: String,
        name: String,
        arguments: Json,
        status: ToolStatus,
        result: Option<String>,
    },
}

pub enum ReplayItemView {
    User { message_id: Seq<char>, text: Seq<char> },
    Agent { message_id: Seq<char>, text: Seq<char> },
    Tool {
        call_id: Seq<char>,
        name: Seq<char>,
        arguments: JsonView,
        status: ToolStatus,
        result: Option<Seq<char>>,
    },
}

impl View for ReplayItem {
    type V = ReplayItemView;

    open spec fn view(&self) -> ReplayItemView {
        match *self {
            ReplayItem::User { message_id, text } => ReplayItemView::User {
                message_id: message_id@,
                text: text@,
            },
            ReplayItem::Agent { message_id, text } => ReplayItemView::Agent {
                message_id: message_id@,
                text: text@,
            },
            ReplayItem::Tool { call_id, name, arguments, status, result } => ReplayItemView::Tool {
                call_id: call_id@,
                name: name@,
                arguments: arguments@,
                status,
                result: text::option_view(result),
            },
        }
    }
}

pub open spec fn items_view(items: Seq<ReplayItem>) -> Seq<ReplayItemView> {
    Seq::new(items.len(), |i: int| items[i]@)
}

/// The card of the call with that number.
pub open spec fn tool_item(
    number: nat,
    call: ToolRequestView,
    result: Option<Seq<char>>,
) -> ReplayItemView {
    ReplayItemView::Tool {
        call_id: "replay_call_"@ + text::decimal(number),
        name: call.name,
        arguments: call.arguments,
        status: if result is Some {
            ToolStatus::Completed
        } else {
            ToolStatus::InProgress
        },
        result,
    }
}

/// How many results of tools follow at `from`, at most `limit`.
pub open spec fn results_at(messages: Seq<MessageView>, from: int, limit: nat) -> nat
    decreases limit,
{
    if limit == 0 || from < 0 || from >= messages.len() || messages[from].role != Role::Tool {
        0
    } else {
        1 + results_at(messages, from + 1, (limit - 1) as nat)
    }
}

/// The cards of the first `n` calls of an answer at `index`: each result that
/// follows belongs to the call at its place.
pub open spec fn call_items(
    messages: Seq<MessageView>,
    index: int,
    calls: Seq<ToolRequestView>,
    results: nat,
    number: nat,
    n: int,
) -> Seq<ReplayItemView>
    decreases n,
{
    if n <= 0 {
        Seq::empty()
    } else {
        call_items(messages, index, calls, results, number, n - 1).push(
            tool_item(
                number + (n - 1) as nat,
                calls[n - 1],
                if n - 1 < results {
                    Some(messages[index + n].text)
                } else {
                    None
                },
            ),
        )
    }
}

pub open spec fn message_name(index: int) -> Seq<char> {
    "msg_"@ + text::decimal(index as nat)
}

/// The text of an answer, unless it is blank.
pub open spec fn answer_items(index: int, said: Seq<char>) -> Seq<ReplayItemView> {
    if text::trimmed(said).len() == 0 {
        Seq::empty()
    } else {
        seq![ReplayItemView::Agent { message_id: message_name(index), text: said }]
    }
}

/// What the client is shown of the messages from `index` on, where the next
/// call has the given number.
pub open spec fn replay_from(
    messages: Seq<MessageView>,
    parsed: Seq<ParsedView>,
    index: int,
    number: nat,
) -> Seq<ReplayItemView>
    decreases messages.len() - index,
{
    if index < 0 || index >= messages.len() {
        Seq::empty()
    } else {
        match messages[index].role {
            Role::User => seq![
                ReplayItemView::User {
                    message_id: message_name(index),
                    text: messages[index].text,
                },
            ] + replay_from(messages, parsed, index + 1, number),
            Role::Assistant => {
                let calls = parsed[index].calls;
                let results = results_at(messages, index + 1, calls.len());
                proof {
                    lemma_results_are_tools(messages, index + 1, calls.len());
                }
                answer_items(index, parsed[index].text) + call_items(
                    messages,
                    index,
                    calls,
                    results,
                    number,
                    calls.len() as int,
                ) + replay_from(messages, parsed, index + 1 + results, number + calls.len())
            },
            Role::Tool => replay_from(messages, parsed, index + 1, number),
        }
    }
}

/// The messages of the user, in order.
pub open spec fn user_texts(messages: Seq<MessageView>, index: int) -> Seq<Seq<char>>
    decreases messages.len() - index,
{
    if index < 0 || index >= messages.len() {
        Seq::empty()
    } else if messages[index].role == Role::User {
        seq![messages[index].text] + user_texts(messages, index + 1)
    } else {
        user_texts(messages, index + 1)
    }
}

/// The messages of the user that the client is shown, in order.
pub open spec fn shown_user_texts(items: Seq<ReplayItemView>) -> Seq<Seq<char>>
    decreases items.len(),
{
    if items.len() == 0 {
        Seq::empty()
    } else {
        let before = shown_user_texts(items.drop_last());
        match items.last() {
            ReplayItemView::User { message_id, text } => before.push(text),
            _ => before,
        }
    }
}

proof fn lemma_shown_add(a: Seq<ReplayItemView>, b: Seq<ReplayItemView>)
    ensures
        shown_user_texts(a + b) == shown_user_texts(a) + shown_user_texts(b),
    decreases b.len(),
{
    if b.len() == 0 {
        assert(a + b =~= a);
        assert(shown_user_texts(a) + shown_user_texts(b) =~= shown_user_texts(a));
    } else {
        lemma_shown_add(a, b.drop_last());
        assert((a + b).drop_last() =~= a + b.drop_last());
        assert(shown_user_texts(a + b) =~= shown_user_texts(a) + shown_user_texts(b));
    }
}

proof fn lemma_no_users(items: Seq<ReplayItemView>)
    requires
        forall|i: int| 0 <= i < items.len() ==> !(#[trigger] items[i] is User),
    ensures
        shown_user_texts(items).len() == 0,
    decreases items.len(),
{
    if items.len() > 0 {
        let front = items.drop_last();
        assert forall|i: int| 0 <= i < front.len() implies !(#[trigger] front[i] is User) by {
            assert(front[i] == items[i]);
        }
        lemma_no_users(front);
        assert(!(items[items.len() - 1] is User));
    }
}

pub proof fn lemma_results_are_tools(messages: Seq<MessageView>, from: int, limit: nat)
    requires
        0 <= from,
    ensures
        results_at(messages, from, limit) <= limit,
        from <= messages.len() ==> from + results_at(messages, from, limit) <= messages.len(),
        forall|k: int|
            0 <= k < results_at(messages, from, limit) ==> (#[trigger] messages[from + k]).role
                == Role::Tool,
    decreases limit,
{
    if limit > 0 && from < messages.len() && messages[from].role == Role::Tool {
        lemma_results_are_tools(messages, from + 1, (limit - 1) as nat);
        let n = results_at(messages, from, limit);
        assert forall|k: int| 0 <= k < n implies (#[trigger] messages[from + k]).role
            == Role::Tool by {
            if k > 0 {
                assert(messages[(from + 1) + (k - 1)].role == Role::Tool);
            }
        }
    }
}

proof fn lemma_no_users_between(messages: Seq<MessageView>, a: int, b: int)
    requires
        0 <= a <= b <= messages.len(),
        forall|k: int| a <= k < b ==> (#[trigger] messages[k]).role != Role::User,
    ensures
        user_texts(messages, a) == user_texts(messages, b),
    decreases b - a,
{
    if a < b {
        assert(messages[a].role != Role::User);
        lemma_no_users_between(messages, a + 1, b);
    }
}

proof fn lemma_call_items_no_users(
    messages: Seq<MessageView>,
    index: int,
    calls: Seq<ToolRequestView>,
    results: nat,
    number: nat,
    n: int,
)
    ensures
        forall|i: int|
            0 <= i < call_items(messages, index, calls, results, number, n).len() ==> !(
            #[trigger] call_items(messages, index, calls, results, number, n)[i] is User),
    decreases n,
{
    if n > 0 {
        lemma_call_items_no_users(messages, index, calls, results, number, n - 1);
    }
}

/// A session that is loaded again shows every message of the user, once and in
/// order.
pub proof fn law_replay_shows_every_user_message(
    messages: Seq<MessageView>,
    parsed: Seq<ParsedView>,
    index: int,
    number: nat,
)
    requires
        0 <= index,
    ensures
        shown_user_texts(replay_from(messages, parsed, index, number)) == user_texts(
            messages,
            index,
        ),
    decreases messages.len() - index,
{
    if index < messages.len() {
        match messages[index].role {
            Role::User => {
                let first = seq![
                    ReplayItemView::User {
                        message_id: message_name(index),
                        text: messages[index].text,
                    },
                ];
                let rest = replay_from(messages, parsed, index + 1, number);
                law_replay_shows_every_user_message(messages, parsed, index + 1, number);
                lemma_shown_add(first, rest);
                assert(first.drop_last() =~= Seq::<ReplayItemView>::empty());
                assert(shown_user_texts(first.drop_last()) =~= Seq::<Seq<char>>::empty());
                assert(shown_user_texts(first) =~= seq![messages[index].text]);
            },
            Role::Assistant => {
                let calls = parsed[index].calls;
                let results = results_at(messages, index + 1, calls.len());
                let said = answer_items(index, parsed[index].text);
                let cards = call_items(
                    messages,
                    index,
                    calls,
                    results,
                    number,
                    calls.len() as int,
                );
                let next = index + 1 + results;
                let rest = replay_from(messages, parsed, next, number + calls.len());
                lemma_results_are_tools(messages, index + 1, calls.len());
                law_replay_shows_every_user_message(messages, parsed, next, number + calls.len());
                lemma_no_users(said);
                lemma_call_items_no_users(
                    messages,
                    index,
                    calls,
                    results,
                    number,
                    calls.len() as int,
                );
                lemma_no_users(cards);
                lemma_shown_add(said + cards, rest);
                lemma_shown_add(said, cards);
                assert forall|k: int| index <= k < next implies (#[trigger] messages[k]).role
                    != Role::User by {
                    if k > index {
                        assert(messages[(index + 1) + (k - index - 1)].role == Role::Tool);
                    }
                }
                lemma_no_users_between(messages, index, next);
                assert(shown_user_texts(said + cards + rest) =~= shown_user_texts(rest));
            },
            Role::Tool => {
                law_replay_shows_every_user_message(messages, parsed, index + 1, number);
            },
        }
    }
}

fn add_item(out: &mut Vec<ReplayItem>, item: ReplayItem)
    ensures
        items_view(final(out)@) == items_view(old(out)@).push(item@),
{
    proof {
        assert(items_view(out@.push(item)) =~= items_view(out@).push(item@));
    }
    out.push(item);
}

fn count_results(messages: &Vec<(Role, String)>, from: usize, limit: usize) -> (r: usize)
    requires
        from <= messages@.len(),
    ensures
        r == results_at(session::messages_view(messages@), from as int, limit as nat),
        from + r <= messages@.len(),
{
    let ghost all = session::messages_view(messages@);
    let total: usize = messages.len();
    let mut n: usize = 0;
    while n < limit && n < total - from && messages[from + n].0 == Role::Tool
        invariant
            all == session::messages_view(messages@),
            total == messages@.len(),
            n <= limit,
            from + n <= total,
            results_at(all, from as int, limit as nat) == n + results_at(
                all,
                from + n,
                (limit - n) as nat,
            ),
        decreases limit - n,
    {
        proof {
            assert(all[from + n] == session::message_view(messages@[from + n]));
        }
        n += 1;
    }
    proof {
        if n < limit && from + n < messages@.len() {
            assert(all[from + n] == session::message_view(messages@[from + n]));
        }
    }
    n
}

/// The card of the call with that number, with its result if it has one.
pub fn replay_tool_result(number: u64, call: &ToolRequest, result: Option<&str>) -> (r: ReplayItem)
    ensures
        r@ == tool_item(number as nat, call@, text::option_str_view(result)),
{
    let n = text::decimal_text(number);
    let status: ToolStatus = if result.is_some() {
        ToolStatus::Completed
    } else {
        ToolStatus::InProgress
    };
    let owned: Option<String> = match result {
        Some(t) => Some(t.to_owned()),
        None => None,
    };
    ReplayItem::Tool {
        call_id: text::cat("replay_call_", n.as_str()),
        name: call.name.clone(),
        arguments: call.arguments.clone(),
        status,
        result: owned,
    }
}

fn message_id(index: usize) -> (r: String)
    ensures
        r@ == message_name(index as int),
{
    let n = text::decimal_text(index as u64);
    text::cat("msg_", n.as_str())
}

/// The calls of the first `n` messages.
pub open spec fn calls_before(
    messages: Seq<MessageView>,
    parsed: Seq<ParsedView>,
    n: int,
) -> nat
    decreases n,
{
    if n <= 0 {
        0
    } else {
        calls_before(messages, parsed, n - 1) + if messages[n - 1].role == Role::Assistant {
            parsed[n - 1].calls.len()
        } else {
            0
        }
    }
}

proof fn lemma_calls_before_grows(
    messages: Seq<MessageView>,
    parsed: Seq<ParsedView>,
    a: int,
    b: int,
)
    requires
        0 <= a <= b,
    ensures
        calls_before(messages, parsed, a) <= calls_before(messages, parsed, b),
    decreases b - a,
{
    if a < b {
        lemma_calls_before_grows(messages, parsed, a, b - 1);
    }
}

/// What the client is shown of a session that is loaded again: its messages in
/// order, and the calls of its answers with the results that follow them.
/// `parsed` holds for each message what it is as an answer.
pub fn replay(messages: &Vec<(Role, String)>, parsed: &Vec<ParsedAnswer>) -> (r: Vec<ReplayItem>)
    requires
        parsed@.len() == messages@.len(),
        calls_before(
            session::messages_view(messages@),
            parsed_view(parsed@),
            messages@.len() as int,
        ) <= u64::MAX,
    ensures
        items_view(r@) == replay_from(
            session::messages_view(messages@),
            parsed_view(parsed@),
            0,
            0,
        ),
{
    let ghost all = session::messages_view(messages@);
    let ghost answers = parsed_view(parsed@);
    let ghost wanted = replay_from(all, answers, 0, 0);
    let mut out: Vec<ReplayItem> = Vec::new();
    let mut index: usize = 0;
    let mut number: u64 = 0;
    proof {
        assert(items_view(out@) =~= Seq::empty());
        assert(Seq::<ReplayItemView>::empty() + wanted =~= wanted);
    }
    while index < messages.len()
        invariant
            all == session::messages_view(messages@),
            answers == parsed_view(parsed@),
            parsed@.len() == messages@.len(),
            index <= messages@.len(),
            wanted == replay_from(all, answers, 0, 0),
            wanted == items_view(out@) + replay_from(all, answers, index as int, number as nat),
            number <= calls_before(all, answers, index as int),
            calls_before(all, answers, messages@.len() as int) <= u64::MAX,
        decreases messages@.len() - index,
    {
        let ghost before = items_view(out@);
        proof {
            assert(all[index as int] == session::message_view(messages@[index as int]));
            assert(answers[index as int] == parsed@[index as int]@);
            lemma_calls_before_grows(all, answers, index + 1, messages@.len() as int);
        }
        match messages[index].0 {
            Role::User => {
                add_item(
                    &mut out,
                    ReplayItem::User {
                        message_id: message_id(index),
                        text: messages[index].1.clone(),
                    },
                );
                proof {
                    let first = items_view(out@).last();
                    let rest = replay_from(all, answers, index + 1, number as nat);
                    assert(before + (seq![first] + rest) =~= items_view(out@) + rest);
                }
                index += 1;
            },
            Role::Assistant => {
                let answer = &parsed[index];
                let total: usize = answer.calls.len();
                let ghost calls = answer@.calls;
                proof {
                    assert(calls.len() == total);
                }
                let results: usize = count_results(messages, index + 1, total);
                let ghost said = answer_items(index as int, answer@.text);
                if !text::is_blank(answer.text.as_str()) {
                    add_item(
                        &mut out,
                        ReplayItem::Agent {
                            message_id: message_id(index),
                            text: answer.text.clone(),
                        },
                    );
                }
                let ghost shown = items_view(out@);
                proof {
                    assert(shown =~= before + said);
                    assert(shown + Seq::<ReplayItemView>::empty() =~= shown);
                }
                let after: usize = index + 1;
                let end: usize = messages.len();
                let mut k: usize = 0;
                while k < total
                    invariant
                        all == session::messages_view(messages@),
                        after == index + 1,
                        end == messages@.len(),
                        after + results <= end,
                        k <= total,
                        total == answer.calls@.len(),
                        calls == turn::calls_view(answer.calls@),
                        number + total <= u64::MAX,
                        items_view(out@) =~= shown + call_items(
                            all,
                            index as int,
                            calls,
                            results as nat,
                            number as nat,
                            k as int,
                        ),
                    decreases total - k,
                {
                    let result: Option<&str> = if k < results {
                        proof {
                            assert(all[index + 1 + k] == session::message_view(
                                messages@[index + 1 + k],
                            ));
                        }
                        Some(messages[after + k].1.as_str())
                    } else {
                        None
                    };
                    proof {
                        assert(calls[k as int] == answer.calls@[k as int]@);
                    }
                    add_item(
                        &mut out,
                        replay_tool_result(number + k as u64, &answer.calls[k], result),
                    );
                    k += 1;
                }
                proof {
                    let cards = call_items(
                        all,
                        index as int,
                        calls,
                        results as nat,
                        number as nat,
                        total as int,
                    );
                    let rest = replay_from(
                        all,
                        answers,
                        index + 1 + results,
                        (number + total) as nat,
                    );
                    assert(before + (said + cards + rest) =~= items_view(out@) + rest);
                    lemma_calls_before_grows(all, answers, index + 1, index + 1 + results);
                }
                number = number + total as u64;
                index = index + 1 + results;
            },
            Role::Tool => {
                index += 1;
            },
        }
    }
    proof {
        assert(items_view(out@) + replay_from(all, answers, index as int, number as nat)
            =~= items_view(out@));
    }
    out
}

// ---------------------------------------------------------------------------
// What a request is answered
// ---------------------------------------------------------------------------


/// An identifier of a session is `sess_` and 32 hexadecimal digits, and nothing
/// else.
pub proof fn law_identifier_of_a_session(digits: Seq<char>, other: Seq<char>)
    ensures
        digits.len() == 32 && (forall|i: int|
            0 <= i < 32 ==> '0' <= #[trigger] digits[i] <= '9' || 'a' <= digits[i] <= 'f')
            ==> is_session_id("sess_"@ + digits),
        other.len() != 37 ==> !is_session_id(other),
        other.len() == 37 && (exists|i: int|
            5 <= i < 37 && !('0' <= #[trigger] other[i] <= '9' || 'a' <= other[i] <= 'f'))
            ==> !is_session_id(other),
        other.len() > 0 && other[0] != 's' ==> !is_session_id(other),
{
    reveal_strlit("sess_");
    let id = "sess_"@ + digits;
    assert(id.subrange(0, 5) =~= "sess_"@);
    assert(id.skip(5) =~= digits);
    if other.len() >= 5 {
        assert(other.subrange(0, 5)[0] == other[0]);
        assert("sess_"@[0] == 's');
    }
    if other.len() == 37 && is_session_id(other) {
        assert forall|i: int| 5 <= i < 37 implies '0' <= #[trigger] other[i] <= '9' || 'a'
            <= other[i] <= 'f' by {
            assert(outside::is_hex(other.skip(5)[i - 5]));
        }
    }
}

/// The modes have the names by which clients set them.
pub proof fn law_names_of_the_modes()
    ensures
        mode_id(SessionMode::Default) == "default"@,
        mode_id(SessionMode::AcceptEdits) == "accept_edits"@,
        mode_id(SessionMode::BypassPermissions) == "bypass_permissions"@,
{
}

/// A refusal names the session and says why.
pub proof fn law_refusal_names_the_session(id: Seq<char>, why: Seq<char>)
    ensures
        refusal_data(id, why).get("session_id"@) == Some(JsonView::Text(id)),
        refusal_data(id, why).get("error"@) == Some(JsonView::Text(why)),
        bad_id(id) == ReplyView::InvalidParams(
            refusal_data(id, "identifiant de session invalide"@),
        ),
{
    reveal_strlit("session_id");
    reveal_strlit("error");
    assert("session_id"@.len() == 10);
    assert("error"@.len() == 5);
    crate::json::lemma_object_of_2(
        "session_id"@,
        JsonView::Text(id),
        "error"@,
        JsonView::Text(why),
    );
}

/// A request that the store carried out is done, if and only if its identifier
/// is one; a session that was not there is refused, and a failure is told with
/// what the store said.
pub proof fn law_what_the_store_made_of_it(id: Seq<char>, e: Seq<char>, what: Seq<char>)
    ensures
        is_session_id(id) ==> {
            &&& removal(id, Ok(true), what) == ReplyView::Done
            &&& removal(id, Ok(false), what) == ReplyView::InvalidParams(
                refusal_data(id, "session introuvable"@),
            )
            &&& removal(id, Err(e), what) == ReplyView::Internal(what + e)
            &&& finding(id, Ok(()), what) == ReplyView::Done
            &&& finding(id, Err(e), what) == ReplyView::InvalidParams(refusal_data(id, what + e))
        },
        !is_session_id(id) ==> {
            &&& removal(id, Ok(true), what) == bad_id(id)
            &&& finding(id, Ok(()), what) == bad_id(id)
        },
        carried_out(Ok(()), what) == ReplyView::Done,
        carried_out(Err(e), what) == ReplyView::Internal(what + e),
{
}

/// Each of the three modes can be set; another name is refused before anything
/// is done, and the refusal names it.
pub proof fn law_only_modes_can_be_set(id: Seq<char>, mode: SessionMode, other: Seq<char>, e: Seq<char>)
    ensures
        setting_mode(id, mode_id(mode), Ok(())) == ReplyView::Done,
        setting_mode(id, mode_id(mode), Err(e)) == ReplyView::InvalidParams(
            refusal_data(id, "impossible de changer le mode: "@ + e),
        ),
        other != "default"@ && other != "accept_edits"@ && other != "bypass_permissions"@
            ==> setting_mode(id, other, Ok(())) == bad_mode(other),
        bad_mode(other) matches ReplyView::InvalidParams(data) && data.get("mode_id"@) == Some(
            JsonView::Text(other),
        ),
{
    reveal_strlit("mode_id");
    reveal_strlit("error");
    assert("mode_id"@.len() == 7);
    assert("error"@.len() == 5);
    crate::json::lemma_object_of_2(
        "mode_id"@,
        JsonView::Text(other),
        "error"@,
        JsonView::Text(
            "mode_id invalide. Modes valides: default, accept_edits, bypass_permissions"@,
        ),
    );
}

/// A turn is refused for a session that is not there, and for one whose turn is
/// still running, which is said.
pub proof fn law_turn_is_refused(id: Seq<char>)
    ensures
        turn_refusal(id, TurnError::NotFound).get("session_id"@) == Some(JsonView::Text(id)),
        turn_refusal(id, TurnError::NotFound).get("error"@) is None,
        turn_refusal(id, TurnError::AlreadyRunning).get("session_id"@) == Some(JsonView::Text(id)),
        turn_refusal(id, TurnError::AlreadyRunning).get("error"@) == Some(
            JsonView::Text("a turn is already running; send session/cancel first"@),
        ),
{
    reveal_strlit("session_id");
    reveal_strlit("error");
    assert("session_id"@.len() == 10);
    assert("error"@.len() == 5);
    crate::json::lemma_with(
        JsonView::object(),
        "session_id"@,
        JsonView::Text(id),
        "error"@,
    );
    crate::json::lemma_object_of_2(
        "session_id"@,
        JsonView::Text(id),
        "error"@,
        JsonView::Text("a turn is already running; send session/cancel first"@),
    );
}

/// A history is shown again in its order: what the user said whole; what the
/// assistant said, unless it is blank, and a card for each of its calls.
pub proof fn law_replay_in_order(
    messages: Seq<MessageView>,
    parsed: Seq<ParsedView>,
    index: int,
    number: nat,
)
    requires
        0 <= index < messages.len(),
    ensures
        messages[index].role == Role::User ==> {
            let shown = replay_from(messages, parsed, index, number);
            &&& shown.len() > 0
            &&& shown[0] == (ReplayItemView::User {
                message_id: "msg_"@ + text::decimal(index as nat),
                text: messages[index].text,
            })
            &&& shown.skip(1) == replay_from(messages, parsed, index + 1, number)
        },
        messages[index].role == Role::Tool ==> replay_from(messages, parsed, index, number)
            == replay_from(messages, parsed, index + 1, number),
        messages[index].role == Role::Assistant && parsed[index].calls.len() == 0 ==> {
            let shown = replay_from(messages, parsed, index, number);
            let rest = replay_from(messages, parsed, index + 1, number);
            &&& text::trimmed(parsed[index].text).len() > 0 ==> shown == seq![
                ReplayItemView::Agent {
                    message_id: "msg_"@ + text::decimal(index as nat),
                    text: parsed[index].text,
                },
            ] + rest
            &&& text::trimmed(parsed[index].text).len() == 0 ==> shown == rest
        },
        replay_from(messages, parsed, messages.len() as int, number).len() == 0,
{
    let rest = replay_from(messages, parsed, index + 1, number);
    match messages[index].role {
        Role::User => {
            let shown = replay_from(messages, parsed, index, number);
            assert(shown.skip(1) =~= rest);
        },
        Role::Assistant => {
            if parsed[index].calls.len() == 0 {
                assert(results_at(messages, index + 1, 0) == 0);
                let said = answer_items(index, parsed[index].text);
                assert(said + Seq::<ReplayItemView>::empty() + rest =~= said + rest);
                assert(Seq::<ReplayItemView>::empty() + rest =~= rest);
            }
        },
        Role::Tool => {},
    }
}

/// Each call of an answer is shown on a card of its own, with its name and its
/// arguments, and with its result where one followed; results and calls belong
/// together by their place.
pub proof fn law_each_call_has_its_card(
    messages: Seq<MessageView>,
    index: int,
    calls: Seq<ToolRequestView>,
    results: nat,
    number: nat,
    i: int,
)
    requires
        0 <= i < calls.len(),
    ensures
        ({
            let cards = call_items(messages, index, calls, results, number, calls.len() as int);
            &&& cards.len() == calls.len()
            &&& i < results ==> cards[i] == (ReplayItemView::Tool {
                call_id: "replay_call_"@ + text::decimal((number + i) as nat),
                name: calls[i].name,
                arguments: calls[i].arguments,
                status: ToolStatus::Completed,
                result: Some(messages[index + 1 + i].text),
            })
            &&& i >= results ==> cards[i] == (ReplayItemView::Tool {
                call_id: "replay_call_"@ + text::decimal((number + i) as nat),
                name: calls[i].name,
                arguments: calls[i].arguments,
                status: ToolStatus::InProgress,
                result: None,
            })
        }),
{
    lemma_cards(messages, index, calls, results, number, calls.len() as int);
}

proof fn lemma_cards(
    messages: Seq<MessageView>,
    index: int,
    calls: Seq<ToolRequestView>,
    results: nat,
    number: nat,
    n: int,
)
    requires
        0 <= n <= calls.len(),
    ensures
        call_items(messages, index, calls, results, number, n).len() == n,
        forall|i: int|
            0 <= i < n ==> #[trigger] call_items(messages, index, calls, results, number, n)[i]
                == tool_item(
                (number + i) as nat,
                calls[i],
                if i < results {
                    Some(messages[index + 1 + i].text)
                } else {
                    None
                },
            ),
    decreases n,
{
    if n > 0 {
        lemma_cards(messages, index, calls, results, number, n - 1);
        let before = call_items(messages, index, calls, results, number, n - 1);
        let all = call_items(messages, index, calls, results, number, n);
        assert forall|i: int| 0 <= i < n implies #[trigger] all[i] == tool_item(
            (number + i) as nat,
            calls[i],
            if i < results {
                Some(messages[index + 1 + i].text)
            } else {
                None
            },
        ) by {
            if i < n - 1 {
                assert(all[i] == before[i]);
            }
        }
    }
}

/// The results that belong to an answer are those of the tools right behind it,
/// at most as many as it made calls.
pub proof fn law_results_follow_the_answer(messages: Seq<MessageView>, from: int, limit: nat)
    requires
        0 <= from <= messages.len(),
    ensures
        results_at(messages, from, limit) <= limit,
        from + results_at(messages, from, limit) <= messages.len(),
        forall|i: int|
            from <= i < from + results_at(messages, from, limit) ==> (#[trigger] messages[i]).role
                == Role::Tool,
        results_at(messages, from, limit) < limit && from + results_at(messages, from, limit)
            < messages.len() ==> messages[from + results_at(messages, from, limit)].role
            != Role::Tool,
    decreases limit,
{
    if limit > 0 && from < messages.len() && messages[from].role == Role::Tool {
        law_results_follow_the_answer(messages, from + 1, (limit - 1) as nat);
        let n = results_at(messages, from, limit);
        assert forall|i: int| from <= i < from + n implies (#[trigger] messages[i]).role
            == Role::Tool by {
            if i > from {
                assert(messages[i].role == Role::Tool);
            }
        }
    }
}

/// All three modes are offered, each once and under its own name.
pub proof fn law_all_modes_are_offered(modes: Seq<ModeEntry>, mode: SessionMode)
    requires
        lists_modes(modes),
    ensures
        modes.len() == 3,
        exists|i: int| 0 <= i < 3 && (#[trigger] modes[i]).mode == mode && modes[i].id@ == mode_id(
            mode,
        ),
{
    match mode {
        SessionMode::Default => {
            assert(modes[0].mode == mode);
        },
        SessionMode::AcceptEdits => {
            assert(modes[1].mode == mode);
        },
        SessionMode::BypassPermissions => {
            assert(modes[2].mode == mode);
        },
    }
}

} // verus!
