//! A turn: from the prompt of the user to the end of the answer.
//!
//! A turn is a state machine. [`Turn::begin`] and [`Turn::step`] say what to do
//! next ([`TurnAction`]); the caller does it and hands back what came of it
//! ([`TurnEvent`]). The images are uploaded, then the model answers in rounds:
//! each round sends the prompt, streams the answer, and runs the tools that
//! the answer calls, until an answer calls none.

use crate::gemini::models;
use crate::json;
use crate::json::{Json, JsonView};
use crate::outside;
use crate::prompt::assemble;
use crate::prompt::compaction;
use crate::prompt::content;
use crate::prompt::content::ContentBlock;
use crate::prompt::error;
use crate::prompt::follow_up;
use crate::prompt::follow_up::StreamNormalizer;
use crate::prompt::notify;
use crate::prompt::notify::{
    SessionUpdate, SessionUpdateView, ToolCard, ToolCardView, ToolKind, ToolStatus,
};
use crate::prompt::title;
use crate::session::{MessageView, Role, Session, SessionView};
use crate::text;
use crate::thought;
use crate::thought::{ThoughtEvent, ThoughtEventView, ThoughtState, ThoughtStream};
use vstd::prelude::*;
use vstd::string::*;

verus! {

/// The most rounds of a turn.
pub const MAX_TURNS: usize = 20;

/// Why a turn ended.
#[derive(Debug, Clone, Copy, PartialEq, Eq, Structural)]
pub enum StopReason {
    EndTurn,
    MaxTokens,
    Refusal,
    Cancelled,
}

/// A call that an answer makes.
#[derive(Debug)]
pub struct ToolRequest {
    pub name: String,
    pub arguments: Json,
    /// The call as it stands in the history.
    pub history_block: String,
}

/// What came of the last action.
#[derive(Debug)]
pub enum TurnEvent {
    /// The image was uploaded, under this reference.
    Uploaded(String),
    UploadFailed(String),
    StreamStarted,
    /// The request could not be started: the error, and the error with its
    /// causes.
    StartFailed { error: String, chain: String },
    Delta(String),
    StreamEnded,
    StreamFailed(String),
    StreamCancelled,
    /// The answer, parsed: its text, and the calls that it makes.
    Answer { text: String, calls: Vec<ToolRequest> },
    /// The tool ran; its result as a line of the history.
    ToolFinished(String),
    /// The user chose the next step, or dismissed it.
    FollowUpChosen(Option<String>),
    FollowUpFailed(String),
}

/// What to do next.
#[derive(Debug)]
pub enum TurnAction {
    /// Tell the client.
    Send(SessionUpdate),
    /// Tell the client of an error.
    EmitError(String),
    Upload { data: String, mime_type: String },
    /// Start the request.
    Start { prompt: String, model: String, think: Option<u32>, refs: Vec<String> },
    /// Wait for the next item of the stream, or for a cancellation.
    Receive,
    /// Parse the answer.
    Parse(String),
    Execute { name: String, arguments: Json },
    AskFollowUp { label: String, query: String },
    /// Keep the session as it is now.
    Save,
    /// Answer the prompt: the turn is over.
    Respond(StopReason),
}

// ---------------------------------------------------------------------------
// Views
// ---------------------------------------------------------------------------

pub struct ToolRequestView {
    pub name: Seq<char>,
    pub arguments: JsonView,
    pub history_block: Seq<char>,
}

pub enum TurnEventView {
    Uploaded(Seq<char>),
    UploadFailed(Seq<char>),
    StreamStarted,
    StartFailed { error: Seq<char>, chain: Seq<char> },
    Delta(Seq<char>),
    StreamEnded,
    StreamFailed(Seq<char>),
    StreamCancelled,
    Answer { text: Seq<char>, calls: Seq<ToolRequestView> },
    ToolFinished(Seq<char>),
    FollowUpChosen(Option<Seq<char>>),
    FollowUpFailed(Seq<char>),
}

pub enum TurnActionView {
    Send(SessionUpdateView),
    EmitError(Seq<char>),
    Upload { data: Seq<char>, mime_type: Seq<char> },
    Start { prompt: Seq<char>, model: Seq<char>, think: Option<u32>, refs: Seq<Seq<char>> },
    Receive,
    Parse(Seq<char>),
    Execute { name: Seq<char>, arguments: JsonView },
    AskFollowUp { label: Seq<char>, query: Seq<char> },
    Save,
    Respond(StopReason),
}

impl View for ToolRequest {
    type V = ToolRequestView;

    open spec fn view(&self) -> ToolRequestView {
        ToolRequestView {
            name: self.name@,
            arguments: self.arguments@,
            history_block: self.history_block@,
        }
    }
}

pub open spec fn calls_view(calls: Seq<ToolRequest>) -> Seq<ToolRequestView> {
    Seq::new(calls.len(), |i: int| calls[i]@)
}

impl View for TurnEvent {
    type V = TurnEventView;

    open spec fn view(&self) -> TurnEventView {
        match *self {
            TurnEvent::Uploaded(r) => TurnEventView::Uploaded(r@),
            TurnEvent::UploadFailed(e) => TurnEventView::UploadFailed(e@),
            TurnEvent::StreamStarted => TurnEventView::StreamStarted,
            TurnEvent::StartFailed { error, chain } => TurnEventView::StartFailed {
                error: error@,
                chain: chain@,
            },
            TurnEvent::Delta(d) => TurnEventView::Delta(d@),
            TurnEvent::StreamEnded => TurnEventView::StreamEnded,
            TurnEvent::StreamFailed(e) => TurnEventView::StreamFailed(e@),
            TurnEvent::StreamCancelled => TurnEventView::StreamCancelled,
            TurnEvent::Answer { text, calls } => TurnEventView::Answer {
                text: text@,
                calls: calls_view(calls@),
            },
            TurnEvent::ToolFinished(line) => TurnEventView::ToolFinished(line@),
            TurnEvent::FollowUpChosen(q) => TurnEventView::FollowUpChosen(text::option_view(q)),
            TurnEvent::FollowUpFailed(e) => TurnEventView::FollowUpFailed(e@),
        }
    }
}

impl View for TurnAction {
    type V = TurnActionView;

    open spec fn view(&self) -> TurnActionView {
        match *self {
            TurnAction::Send(u) => TurnActionView::Send(u@),
            TurnAction::EmitError(e) => TurnActionView::EmitError(e@),
            TurnAction::Upload { data, mime_type } => TurnActionView::Upload {
                data: data@,
                mime_type: mime_type@,
            },
            TurnAction::Start { prompt, model, think, refs } => TurnActionView::Start {
                prompt: prompt@,
                model: model@,
                think,
                refs: text::texts_of(refs@),
            },
            TurnAction::Receive => TurnActionView::Receive,
            TurnAction::Parse(t) => TurnActionView::Parse(t@),
            TurnAction::Execute { name, arguments } => TurnActionView::Execute {
                name: name@,
                arguments: arguments@,
            },
            TurnAction::AskFollowUp { label, query } => TurnActionView::AskFollowUp {
                label: label@,
                query: query@,
            },
            TurnAction::Save => TurnActionView::Save,
            TurnAction::Respond(r) => TurnActionView::Respond(r),
        }
    }
}

pub open spec fn actions_view(actions: Seq<TurnAction>) -> Seq<TurnActionView> {
    Seq::new(actions.len(), |i: int| actions[i]@)
}

/// What a turn is given besides the prompt.
#[derive(Debug)]
pub struct TurnSetting {
    /// The identifier of the answer.
    pub message_id: String,
    /// The identifier of the card that shows the upload.
    pub upload_id: String,
    /// The system text.
    pub system: String,
    /// What the model is told of the tools.
    pub tools_section: Option<String>,
    /// Whether there are any tools to run.
    pub has_tools: bool,
}

impl TurnSetting {
    /// The setting of a new turn, with identifiers that are left to chance.
    pub fn new(system: String, tools_section: Option<String>, has_tools: bool) -> (r: Self)
        ensures
            exists|message: Seq<char>, upload: Seq<char>|
                #![trigger outside::is_plain_id(message), outside::is_plain_id(upload)]
                outside::is_plain_id(message) && outside::is_plain_id(upload) && r@ == (SettingView {
                    message_id: "msg_"@ + message,
                    upload_id: "call_"@ + upload,
                    system: system@,
                    tools_section: text::option_view(tools_section),
                    has_tools,
                }),
    {
        let message = outside::plain_id();
        let upload = outside::plain_id();
        let r = TurnSetting {
            message_id: text::cat("msg_", message.as_str()),
            upload_id: text::cat("call_", upload.as_str()),
            system,
            tools_section,
            has_tools,
        };
        proof {
            assert(outside::is_plain_id(message@) && outside::is_plain_id(upload@));
        }
        r
    }
}

pub struct SettingView {
    pub message_id: Seq<char>,
    pub upload_id: Seq<char>,
    pub system: Seq<char>,
    pub tools_section: Option<Seq<char>>,
    pub has_tools: bool,
}

impl View for TurnSetting {
    type V = SettingView;

    open spec fn view(&self) -> SettingView {
        SettingView {
            message_id: self.message_id@,
            upload_id: self.upload_id@,
            system: self.system@,
            tools_section: text::option_view(self.tools_section),
            has_tools: self.has_tools,
        }
    }
}

/// Where a turn is.
pub enum PhaseView {
    /// An image is being uploaded.
    Uploading,
    /// A request is being started.
    Starting,
    /// An answer is streaming: the state of its reasoning, what the filter
    /// keeps back, and the answer so far.
    Streaming { thought: ThoughtState, kept: Seq<char>, assistant: Seq<char> },
    /// An answer is being parsed.
    Parsing,
    /// A tool is running: the calls, which of them, and the text of the answer.
    Tools { calls: Seq<ToolRequestView>, next: int, answer: Seq<char> },
    /// The user is being asked for the next step.
    Asking { answer: Seq<char> },
    /// The turn is over.
    Done,
}

pub struct TurnView {
    pub session: SessionView,
    pub setting: SettingView,
    pub user_text: Seq<char>,
    pub images: Seq<(Seq<char>, Seq<char>)>,
    pub refs: Seq<Seq<char>>,
    pub round: int,
    pub retries: int,
    pub phase: PhaseView,
}

// ---------------------------------------------------------------------------
// What a turn does
// ---------------------------------------------------------------------------

pub type Stepped = (TurnView, Seq<TurnActionView>);

/// The prompt of the session.
pub open spec fn prompt_of(session: SessionView, setting: SettingView) -> Seq<char> {
    assemble::prompt_text(
        assemble::preamble(setting.system, session.tools_enabled, setting.tools_section),
        session.messages,
    )
}

/// The turn ends without an answer that is kept.
pub open spec fn answered(t: TurnView, reason: StopReason) -> Stepped {
    (TurnView { phase: PhaseView::Done, ..t }, seq![TurnActionView::Respond(reason)])
}

/// The turn ends with an output, which the session keeps unless it is blank or
/// is not to be kept.
pub open spec fn concluded(t: TurnView, output: Seq<char>, keep: bool) -> Stepped {
    let session = if keep && text::trimmed(output).len() > 0 {
        t.session.said(Role::Assistant, output)
    } else {
        t.session
    };
    (
        TurnView { session, phase: PhaseView::Done, ..t },
        seq![
            TurnActionView::Send(notify::usage_view(prompt_of(session, t.setting), output)),
            TurnActionView::Save,
            TurnActionView::Respond(StopReason::EndTurn),
        ],
    )
}

/// The session, compacted where its history is too long.
pub open spec fn lightened(session: SessionView) -> SessionView {
    if compaction::size_of(session.messages) > compaction::COMPACTION_THRESHOLD_CHARS {
        SessionView {
            messages: compaction::compacted(
                session.messages,
                compaction::EMERGENCY_COMPACTION_CHARS as nat,
            ),
            ..session
        }
    } else {
        session
    }
}

/// A round begins, if there is one left and the turn was not cancelled.
pub open spec fn round_begun(t: TurnView, round: int, cancelled: bool) -> Stepped {
    if round >= MAX_TURNS {
        concluded(t, Seq::empty(), true)
    } else if cancelled {
        answered(TurnView { round, ..t }, StopReason::Cancelled)
    } else {
        let session = lightened(t.session);
        (
            TurnView { session, round, phase: PhaseView::Starting, ..t },
            seq![
                TurnActionView::Start {
                    prompt: prompt_of(session, t.setting),
                    model: session.model,
                    think: session.think,
                    refs: t.refs,
                },
            ],
        )
    }
}

/// The images are there: the user has spoken, and the first round begins.
pub open spec fn spoken(t: TurnView, cancelled: bool) -> Stepped {
    round_begun(
        TurnView { session: t.session.said(Role::User, t.user_text), ..t },
        0,
        cancelled,
    )
}

/// The session with the title that the prompt gives it, where it has none and
/// the prompt is not blank.
pub open spec fn titled(session: SessionView, user_text: Seq<char>) -> Option<Seq<char>> {
    if session.title is None && text::trimmed(user_text).len() > 0 {
        Some(title::title_of(user_text))
    } else {
        None
    }
}

pub open spec fn with_title(session: SessionView, new_title: Option<Seq<char>>) -> SessionView {
    match new_title {
        Some(t) => SessionView { title: Some(t), ..session },
        None => session,
    }
}

pub open spec fn title_actions(new_title: Option<Seq<char>>) -> Seq<TurnActionView> {
    match new_title {
        Some(t) => seq![TurnActionView::Send(SessionUpdateView::SessionInfo { title: t })],
        None => Seq::empty(),
    }
}

/// The card that shows the upload of the images.
pub open spec fn upload_card(id: Seq<char>, total: nat) -> ToolCardView {
    ToolCardView {
        id,
        title: "Upload "@ + text::decimal(total) + " image(s) (Scotty)"@,
        kind: ToolKind::Fetch,
        status: ToolStatus::InProgress,
        content: None,
        raw_input: None,
        meta: None,
    }
}

/// A turn begins: the session gets its title, and the images are uploaded or
/// the first round begins.
pub open spec fn begun(
    session: SessionView,
    setting: SettingView,
    blocks: Seq<ContentBlock>,
    cancelled: bool,
) -> Stepped {
    let user_text = text::trimmed_end(content::blocks_text(blocks));
    let images = content::blocks_images(blocks);
    let new_title = titled(session, user_text);
    let t = TurnView {
        session: with_title(session, new_title),
        setting,
        user_text,
        images,
        refs: Seq::empty(),
        round: 0,
        retries: 0,
        phase: PhaseView::Uploading,
    };
    if images.len() > 0 {
        (
            t,
            title_actions(new_title) + seq![
                TurnActionView::Send(
                    SessionUpdateView::ToolCall(upload_card(setting.upload_id, images.len())),
                ),
                TurnActionView::Upload { data: images[0].0, mime_type: images[0].1 },
            ],
        )
    } else {
        let next = spoken(t, cancelled);
        (next.0, title_actions(new_title) + next.1)
    }
}

/// An image was uploaded: the next one is, or the first round begins.
pub open spec fn uploaded(t: TurnView, reference: Seq<char>, cancelled: bool) -> Stepped {
    let refs = t.refs.push(reference);
    let u = TurnView { refs, ..t };
    if refs.len() < t.images.len() {
        (
            u,
            seq![
                TurnActionView::Upload {
                    data: t.images[refs.len() as int].0,
                    mime_type: t.images[refs.len() as int].1,
                },
            ],
        )
    } else {
        let done = TurnActionView::Send(
            SessionUpdateView::ToolCallUpdate {
                id: t.setting.upload_id,
                status: ToolStatus::Completed,
                content: text::decimal(t.images.len()) + " image(s) uploadée(s) avec succès"@,
            },
        );
        let next = spoken(u, cancelled);
        (next.0, seq![done] + next.1)
    }
}

/// An image could not be uploaded: the prompt is refused.
pub open spec fn upload_failed(t: TurnView, e: Seq<char>) -> Stepped {
    let failed = TurnActionView::Send(
        SessionUpdateView::ToolCallUpdate {
            id: t.setting.upload_id,
            status: ToolStatus::Failed,
            content: "Upload image "@ + text::decimal(t.refs.len() + 1) + "/"@ + text::decimal(
                t.images.len(),
            ) + " échoué: "@ + e,
        },
    );
    (
        TurnView { phase: PhaseView::Done, ..t },
        seq![failed, TurnActionView::Respond(StopReason::Refusal)],
    )
}

/// The error says that the prompt was too long.
pub open spec fn is_overflow(e: Seq<char>) -> bool {
    text::occurs(e, "context"@) || text::occurs(e, "too long"@) || text::occurs(e, "tokens"@)
}

/// The request could not be started: where the prompt was too long, the
/// history is compacted and the next round tries once more.
pub open spec fn start_failed(
    t: TurnView,
    e: Seq<char>,
    chain: Seq<char>,
    cancelled: bool,
) -> Stepped {
    if is_overflow(e) && t.retries < 1 {
        round_begun(
            TurnView {
                session: SessionView {
                    messages: compaction::compacted(
                        t.session.messages,
                        compaction::EMERGENCY_COMPACTION_CHARS as nat,
                    ),
                    ..t.session
                },
                retries: t.retries + 1,
                ..t
            },
            t.round + 1,
            cancelled,
        )
    } else if is_overflow(e) {
        (
            TurnView { phase: PhaseView::Done, ..t },
            seq![
                TurnActionView::EmitError(
                    "Context overflow persisted after emergency compaction: "@ + chain,
                ),
                TurnActionView::Respond(StopReason::MaxTokens),
            ],
        )
    } else {
        (
            TurnView { phase: PhaseView::Done, ..t },
            seq![
                TurnActionView::EmitError(error::error_advice(error::on_one_line(chain))),
                TurnActionView::Respond(StopReason::EndTurn),
            ],
        )
    }
}

/// Whether the model of that name writes its reasoning first.
pub open spec fn thinks(model: Seq<char>) -> bool {
    match models::resolution(model, models::DEFAULT_MODEL@) {
        Ok(m) => m.mode == 2 || m.mode == 5,
        Err(_) => false,
    }
}

pub open spec fn stream_started(t: TurnView) -> Stepped {
    (
        TurnView {
            phase: PhaseView::Streaming {
                thought: thought::fresh(thinks(t.session.model)),
                kept: Seq::empty(),
                assistant: Seq::empty(),
            },
            ..t
        },
        seq![TurnActionView::Receive],
    )
}

/// What the client is told of a text that may be empty.
pub open spec fn message_actions(message_id: Seq<char>, t: Seq<char>) -> Seq<TurnActionView> {
    if t.len() == 0 {
        Seq::empty()
    } else {
        seq![TurnActionView::Send(SessionUpdateView::AgentMessageChunk { message_id, text: t })]
    }
}

pub open spec fn thought_actions(message_id: Seq<char>, t: Seq<char>) -> Seq<TurnActionView> {
    if t.len() == 0 {
        Seq::empty()
    } else {
        seq![TurnActionView::Send(SessionUpdateView::AgentThoughtChunk { message_id, text: t })]
    }
}

/// What the filter keeps back, the answer, and what the client is told, after
/// the events: reasoning as it is, the answer without its components.
pub open spec fn told(
    message_id: Seq<char>,
    kept: Seq<char>,
    assistant: Seq<char>,
    events: Seq<ThoughtEventView>,
) -> (Seq<char>, Seq<char>, Seq<TurnActionView>)
    decreases events.len(),
{
    if events.len() == 0 {
        (kept, assistant, Seq::empty())
    } else {
        let before = told(message_id, kept, assistant, events.drop_last());
        match events.last() {
            ThoughtEventView::ThoughtChunk(t) => (
                before.0,
                before.1,
                before.2 + thought_actions(message_id, t),
            ),
            ThoughtEventView::ThoughtEnd => before,
            ThoughtEventView::ResponseChunk(t) => {
                let filtered = follow_up::filtered(before.0 + t);
                (filtered.1, before.1 + t, before.2 + message_actions(message_id, filtered.0))
            },
        }
    }
}

pub open spec fn delta_read(
    t: TurnView,
    state: ThoughtState,
    kept: Seq<char>,
    assistant: Seq<char>,
    delta: Seq<char>,
) -> Stepped {
    let (next, events) = thought::fed(state, delta);
    let (kept2, assistant2, actions) = told(t.setting.message_id, kept, assistant, events);
    (
        TurnView {
            phase: PhaseView::Streaming { thought: next, kept: kept2, assistant: assistant2 },
            ..t
        },
        actions.push(TurnActionView::Receive),
    )
}

/// What the client is still told when the stream ends, and the whole answer.
pub open spec fn closing(
    t: TurnView,
    state: ThoughtState,
    kept: Seq<char>,
    assistant: Seq<char>,
) -> (Seq<char>, Seq<TurnActionView>) {
    let events = thought::finished(state).1;
    let (kept2, assistant2, actions) = told(t.setting.message_id, kept, assistant, events);
    (
        assistant2,
        actions + message_actions(t.setting.message_id, follow_up::without_components(kept2)),
    )
}

/// Why a turn ended whose answer failed with this error.
pub open spec fn stop_reason(lower: Seq<char>) -> StopReason {
    if text::occurs(lower, "safety"@) || text::occurs(lower, "block"@) {
        StopReason::Refusal
    } else {
        StopReason::EndTurn
    }
}

/// The stream is over.
pub open spec fn stream_over(
    t: TurnView,
    state: ThoughtState,
    kept: Seq<char>,
    assistant: Seq<char>,
    event: TurnEventView,
) -> Stepped {
    let (answer, told_last) = closing(t, state, kept, assistant);
    match event {
        TurnEventView::StreamFailed(e) => (
            TurnView { phase: PhaseView::Done, ..t },
            told_last + seq![
                TurnActionView::EmitError(error::stream_advice(error::on_one_line(e))),
                TurnActionView::Respond(stop_reason(outside::lowercased(e))),
            ],
        ),
        TurnEventView::StreamCancelled => (
            TurnView { phase: PhaseView::Done, ..t },
            told_last + seq![TurnActionView::Respond(StopReason::Cancelled)],
        ),
        _ => (
            TurnView { phase: PhaseView::Parsing, ..t },
            told_last + seq![TurnActionView::Parse(answer)],
        ),
    }
}

pub open spec fn blocks_of(calls: Seq<ToolRequestView>) -> Seq<Seq<char>> {
    Seq::new(calls.len(), |i: int| calls[i].history_block)
}

/// An answer with calls, as it stands in the history.
pub open spec fn answer_entry(answer: Seq<char>, calls: Seq<ToolRequestView>) -> Seq<char> {
    let blocks = text::joined(blocks_of(calls), "\n"@);
    if answer.len() == 0 {
        blocks
    } else {
        answer + "\n"@ + blocks
    }
}

/// A text among the arguments of a call, without white space around it.
pub open spec fn argument_text(arguments: JsonView, key: Seq<char>, missing: Seq<char>) -> Seq<char> {
    match arguments.get_text(key) {
        Some(t) => text::trimmed(t),
        None => text::trimmed(missing),
    }
}

/// The next of the calls: a tool runs; a next step is offered to the user, and
/// ends the calls; after the last one the next round begins, or the turn ends
/// where no round is left.
pub open spec fn call_next(
    t: TurnView,
    calls: Seq<ToolRequestView>,
    next: int,
    answer: Seq<char>,
    cancelled: bool,
) -> Stepped {
    if next >= calls.len() {
        if t.round == MAX_TURNS - 1 {
            concluded(t, "[Limite d'itérations outil atteinte]"@, false)
        } else {
            round_begun(t, t.round + 1, cancelled)
        }
    } else if cancelled {
        answered(t, StopReason::Cancelled)
    } else if calls[next].name == "FollowUp"@ {
        let label = argument_text(calls[next].arguments, "label"@, "Suggested next step"@);
        let query = argument_text(calls[next].arguments, "query"@, ""@);
        if label.len() > 0 && query.len() > 0 {
            (
                TurnView { phase: PhaseView::Asking { answer }, ..t },
                seq![TurnActionView::AskFollowUp { label, query }],
            )
        } else {
            concluded(t, answer, true)
        }
    } else {
        (
            TurnView { phase: PhaseView::Tools { calls, next, answer }, ..t },
            seq![
                TurnActionView::Execute {
                    name: calls[next].name,
                    arguments: calls[next].arguments,
                },
            ],
        )
    }
}

/// The answer was parsed: it ends the turn, or its calls are run.
pub open spec fn answer_parsed(
    t: TurnView,
    answer: Seq<char>,
    calls: Seq<ToolRequestView>,
    cancelled: bool,
) -> Stepped {
    if calls.len() == 0 || !t.session.tools_enabled || !t.setting.has_tools {
        concluded(t, answer, true)
    } else {
        call_next(
            TurnView {
                session: t.session.said(Role::Assistant, answer_entry(answer, calls)),
                ..t
            },
            calls,
            0,
            answer,
            cancelled,
        )
    }
}

/// What a turn does on an event. An event that does not belong to the phase
/// changes nothing.
pub open spec fn stepped(t: TurnView, event: TurnEventView, cancelled: bool) -> Stepped {
    match (t.phase, event) {
        (PhaseView::Uploading, TurnEventView::Uploaded(r)) => uploaded(t, r, cancelled),
        (PhaseView::Uploading, TurnEventView::UploadFailed(e)) => upload_failed(t, e),
        (PhaseView::Starting, TurnEventView::StreamStarted) => stream_started(t),
        (PhaseView::Starting, TurnEventView::StartFailed { error, chain }) => start_failed(
            t,
            error,
            chain,
            cancelled,
        ),
        (
            PhaseView::Streaming { thought, kept, assistant },
            TurnEventView::Delta(d),
        ) => delta_read(t, thought, kept, assistant, d),
        (
            PhaseView::Streaming { thought, kept, assistant },
            TurnEventView::StreamEnded,
        ) => stream_over(t, thought, kept, assistant, event),
        (
            PhaseView::Streaming { thought, kept, assistant },
            TurnEventView::StreamFailed(_),
        ) => stream_over(t, thought, kept, assistant, event),
        (
            PhaseView::Streaming { thought, kept, assistant },
            TurnEventView::StreamCancelled,
        ) => stream_over(t, thought, kept, assistant, event),
        (PhaseView::Parsing, TurnEventView::Answer { text, calls }) => answer_parsed(
            t,
            text,
            calls,
            cancelled,
        ),
        (
            PhaseView::Tools { calls, next, answer },
            TurnEventView::ToolFinished(line),
        ) => call_next(
            TurnView { session: t.session.said(Role::Tool, line), ..t },
            calls,
            next + 1,
            answer,
            cancelled,
        ),
        (PhaseView::Asking { answer }, TurnEventView::FollowUpChosen(Some(q))) => round_begun(
            TurnView { session: t.session.said(Role::User, q), ..t },
            t.round + 1,
            cancelled,
        ),
        (PhaseView::Asking { answer }, TurnEventView::FollowUpChosen(None)) => concluded(
            t,
            answer,
            true,
        ),
        (PhaseView::Asking { answer }, TurnEventView::FollowUpFailed(e)) => {
            let next = concluded(t, answer, true);
            (
                next.0,
                seq![TurnActionView::EmitError("FollowUp interaction failed: "@ + e)] + next.1,
            )
        },
        _ => (t, Seq::empty()),
    }
}

// ---------------------------------------------------------------------------
// Laws
// ---------------------------------------------------------------------------

/// What every turn keeps: there are never more than [`MAX_TURNS`] rounds and
/// never more than one retry, and what is being uploaded or run is one of the
/// images or of the calls.
pub open spec fn valid(t: TurnView) -> bool {
    &&& 0 <= t.round < MAX_TURNS
    &&& 0 <= t.retries <= 1
    &&& t.phase is Uploading ==> t.refs.len() < t.images.len()
    &&& t.phase matches PhaseView::Tools { calls, next, answer } ==> 0 <= next < calls.len()
}

/// A turn begins valid and stays so.
pub proof fn law_turn_stays_valid(
    session: SessionView,
    setting: SettingView,
    blocks: Seq<ContentBlock>,
    t: TurnView,
    event: TurnEventView,
    cancelled: bool,
)
    requires
        valid(t),
    ensures
        valid(begun(session, setting, blocks, cancelled).0),
        valid(stepped(t, event, cancelled).0),
{
}

/// An action after which the turn waits for an event, or is over.
pub open spec fn is_last_action(action: TurnActionView) -> bool {
    match action {
        TurnActionView::Send(_) => false,
        TurnActionView::EmitError(_) => false,
        TurnActionView::Save => false,
        _ => true,
    }
}

/// What a step gives to do: nothing, or some things to tell and then one thing
/// whose outcome is the next event, or the response. The response comes if and
/// only if the turn is then over.
pub open spec fn well_shaped(next: Stepped) -> bool {
    &&& next.1.len() > 0 ==> is_last_action(next.1.last())
    &&& forall|i: int| 0 <= i < next.1.len() - 1 ==> !is_last_action(#[trigger] next.1[i])
    &&& next.1.len() > 0 ==> (next.0.phase is Done <==> next.1.last() is Respond)
}

proof fn lemma_told_shape(
    message_id: Seq<char>,
    kept: Seq<char>,
    assistant: Seq<char>,
    events: Seq<ThoughtEventView>,
)
    ensures
        forall|i: int|
            0 <= i < told(message_id, kept, assistant, events).2.len() ==> #[trigger] told(
                message_id,
                kept,
                assistant,
                events,
            ).2[i] is Send,
    decreases events.len(),
{
    if events.len() > 0 {
        lemma_told_shape(message_id, kept, assistant, events.drop_last());
    }
}

proof fn lemma_round_shape(t: TurnView, round: int, cancelled: bool)
    ensures
        well_shaped(round_begun(t, round, cancelled)),
        round_begun(t, round, cancelled).1.len() > 0,
{
}

/// Things to tell in front of a well-shaped step keep it so.
proof fn lemma_prefixed(told_first: Seq<TurnActionView>, next: Stepped)
    requires
        well_shaped(next),
        next.1.len() > 0,
        forall|i: int| 0 <= i < told_first.len() ==> !is_last_action(#[trigger] told_first[i]),
    ensures
        well_shaped((next.0, told_first + next.1)),
{
    let all = told_first + next.1;
    assert(all.last() == next.1.last());
    assert forall|i: int| 0 <= i < all.len() - 1 implies !is_last_action(#[trigger] all[i]) by {
        if i < told_first.len() {
            assert(all[i] == told_first[i]);
        } else {
            assert(all[i] == next.1[i - told_first.len()]);
        }
    }
}

proof fn lemma_call_shape(
    t: TurnView,
    calls: Seq<ToolRequestView>,
    next: int,
    answer: Seq<char>,
    cancelled: bool,
)
    ensures
        well_shaped(call_next(t, calls, next, answer, cancelled)),
{
    lemma_round_shape(t, t.round + 1, cancelled);
}

/// The first step is well shaped: it waits for exactly one outcome, or
/// responds and is the last.
pub proof fn law_first_step_is_well_shaped(
    session: SessionView,
    setting: SettingView,
    blocks: Seq<ContentBlock>,
    cancelled: bool,
)
    ensures
        well_shaped(begun(session, setting, blocks, cancelled)),
        begun(session, setting, blocks, cancelled).1.len() > 0,
{
    let user_text = text::trimmed_end(content::blocks_text(blocks));
    let images = content::blocks_images(blocks);
    let new_title = titled(session, user_text);
    let t = TurnView {
        session: with_title(session, new_title),
        setting,
        user_text,
        images,
        refs: Seq::empty(),
        round: 0,
        retries: 0,
        phase: PhaseView::Uploading,
    };
    if images.len() == 0 {
        lemma_round_shape(
            TurnView { session: t.session.said(Role::User, t.user_text), ..t },
            0,
            cancelled,
        );
        lemma_prefixed(title_actions(new_title), spoken(t, cancelled));
    } else {
        let rest = (
            t,
            seq![
                TurnActionView::Send(
                    SessionUpdateView::ToolCall(upload_card(setting.upload_id, images.len())),
                ),
                TurnActionView::Upload { data: images[0].0, mime_type: images[0].1 },
            ],
        );
        lemma_prefixed(title_actions(new_title), rest);
    }
}

proof fn lemma_stream_shape(
    t: TurnView,
    state: ThoughtState,
    kept: Seq<char>,
    assistant: Seq<char>,
    event: TurnEventView,
)
    ensures
        well_shaped(stream_over(t, state, kept, assistant, event)),
{
    let events = thought::finished(state).1;
    lemma_told_shape(t.setting.message_id, kept, assistant, events);
    let told_last = closing(t, state, kept, assistant).1;
    let answer = closing(t, state, kept, assistant).0;
    let done = TurnView { phase: PhaseView::Done, ..t };
    match event {
        TurnEventView::StreamFailed(e) => {
            lemma_prefixed(
                told_last,
                (
                    done,
                    seq![
                        TurnActionView::EmitError(error::stream_advice(error::on_one_line(e))),
                        TurnActionView::Respond(stop_reason(outside::lowercased(e))),
                    ],
                ),
            );
        },
        TurnEventView::StreamCancelled => {
            lemma_prefixed(
                told_last,
                (done, seq![TurnActionView::Respond(StopReason::Cancelled)]),
            );
        },
        _ => {
            lemma_prefixed(
                told_last,
                (
                    TurnView { phase: PhaseView::Parsing, ..t },
                    seq![TurnActionView::Parse(answer)],
                ),
            );
        },
    }
}

/// Every step is well shaped: a turn that is not over waits for exactly one
/// outcome, and it responds exactly once, when it is over.
pub proof fn law_steps_are_well_shaped(t: TurnView, event: TurnEventView, cancelled: bool)
    ensures
        well_shaped(stepped(t, event, cancelled)),
{
    match (t.phase, event) {
        (PhaseView::Uploading, TurnEventView::Uploaded(r)) => {
            let refs = t.refs.push(r);
            let u = TurnView { refs, ..t };
            if refs.len() >= t.images.len() {
                let done = uploaded(t, r, cancelled).1[0];
                lemma_round_shape(
                    TurnView { session: u.session.said(Role::User, u.user_text), ..u },
                    0,
                    cancelled,
                );
                lemma_prefixed(seq![done], spoken(u, cancelled));
            }
        },
        (PhaseView::Starting, TurnEventView::StartFailed { error, chain }) => {
            let lighter = TurnView {
                session: SessionView {
                    messages: compaction::compacted(
                        t.session.messages,
                        compaction::EMERGENCY_COMPACTION_CHARS as nat,
                    ),
                    ..t.session
                },
                retries: t.retries + 1,
                ..t
            };
            lemma_round_shape(lighter, t.round + 1, cancelled);
        },
        (PhaseView::Streaming { thought, kept, assistant }, TurnEventView::Delta(d)) => {
            let (next, events) = thought::fed(thought, d);
            lemma_told_shape(t.setting.message_id, kept, assistant, events);
        },
        (PhaseView::Streaming { thought, kept, assistant }, _) => {
            lemma_stream_shape(t, thought, kept, assistant, event);
        },
        (PhaseView::Parsing, TurnEventView::Answer { text, calls }) => {
            lemma_call_shape(
                TurnView {
                    session: t.session.said(Role::Assistant, answer_entry(text, calls)),
                    ..t
                },
                calls,
                0,
                text,
                cancelled,
            );
        },
        (PhaseView::Tools { calls, next, answer }, TurnEventView::ToolFinished(line)) => {
            lemma_call_shape(
                TurnView { session: t.session.said(Role::Tool, line), ..t },
                calls,
                next + 1,
                answer,
                cancelled,
            );
        },
        (PhaseView::Asking { answer }, TurnEventView::FollowUpChosen(Some(q))) => {
            lemma_round_shape(
                TurnView { session: t.session.said(Role::User, q), ..t },
                t.round + 1,
                cancelled,
            );
        },
        (PhaseView::Asking { answer }, TurnEventView::FollowUpFailed(e)) => {
            lemma_prefixed(
                seq![TurnActionView::EmitError("FollowUp interaction failed: "@ + e)],
                concluded(t, answer, true),
            );
        },
        _ => {},
    }
}

/// Once a turn is over, nothing happens any more.
pub proof fn law_over_is_over(t: TurnView, event: TurnEventView, cancelled: bool)
    requires
        t.phase is Done,
    ensures
        stepped(t, event, cancelled) == (t, Seq::<TurnActionView>::empty()),
{
}

/// A turn that is cancelled between two rounds or two tools starts nothing
/// more.
pub proof fn law_cancelled_starts_nothing(t: TurnView, event: TurnEventView)
    requires
        valid(t),
        !(t.phase is Streaming),
    ensures
        forall|i: int|
            0 <= i < stepped(t, event, true).1.len() ==> {
                let action = #[trigger] stepped(t, event, true).1[i];
                &&& !(action is Start)
                &&& !(action is Execute)
                &&& !(action is AskFollowUp)
            },
{
}

/// The pieces of the answer that the client is told, put together.
pub open spec fn shown_text(actions: Seq<TurnActionView>) -> Seq<char>
    decreases actions.len(),
{
    if actions.len() == 0 {
        Seq::empty()
    } else {
        let before = shown_text(actions.drop_last());
        match actions.last() {
            TurnActionView::Send(
                SessionUpdateView::AgentMessageChunk { message_id, text },
            ) => before + text,
            _ => before,
        }
    }
}

/// An answer is streaming, and the client has been shown what the filter lets
/// out of it.
pub open spec fn faithful(t: TurnView, shown: Seq<char>) -> bool {
    t.phase matches PhaseView::Streaming { thought, kept, assistant } && follow_up::filtered(
        assistant,
    ) == (shown, kept)
}

proof fn lemma_shown_add(a: Seq<TurnActionView>, b: Seq<TurnActionView>)
    ensures
        shown_text(a + b) == shown_text(a) + shown_text(b),
    decreases b.len(),
{
    if b.len() == 0 {
        assert(a + b =~= a);
        assert(shown_text(a) + shown_text(b) =~= shown_text(a));
    } else {
        lemma_shown_add(a, b.drop_last());
        assert((a + b).drop_last() =~= a + b.drop_last());
        assert((a + b).last() == b.last());
        assert(shown_text(a + b) =~= shown_text(a) + shown_text(b));
    }
}

proof fn lemma_shown_one(action: TurnActionView)
    ensures
        shown_text(seq![action]) == match action {
            TurnActionView::Send(
                SessionUpdateView::AgentMessageChunk { message_id, text },
            ) => text,
            _ => Seq::empty(),
        },
{
    let one = seq![action];
    assert(one.drop_last() =~= Seq::<TurnActionView>::empty());
    assert(shown_text(one.drop_last()) =~= Seq::<char>::empty());
    assert(shown_text(one) =~= match action {
        TurnActionView::Send(SessionUpdateView::AgentMessageChunk { message_id, text }) => text,
        _ => Seq::empty(),
    });
}

proof fn lemma_told_is_filtered(
    message_id: Seq<char>,
    kept: Seq<char>,
    assistant: Seq<char>,
    shown: Seq<char>,
    events: Seq<ThoughtEventView>,
)
    requires
        follow_up::filtered(assistant) == (shown, kept),
    ensures
        ({
            let (kept2, assistant2, actions) = told(message_id, kept, assistant, events);
            follow_up::filtered(assistant2) == (shown + shown_text(actions), kept2)
        }),
    decreases events.len(),
{
    if events.len() == 0 {
        assert(shown + Seq::<char>::empty() =~= shown);
        assert(shown_text(Seq::empty()) =~= Seq::<char>::empty());
    } else {
        let front = events.drop_last();
        lemma_told_is_filtered(message_id, kept, assistant, shown, front);
        let (k, a, actions) = told(message_id, kept, assistant, front);
        let s = shown + shown_text(actions);
        match events.last() {
            ThoughtEventView::ThoughtChunk(t) => {
                let more = thought_actions(message_id, t);
                lemma_shown_add(actions, more);
                if t.len() > 0 {
                    lemma_shown_one(more[0]);
                }
                assert(shown_text(more) =~= Seq::<char>::empty());
                assert(shown_text(actions + more) =~= shown_text(actions));
            },
            ThoughtEventView::ThoughtEnd => {},
            ThoughtEventView::ResponseChunk(t) => {
                follow_up::law_filter_in_two_pieces(a, t);
                let out = follow_up::filtered(k + t);
                let more = message_actions(message_id, out.0);
                lemma_shown_add(actions, more);
                if out.0.len() > 0 {
                    lemma_shown_one(more[0]);
                }
                assert(shown_text(more) =~= out.0);
                assert(s + out.0 =~= shown + shown_text(actions + more));
            },
        }
    }
}

/// What the client is shown of an answer, put together over all the deltas, is
/// the answer without its components: nothing of a component is ever shown, and
/// nothing else is lost.
pub proof fn law_client_sees_the_answer_without_components(
    t: TurnView,
    shown: Seq<char>,
    delta: Seq<char>,
    cancelled: bool,
)
    ensures
        faithful(stream_started(t).0, Seq::empty()),
        faithful(t, shown) ==> {
            let next = stepped(t, TurnEventView::Delta(delta), cancelled);
            faithful(next.0, shown + shown_text(next.1))
        },
        faithful(t, shown) ==> {
            let next = stepped(t, TurnEventView::StreamEnded, cancelled);
            next.1.last() matches TurnActionView::Parse(answer) && shown + shown_text(next.1)
                == follow_up::without_components(answer)
        },
{
    follow_up::lemma_filtered_empty();
    match t.phase {
        PhaseView::Streaming { thought, kept, assistant } => {
            if faithful(t, shown) {
                let id = t.setting.message_id;
                let (state, events) = thought::fed(thought, delta);
                lemma_told_is_filtered(id, kept, assistant, shown, events);
                let actions = told(id, kept, assistant, events).2;
                lemma_shown_add(actions, seq![TurnActionView::Receive]);
                lemma_shown_one(TurnActionView::Receive);
                assert(actions.push(TurnActionView::Receive) =~= actions
                    + seq![TurnActionView::Receive]);
                assert(shown_text(actions.push(TurnActionView::Receive)) =~= shown_text(actions));

                let last_events = thought::finished(thought).1;
                lemma_told_is_filtered(id, kept, assistant, shown, last_events);
                let (kept2, answer, told_last) = told(id, kept, assistant, last_events);
                let tail = follow_up::without_components(kept2);
                let more = message_actions(id, tail);
                let parse = TurnActionView::Parse(answer);
                lemma_shown_add(told_last, more);
                if tail.len() > 0 {
                    lemma_shown_one(more[0]);
                }
                assert(shown_text(more) =~= tail);
                lemma_shown_add(told_last + more, seq![parse]);
                lemma_shown_one(parse);
                follow_up::law_rest_is_flushed(answer);
                let all = told_last + more + seq![parse];
                assert(shown + shown_text(all) =~= (shown + shown_text(told_last)) + tail);
            }
        },
        _ => {},
    }
}

// ---------------------------------------------------------------------------
// The machine
// ---------------------------------------------------------------------------

#[derive(Debug)]
enum Phase {
    Uploading,
    Starting,
    Streaming { thought: ThoughtStream, follow_up: StreamNormalizer, assistant: String },
    Parsing,
    Tools { calls: Vec<ToolRequest>, next: usize, answer: String },
    Asking { answer: String },
    Done,
}

spec fn phase_view(phase: Phase) -> PhaseView {
    match phase {
        Phase::Uploading => PhaseView::Uploading,
        Phase::Starting => PhaseView::Starting,
        Phase::Streaming { thought, follow_up, assistant } => PhaseView::Streaming {
            thought: thought@,
            kept: follow_up@,
            assistant: assistant@,
        },
        Phase::Parsing => PhaseView::Parsing,
        Phase::Tools { calls, next, answer } => PhaseView::Tools {
            calls: calls_view(calls@),
            next: next as int,
            answer: answer@,
        },
        Phase::Asking { answer } => PhaseView::Asking { answer: answer@ },
        Phase::Done => PhaseView::Done,
    }
}

/// A turn in progress.
#[derive(Debug)]
pub struct Turn {
    session: Session,
    setting: TurnSetting,
    user_text: String,
    images: Vec<(String, String)>,
    refs: Vec<String>,
    round: usize,
    retries: usize,
    phase: Phase,
}

impl View for Turn {
    type V = TurnView;

    closed spec fn view(&self) -> TurnView {
        TurnView {
            session: self.session@,
            setting: self.setting@,
            user_text: self.user_text@,
            images: content::images_view(self.images@),
            refs: text::texts_of(self.refs@),
            round: self.round as int,
            retries: self.retries as int,
            phase: phase_view(self.phase),
        }
    }
}

proof fn lemma_actions_push(actions: Seq<TurnAction>, action: TurnAction)
    ensures
        actions_view(actions.push(action)) == actions_view(actions).push(action@),
{
    assert(actions_view(actions.push(action)) =~= actions_view(actions).push(action@));
}

fn add_action(out: &mut Vec<TurnAction>, action: TurnAction)
    ensures
        actions_view(final(out)@) == actions_view(old(out)@).push(action@),
{
    proof {
        lemma_actions_push(out@, action);
    }
    out.push(action);
}

fn copy_texts(list: &Vec<String>) -> (r: Vec<String>)
    ensures
        text::texts_of(r@) == text::texts_of(list@),
{
    let mut out: Vec<String> = Vec::new();
    let mut i: usize = 0;
    while i < list.len()
        invariant
            i <= list@.len(),
            text::texts_of(out@) =~= text::texts_of(list@).take(i as int),
        decreases list@.len() - i,
    {
        let item = list[i].clone();
        proof {
            text::lemma_texts_push(out@, item);
        }
        out.push(item);
        i += 1;
    }
    proof {
        assert(text::texts_of(out@) =~= text::texts_of(list@));
    }
    out
}

/// Why a turn ended whose answer failed with this error, given in lower case.
pub fn stop_reason_of(lower: &str) -> (r: StopReason)
    ensures
        r == stop_reason(lower@),
{
    if text::contains(lower, "safety") || text::contains(lower, "block") {
        StopReason::Refusal
    } else {
        StopReason::EndTurn
    }
}

fn map_stop_reason_from_error(e: &str) -> (r: StopReason)
    ensures
        r == stop_reason(outside::lowercased(e@)),
{
    let lower = outside::to_lowercase(e);
    stop_reason_of(lower.as_str())
}

fn is_thinking_model(model: &str) -> (r: bool)
    ensures
        r == thinks(model@),
{
    match models::resolve(model, models::DEFAULT_MODEL) {
        Ok(m) => models::is_thinking_mode(m.mode),
        Err(_) => false,
    }
}

fn says_overflow(e: &str) -> (r: bool)
    ensures
        r == is_overflow(e@),
{
    text::contains(e, "context") || text::contains(e, "too long") || text::contains(e, "tokens")
}

/// Hands the events on: reasoning as it is, the answer without its components.
fn tell(
    events: &Vec<ThoughtEvent>,
    message_id: &str,
    follow_up: &mut StreamNormalizer,
    assistant: &mut String,
    out: &mut Vec<TurnAction>,
)
    ensures
        ({
            let (kept, answer, actions) = told(
                message_id@,
                old(follow_up)@,
                old(assistant)@,
                thought::events_of(events@),
            );
            &&& final(follow_up)@ == kept
            &&& final(assistant)@ == answer
            &&& actions_view(final(out)@) == actions_view(old(out)@) + actions
        }),
{
    let ghost all = thought::events_of(events@);
    let ghost before = actions_view(out@);
    let ghost kept0 = follow_up@;
    let ghost assistant0 = assistant@;
    let mut i: usize = 0;
    proof {
        assert(before + Seq::<TurnActionView>::empty() =~= before);
    }
    while i < events.len()
        invariant
            i <= events@.len(),
            all == thought::events_of(events@),
            ({
                let (kept, answer, actions) = told(
                    message_id@,
                    kept0,
                    assistant0,
                    all.take(i as int),
                );
                &&& follow_up@ == kept
                &&& assistant@ == answer
                &&& actions_view(out@) == before + actions
            }),
        decreases events@.len() - i,
    {
        let ghost so_far = told(message_id@, kept0, assistant0, all.take(i as int)).2;
        proof {
            assert(all.take(i + 1).drop_last() =~= all.take(i as int));
            assert(all.take(i + 1).last() == events@[i as int]@);
        }
        match &events[i] {
            ThoughtEvent::ThoughtChunk(t) => {
                match thought::notify_thought(message_id, t.as_str()) {
                    Some(update) => {
                        add_action(out, TurnAction::Send(update));
                    },
                    None => {},
                }
                proof {
                    assert(actions_view(out@) =~= before + (so_far + thought_actions(
                        message_id@,
                        t@,
                    )));
                }
            },
            ThoughtEvent::ThoughtEnd => {},
            ThoughtEvent::ResponseChunk(t) => {
                assistant.append(t.as_str());
                let safe = follow_up.push(t.as_str());
                let ghost said = safe@;
                if !safe.as_str().is_empty() {
                    add_action(out, TurnAction::Send(notify::notify_text(message_id, safe)));
                }
                proof {
                    assert(actions_view(out@) =~= before + (so_far + message_actions(
                        message_id@,
                        said,
                    )));
                }
            },
        }
        i += 1;
    }
    proof {
        assert(all.take(all.len() as int) =~= all);
    }
}

/// An answer with calls, as it stands in the history.
fn history_entry(answer: &str, calls: &Vec<ToolRequest>) -> (r: String)
    ensures
        r@ == answer_entry(answer@, calls_view(calls@)),
{
    let ghost wanted = blocks_of(calls_view(calls@));
    let mut blocks: Vec<String> = Vec::new();
    let mut i: usize = 0;
    while i < calls.len()
        invariant
            i <= calls@.len(),
            wanted == blocks_of(calls_view(calls@)),
            text::texts_of(blocks@) =~= wanted.take(i as int),
        decreases calls@.len() - i,
    {
        let block = calls[i].history_block.clone();
        proof {
            text::lemma_texts_push(blocks@, block);
            assert(wanted[i as int] == calls@[i as int].history_block@);
        }
        blocks.push(block);
        i += 1;
    }
    proof {
        assert(text::texts_of(blocks@) =~= wanted);
    }
    let joined = text::join(blocks.as_slice(), "\n");
    if answer.is_empty() {
        joined
    } else {
        text::cat3(answer, "\n", joined.as_str())
    }
}

fn read_argument(arguments: &Json, key: &str, missing: &str) -> (r: String)
    ensures
        r@ == argument_text(arguments@, key@, missing@),
{
    match arguments.get_text(key) {
        Some(t) => text::trim(t).to_owned(),
        None => text::trim(missing).to_owned(),
    }
}

impl Turn {
    /// The session as it is now.
    pub fn session(&self) -> (r: &Session)
        ensures
            r@ == self@.session,
    {
        &self.session
    }

    /// The session, at the end of the turn.
    pub fn into_session(self) -> (r: Session)
        ensures
            r@ == self@.session,
    {
        self.session
    }

    fn prompt(&self) -> (r: String)
        ensures
            r@ == prompt_of(self@.session, self@.setting),
    {
        let section: Option<&str> = match &self.setting.tools_section {
            Some(s) => Some(s.as_str()),
            None => None,
        };
        assemble::build_prompt(
            &self.session.messages,
            self.setting.system.as_str(),
            self.session.tools_enabled,
            section,
        )
    }

    fn respond(&mut self, reason: StopReason, out: &mut Vec<TurnAction>)
        ensures
            final(self)@ == answered(old(self)@, reason).0,
            actions_view(final(out)@) == actions_view(old(out)@) + answered(old(self)@, reason).1,
    {
        self.phase = Phase::Done;
        let ghost before = actions_view(out@);
        add_action(out, TurnAction::Respond(reason));
        proof {
            assert(actions_view(out@) =~= before + seq![TurnActionView::Respond(reason)]);
        }
    }

    fn conclude(&mut self, output: String, keep: bool, out: &mut Vec<TurnAction>)
        ensures
            final(self)@ == concluded(old(self)@, output@, keep).0,
            actions_view(final(out)@) == actions_view(old(out)@) + concluded(
                old(self)@,
                output@,
                keep,
            ).1,
    {
        let ghost before = actions_view(out@);
        let ghost start = self@;
        let ghost shown = output@;
        if keep && !text::is_blank(output.as_str()) {
            self.session.say(Role::Assistant, output.clone());
        }
        self.phase = Phase::Done;
        proof {
            assert(self@ == concluded(start, shown, keep).0);
        }
        let prompt = self.prompt();
        add_action(
            out,
            TurnAction::Send(notify::notify_usage(prompt.as_str(), output.as_str())),
        );
        add_action(out, TurnAction::Save);
        add_action(out, TurnAction::Respond(StopReason::EndTurn));
        proof {
            assert(actions_view(out@) =~= before + concluded(start, shown, keep).1);
        }
    }

    fn begin_round(&mut self, round: usize, cancelled: bool, out: &mut Vec<TurnAction>)
        ensures
            final(self)@ == round_begun(old(self)@, round as int, cancelled).0,
            actions_view(final(out)@) == actions_view(old(out)@) + round_begun(
                old(self)@,
                round as int,
                cancelled,
            ).1,
    {
        if round >= MAX_TURNS {
            self.conclude(String::new(), true, out);
            return;
        }
        let ghost start = self@;
        let ghost before = actions_view(out@);
        self.round = round;
        if cancelled {
            self.respond(StopReason::Cancelled, out);
            return;
        }
        if compaction::history_size(&self.session.messages)
            > compaction::COMPACTION_THRESHOLD_CHARS as u128 {
            compaction::compact_messages(
                &mut self.session.messages,
                compaction::EMERGENCY_COMPACTION_CHARS,
            );
        }
        self.phase = Phase::Starting;
        let prompt = self.prompt();
        let refs = copy_texts(&self.refs);
        add_action(
            out,
            TurnAction::Start {
                prompt,
                model: self.session.model.clone(),
                think: self.session.think,
                refs,
            },
        );
        proof {
            assert(self@.session == lightened(start.session));
            assert(actions_view(out@) =~= before + round_begun(start, round as int, cancelled).1);
        }
    }

    fn speak(&mut self, cancelled: bool, out: &mut Vec<TurnAction>)
        ensures
            final(self)@ == spoken(old(self)@, cancelled).0,
            actions_view(final(out)@) == actions_view(old(out)@) + spoken(
                old(self)@,
                cancelled,
            ).1,
    {
        let said = self.user_text.clone();
        self.session.say(Role::User, said);
        self.begin_round(0, cancelled, out);
    }

    /// Begins a turn: the blocks are the prompt of the user.
    pub fn begin(
        session: Session,
        setting: TurnSetting,
        blocks: &[ContentBlock],
        cancelled: bool,
    ) -> (r: (Turn, Vec<TurnAction>))
        ensures
            (r.0@, actions_view(r.1@)) == begun(session@, setting@, blocks@, cancelled),
            valid(r.0@),
    {
        let (user_text, images) = content::blocks_to_parts(blocks);
        let ghost session0 = session@;
        let ghost new_title = titled(session@, user_text@);
        let ghost all_images = content::images_view(images@);
        proof {
            assert(all_images.len() == images@.len());
            if images@.len() > 0 {
                assert(all_images[0] == (images@[0].0@, images@[0].1@));
            }
        }
        let refs: Vec<String> = Vec::new();
        let mut out: Vec<TurnAction> = Vec::new();
        let mut turn = Turn {
            session,
            setting,
            user_text,
            images,
            refs,
            round: 0,
            retries: 0,
            phase: Phase::Uploading,
        };
        proof {
            assert(text::texts_of(turn.refs@) =~= Seq::empty());
            assert(actions_view(out@) =~= Seq::empty());
        }
        if turn.session.title.is_none() && !text::is_blank(turn.user_text.as_str()) {
            let named = title::derive_title(turn.user_text.as_str());
            turn.session.title = Some(named.clone());
            add_action(
                &mut out,
                TurnAction::Send(SessionUpdate::SessionInfo { title: named }),
            );
        }
        proof {
            assert(turn@.session == with_title(session0, new_title));
            assert(actions_view(out@) =~= title_actions(new_title));
        }
        let total: usize = turn.images.len();
        if total > 0 {
            let ghost before = actions_view(out@);
            let count = text::decimal_text(total as u64);
            let card = ToolCard {
                id: turn.setting.upload_id.clone(),
                title: text::cat3("Upload ", count.as_str(), " image(s) (Scotty)"),
                kind: ToolKind::Fetch,
                status: ToolStatus::InProgress,
                content: None,
                raw_input: None,
                meta: None,
            };
            add_action(&mut out, TurnAction::Send(SessionUpdate::ToolCall(card)));
            add_action(
                &mut out,
                TurnAction::Upload {
                    data: turn.images[0].0.clone(),
                    mime_type: turn.images[0].1.clone(),
                },
            );
            proof {
                assert(actions_view(out@) =~= begun(session0, turn@.setting, blocks@, cancelled).1);
            }
        } else {
            turn.speak(cancelled, &mut out);
        }
        (turn, out)
    }

    fn after_upload(&mut self, reference: String, cancelled: bool, out: &mut Vec<TurnAction>)
        requires
            actions_view(old(out)@).len() == 0,
        ensures
            (final(self)@, actions_view(final(out)@)) == uploaded(
                old(self)@,
                reference@,
                cancelled,
            ),
    {
        let ghost start = self@;
        let ghost named = reference@;
        proof {
            text::lemma_texts_push(self.refs@, reference);
            assert(actions_view(out@) =~= Seq::empty());
            assert(content::images_view(self.images@).len() == self.images@.len());
        }
        self.refs.push(reference);
        let done: usize = self.refs.len();
        let total: usize = self.images.len();
        proof {
            assert(text::texts_of(self.refs@).len() == self.refs@.len());
        }
        if done < total {
            proof {
                assert(content::images_view(self.images@)[done as int] == (
                    self.images@[done as int].0@,
                    self.images@[done as int].1@,
                ));
            }
            add_action(
                out,
                TurnAction::Upload {
                    data: self.images[done].0.clone(),
                    mime_type: self.images[done].1.clone(),
                },
            );
            proof {
                assert(actions_view(out@) =~= uploaded(start, named, cancelled).1);
            }
        } else {
            let count = text::decimal_text(total as u64);
            add_action(
                out,
                TurnAction::Send(
                    SessionUpdate::ToolCallUpdate {
                        id: self.setting.upload_id.clone(),
                        status: ToolStatus::Completed,
                        content: text::cat(count.as_str(), " image(s) uploadée(s) avec succès"),
                    },
                ),
            );
            let ghost first = actions_view(out@);
            proof {
                assert(first =~= seq![uploaded(start, named, cancelled).1[0]]);
            }
            self.speak(cancelled, out);
        }
    }

    fn after_upload_failure(&mut self, e: &str, out: &mut Vec<TurnAction>)
        requires
            old(self)@.refs.len() < old(self)@.images.len(),
            actions_view(old(out)@).len() == 0,
        ensures
            (final(self)@, actions_view(final(out)@)) == upload_failed(old(self)@, e@),
    {
        let ghost start = self@;
        proof {
            assert(content::images_view(self.images@).len() == self.images@.len());
            assert(text::texts_of(self.refs@).len() == self.refs@.len());
            assert(actions_view(out@) =~= Seq::empty());
        }
        let images: usize = self.images.len();
        let number = text::decimal_text((self.refs.len() + 1) as u64);
        let total = text::decimal_text(images as u64);
        let mut said: String = "Upload image ".to_owned();
        said.append(number.as_str());
        said.append("/");
        said.append(total.as_str());
        said.append(" échoué: ");
        said.append(e);
        self.phase = Phase::Done;
        add_action(
            out,
            TurnAction::Send(
                SessionUpdate::ToolCallUpdate {
                    id: self.setting.upload_id.clone(),
                    status: ToolStatus::Failed,
                    content: said,
                },
            ),
        );
        add_action(out, TurnAction::Respond(StopReason::Refusal));
        proof {
            assert(actions_view(out@) =~= upload_failed(start, e@).1);
        }
    }

    fn after_start_failure(
        &mut self,
        e: &str,
        chain: &str,
        cancelled: bool,
        out: &mut Vec<TurnAction>,
    )
        requires
            valid(old(self)@),
            actions_view(old(out)@).len() == 0,
        ensures
            (final(self)@, actions_view(final(out)@)) == start_failed(
                old(self)@,
                e@,
                chain@,
                cancelled,
            ),
    {
        let ghost start = self@;
        proof {
            assert(actions_view(out@) =~= Seq::empty());
        }
        if says_overflow(e) {
            if self.retries < 1 {
                compaction::compact_messages(
                    &mut self.session.messages,
                    compaction::EMERGENCY_COMPACTION_CHARS,
                );
                self.retries += 1;
                let next: usize = self.round + 1;
                self.begin_round(next, cancelled, out);
                proof {
                    assert(actions_view(out@) =~= start_failed(start, e@, chain@, cancelled).1);
                }
                return;
            }
            self.phase = Phase::Done;
            add_action(
                out,
                TurnAction::EmitError(
                    text::cat("Context overflow persisted after emergency compaction: ", chain),
                ),
            );
            add_action(out, TurnAction::Respond(StopReason::MaxTokens));
        } else {
            self.phase = Phase::Done;
            add_action(out, TurnAction::EmitError(error::actionable_error_message(chain)));
            add_action(out, TurnAction::Respond(StopReason::EndTurn));
        }
        proof {
            assert(actions_view(out@) =~= start_failed(start, e@, chain@, cancelled).1);
        }
    }

    fn next_call(
        &mut self,
        calls: Vec<ToolRequest>,
        next: usize,
        answer: String,
        cancelled: bool,
        out: &mut Vec<TurnAction>,
    )
        requires
            valid(old(self)@),
            actions_view(old(out)@).len() == 0,
        ensures
            (final(self)@, actions_view(final(out)@)) == call_next(
                old(self)@,
                calls_view(calls@),
                next as int,
                answer@,
                cancelled,
            ),
    {
        let ghost start = self@;
        let ghost all = calls_view(calls@);
        let ghost said = answer@;
        proof {
            assert(actions_view(out@) =~= Seq::empty());
            assert(all.len() == calls@.len());
        }
        if next >= calls.len() {
            if self.round == MAX_TURNS - 1 {
                self.conclude("[Limite d'itérations outil atteinte]".to_owned(), false, out);
            } else {
                let round: usize = self.round + 1;
                self.begin_round(round, cancelled, out);
            }
        } else if cancelled {
            self.respond(StopReason::Cancelled, out);
        } else {
            proof {
                assert(all[next as int] == calls@[next as int]@);
            }
            if text::same(calls[next].name.as_str(), "FollowUp") {
                let label = read_argument(&calls[next].arguments, "label", "Suggested next step");
                let query = read_argument(&calls[next].arguments, "query", "");
                if !label.as_str().is_empty() && !query.as_str().is_empty() {
                    self.phase = Phase::Asking { answer };
                    add_action(out, TurnAction::AskFollowUp { label, query });
                } else {
                    self.conclude(answer, true, out);
                }
            } else {
                add_action(
                    out,
                    TurnAction::Execute {
                        name: calls[next].name.clone(),
                        arguments: calls[next].arguments.clone(),
                    },
                );
                self.phase = Phase::Tools { calls, next, answer };
            }
        }
        proof {
            assert(actions_view(out@) =~= call_next(start, all, next as int, said, cancelled).1);
        }
    }

    fn after_answer(
        &mut self,
        answer: String,
        calls: Vec<ToolRequest>,
        cancelled: bool,
        out: &mut Vec<TurnAction>,
    )
        requires
            valid(old(self)@),
            actions_view(old(out)@).len() == 0,
        ensures
            (final(self)@, actions_view(final(out)@)) == answer_parsed(
                old(self)@,
                answer@,
                calls_view(calls@),
                cancelled,
            ),
    {
        let ghost start = self@;
        let ghost all = calls_view(calls@);
        let ghost said = answer@;
        proof {
            assert(actions_view(out@) =~= Seq::empty());
            assert(all.len() == calls@.len());
        }
        let shown = follow_up::replace_components(answer.as_str());
        if calls.len() == 0 || !self.session.tools_enabled || !self.setting.has_tools {
            self.conclude(shown, true, out);
        } else {
            let entry = history_entry(shown.as_str(), &calls);
            self.session.say(Role::Assistant, entry);
            self.next_call(calls, 0, shown, cancelled, out);
        }
        proof {
            assert(actions_view(out@) =~= answer_parsed(start, said, all, cancelled).1);
        }
    }

    /// What is still told when the stream ends.
    fn close(
        &self,
        thought: &mut ThoughtStream,
        follow_up: &mut StreamNormalizer,
        assistant: &mut String,
        out: &mut Vec<TurnAction>,
    )
        requires
            actions_view(old(out)@).len() == 0,
        ensures
            (final(assistant)@, actions_view(final(out)@)) == closing(
                self@,
                old(thought)@,
                old(follow_up)@,
                old(assistant)@,
            ),
    {
        let ghost expected = closing(self@, thought@, follow_up@, assistant@);
        let events = thought.finish();
        tell(&events, self.setting.message_id.as_str(), follow_up, assistant, out);
        let tail = follow_up.finish();
        if !tail.as_str().is_empty() {
            add_action(
                out,
                TurnAction::Send(notify::notify_text(self.setting.message_id.as_str(), tail)),
            );
        }
        proof {
            assert(actions_view(out@) =~= expected.1);
        }
    }

    /// What to do after an event. `cancelled` says whether the turn has been
    /// cancelled by now.
    #[verifier::rlimit(80)]
    #[verifier::spinoff_prover]
    pub fn step(&mut self, event: TurnEvent, cancelled: bool) -> (out: Vec<TurnAction>)
        requires
            valid(old(self)@),
        ensures
            (final(self)@, actions_view(out@)) == stepped(old(self)@, event@, cancelled),
            valid(final(self)@),
    {
        let ghost start = self@;
        let ghost seen = event@;
        let mut out: Vec<TurnAction> = Vec::new();
        proof {
            assert(actions_view(out@) =~= Seq::empty());
        }
        let mut phase = Phase::Done;
        core::mem::swap(&mut phase, &mut self.phase);
        let ghost old_phase = phase;
        match (phase, event) {
            (Phase::Uploading, TurnEvent::Uploaded(r)) => {
                self.phase = Phase::Uploading;
                self.after_upload(r, cancelled, &mut out);
            },
            (Phase::Uploading, TurnEvent::UploadFailed(e)) => {
                self.phase = Phase::Uploading;
                self.after_upload_failure(e.as_str(), &mut out);
            },
            (Phase::Starting, TurnEvent::StreamStarted) => {
                self.phase = Phase::Streaming {
                    thought: ThoughtStream::new(is_thinking_model(self.session.model.as_str())),
                    follow_up: StreamNormalizer::default(),
                    assistant: String::new(),
                };
                add_action(&mut out, TurnAction::Receive);
            },
            (Phase::Starting, TurnEvent::StartFailed { error, chain }) => {
                self.phase = Phase::Starting;
                self.after_start_failure(error.as_str(), chain.as_str(), cancelled, &mut out);
            },
            (
                Phase::Streaming { mut thought, mut follow_up, mut assistant },
                TurnEvent::Delta(d),
            ) => {
                let events = thought.feed(d.as_str());
                tell(
                    &events,
                    self.setting.message_id.as_str(),
                    &mut follow_up,
                    &mut assistant,
                    &mut out,
                );
                add_action(&mut out, TurnAction::Receive);
                self.phase = Phase::Streaming { thought, follow_up, assistant };
                proof {
                    assert(actions_view(out@) =~= stepped(start, seen, cancelled).1);
                }
            },
            (
                Phase::Streaming { mut thought, mut follow_up, mut assistant },
                TurnEvent::StreamEnded,
            ) => {
                self.close(&mut thought, &mut follow_up, &mut assistant, &mut out);
                self.phase = Phase::Parsing;
                add_action(&mut out, TurnAction::Parse(assistant));
                proof {
                    assert(actions_view(out@) =~= stepped(start, seen, cancelled).1);
                }
            },
            (
                Phase::Streaming { mut thought, mut follow_up, mut assistant },
                TurnEvent::StreamFailed(e),
            ) => {
                self.close(&mut thought, &mut follow_up, &mut assistant, &mut out);
                add_action(
                    &mut out,
                    TurnAction::EmitError(error::actionable_stream_error(e.as_str())),
                );
                add_action(
                    &mut out,
                    TurnAction::Respond(map_stop_reason_from_error(e.as_str())),
                );
                proof {
                    assert(actions_view(out@) =~= stepped(start, seen, cancelled).1);
                }
            },
            (
                Phase::Streaming { mut thought, mut follow_up, mut assistant },
                TurnEvent::StreamCancelled,
            ) => {
                self.close(&mut thought, &mut follow_up, &mut assistant, &mut out);
                add_action(&mut out, TurnAction::Respond(StopReason::Cancelled));
                proof {
                    assert(actions_view(out@) =~= stepped(start, seen, cancelled).1);
                }
            },
            (Phase::Parsing, TurnEvent::Answer { text: answer, calls }) => {
                self.phase = Phase::Parsing;
                self.after_answer(answer, calls, cancelled, &mut out);
            },
            (Phase::Tools { calls, next, answer }, TurnEvent::ToolFinished(line)) => {
                self.session.say(Role::Tool, line);
                let total: usize = calls.len();
                proof {
                    assert(calls_view(calls@).len() == total);
                }
                self.next_call(calls, next + 1, answer, cancelled, &mut out);
            },
            (Phase::Asking { answer }, TurnEvent::FollowUpChosen(choice)) => {
                match choice {
                    Some(query) => {
                        self.session.say(Role::User, query);
                        let round: usize = self.round + 1;
                        self.begin_round(round, cancelled, &mut out);
                    },
                    None => {
                        self.conclude(answer, true, &mut out);
                    },
                }
                proof {
                    assert(actions_view(out@) =~= stepped(start, seen, cancelled).1);
                }
            },
            (Phase::Asking { answer }, TurnEvent::FollowUpFailed(e)) => {
                add_action(
                    &mut out,
                    TurnAction::EmitError(text::cat("FollowUp interaction failed: ", e.as_str())),
                );
                self.conclude(answer, true, &mut out);
                proof {
                    assert(actions_view(out@) =~= stepped(start, seen, cancelled).1);
                }
            },
            (other, _) => {
                self.phase = other;
            },
        }
        proof {
            law_turn_stays_valid(start.session, start.setting, Seq::empty(), start, seen, cancelled);
            assert(actions_view(out@) =~= stepped(start, seen, cancelled).1);
        }
        out
    }
}

// ---------------------------------------------------------------------------
// What a turn is for
// ---------------------------------------------------------------------------


/// The text ends so.
pub open spec fn ends_in(s: Seq<char>, end: Seq<char>) -> bool {
    end.len() <= s.len() && s.skip(s.len() - end.len()) == end
}

/// The text begins so.
pub open spec fn begins_with(s: Seq<char>, start: Seq<char>) -> bool {
    start.len() <= s.len() && s.take(start.len() as int) == start
}

/// The action asks the model of the session, with the system text first and the
/// given words last.
pub open spec fn asks(action: TurnActionView, t: TurnView, last: Seq<char>) -> bool {
    action matches TurnActionView::Start { prompt, model, think, refs } && {
        &&& begins_with(prompt, t.setting.system)
        &&& ends_in(prompt, last)
        &&& model == t.session.model
        &&& think == t.session.think
        &&& refs == t.refs
    }
}

/// The session but for its messages.
pub open spec fn same_but_messages(a: SessionView, b: SessionView) -> bool {
    a.title == b.title && a.model == b.model && a.think == b.think && a.tools_enabled
        == b.tools_enabled && a.mode == b.mode
}

proof fn lemma_round_asks(t: TurnView, round: int)
    requires
        round < 20,
        t.session.messages.len() > 0,
    ensures
        ({
            let (next, actions) = round_begun(t, round, false);
            &&& actions.len() == 1
            &&& asks(actions[0], t, assemble::entry(t.session.messages.last()))
            &&& next.phase is Starting
            &&& next.round == round
            &&& next.refs == t.refs
            &&& next.setting == t.setting
            &&& same_but_messages(next.session, t.session)
            &&& compaction::size_of(t.session.messages) <= 900_000 ==> next.session.messages
                == t.session.messages
            &&& compaction::size_of(t.session.messages) > 900_000 ==> next.session.messages
                == compaction::compacted(t.session.messages, 700_000)
        }),
{
    let session = lightened(t.session);
    compaction::law_last_message_stays(t.session.messages, 700_000);
    let pre = assemble::preamble(
        t.setting.system,
        session.tools_enabled,
        t.setting.tools_section,
    );
    assemble::law_present_message_is_whole(pre, session.messages);
    let prompt = prompt_of(session, t.setting);
    let system = t.setting.system;
    assert(pre.take(system.len() as int) =~= system);
    assert(prompt.take(pre.len() as int).take(system.len() as int) =~= prompt.take(
        system.len() as int,
    ));
}

/// Every word of the user reaches the model: a next step that the user chose is
/// added to the session as theirs, and the prompt of the request that follows
/// ends with it. Nothing else of the session changes, but that a history above
/// 900 000 bytes is brought down to 700 000 as far as that goes.
pub proof fn law_chosen_step_is_asked(t: TurnView, q: Seq<char>)
    requires
        t.phase is Asking,
        t.round + 1 < 20,
    ensures
        ({
            let said = t.session.messages.push(MessageView { role: Role::User, text: q });
            let (next, actions) = stepped(t, TurnEventView::FollowUpChosen(Some(q)), false);
            &&& compaction::size_of(said) <= 900_000 ==> next.session.messages == said
            &&& compaction::size_of(said) > 900_000 ==> next.session.messages
                == compaction::compacted(said, 700_000)
            &&& same_but_messages(next.session, t.session)
            &&& actions.len() == 1
            &&& asks(actions[0], t, "[User]: "@ + q + "\n\n"@)
            &&& next.phase is Starting
        }),
{
    let u = TurnView { session: t.session.said(Role::User, q), ..t };
    lemma_round_asks(u, t.round + 1);
    assemble::law_message_stands_behind_its_author(q);
    assert(u.session.messages.last() == MessageView { role: Role::User, text: q });
}

/// A step that the user dismissed, or that could not be offered, ends the turn:
/// the answer is kept, unless it is blank, and the user is told why.
pub proof fn law_dismissed_step_ends_the_turn(t: TurnView, answer: Seq<char>, e: Seq<char>, cancelled: bool)
    requires
        t.phase == (PhaseView::Asking { answer }),
        text::trimmed(answer).len() > 0,
    ensures
        ({
            let said = t.session.messages.push(MessageView { role: Role::Assistant, text: answer });
            let (next, actions) = stepped(t, TurnEventView::FollowUpChosen(None), cancelled);
            let (failed, told) = stepped(t, TurnEventView::FollowUpFailed(e), cancelled);
            &&& next.session.messages == said
            &&& next.phase is Done
            &&& actions.last() == TurnActionView::Respond(StopReason::EndTurn)
            &&& actions.contains(TurnActionView::Save)
            &&& failed == next
            &&& told.len() == actions.len() + 1
            &&& told[0] == TurnActionView::EmitError("FollowUp interaction failed: "@ + e)
            &&& told.skip(1) == actions
        }),
{
    let (next, actions) = stepped(t, TurnEventView::FollowUpChosen(None), cancelled);
    let (failed, told) = stepped(t, TurnEventView::FollowUpFailed(e), cancelled);
    assert(actions[1] == TurnActionView::Save);
    assert(told.skip(1) =~= actions);
}

/// A prompt without images is asked: what it says is added to the session as the
/// user's, and the request ends with it. A session without a title gets the one
/// that the prompt gives it, and the client is told; one that has a title keeps
/// it.
pub proof fn law_prompt_is_asked(
    session: SessionView,
    setting: SettingView,
    blocks: Seq<ContentBlock>,
)
    requires
        content::blocks_images(blocks).len() == 0,
    ensures
        ({
            let user = text::trimmed_end(content::blocks_text(blocks));
            let said = session.messages.push(MessageView { role: Role::User, text: user });
            let (t, actions) = begun(session, setting, blocks, false);
            &&& compaction::size_of(said) <= 900_000 ==> t.session.messages == said
            &&& compaction::size_of(said) > 900_000 ==> t.session.messages == compaction::compacted(
                said,
                700_000,
            )
            &&& t.session.model == session.model
            &&& t.session.think == session.think
            &&& t.session.tools_enabled == session.tools_enabled
            &&& t.session.mode == session.mode
            &&& t.setting == setting
            &&& t.refs.len() == 0
            &&& actions.len() > 0
            &&& asks(actions.last(), t, "[User]: "@ + user + "\n\n"@)
            &&& session.title is None && text::trimmed(user).len() > 0 ==> {
                &&& t.session.title == Some(title::title_of(user))
                &&& actions.len() == 2
                &&& actions[0] == TurnActionView::Send(
                    SessionUpdateView::SessionInfo { title: title::title_of(user) },
                )
            }
            &&& session.title is Some ==> t.session.title == session.title && actions.len() == 1
        }),
{
    let user = text::trimmed_end(content::blocks_text(blocks));
    let images = content::blocks_images(blocks);
    let new_title = titled(session, user);
    let t = TurnView {
        session: with_title(session, new_title),
        setting,
        user_text: user,
        images,
        refs: Seq::empty(),
        round: 0,
        retries: 0,
        phase: PhaseView::Uploading,
    };
    let u = TurnView { session: t.session.said(Role::User, user), ..t };
    lemma_round_asks(u, 0);
    assemble::law_message_stands_behind_its_author(user);
    assert(u.session.messages.last() == MessageView { role: Role::User, text: user });
    let next = spoken(t, false);
    assert((title_actions(new_title) + next.1).last() == next.1[0]);
}

/// The images of a prompt are uploaded one after the other, in order; when the
/// last one is there, the prompt is asked with the references of all.
pub proof fn law_images_come_first(
    session: SessionView,
    setting: SettingView,
    blocks: Seq<ContentBlock>,
    t: TurnView,
    r: Seq<char>,
)
    requires
        t.phase is Uploading,
        t.refs.len() < t.images.len(),
    ensures
        content::blocks_images(blocks).len() > 0 ==> {
            let (first, actions) = begun(session, setting, blocks, false);
            &&& first.images == content::blocks_images(blocks)
            &&& first.refs.len() == 0
            &&& first.user_text == text::trimmed_end(content::blocks_text(blocks))
            &&& first.phase is Uploading
            &&& first.session.messages == session.messages
            &&& actions.last() == (TurnActionView::Upload {
                data: first.images[0].0,
                mime_type: first.images[0].1,
            })
        },
        t.refs.len() + 1 < t.images.len() ==> {
            let (next, actions) = stepped(t, TurnEventView::Uploaded(r), false);
            &&& next == (TurnView { refs: t.refs.push(r), ..t })
            &&& actions == seq![
                TurnActionView::Upload {
                    data: t.images[t.refs.len() as int + 1].0,
                    mime_type: t.images[t.refs.len() as int + 1].1,
                },
            ]
        },
        t.refs.len() + 1 == t.images.len() ==> {
            let said = t.session.messages.push(MessageView { role: Role::User, text: t.user_text });
            let (next, actions) = stepped(t, TurnEventView::Uploaded(r), false);
            &&& next.refs == t.refs.push(r)
            &&& compaction::size_of(said) <= 900_000 ==> next.session.messages == said
            &&& same_but_messages(next.session, t.session)
            &&& actions.len() == 2
            &&& actions[0] matches TurnActionView::Send(
                SessionUpdateView::ToolCallUpdate { id, status, content },
            ) && id == t.setting.upload_id && status == ToolStatus::Completed
            &&& asks(actions[1], next, "[User]: "@ + t.user_text + "\n\n"@)
        },
{
    let u = TurnView { refs: t.refs.push(r), ..t };
    let v = TurnView { session: u.session.said(Role::User, u.user_text), ..u };
    lemma_round_asks(v, 0);
    assemble::law_message_stands_behind_its_author(t.user_text);
    assert(v.session.messages.last() == MessageView { role: Role::User, text: t.user_text });
}

/// An image that could not be uploaded ends the turn as a refusal; the session
/// stays as it was, and the card says which image and why.
pub proof fn law_failed_upload_ends_the_turn(t: TurnView, e: Seq<char>, cancelled: bool)
    requires
        t.phase is Uploading,
    ensures
        ({
            let (next, actions) = stepped(t, TurnEventView::UploadFailed(e), cancelled);
            &&& next.session == t.session
            &&& next.phase is Done
            &&& actions.len() == 2
            &&& actions[0] == TurnActionView::Send(
                SessionUpdateView::ToolCallUpdate {
                    id: t.setting.upload_id,
                    status: ToolStatus::Failed,
                    content: "Upload image "@ + text::decimal(t.refs.len() + 1) + "/"@
                        + text::decimal(t.images.len()) + " échoué: "@ + e,
                },
            )
            &&& actions[1] == TurnActionView::Respond(StopReason::Refusal)
        }),
{
}

/// A request that started is listened to. Its answer begins with reasoning where
/// the model of the session is one of the two that think, and nothing of it has
/// been read yet.
pub proof fn law_started_request_is_listened_to(t: TurnView, cancelled: bool)
    requires
        t.phase is Starting,
    ensures
        ({
            let (next, actions) = stepped(t, TurnEventView::StreamStarted, cancelled);
            &&& actions == seq![TurnActionView::Receive]
            &&& next.session == t.session
            &&& next.phase matches PhaseView::Streaming { thought, kept, assistant } && kept.len()
                == 0 && assistant.len() == 0 && thought.pending.len() == 0 && (
            models::resolution(t.session.model, models::DEFAULT_MODEL@) matches Ok(m) ==> (
            thought.phase == thought::ThoughtPhase::Thinking <==> m.mode == 2 || m.mode == 5) && (
            thought.phase == thought::ThoughtPhase::Response <==> m.mode != 2 && m.mode != 5))
        }),
{
}

/// What arrives of an answer is added to it and shown: a delta without `<` at
/// once and as it is. The session does not change while the answer streams.
pub proof fn law_delta_is_shown(
    t: TurnView,
    thought: ThoughtState,
    assistant: Seq<char>,
    delta: Seq<char>,
    cancelled: bool,
)
    requires
        t.phase == (PhaseView::Streaming { thought, kept: Seq::empty(), assistant }),
        thought.phase == thought::ThoughtPhase::Response,
        delta.len() > 0,
        !delta.contains('<'),
    ensures
        stepped(t, TurnEventView::Delta(delta), cancelled) == (
            TurnView {
                phase: PhaseView::Streaming {
                    thought,
                    kept: Seq::empty(),
                    assistant: assistant + delta,
                },
                ..t
            },
            seq![
                TurnActionView::Send(
                    SessionUpdateView::AgentMessageChunk {
                        message_id: t.setting.message_id,
                        text: delta,
                    },
                ),
                TurnActionView::Receive,
            ],
        ),
{
    follow_up::law_text_comes_out_at_once(delta);
    assert(Seq::<char>::empty() + delta =~= delta);
    reveal_with_fuel(told, 2);
    let events = seq![ThoughtEventView::ResponseChunk(delta)];
    assert(events.drop_last() =~= Seq::<ThoughtEventView>::empty());
    let actions = stepped(t, TurnEventView::Delta(delta), cancelled).1;
    assert(actions =~= seq![
        TurnActionView::Send(
            SessionUpdateView::AgentMessageChunk {
                message_id: t.setting.message_id,
                text: delta,
            },
        ),
        TurnActionView::Receive,
    ]);
}

/// The answer that is parsed is all of what the model answered: every delta is
/// added to it whole, also what is not shown yet.
pub proof fn law_answer_is_what_arrived(
    t: TurnView,
    thought: ThoughtState,
    kept: Seq<char>,
    assistant: Seq<char>,
    delta: Seq<char>,
    cancelled: bool,
)
    requires
        t.phase == (PhaseView::Streaming { thought, kept, assistant }),
        thought.phase == thought::ThoughtPhase::Response,
        thought.pending.len() == 0,
    ensures
        ({
            let (next, actions) = stepped(t, TurnEventView::Delta(delta), cancelled);
            &&& next.session == t.session
            &&& actions.last() == TurnActionView::Receive
            &&& next.phase matches PhaseView::Streaming { thought: th, kept: k, assistant: a } && a
                == assistant + delta && th == thought
        }),
        ({
            let (next, actions) = stepped(t, TurnEventView::StreamEnded, cancelled);
            &&& next.session == t.session
            &&& next.phase is Parsing
            &&& actions.last() == TurnActionView::Parse(assistant)
        }),
{
    reveal_with_fuel(told, 2);
    let events = thought::fed(thought, delta).1;
    if delta.len() > 0 {
        assert(events.drop_last() =~= Seq::<ThoughtEventView>::empty());
    } else {
        assert(assistant + delta =~= assistant);
    }
}

/// Reasoning is shown as reasoning and is no part of the answer.
pub proof fn law_reasoning_is_shown_apart(
    t: TurnView,
    thought: ThoughtState,
    kept: Seq<char>,
    assistant: Seq<char>,
    delta: Seq<char>,
    piece: Seq<char>,
    cancelled: bool,
)
    requires
        t.phase == (PhaseView::Streaming { thought, kept, assistant }),
        thought::fed(thought, delta).1 == seq![ThoughtEventView::ThoughtChunk(piece)],
        piece.len() > 0,
    ensures
        ({
            let (next, actions) = stepped(t, TurnEventView::Delta(delta), cancelled);
            &&& actions == seq![
                TurnActionView::Send(
                    SessionUpdateView::AgentThoughtChunk {
                        message_id: t.setting.message_id,
                        text: piece,
                    },
                ),
                TurnActionView::Receive,
            ]
            &&& next.phase matches PhaseView::Streaming { thought: th, kept: k, assistant: a } && a
                == assistant && k == kept
        }),
{
    reveal_with_fuel(told, 2);
    let events = seq![ThoughtEventView::ThoughtChunk(piece)];
    assert(events.drop_last() =~= Seq::<ThoughtEventView>::empty());
    let actions = stepped(t, TurnEventView::Delta(delta), cancelled).1;
    assert(actions =~= seq![
        TurnActionView::Send(
            SessionUpdateView::AgentThoughtChunk {
                message_id: t.setting.message_id,
                text: piece,
            },
        ),
        TurnActionView::Receive,
    ]);
}

/// A stream that failed or was cancelled ends the turn and adds nothing to the
/// session. Of a failure the user is told, and where it speaks of safety or of a
/// block the turn ends as a refusal.
pub proof fn law_broken_stream_ends_the_turn(t: TurnView, e: Seq<char>, cancelled: bool)
    requires
        t.phase is Streaming,
    ensures
        ({
            let (next, actions) = stepped(t, TurnEventView::StreamFailed(e), cancelled);
            let lower = outside::lowercased(e);
            &&& next.session == t.session
            &&& next.phase is Done
            &&& actions.len() >= 2
            &&& actions[actions.len() - 2] == TurnActionView::EmitError(
                error::stream_advice(error::on_one_line(e)),
            )
            &&& text::occurs(lower, "safety"@) || text::occurs(lower, "block"@) ==> actions.last()
                == TurnActionView::Respond(StopReason::Refusal)
            &&& !text::occurs(lower, "safety"@) && !text::occurs(lower, "block"@) ==> actions.last()
                == TurnActionView::Respond(StopReason::EndTurn)
        }),
        ({
            let (next, actions) = stepped(t, TurnEventView::StreamCancelled, cancelled);
            &&& next.session == t.session
            &&& next.phase is Done
            &&& actions.last() == TurnActionView::Respond(StopReason::Cancelled)
        }),
{
}

/// An answer without calls ends the turn: the session keeps it as the
/// assistant's, unless it is blank, and is saved; the use of the view is told
/// over the prompt of the session so ended and the answer.
pub proof fn law_answer_is_kept(
    t: TurnView,
    answer: Seq<char>,
    calls: Seq<ToolRequestView>,
    cancelled: bool,
)
    requires
        t.phase is Parsing,
        calls.len() == 0 || !t.session.tools_enabled || !t.setting.has_tools,
    ensures
        ({
            let said = t.session.messages.push(MessageView { role: Role::Assistant, text: answer });
            let (next, actions) = stepped(
                t,
                TurnEventView::Answer { text: answer, calls },
                cancelled,
            );
            &&& text::trimmed(answer).len() > 0 ==> next.session.messages == said
            &&& text::trimmed(answer).len() == 0 ==> next.session == t.session
            &&& same_but_messages(next.session, t.session)
            &&& next.phase is Done
            &&& actions == seq![
                TurnActionView::Send(
                    SessionUpdateView::Usage {
                        used: ((prompt_of(next.session, t.setting).len() + answer.len()) / 4) as nat,
                        size: 1_000_000,
                        cost: None,
                    },
                ),
                TurnActionView::Save,
                TurnActionView::Respond(StopReason::EndTurn),
            ]
        }),
{
}

/// An answer with calls is kept with the calls behind it, and the first of them
/// is run, as it was made.
pub proof fn law_first_call_is_run(
    t: TurnView,
    answer: Seq<char>,
    calls: Seq<ToolRequestView>,
)
    requires
        t.phase is Parsing,
        calls.len() > 0,
        t.session.tools_enabled,
        t.setting.has_tools,
        calls[0].name != "FollowUp"@,
    ensures
        ({
            let (next, actions) = stepped(t, TurnEventView::Answer { text: answer, calls }, false);
            let blocks = text::joined(
                Seq::new(calls.len(), |i: int| calls[i].history_block),
                "\n"@,
            );
            let entry = if answer.len() == 0 {
                blocks
            } else {
                answer + "\n"@ + blocks
            };
            &&& next.session.messages == t.session.messages.push(
                MessageView { role: Role::Assistant, text: entry },
            )
            &&& same_but_messages(next.session, t.session)
            &&& next.round == t.round
            &&& next.phase == (PhaseView::Tools { calls, next: 0, answer })
            &&& actions == seq![
                TurnActionView::Execute { name: calls[0].name, arguments: calls[0].arguments },
            ]
        }),
{
    assert(blocks_of(calls) =~= Seq::new(calls.len(), |i: int| calls[i].history_block));
}

/// The result of a tool is added to the session, and the next call is run; after
/// the last one the model is asked again, and what it reads ends with the
/// result.
pub proof fn law_result_reaches_the_model(
    t: TurnView,
    calls: Seq<ToolRequestView>,
    at: int,
    answer: Seq<char>,
    line: Seq<char>,
)
    requires
        t.phase == (PhaseView::Tools { calls, next: at, answer }),
        0 <= at < calls.len(),
        0 <= t.round < 20,
    ensures
        ({
            let said = t.session.messages.push(MessageView { role: Role::Tool, text: line });
            let (next, actions) = stepped(t, TurnEventView::ToolFinished(line), false);
            &&& at + 1 < calls.len() && calls[at + 1].name != "FollowUp"@ ==> {
                &&& next.session.messages == said
                &&& next.phase == (PhaseView::Tools { calls, next: at + 1, answer })
                &&& next.round == t.round
                &&& actions == seq![
                    TurnActionView::Execute {
                        name: calls[at + 1].name,
                        arguments: calls[at + 1].arguments,
                    },
                ]
            }
            &&& at + 1 == calls.len() && t.round < 19 ==> {
                &&& compaction::size_of(said) <= 900_000 ==> next.session.messages == said
                &&& next.round == t.round + 1
                &&& actions.len() == 1
                &&& asks(actions[0], t, "[Tool result]: "@ + line + "\n\n"@)
            }
            &&& same_but_messages(next.session, t.session)
        }),
{
    let u = TurnView { session: t.session.said(Role::Tool, line), ..t };
    assemble::law_message_stands_behind_its_author(line);
    assert(u.session.messages.last() == MessageView { role: Role::Tool, text: line });
    if t.round < 19 {
        lemma_round_asks(u, t.round + 1);
    }
}

/// After twenty rounds the turn ends, though the last answer made calls: the
/// results are kept, nothing more is asked, and the note that says so is no part
/// of the session.
pub proof fn law_twenty_rounds_are_enough(
    t: TurnView,
    calls: Seq<ToolRequestView>,
    answer: Seq<char>,
    line: Seq<char>,
    cancelled: bool,
)
    requires
        t.round == 19,
        calls.len() > 0,
        t.phase == (PhaseView::Tools { calls, next: calls.len() - 1, answer }),
    ensures
        ({
            let (next, actions) = stepped(t, TurnEventView::ToolFinished(line), cancelled);
            &&& next.session.messages == t.session.messages.push(
                MessageView { role: Role::Tool, text: line },
            )
            &&& next.phase is Done
            &&& actions.last() == TurnActionView::Respond(StopReason::EndTurn)
            &&& actions.contains(TurnActionView::Save)
            &&& forall|i: int| 0 <= i < actions.len() ==> !(#[trigger] actions[i] is Start)
        }),
{
    let (next, actions) = stepped(t, TurnEventView::ToolFinished(line), cancelled);
    assert(actions[1] == TurnActionView::Save);
}

/// A next step is offered to the user with its label and its query, without the
/// white space at their ends; one without a label has a general one, and one
/// without a query is not offered: the turn then ends with the answer.
pub proof fn law_next_step_is_offered(
    t: TurnView,
    answer: Seq<char>,
    call: ToolRequestView,
    label: Seq<char>,
    query: Seq<char>,
)
    requires
        t.phase is Parsing,
        t.session.tools_enabled,
        t.setting.has_tools,
        call.name == "FollowUp"@,
        call.arguments.get("query"@) == Some(JsonView::Text(query)),
        text::trimmed(query).len() > 0,
    ensures
        ({
            let (next, actions) = stepped(
                t,
                TurnEventView::Answer { text: answer, calls: seq![call] },
                false,
            );
            &&& call.arguments.get("label"@) == Some(JsonView::Text(label)) && text::trimmed(
                label,
            ).len() > 0 ==> actions == seq![
                TurnActionView::AskFollowUp {
                    label: text::trimmed(label),
                    query: text::trimmed(query),
                },
            ] && next.phase == (PhaseView::Asking { answer })
            &&& call.arguments.get("label"@) is None ==> actions == seq![
                TurnActionView::AskFollowUp {
                    label: "Suggested next step"@,
                    query: text::trimmed(query),
                },
            ] && next.phase == (PhaseView::Asking { answer })
        }),
{
    reveal_strlit("Suggested next step");
    let general = "Suggested next step"@;
    let nothing = Seq::<char>::empty();
    text::law_trimming_takes_white_space_only(nothing, general, nothing);
    assert(nothing + general + nothing =~= general);
}

/// A request that could not be started because the prompt was too long is tried
/// once more with a history brought down to 700 000 bytes; the second time the
/// turn ends for that reason. Any other failure ends the turn and is told. No
/// failure adds anything to the session.
pub proof fn law_failed_start(t: TurnView, e: Seq<char>, chain: Seq<char>)
    requires
        t.phase is Starting,
        t.session.messages.len() > 0,
        0 <= t.round,
    ensures
        ({
            let (next, actions) = stepped(
                t,
                TurnEventView::StartFailed { error: e, chain },
                false,
            );
            let too_long = text::occurs(e, "context"@) || text::occurs(e, "too long"@)
                || text::occurs(e, "tokens"@);
            &&& too_long && t.retries == 0 && t.round + 1 < 20 ==> {
                let less = compaction::compacted(t.session.messages, 700_000);
                &&& next.retries == 1
                &&& next.round == t.round + 1
                &&& compaction::size_of(less) <= 900_000 ==> next.session.messages == less
                &&& actions.len() == 1
                &&& asks(actions[0], t, assemble::entry(t.session.messages.last()))
            }
            &&& too_long && t.retries == 1 ==> {
                &&& next.session == t.session
                &&& next.phase is Done
                &&& actions == seq![
                    TurnActionView::EmitError(
                        "Context overflow persisted after emergency compaction: "@ + chain,
                    ),
                    TurnActionView::Respond(StopReason::MaxTokens),
                ]
            }
            &&& !too_long ==> {
                &&& next.session == t.session
                &&& next.phase is Done
                &&& actions == seq![
                    TurnActionView::EmitError(error::error_advice(error::on_one_line(chain))),
                    TurnActionView::Respond(StopReason::EndTurn),
                ]
            }
        }),
{
    let messages = t.session.messages;
    let less = compaction::compacted(messages, 700_000);
    compaction::law_last_message_stays(messages, 700_000);
    let u = TurnView {
        session: SessionView { messages: less, ..t.session },
        retries: t.retries + 1,
        ..t
    };
    if t.round + 1 < 20 {
        lemma_round_asks(u, t.round + 1);
    }
}

/// A turn that is cancelled between two rounds or two calls answers that it was;
/// what the tools gave so far is kept.
pub proof fn law_cancelled_turn_says_so(
    t: TurnView,
    calls: Seq<ToolRequestView>,
    at: int,
    answer: Seq<char>,
    line: Seq<char>,
)
    requires
        t.phase == (PhaseView::Tools { calls, next: at, answer }),
        0 <= at < calls.len(),
        0 <= t.round < 19,
    ensures
        ({
            let (next, actions) = stepped(t, TurnEventView::ToolFinished(line), true);
            &&& next.session.messages == t.session.messages.push(
                MessageView { role: Role::Tool, text: line },
            )
            &&& next.phase is Done
            &&& actions == seq![TurnActionView::Respond(StopReason::Cancelled)]
        }),
{
}

/// The prompt of a session is its system text, its tools where they are enabled,
/// and its history.
pub proof fn law_prompt_of_a_session(session: SessionView, setting: SettingView, section: Seq<char>)
    requires
        session.messages.len() > 0,
    ensures
        setting.tools_section == Some(section) && session.tools_enabled ==> begins_with(
            prompt_of(session, setting),
            setting.system + section + "\n\n"@,
        ),
        begins_with(prompt_of(session, setting), setting.system),
        ends_in(prompt_of(session, setting), assemble::entry(session.messages.last())),
{
    let pre = assemble::preamble(setting.system, session.tools_enabled, setting.tools_section);
    assemble::law_present_message_is_whole(pre, session.messages);
    let prompt = prompt_of(session, setting);
    let n = setting.system.len() as int;
    assert(pre.take(n) =~= setting.system);
    assert(prompt.take(pre.len() as int).take(n) =~= prompt.take(n));
}

/// Reasoning that is still kept back when the stream ends is shown as reasoning,
/// and is no part of the answer.
pub proof fn law_last_reasoning_is_shown(
    t: TurnView,
    thought: ThoughtState,
    assistant: Seq<char>,
    cancelled: bool,
)
    requires
        t.phase == (PhaseView::Streaming { thought, kept: Seq::empty(), assistant }),
        thought.phase == thought::ThoughtPhase::Thinking,
        thought.pending.len() > 0,
    ensures
        stepped(t, TurnEventView::StreamEnded, cancelled).1 == seq![
            TurnActionView::Send(
                SessionUpdateView::AgentThoughtChunk {
                    message_id: t.setting.message_id,
                    text: thought.pending,
                },
            ),
            TurnActionView::Parse(assistant),
        ],
{
    reveal_with_fuel(told, 3);
    let events = thought::finished(thought).1;
    let first = seq![ThoughtEventView::ThoughtChunk(thought.pending)];
    assert(events =~= seq![
        ThoughtEventView::ThoughtChunk(thought.pending),
        ThoughtEventView::ThoughtEnd,
    ]);
    assert(events.drop_last() =~= first);
    assert(first.drop_last() =~= Seq::<ThoughtEventView>::empty());
    follow_up::lemma_filtered_empty();
    let nothing = Seq::<char>::empty();
    assert(follow_up::without_components(nothing) =~= nothing) by {
        follow_up::law_rest_is_flushed(nothing);
        text::lemma_occurs(nothing, follow_up::FOLLOW_UP_MARKER@);
    }
    assert(stepped(t, TurnEventView::StreamEnded, cancelled).1 =~= seq![
        TurnActionView::Send(
            SessionUpdateView::AgentThoughtChunk {
                message_id: t.setting.message_id,
                text: thought.pending,
            },
        ),
        TurnActionView::Parse(assistant),
    ]);
}

/// The client sees that images are being uploaded, and how many.
pub proof fn law_upload_is_shown(
    session: SessionView,
    setting: SettingView,
    blocks: Seq<ContentBlock>,
    cancelled: bool,
)
    requires
        content::blocks_images(blocks).len() > 0,
    ensures
        ({
            let actions = begun(session, setting, blocks, cancelled).1;
            &&& actions.len() >= 2
            &&& actions[actions.len() - 2] matches TurnActionView::Send(
                SessionUpdateView::ToolCall(card),
            ) && card.id == setting.upload_id && card.status == ToolStatus::InProgress && card.kind
                == ToolKind::Fetch && card.title == "Upload "@ + text::decimal(
                content::blocks_images(blocks).len(),
            ) + " image(s) (Scotty)"@
        }),
{
}

/// A next step that has nothing to ask is not offered: the turn ends with the
/// answer, which was kept with its calls and is kept by itself too.
pub proof fn law_empty_step_ends_the_turn(
    t: TurnView,
    answer: Seq<char>,
    call: ToolRequestView,
    query: Seq<char>,
)
    requires
        t.phase is Parsing,
        t.session.tools_enabled,
        t.setting.has_tools,
        call.name == "FollowUp"@,
        call.arguments.get("query"@) == Some(JsonView::Text(query)),
        text::trimmed(query).len() == 0,
        text::trimmed(answer).len() > 0,
    ensures
        ({
            let (next, actions) = stepped(
                t,
                TurnEventView::Answer { text: answer, calls: seq![call] },
                false,
            );
            &&& next.phase is Done
            &&& actions.last() == TurnActionView::Respond(StopReason::EndTurn)
            &&& next.session.messages.last() == (MessageView {
                role: Role::Assistant,
                text: answer,
            })
            &&& next.session.messages.len() == t.session.messages.len() + 2
        }),
{
}

/// What the user said stays in the session though the turn is cancelled before
/// it is asked, or no round is left to ask it.
pub proof fn law_what_was_said_stays(
    session: SessionView,
    setting: SettingView,
    blocks: Seq<ContentBlock>,
    t: TurnView,
    q: Seq<char>,
)
    requires
        content::blocks_images(blocks).len() == 0,
        t.phase is Asking,
    ensures
        ({
            let user = text::trimmed_end(content::blocks_text(blocks));
            let (first, actions) = begun(session, setting, blocks, true);
            &&& first.session.messages == session.messages.push(
                MessageView { role: Role::User, text: user },
            )
            &&& first.phase is Done
            &&& actions.last() == TurnActionView::Respond(StopReason::Cancelled)
        }),
        t.round == 19 ==> {
            let (next, actions) = stepped(t, TurnEventView::FollowUpChosen(Some(q)), false);
            &&& next.session.messages == t.session.messages.push(
                MessageView { role: Role::User, text: q },
            )
            &&& next.phase is Done
            &&& actions.last() == TurnActionView::Respond(StopReason::EndTurn)
        },
        t.round < 19 ==> {
            let (next, actions) = stepped(t, TurnEventView::FollowUpChosen(Some(q)), true);
            &&& next.session.messages == t.session.messages.push(
                MessageView { role: Role::User, text: q },
            )
            &&& next.phase is Done
            &&& actions == seq![TurnActionView::Respond(StopReason::Cancelled)]
        },
{
    text::law_white_space_is_blank(Seq::empty());
}

} // verus!
