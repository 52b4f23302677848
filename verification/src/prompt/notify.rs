//! What the client is told while a turn runs.

use crate::json::{Json, JsonView};
use crate::text;
use vstd::prelude::*;
use vstd::string::*;

verus! {

/// The tokens that a model of the service can hold in view.
pub const CONTEXT_TOKENS: u64 = 1_000_000;

/// How much of the model's view is in use.
#[derive(Debug, PartialEq, Eq)]
pub struct UsageUpdate {
    pub used: u64,
    pub size: u64,
    /// What it cost, where that is known.
    pub cost: Option<String>,
}

/// What a tool call does.
#[derive(Debug, Clone, Copy, PartialEq, Eq, Structural)]
pub enum ToolKind {
    Fetch,
    Other,
}

/// How far a tool call is.
#[derive(Debug, Clone, Copy, PartialEq, Eq, Structural)]
pub enum ToolStatus {
    Pending,
    InProgress,
    Completed,
    Failed,
}

/// A tool call as the client shows it.
#[derive(Debug, PartialEq)]
pub struct ToolCard {
    pub id: String,
    pub title: String,
    pub kind: ToolKind,
    pub status: ToolStatus,
    /// The text on the card, where there is one.
    pub content: Option<String>,
    pub raw_input: Option<Json>,
    pub meta: Option<Json>,
}

/// Something that the client is told of a session.
#[derive(Debug, PartialEq)]
pub enum SessionUpdate {
    AgentMessageChunk { message_id: String, text: String },
    AgentThoughtChunk { message_id: String, text: String },
    SessionInfo { title: String },
    Usage(UsageUpdate),
    ToolCall(ToolCard),
    ToolCallUpdate { id: String, status: ToolStatus, content: String },
}

pub struct ToolCardView {
    pub id: Seq<char>,
    pub title: Seq<char>,
    pub kind: ToolKind,
    pub status: ToolStatus,
    pub content: Option<Seq<char>>,
    pub raw_input: Option<JsonView>,
    pub meta: Option<JsonView>,
}

pub enum SessionUpdateView {
    AgentMessageChunk { message_id: Seq<char>, text: Seq<char> },
    AgentThoughtChunk { message_id: Seq<char>, text: Seq<char> },
    SessionInfo { title: Seq<char> },
    Usage { used: nat, size: nat, cost: Option<Seq<char>> },
    ToolCall(ToolCardView),
    ToolCallUpdate { id: Seq<char>, status: ToolStatus, content: Seq<char> },
}

pub open spec fn json_option(j: Option<Json>) -> Option<JsonView> {
    match j {
        Some(v) => Some(v@),
        None => None,
    }
}

impl View for ToolCard {
    type V = ToolCardView;

    open spec fn view(&self) -> ToolCardView {
        ToolCardView {
            id: self.id@,
            title: self.title@,
            kind: self.kind,
            status: self.status,
            content: text::option_view(self.content),
            raw_input: json_option(self.raw_input),
            meta: json_option(self.meta),
        }
    }
}

impl View for SessionUpdate {
    type V = SessionUpdateView;

    open spec fn view(&self) -> SessionUpdateView {
        match *self {
            SessionUpdate::AgentMessageChunk { message_id, text } =>
                SessionUpdateView::AgentMessageChunk { message_id: message_id@, text: text@ },
            SessionUpdate::AgentThoughtChunk { message_id, text } =>
                SessionUpdateView::AgentThoughtChunk { message_id: message_id@, text: text@ },
            SessionUpdate::SessionInfo { title } => SessionUpdateView::SessionInfo {
                title: title@,
            },
            SessionUpdate::Usage(u) => SessionUpdateView::Usage {
                used: u.used as nat,
                size: u.size as nat,
                cost: text::option_view(u.cost),
            },
            SessionUpdate::ToolCall(card) => SessionUpdateView::ToolCall(card@),
            SessionUpdate::ToolCallUpdate { id, status, content } =>
                SessionUpdateView::ToolCallUpdate { id: id@, status, content: content@ },
        }
    }
}

/// The tokens that a prompt and its answer take, by the rule of four
/// characters a token.
pub open spec fn tokens_used(prompt: Seq<char>, assistant: Seq<char>) -> nat {
    (prompt.len() + assistant.len()) / 4
}

/// The update that tells how much of the view is in use.
pub open spec fn usage_view(prompt: Seq<char>, assistant: Seq<char>) -> SessionUpdateView {
    SessionUpdateView::Usage {
        used: tokens_used(prompt, assistant),
        size: CONTEXT_TOKENS as nat,
        cost: None,
    }
}

/// A rough count of the tokens in view.
pub fn usage_update(prompt: &str, assistant: &str) -> (r: UsageUpdate)
    ensures
        r.used == tokens_used(prompt@, assistant@),
        r.size == CONTEXT_TOKENS,
        r.cost is None,
{
    let chars: u128 = text::char_count(prompt) as u128 + text::char_count(assistant) as u128;
    UsageUpdate { used: (chars / 4) as u64, size: CONTEXT_TOKENS, cost: None }
}

/// A piece of the answer.
pub fn notify_text(message_id: &str, text: String) -> (r: SessionUpdate)
    ensures
        r@ == (SessionUpdateView::AgentMessageChunk { message_id: message_id@, text: text@ }),
{
    SessionUpdate::AgentMessageChunk { message_id: message_id.to_owned(), text }
}

/// How much of the view is in use at the end of a turn.
pub fn notify_usage(prompt: &str, assistant: &str) -> (r: SessionUpdate)
    ensures
        r@ == usage_view(prompt@, assistant@),
{
    SessionUpdate::Usage(usage_update(prompt, assistant))
}

// ---------------------------------------------------------------------------
// Laws
// ---------------------------------------------------------------------------


/// The use that is told is a quarter of the characters of the prompt and the
/// answer, out of a million.
pub proof fn law_usage_counts_characters(prompt: Seq<char>, assistant: Seq<char>)
    ensures
        usage_view(prompt, assistant) == (SessionUpdateView::Usage {
            used: ((prompt.len() + assistant.len()) / 4) as nat,
            size: 1_000_000,
            cost: None,
        }),
{
}

} // verus!
