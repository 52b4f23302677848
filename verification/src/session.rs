//! A session: what has been said, and how the model is to answer.

use crate::json::{Json, JsonView};
use crate::text;
use vstd::prelude::*;
use vstd::string::*;

verus! {

/// Who wrote a message.
#[derive(Debug, Clone, Copy, PartialEq, Eq, Structural)]
pub enum Role {
    User,
    Assistant,
    Tool,
}

/// What a session lets its tools do without asking.
#[derive(Debug, Clone, Copy, PartialEq, Eq, Structural)]
pub enum SessionMode {
    Default,
    AcceptEdits,
    BypassPermissions,
}

/// A message, with its text as a sequence of characters.
pub struct MessageView {
    pub role: Role,
    pub text: Seq<char>,
}

pub open spec fn message_view(m: (Role, String)) -> MessageView {
    MessageView { role: m.0, text: m.1@ }
}

pub open spec fn messages_view(messages: Seq<(Role, String)>) -> Seq<MessageView> {
    Seq::new(messages.len(), |i: int| message_view(messages[i]))
}

pub proof fn lemma_messages_push(messages: Seq<(Role, String)>, m: (Role, String))
    ensures
        messages_view(messages.push(m)) == messages_view(messages).push(message_view(m)),
{
    assert(messages_view(messages.push(m)) =~= messages_view(messages).push(message_view(m)));
}

/// A session.
#[derive(Debug)]
pub struct Session {
    pub title: Option<String>,
    pub messages: Vec<(Role, String)>,
    pub model: String,
    /// The level of thinking, where one was chosen.
    pub think: Option<u32>,
    pub tools_enabled: bool,
    pub mode: SessionMode,
}

pub struct SessionView {
    pub title: Option<Seq<char>>,
    pub messages: Seq<MessageView>,
    pub model: Seq<char>,
    pub think: Option<u32>,
    pub tools_enabled: bool,
    pub mode: SessionMode,
}

impl View for Session {
    type V = SessionView;

    open spec fn view(&self) -> SessionView {
        SessionView {
            title: text::option_view(self.title),
            messages: messages_view(self.messages@),
            model: self.model@,
            think: self.think,
            tools_enabled: self.tools_enabled,
            mode: self.mode,
        }
    }
}

impl SessionView {
    /// The session with one more message.
    pub open spec fn said(self, role: Role, text: Seq<char>) -> SessionView {
        SessionView { messages: self.messages.push(MessageView { role, text }), ..self }
    }
}

impl Session {
    /// A session in which nothing has been said yet.
    pub fn new(model: &str) -> (r: Session)
        ensures
            r@ == (SessionView {
                title: None,
                messages: Seq::empty(),
                model: model@,
                think: None,
                tools_enabled: true,
                mode: SessionMode::Default,
            }),
    {
        let messages: Vec<(Role, String)> = Vec::new();
        proof {
            assert(messages_view(messages@) =~= Seq::empty());
        }
        Session {
            title: None,
            messages,
            model: model.to_owned(),
            think: None,
            tools_enabled: true,
            mode: SessionMode::Default,
        }
    }

    /// Adds a message.
    pub fn say(&mut self, role: Role, text: String)
        ensures
            final(self)@ == old(self)@.said(role, text@),
    {
        proof {
            lemma_messages_push(self.messages@, (role, text));
        }
        self.messages.push((role, text));
    }
}

// ---------------------------------------------------------------------------
// Laws
// ---------------------------------------------------------------------------


/// What is said is added behind all that was said before, and nothing else of
/// the session changes.
pub proof fn law_said_is_added(s: SessionView, role: Role, t: Seq<char>)
    ensures
        s.said(role, t).messages == s.messages.push(MessageView { role, text: t }),
        s.said(role, t).title == s.title,
        s.said(role, t).model == s.model,
        s.said(role, t).think == s.think,
        s.said(role, t).tools_enabled == s.tools_enabled,
        s.said(role, t).mode == s.mode,
{
}

} // verus!
