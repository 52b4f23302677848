//! The options of a session that the client can change: the model, the level
//! of thinking, and whether tools may be used.

use crate::gemini::models;
use crate::json::{Json, JsonView};
use crate::lifecycle::{Reply, ReplyView};
use crate::session::{Session, SessionView};
use crate::text;
use vstd::prelude::*;
use vstd::string::*;

verus! {

/// What an option is about.
#[derive(Debug, Clone, Copy, PartialEq, Eq, Structural)]
pub enum OptionCategory {
    Model,
    ThoughtLevel,
}

/// A value that an option can take, with its name.
#[derive(Debug, PartialEq, Eq)]
pub struct OptionChoice {
    pub value: String,
    pub name: String,
}

/// An option, with its present value and those that it can take.
#[derive(Debug, PartialEq, Eq)]
pub struct ConfigOption {
    pub id: String,
    pub name: String,
    pub category: OptionCategory,
    pub current: String,
    pub choices: Vec<OptionChoice>,
}

pub struct ChoiceView {
    pub value: Seq<char>,
    pub name: Seq<char>,
}

pub struct ConfigOptionView {
    pub id: Seq<char>,
    pub name: Seq<char>,
    pub category: OptionCategory,
    pub current: Seq<char>,
    pub choices: Seq<ChoiceView>,
}

impl View for OptionChoice {
    type V = ChoiceView;

    open spec fn view(&self) -> ChoiceView {
        ChoiceView { value: self.value@, name: self.name@ }
    }
}

pub open spec fn choices_view(choices: Seq<OptionChoice>) -> Seq<ChoiceView> {
    Seq::new(choices.len(), |i: int| choices[i]@)
}

impl View for ConfigOption {
    type V = ConfigOptionView;

    open spec fn view(&self) -> ConfigOptionView {
        ConfigOptionView {
            id: self.id@,
            name: self.name@,
            category: self.category,
            current: self.current@,
            choices: choices_view(self.choices@),
        }
    }
}

pub open spec fn options_view(options: Seq<ConfigOption>) -> Seq<ConfigOptionView> {
    Seq::new(options.len(), |i: int| options[i]@)
}

/// The models that can be chosen, each under its key.
pub open spec fn model_choices() -> Seq<ChoiceView> {
    Seq::new(
        8,
        |i: int| ChoiceView { value: models::MODEL_KEYS@[i]@, name: models::MODEL_KEYS@[i]@ },
    )
}

/// The levels of thinking that can be chosen.
pub open spec fn think_choices() -> Seq<ChoiceView> {
    Seq::new(
        5,
        |i: int|
            ChoiceView {
                value: text::decimal(i as nat),
                name: "Réflexion "@ + text::decimal(i as nat),
            },
    )
}

pub open spec fn tools_choices() -> Seq<ChoiceView> {
    seq![
        ChoiceView { value: "true"@, name: "Activé"@ },
        ChoiceView { value: "false"@, name: "Désactivé"@ },
    ]
}

/// The level of thinking that is in force: the chosen one, else that of the
/// model.
pub open spec fn level_in_force(model: Seq<char>, think: Option<u32>) -> u32 {
    match think {
        Some(t) => t,
        None => match models::resolution(model, models::DEFAULT_MODEL@) {
            Ok(m) => m.think,
            Err(_) => 4,
        },
    }
}

/// The three options.
pub open spec fn options_of(model: Seq<char>, think: Option<u32>, tools_enabled: bool) -> Seq<
    ConfigOptionView,
> {
    seq![
        ConfigOptionView {
            id: "model"@,
            name: "Modèle"@,
            category: OptionCategory::Model,
            current: model,
            choices: model_choices(),
        },
        ConfigOptionView {
            id: "think"@,
            name: "Réflexion"@,
            category: OptionCategory::ThoughtLevel,
            current: text::decimal(level_in_force(model, think) as nat),
            choices: think_choices(),
        },
        ConfigOptionView {
            id: "tools_enabled"@,
            name: "Outils (file, shell, search)"@,
            category: OptionCategory::Model,
            current: if tools_enabled {
                "true"@
            } else {
                "false"@
            },
            choices: tools_choices(),
        },
    ]
}

fn choice(value: &str, name: &str) -> (r: OptionChoice)
    ensures
        r@ == (ChoiceView { value: value@, name: name@ }),
{
    OptionChoice { value: value.to_owned(), name: name.to_owned() }
}

fn build_model_choices() -> (r: Vec<OptionChoice>)
    ensures
        choices_view(r@) == model_choices(),
{
    let keys = models::MODEL_KEYS;
    let mut out: Vec<OptionChoice> = Vec::new();
    let mut i: usize = 0;
    while i < 8
        invariant
            i <= 8,
            keys == models::MODEL_KEYS,
            choices_view(out@) =~= model_choices().take(i as int),
        decreases 8 - i,
    {
        let ghost before = out@;
        let c = choice(keys[i], keys[i]);
        proof {
            assert(choices_view(before.push(c)) =~= choices_view(before).push(c@));
        }
        out.push(c);
        i += 1;
    }
    proof {
        assert(choices_view(out@) =~= model_choices());
    }
    out
}

fn build_think_choices() -> (r: Vec<OptionChoice>)
    ensures
        choices_view(r@) == think_choices(),
{
    let mut out: Vec<OptionChoice> = Vec::new();
    let mut i: u64 = 0;
    while i < 5
        invariant
            i <= 5,
            choices_view(out@) =~= think_choices().take(i as int),
        decreases 5 - i,
    {
        let ghost before = out@;
        let n = text::decimal_text(i);
        let name = text::cat("Réflexion ", n.as_str());
        let c = OptionChoice { value: n, name };
        proof {
            assert(choices_view(before.push(c)) =~= choices_view(before).push(c@));
        }
        out.push(c);
        i += 1;
    }
    proof {
        assert(choices_view(out@) =~= think_choices());
    }
    out
}

/// The options of a session: the model, the level of thinking, the tools.
pub fn build_config_options(model: &str, think: Option<u32>, tools_enabled: bool) -> (r: Vec<
    ConfigOption,
>)
    ensures
        options_view(r@) == options_of(model@, think, tools_enabled),
{
    let level: u32 = match think {
        Some(t) => t,
        None => match models::resolve(model, models::DEFAULT_MODEL) {
            Ok(m) => m.think,
            Err(_) => 4,
        },
    };
    let mut tools: Vec<OptionChoice> = Vec::new();
    tools.push(choice("true", "Activé"));
    tools.push(choice("false", "Désactivé"));
    proof {
        assert(choices_view(tools@) =~= tools_choices());
    }
    let mut out: Vec<ConfigOption> = Vec::new();
    out.push(
        ConfigOption {
            id: "model".to_owned(),
            name: "Modèle".to_owned(),
            category: OptionCategory::Model,
            current: model.to_owned(),
            choices: build_model_choices(),
        },
    );
    out.push(
        ConfigOption {
            id: "think".to_owned(),
            name: "Réflexion".to_owned(),
            category: OptionCategory::ThoughtLevel,
            current: text::decimal_text(level as u64),
            choices: build_think_choices(),
        },
    );
    out.push(
        ConfigOption {
            id: "tools_enabled".to_owned(),
            name: "Outils (file, shell, search)".to_owned(),
            category: OptionCategory::Model,
            current: if tools_enabled {
                "true".to_owned()
            } else {
                "false".to_owned()
            },
            choices: tools,
        },
    );
    proof {
        assert(options_view(out@) =~= options_of(model@, think, tools_enabled));
    }
    out
}

/// What the agent can do with sessions.
#[derive(Debug, Clone, Copy, PartialEq, Eq, Structural)]
pub struct AgentCapabilities {
    pub list: bool,
    pub delete: bool,
    pub close: bool,
    pub fork: bool,
}

/// What the agent says that it can do.
pub fn build_agent_capabilities() -> (r: AgentCapabilities)
    ensures
        r.list && r.delete && r.close && r.fork,
{
    AgentCapabilities { list: true, delete: true, close: true, fork: true }
}

// ---------------------------------------------------------------------------
// Changing an option
// ---------------------------------------------------------------------------

/// A text that means yes.
pub open spec fn means_on(lower: Seq<char>) -> bool {
    lower == "true"@ || lower == "1"@ || lower == "on"@ || lower == "yes"@
}

/// A text that means no.
pub open spec fn means_off(lower: Seq<char>) -> bool {
    lower == "false"@ || lower == "0"@ || lower == "off"@ || lower == "no"@
}

/// The session after an option was set. A value that the option cannot take,
/// and an option that is not known, change nothing.
pub open spec fn with_option(s: SessionView, id: Seq<char>, value: Seq<char>) -> SessionView {
    if id == "model"@ {
        SessionView { model: value, ..s }
    } else if id == "think"@ {
        match models::level_value(value) {
            Some(level) => SessionView { think: Some(level), ..s },
            None => s,
        }
    } else if id == "tools_enabled"@ {
        let lower = text::ascii_lowered(value);
        if means_on(lower) {
            SessionView { tools_enabled: true, ..s }
        } else if means_off(lower) {
            SessionView { tools_enabled: false, ..s }
        } else {
            s
        }
    } else {
        s
    }
}

/// Sets an option of a session. A value that the option cannot take, and an
/// option that is not known, change nothing.
pub fn set_option(session: &mut Session, config_id: &str, value: Option<&str>)
    ensures
        final(session)@ == match value {
            Some(v) => with_option(old(session)@, config_id@, v@),
            None => old(session)@,
        },
{
    let v: &str = match value {
        Some(v) => v,
        None => {
            return;
        },
    };
    if text::same(config_id, "model") {
        session.model = v.to_owned();
    } else if text::same(config_id, "think") {
        match text::parse_unsigned(v, u32::MAX as u64) {
            Some(n) => {
                session.think = Some(
                    if n > 4 {
                        4
                    } else {
                        n as u32
                    },
                );
            },
            None => {},
        }
    } else if text::same(config_id, "tools_enabled") {
        let lower = text::to_ascii_lowercase(v);
        let l = lower.as_str();
        if text::same(l, "true") || text::same(l, "1") || text::same(l, "on") || text::same(
            l,
            "yes",
        ) {
            session.tools_enabled = true;
        } else if text::same(l, "false") || text::same(l, "0") || text::same(l, "off")
            || text::same(l, "no") {
            session.tools_enabled = false;
        }
    }
}

/// The refusal of a session that is not there.
pub open spec fn no_session(id: Seq<char>) -> ReplyView {
    ReplyView::InvalidParams(JsonView::object().with("session_id"@, JsonView::Text(id)))
}

fn refuse_session(id: &str) -> (r: Reply)
    ensures
        r@ == no_session(id@),
{
    Reply::InvalidParams(Json::object().with("session_id", Json::from_text(id)))
}

/// The reply to a request that sets an option: the options of the session as it
/// is afterwards, or why there is none.
pub open spec fn option_reply(
    id: Seq<char>,
    known: bool,
    updated: Result<(), Seq<char>>,
    session: Option<SessionView>,
) -> Result<Seq<ConfigOptionView>, ReplyView> {
    if !known {
        Err(no_session(id))
    } else {
        match (updated, session) {
            (Err(e), _) => Err(ReplyView::Internal(e)),
            (Ok(_), Some(s)) => Ok(options_of(s.model, s.think, s.tools_enabled)),
            (Ok(_), None) => Err(no_session(id)),
        }
    }
}

/// The reply to `session/set_config_option`: the options of the session as it
/// is afterwards. The session must be there before and after the change, and
/// the store must have kept the change.
pub fn handle(id: &str, known: bool, updated: Result<(), String>, session: Option<&Session>) -> (r:
    Result<Vec<ConfigOption>, Reply>)
    ensures
        match r {
            Ok(options) => known && updated is Ok && session is Some && options_view(options@)
                == options_of(
                session->Some_0.model@,
                session->Some_0.think,
                session->Some_0.tools_enabled,
            ),
            Err(reply) => if !known {
                reply@ == no_session(id@)
            } else {
                match updated {
                    Err(e) => reply@ == ReplyView::Internal(e@),
                    Ok(_) => session is None && reply@ == no_session(id@),
                }
            },
        },
        ({
            let given = match updated {
                Ok(_) => Ok(()),
                Err(e) => Err(e@),
            };
            let after = match session {
                Some(s) => Some(s@),
                None => None,
            };
            match r {
                Ok(options) => option_reply(id@, known, given, after) == Ok::<
                    Seq<ConfigOptionView>,
                    ReplyView,
                >(options_view(options@)),
                Err(reply) => option_reply(id@, known, given, after) == Err::<
                    Seq<ConfigOptionView>,
                    ReplyView,
                >(reply@),
            }
        }),
{
    if !known {
        return Err(refuse_session(id));
    }
    match updated {
        Err(e) => Err(Reply::Internal(e)),
        Ok(_) => match session {
            Some(s) => Ok(build_config_options(s.model.as_str(), s.think, s.tools_enabled)),
            None => Err(refuse_session(id)),
        },
    }
}

/// Setting an option never touches what was said, and it leaves the level of
/// thinking within its bounds.
pub proof fn law_option_leaves_history(s: SessionView, id: Seq<char>, value: Seq<char>)
    requires
        s.think matches Some(t) ==> t <= 4,
    ensures
        with_option(s, id, value).messages == s.messages,
        with_option(s, id, value).title == s.title,
        with_option(s, id, value).mode == s.mode,
        with_option(s, id, value).think matches Some(t) ==> t <= 4,
{
}

/// An option that is set to a value that it can take has that value, and nothing
/// else of the session changes; a value that it cannot take, and an option that
/// is not known, change nothing.
pub proof fn law_option_is_set(s: SessionView, id: Seq<char>, value: Seq<char>, n: nat)
    ensures
        with_option(s, "model"@, value) == (SessionView { model: value, ..s }),
        n <= 4 ==> with_option(s, "think"@, text::decimal(n)) == (SessionView {
            think: Some(n as u32),
            ..s
        }),
        4 < n <= 0xffff_ffff ==> with_option(s, "think"@, text::decimal(n)) == (SessionView {
            think: Some(4),
            ..s
        }),
        text::unsigned_of(value, 0xffff_ffff) is None ==> with_option(s, "think"@, value) == s,
        text::ascii_lowered(value) == "true"@ || text::ascii_lowered(value) == "1"@
            || text::ascii_lowered(value) == "on"@ || text::ascii_lowered(value) == "yes"@
            ==> with_option(s, "tools_enabled"@, value) == (SessionView {
            tools_enabled: true,
            ..s
        }),
        text::ascii_lowered(value) == "false"@ || text::ascii_lowered(value) == "0"@
            || text::ascii_lowered(value) == "off"@ || text::ascii_lowered(value) == "no"@
            ==> with_option(s, "tools_enabled"@, value) == (SessionView {
            tools_enabled: false,
            ..s
        }),
        id != "model"@ && id != "think"@ && id != "tools_enabled"@ ==> with_option(s, id, value)
            == s,
{
    reveal_strlit("model");
    reveal_strlit("think");
    reveal_strlit("tools_enabled");
    assert("model"@.len() == 5);
    assert("think"@.len() == 5);
    assert("tools_enabled"@.len() == 13);
    assert("model"@[0] != "think"@[0]);
    reveal_strlit("true");
    reveal_strlit("1");
    reveal_strlit("on");
    reveal_strlit("yes");
    reveal_strlit("false");
    reveal_strlit("0");
    reveal_strlit("off");
    reveal_strlit("no");
    assert("true"@.len() == 4);
    assert("1"@.len() == 1);
    assert("on"@.len() == 2);
    assert("yes"@.len() == 3);
    assert("false"@.len() == 5);
    assert("0"@.len() == 1);
    assert("off"@.len() == 3);
    assert("no"@.len() == 2);
    assert("1"@[0] != "0"@[0]);
    assert("on"@[0] != "no"@[0]);
    assert("yes"@[0] != "off"@[0]);
    if n <= 0xffff_ffff {
        text::law_decimal_read_back(n, 0xffff_ffff);
    }
}

/// The options that the client is shown: the model, the level of thinking and
/// the tools, each with what is in force now and what can be chosen.
pub proof fn law_options_are_shown(model: Seq<char>, think: Option<u32>, tools_enabled: bool, i: int)
    ensures
        ({
            let options = options_of(model, think, tools_enabled);
            &&& options.len() == 3
            &&& options[0].id == "model"@ && options[0].current == model
            &&& options[0].choices.len() == 8
            &&& 0 <= i < 8 ==> options[0].choices[i].value == models::MODEL_KEYS@[i]@
            &&& options[1].id == "think"@
            &&& think matches Some(t) ==> options[1].current == text::decimal(t as nat)
            &&& think is None ==> (models::resolution(model, models::DEFAULT_MODEL@) matches Ok(m)
                ==> options[1].current == text::decimal(m.think as nat))
            &&& options[1].choices.len() == 5
            &&& 0 <= i < 5 ==> options[1].choices[i].value == text::decimal(i as nat)
            &&& options[2].id == "tools_enabled"@
            &&& tools_enabled ==> options[2].current == "true"@
            &&& !tools_enabled ==> options[2].current == "false"@
            &&& options[2].choices.len() == 2 && options[2].choices[0].value == "true"@
                && options[2].choices[1].value == "false"@
        }),
{
}

/// What is set is what is shown: each choice that is offered can be made.
pub proof fn law_offered_choices_can_be_made(s: SessionView, i: int)
    ensures
        0 <= i < 5 ==> with_option(s, "think"@, think_choices()[i].value).think == Some(i as u32),
        0 <= i < 8 ==> with_option(s, "model"@, model_choices()[i].value).model
            == models::MODEL_KEYS@[i]@,
        with_option(s, "tools_enabled"@, tools_choices()[0].value).tools_enabled,
        !with_option(s, "tools_enabled"@, tools_choices()[1].value).tools_enabled,
{
    if 0 <= i < 5 {
        law_option_is_set(s, "think"@, text::decimal(i as nat), i as nat);
    }
    law_option_is_set(s, "model"@, model_choices()[i].value, 0);
    reveal_strlit("true");
    reveal_strlit("false");
    assert(text::ascii_lowered("true"@) =~= "true"@);
    assert(text::ascii_lowered("false"@) =~= "false"@);
    law_option_is_set(s, "tools_enabled"@, "true"@, 0);
    law_option_is_set(s, "tools_enabled"@, "false"@, 0);
}

/// A session that is not there is refused by its identifier.
pub proof fn law_missing_session_is_refused(id: Seq<char>)
    ensures
        no_session(id) matches ReplyView::InvalidParams(data) && data.get("session_id"@) == Some(
            JsonView::Text(id),
        ),
{
    crate::json::lemma_object_of_1("session_id"@, JsonView::Text(id));
}

/// Who sets an option is shown the options of the session as it then is; where
/// the session is not there, or the change was not kept, they are told so.
pub proof fn law_reply_shows_the_session(id: Seq<char>, s: SessionView, e: Seq<char>)
    ensures
        option_reply(id, true, Ok(()), Some(s)) == Ok::<Seq<ConfigOptionView>, ReplyView>(
            options_of(s.model, s.think, s.tools_enabled),
        ),
        option_reply(id, true, Err(e), Some(s)) == Err::<Seq<ConfigOptionView>, ReplyView>(
            ReplyView::Internal(e),
        ),
        option_reply(id, false, Ok(()), Some(s)) == Err::<Seq<ConfigOptionView>, ReplyView>(
            no_session(id),
        ),
        option_reply(id, true, Ok(()), None) == Err::<Seq<ConfigOptionView>, ReplyView>(
            no_session(id),
        ),
{
}

} // verus!
