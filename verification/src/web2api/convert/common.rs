//! What the protocols share: the model, the estimate of the tokens, and the
//! calls of tools.

use crate::gemini::models;
use crate::gemini::models::{Resolved, ResolvedView};
use crate::json;
use crate::json::{Json, JsonView};
use crate::outside;
use crate::prompt::turn;
use crate::prompt::turn::{ToolRequest, ToolRequestView};
use crate::text;
use vstd::prelude::*;
use vstd::string::*;

verus! {

// ---------------------------------------------------------------------------
// The model
// ---------------------------------------------------------------------------

/// The model that a request names. A name that is not in the table is an
/// error; nothing stands in for it.
pub open spec fn strict_resolution(requested: Seq<char>, default: Seq<char>) -> Result<
    ResolvedView,
    Seq<char>,
> {
    if models::model_of(models::key_in(requested)) is None {
        Err("Unknown model: "@ + requested)
    } else {
        models::resolution(requested, default)
    }
}

/// The model that a request names.
pub fn resolve_model_strict(requested: &str, default: &str) -> (r: Result<Resolved, String>)
    ensures
        match r {
            Ok(m) => strict_resolution(requested@, default@) == Ok::<ResolvedView, Seq<char>>(m@),
            Err(message) => strict_resolution(requested@, default@) == Err::<
                ResolvedView,
                Seq<char>,
            >(message@),
        },
{
    let known = match text::split_once(requested, "@think=") {
        Some((key, _)) => models::is_known(key),
        None => models::is_known(requested),
    };
    if !known {
        return Err(text::cat("Unknown model: ", requested));
    }
    models::resolve(requested, default)
}

// ---------------------------------------------------------------------------
// Tokens
// ---------------------------------------------------------------------------

/// How many tokens a prompt and an answer have, at four characters each.
pub open spec fn usage_value(prompt: nat, completion: nat) -> JsonView {
    JsonView::object().with("prompt_tokens"@, json::count_value(prompt / 4)).with(
        "completion_tokens"@,
        json::count_value(completion / 4),
    ).with("total_tokens"@, json::count_value(prompt / 4 + completion / 4))
}

/// How many tokens a prompt and an answer have, at four characters each.
pub fn usage(prompt: &str, completion: &str) -> (r: Json)
    ensures
        r@ == usage_value(prompt@.len(), completion@.len()),
{
    let pt: u64 = text::char_count(prompt) as u64 / 4;
    let ct: u64 = text::char_count(completion) as u64 / 4;
    Json::object().with("prompt_tokens", Json::from_integer(pt)).with(
        "completion_tokens",
        Json::from_integer(ct),
    ).with("total_tokens", Json::from_integer(pt + ct))
}

// ---------------------------------------------------------------------------
// Calls of tools
// ---------------------------------------------------------------------------

/// A call of a tool, as an object.
pub open spec fn call_object(name: Seq<char>, args: JsonView) -> JsonView {
    JsonView::object().with("name"@, JsonView::Text(name)).with("arguments"@, args)
}

/// A call of a tool, as the model writes it.
pub open spec fn call_block_text(name: Seq<char>, args: JsonView) -> Seq<char> {
    "```tool_call\n"@ + json::json_printed(call_object(name, args)) + "\n```"@
}

/// A call is an object of two members.
proof fn lemma_plain_call(name: Seq<char>, args: JsonView)
    ensures
        call_object(name, args) is Object,
        json::is_plain(args, 126) ==> json::is_plain(call_object(name, args), 127),
{
    let text = JsonView::Text(name);
    reveal_strlit("name");
    reveal_strlit("arguments");
    reveal_strlit("$serde_json::private::RawValue");
    assert("name"@.len() == 4 && "arguments"@.len() == 9);
    assert("$serde_json::private::RawValue"@.len() == 30);
    let one = seq![("name"@, text)];
    reveal_with_fuel(json::index_of_key, 3);
    assert(JsonView::object().with("name"@, text) == JsonView::Object(one)) by {
        assert(Seq::<(Seq<char>, JsonView)>::empty().push(("name"@, text)) =~= one);
    }
    assert(one.drop_last() =~= Seq::<(Seq<char>, JsonView)>::empty());
    let both = one.push(("arguments"@, args));
    assert(call_object(name, args) == JsonView::Object(both));
    if json::is_plain(args, 126) {
        assert(json::is_plain(text, 126));
        assert(both[0].0 == "name"@);
        assert forall|i: int| 0 <= i < both.len() implies json::is_plain(
            (#[trigger] both[i]).1,
            126,
        ) by {}
        assert(json::is_plain(JsonView::Object(both), 127));
    }
}

/// A call of a tool, as the model writes it. Where its arguments hold no
/// fraction, [`parse_tool_calls`] reads the call back.
pub fn tool_call_block(name: &str, args: &Json) -> (r: String)
    ensures
        r@ == call_block_text(name@, args@),
        json::is_plain(args@, 126) ==> json::reads_back(call_object(name@, args@)),
{
    proof {
        lemma_plain_call(name@, args@);
    }
    let call = Json::object().with("name", Json::from_text(name)).with("arguments", args.clone());
    let printed = call.print();
    text::cat3("```tool_call\n", printed.as_str(), "\n```")
}

/// A call of a tool: its name and its arguments.
#[derive(Debug, PartialEq)]
pub struct ToolCall {
    pub name: String,
    pub arguments: Json,
}

impl View for ToolCall {
    type V = (Seq<char>, JsonView);

    open spec fn view(&self) -> (Seq<char>, JsonView) {
        (self.name@, self.arguments@)
    }
}

pub open spec fn calls_view(calls: Seq<ToolCall>) -> Seq<(Seq<char>, JsonView)> {
    Seq::new(calls.len(), |i: int| calls[i]@)
}

/// The call that a block holds: what is not JSON, or has no name, is none.
pub open spec fn call_in(value: Option<JsonView>) -> Option<(Seq<char>, JsonView)> {
    match value {
        Some(v) => match v.get_text("name"@) {
            Some(name) => Some((name, v.member_or_object("arguments"@))),
            None => None,
        },
        None => None,
    }
}

/// The calls that blocks hold.
pub open spec fn calls_in(blocks: Seq<Seq<char>>) -> Seq<(Seq<char>, JsonView)>
    decreases blocks.len(),
{
    if blocks.len() == 0 {
        Seq::empty()
    } else {
        let before = calls_in(blocks.drop_last());
        match call_in(json::json_parsed(text::trimmed(blocks.last()))) {
            Some(call) => before.push(call),
            None => before,
        }
    }
}

/// A call with its identifier, as the protocol writes it.
pub open spec fn call_item(id: Seq<char>, call: (Seq<char>, JsonView)) -> JsonView {
    JsonView::object().with("id"@, JsonView::Text("call_"@ + id)).with(
        "type"@,
        JsonView::Text("function"@),
    ).with(
        "function"@,
        JsonView::object().with("name"@, JsonView::Text(call.0)).with(
            "arguments"@,
            JsonView::Text(json::json_printed(call.1)),
        ),
    )
}

/// A call with some identifier, which is left to chance.
pub open spec fn is_call_item(item: JsonView, call: (Seq<char>, JsonView)) -> bool {
    exists|id: Seq<char>| #[trigger] outside::is_plain_id(id) && item == call_item(id, call)
}

/// The calls, each with an identifier of its own.
pub open spec fn are_call_items(
    items: Seq<JsonView>,
    calls: Seq<(Seq<char>, JsonView)>,
) -> bool {
    &&& items.len() == calls.len()
    &&& forall|i: int| 0 <= i < items.len() ==> #[trigger] is_call_item(items[i], calls[i])
}

/// A call that was written is read: where what was printed of it reads back,
/// it is the one call of its block.
pub proof fn law_written_call_is_read(name: Seq<char>, args: JsonView)
    requires
        json::reads_back(call_object(name, args)),
    ensures
        calls_in(seq![json::json_printed(call_object(name, args))]) == seq![(name, args)],
{
    let call = call_object(name, args);
    reveal_strlit("name");
    reveal_strlit("arguments");
    assert("name"@.len() == 4 && "arguments"@.len() == 9);
    let text = JsonView::Text(name);
    json::lemma_with(JsonView::object(), "name"@, text, "arguments"@);
    json::lemma_with(JsonView::object().with("name"@, text), "arguments"@, args, "name"@);
    assert(call_in(Some(call)) == Some((name, args)));
    let blocks = seq![json::json_printed(call)];
    assert(blocks.drop_last() =~= Seq::<Seq<char>>::empty());
    assert(calls_in(Seq::<Seq<char>>::empty()) =~= Seq::<(Seq<char>, JsonView)>::empty());
    assert(calls_in(blocks) =~= seq![(name, args)]);
}

/// The call that a block holds, if it holds one.
pub fn read_call(value: Option<&Json>) -> (r: Option<ToolCall>)
    ensures
        match r {
            Some(call) => call_in(json::option_json_view(value)) == Some(call@),
            None => call_in(json::option_json_view(value)) is None,
        },
{
    match value {
        Some(v) => match v.get_text("name") {
            Some(name) => Some(
                ToolCall { name: name.to_owned(), arguments: v.member_or_object("arguments") },
            ),
            None => None,
        },
        None => None,
    }
}

/// The calls that blocks hold.
pub fn read_calls(blocks: &Vec<String>) -> (r: Vec<ToolCall>)
    ensures
        calls_view(r@) == calls_in(text::texts_of(blocks@)),
{
    let ghost all = text::texts_of(blocks@);
    let mut calls: Vec<ToolCall> = Vec::new();
    proof {
        assert(calls_view(calls@) =~= Seq::empty());
    }
    let mut i: usize = 0;
    while i < blocks.len()
        invariant
            i <= blocks@.len(),
            all == text::texts_of(blocks@),
            calls_view(calls@) == calls_in(all.take(i as int)),
        decreases blocks@.len() - i,
    {
        proof {
            assert(all.take(i + 1).drop_last() =~= all.take(i as int));
            assert(all.take(i + 1).last() == blocks@[i as int]@);
        }
        let parsed = Json::parse(text::trim(blocks[i].as_str()));
        let call = match &parsed {
            Some(v) => read_call(Some(v)),
            None => None,
        };
        match call {
            Some(c) => {
                proof {
                    assert(calls_view(calls@.push(c)) =~= calls_view(calls@).push(c@));
                }
                calls.push(c);
            },
            None => {},
        }
        i += 1;
    }
    proof {
        assert(all.take(all.len() as int) =~= all);
    }
    calls
}

/// A call with its identifier, as the protocol writes it.
pub fn call_with_id(id: &str, call: &ToolCall) -> (r: Json)
    ensures
        r@ == call_item(id@, call@),
{
    let full = text::cat("call_", id);
    let printed = call.arguments.print();
    Json::object().with("id", Json::from_text(full.as_str())).with(
        "type",
        Json::from_text("function"),
    ).with(
        "function",
        Json::object().with("name", Json::from_text(call.name.as_str())).with(
            "arguments",
            Json::from_text(printed.as_str()),
        ),
    )
}

/// An answer without its blocks of `tool_call`, and the calls that they hold.
pub open spec fn split_of(answer: Seq<char>) -> (Seq<char>, Seq<(Seq<char>, JsonView)>) {
    (
        text::trimmed(outside::matches_removed(outside::TOOL_CALL_BLOCK@, answer)),
        calls_in(outside::first_groups(outside::TOOL_CALL_BLOCK@, answer)),
    )
}

/// The answer without its blocks of `tool_call`, and the calls that they hold.
/// An answer that is a call as [`tool_call_block`] writes it is read as that
/// call and no text.
pub fn split_calls(answer: &str) -> (r: (String, Vec<ToolCall>))
    ensures
        (r.0@, calls_view(r.1@)) == split_of(answer@),
        forall|name: Seq<char>, args: JsonView|
            answer@ == #[trigger] call_block_text(name, args) && json::reads_back(
                call_object(name, args),
            ) ==> r.0@.len() == 0 && calls_view(r.1@) == seq![(name, args)],
{
    let blocks = outside::groups_of_matches(outside::TOOL_CALL_BLOCK, answer);
    let rest = outside::remove_matches(outside::TOOL_CALL_BLOCK, answer);
    proof {
        assert forall|name: Seq<char>, args: JsonView|
            answer@ == #[trigger] call_block_text(name, args) && json::reads_back(
                call_object(name, args),
            ) implies split_of(answer@) == (Seq::<char>::empty(), seq![(name, args)]) by {
            let printed = json::json_printed(call_object(name, args));
            assert(answer@ == outside::block(outside::TOOL_CALL_BLOCK@, printed));
            assert(rest@ =~= Seq::<char>::empty());
            law_written_call_is_read(name, args);
        }
    }
    (text::trim(rest.as_str()).to_owned(), read_calls(&blocks))
}

/// The answer without its blocks of `tool_call`, and the calls that they hold,
/// each with an identifier.
pub fn parse_tool_calls(answer: &str) -> (r: (String, Vec<Json>))
    ensures
        r.0@ == split_of(answer@).0,
        are_call_items(json::items_view(r.1@), split_of(answer@).1),
        forall|name: Seq<char>, args: JsonView|
            answer@ == #[trigger] call_block_text(name, args) && json::reads_back(
                call_object(name, args),
            ) ==> r.0@.len() == 0 && are_call_items(json::items_view(r.1@), seq![(name, args)]),
{
    let (clean, calls) = split_calls(answer);
    let ghost wanted = calls_view(calls@);
    let mut items: Vec<Json> = Vec::new();
    let mut i: usize = 0;
    while i < calls.len()
        invariant
            i <= calls@.len(),
            wanted == calls_view(calls@),
            are_call_items(json::items_view(items@), wanted.take(i as int)),
        decreases calls@.len() - i,
    {
        let id = outside::plain_id();
        let item = call_with_id(id.as_str(), &calls[i]);
        let ghost before = json::items_view(items@);
        proof {
            json::lemma_items_push(items@, item);
        }
        items.push(item);
        proof {
            let after = json::items_view(items@);
            let now = wanted.take(i + 1);
            assert forall|k: int| 0 <= k < after.len() implies #[trigger] is_call_item(
                after[k],
                now[k],
            ) by {
                if k < i {
                    assert(is_call_item(before[k], wanted.take(i as int)[k]));
                } else {
                    assert(outside::is_plain_id(id@) && after[k] == call_item(id@, now[k]));
                }
            }
        }
        i += 1;
    }
    proof {
        assert(wanted.take(wanted.len() as int) =~= wanted);
    }
    (clean, items)
}

/// The calls as a turn takes them: each with what the history keeps of it.
pub open spec fn requests_of(calls: Seq<(Seq<char>, JsonView)>) -> Seq<ToolRequestView> {
    Seq::new(
        calls.len(),
        |i: int|
            ToolRequestView {
                name: calls[i].0,
                arguments: calls[i].1,
                history_block: call_block_text(calls[i].0, calls[i].1),
            },
    )
}

/// The text of an answer, and its calls as a turn takes them.
pub fn parse_answer(answer: &str) -> (r: (String, Vec<ToolRequest>))
    ensures
        r.0@ == split_of(answer@).0,
        turn::calls_view(r.1@) == requests_of(split_of(answer@).1),
{
    let (clean, calls) = split_calls(answer);
    let ghost all = calls_view(calls@);
    let mut requests: Vec<ToolRequest> = Vec::new();
    let mut i: usize = 0;
    while i < calls.len()
        invariant
            i <= calls@.len(),
            all == calls_view(calls@),
            turn::calls_view(requests@).len() == i,
            forall|k: int|
                0 <= k < i ==> #[trigger] turn::calls_view(requests@)[k] == requests_of(all)[k],
        decreases calls@.len() - i,
    {
        let call = &calls[i];
        let request = ToolRequest {
            name: call.name.clone(),
            arguments: call.arguments.clone(),
            history_block: tool_call_block(call.name.as_str(), &call.arguments),
        };
        proof {
            assert(request@ == requests_of(all)[i as int]);
            assert(turn::calls_view(requests@.push(request)) =~= turn::calls_view(
                requests@,
            ).push(request@));
        }
        requests.push(request);
        i += 1;
    }
    proof {
        assert(turn::calls_view(requests@) =~= requests_of(all));
    }
    (clean, requests)
}

// ---------------------------------------------------------------------------
// The choice of a tool
// ---------------------------------------------------------------------------

/// Whether the model may, must or must not call a tool.
#[derive(Debug, PartialEq, Eq)]
pub enum ToolChoice {
    Auto,
    Never,
    Required,
    Named(String),
}

pub enum ToolChoiceView {
    Auto,
    Never,
    Required,
    Named(Seq<char>),
}

impl View for ToolChoice {
    type V = ToolChoiceView;

    open spec fn view(&self) -> ToolChoiceView {
        match *self {
            ToolChoice::Auto => ToolChoiceView::Auto,
            ToolChoice::Never => ToolChoiceView::Never,
            ToolChoice::Required => ToolChoiceView::Required,
            ToolChoice::Named(name) => ToolChoiceView::Named(name@),
        }
    }
}

/// The name of the function that an object asks for, if it has one.
pub open spec fn chosen_name(v: JsonView) -> Seq<char> {
    match v.get("function"@) {
        Some(f) => f.text_or("name"@, ""@),
        None => ""@,
    }
}

/// The choice that a request makes.
pub open spec fn choice_of(v: Option<JsonView>) -> ToolChoiceView {
    match v {
        Some(JsonView::Text(t)) => if t == "none"@ {
            ToolChoiceView::Never
        } else if t == "required"@ {
            ToolChoiceView::Required
        } else {
            ToolChoiceView::Auto
        },
        Some(JsonView::Object(_)) => if chosen_name(v->Some_0).len() == 0 {
            ToolChoiceView::Auto
        } else {
            ToolChoiceView::Named(chosen_name(v->Some_0))
        },
        _ => ToolChoiceView::Auto,
    }
}

/// What the model is told about the choice.
pub open spec fn choice_text(choice: ToolChoiceView) -> Seq<char> {
    match choice {
        ToolChoiceView::Auto => ""@,
        ToolChoiceView::Never => ""@,
        ToolChoiceView::Required =>
            "\n\nIMPORTANT: You MUST call at least one tool. Do not respond with text only."@,
        ToolChoiceView::Named(name) => "\n\nIMPORTANT: You MUST call the tool \""@ + name
            + "\". Do not call other tools."@,
    }
}

impl ToolChoice {
    /// The choice that a request makes.
    pub fn parse(v: Option<&Json>) -> (r: Self)
        ensures
            r@ == choice_of(json::option_json_view(v)),
    {
        match v {
            Some(Json::Text(s)) => {
                if text::same(s.as_str(), "none") {
                    ToolChoice::Never
                } else if text::same(s.as_str(), "required") {
                    ToolChoice::Required
                } else {
                    ToolChoice::Auto
                }
            },
            Some(o) => match o {
                Json::Object(_) => {
                    let name = match o.get("function") {
                        Some(f) => f.text_or("name", ""),
                        None => "",
                    };
                    if name.is_empty() {
                        ToolChoice::Auto
                    } else {
                        ToolChoice::Named(name.to_owned())
                    }
                },
                _ => ToolChoice::Auto,
            },
            None => ToolChoice::Auto,
        }
    }

    /// Whether no tool may be called.
    pub fn is_none(&self) -> (r: bool)
        ensures
            r == (self@ == ToolChoiceView::Never),
    {
        match self {
            ToolChoice::Never => true,
            _ => false,
        }
    }

    /// What the model is told about the choice.
    pub fn instruction(&self) -> (r: String)
        ensures
            r@ == choice_text(self@),
    {
        match self {
            ToolChoice::Auto => "".to_owned(),
            ToolChoice::Never => "".to_owned(),
            ToolChoice::Required => {
                "\n\nIMPORTANT: You MUST call at least one tool. Do not respond with text only.".to_owned()
            },
            ToolChoice::Named(name) => text::cat3(
                "\n\nIMPORTANT: You MUST call the tool \"",
                name.as_str(),
                "\". Do not call other tools.",
            ),
        }
    }
}

/// What to warn of, if a token is configured: it is not used.
pub fn warn_xsrf_ignored(xsrf: Option<&str>) -> (r: Option<String>)
    ensures
        text::option_view(r) == match xsrf {
            Some(_) => Some(
                "xsrf_token configuré mais ignoré : le client gemini récupère SNlM0e automatiquement"@,
            ),
            None => None,
        },
{
    match xsrf {
        Some(_) => Some(
            "xsrf_token configuré mais ignoré : le client gemini récupère SNlM0e automatiquement".to_owned(),
        ),
        None => None,
    }
}

// ---------------------------------------------------------------------------
// Laws
// ---------------------------------------------------------------------------


/// The tokens are counted at four characters each, those of the prompt and of
/// the answer on their own, and the total is their sum.
pub proof fn law_usage_counts_both(prompt: nat, completion: nat)
    ensures
        usage_value(prompt, completion).get("prompt_tokens"@) == Some(
            JsonView::Number(json::json_number((prompt / 4) as u64)),
        ),
        usage_value(prompt, completion).get("completion_tokens"@) == Some(
            JsonView::Number(json::json_number((completion / 4) as u64)),
        ),
        usage_value(prompt, completion).get("total_tokens"@) == Some(
            JsonView::Number(json::json_number((prompt / 4 + completion / 4) as u64)),
        ),
{
    reveal_strlit("prompt_tokens");
    reveal_strlit("completion_tokens");
    reveal_strlit("total_tokens");
    assert("prompt_tokens"@.len() == 13 && "completion_tokens"@.len() == 17 && "total_tokens"@.len()
        == 12);
    json::lemma_object_of_3(
        "prompt_tokens"@,
        json::count_value(prompt / 4),
        "completion_tokens"@,
        json::count_value(completion / 4),
        "total_tokens"@,
        json::count_value(prompt / 4 + completion / 4),
    );
}

/// A name that is not in the table is refused, with the name; one that is there
/// is never replaced by the default.
pub proof fn law_unknown_model_is_refused(requested: Seq<char>, default: Seq<char>, other: Seq<char>)
    ensures
        models::model_of(models::key_in(requested)) is None ==> strict_resolution(requested, default)
            == Err::<ResolvedView, Seq<char>>("Unknown model: "@ + requested),
        strict_resolution(requested, default) == strict_resolution(requested, other),
        strict_resolution(requested, default) matches Ok(m) ==> models::model_of(
            models::key_in(requested),
        ) is Some,
{
}

/// A call in the answer keeps its name and its arguments, the latter printed; the
/// identifier begins with `call_`.
pub proof fn law_call_item_keeps_the_call(id: Seq<char>, name: Seq<char>, args: JsonView)
    ensures
        call_item(id, (name, args)).get("id"@) == Some(JsonView::Text("call_"@ + id)),
        call_item(id, (name, args)).get("type"@) == Some(JsonView::Text("function"@)),
        call_item(id, (name, args)).get("function"@) matches Some(f) && f.get("name"@) == Some(
            JsonView::Text(name),
        ) && f.get("arguments"@) == Some(JsonView::Text(json::json_printed(args))),
{
    reveal_strlit("id");
    reveal_strlit("type");
    reveal_strlit("function");
    reveal_strlit("name");
    reveal_strlit("arguments");
    assert("id"@.len() == 2 && "type"@.len() == 4 && "function"@.len() == 8);
    assert("name"@.len() == 4 && "arguments"@.len() == 9);
    let printed = JsonView::Text(json::json_printed(args));
    json::lemma_object_of_2("name"@, JsonView::Text(name), "arguments"@, printed);
    json::lemma_object_of_3(
        "id"@,
        JsonView::Text("call_"@ + id),
        "type"@,
        JsonView::Text("function"@),
        "function"@,
        JsonView::object().with("name"@, JsonView::Text(name)).with("arguments"@, printed),
    );
}

/// The blocks of an answer are read one by one, in order. A block that spells an
/// object with a name is a call of that name with the member `arguments` as its
/// arguments, none where there is no such member; any other block is none.
pub proof fn law_blocks_one_by_one(a: Seq<Seq<char>>, b: Seq<Seq<char>>, block: Seq<char>)
    ensures
        calls_in(a + b) == calls_in(a) + calls_in(b),
        json::json_parsed(text::trimmed(block)) is None ==> calls_in(seq![block]).len() == 0,
        json::json_parsed(text::trimmed(block)) matches Some(v) ==> {
            &&& v.get("name"@) matches Some(JsonView::Text(name)) ==> calls_in(seq![block]) == seq![
                (
                    name,
                    match v.get("arguments"@) {
                        Some(args) => args,
                        None => JsonView::Object(Seq::empty()),
                    },
                ),
            ]
            &&& v.get("name"@) is None ==> calls_in(seq![block]).len() == 0
        },
    decreases b.len(),
{
    reveal_with_fuel(calls_in, 2);
    assert(seq![block].drop_last() =~= Seq::<Seq<char>>::empty());
    if b.len() == 0 {
        assert(a + b =~= a);
        assert(calls_in(a) + calls_in(b) =~= calls_in(a));
    } else {
        law_blocks_one_by_one(a, b.drop_last(), block);
        assert((a + b).drop_last() =~= a + b.drop_last());
        assert((a + b).last() == b.last());
        assert(calls_in(a + b) =~= calls_in(a) + calls_in(b));
    }
}

/// What is left of an answer beside its calls is what stands outside the blocks,
/// and every block is read.
pub proof fn law_answer_is_split(answer: Seq<char>)
    ensures
        split_of(answer).0 == text::trimmed(
            outside::matches_removed("(?s)```tool_call\\s*\\n(.*?)\\n```"@, answer),
        ),
        split_of(answer).1 == calls_in(
            outside::first_groups("(?s)```tool_call\\s*\\n(.*?)\\n```"@, answer),
        ),
{
}

/// A turn takes each call with its name, its arguments and the block that says
/// the same.
pub proof fn law_requests_are_the_calls(calls: Seq<(Seq<char>, JsonView)>, i: int)
    requires
        0 <= i < calls.len(),
    ensures
        requests_of(calls).len() == calls.len(),
        requests_of(calls)[i].name == calls[i].0,
        requests_of(calls)[i].arguments == calls[i].1,
        requests_of(calls)[i].history_block == "```tool_call\n"@ + json::json_printed(
            call_object(calls[i].0, calls[i].1),
        ) + "\n```"@,
        call_object(calls[i].0, calls[i].1).get("name"@) == Some(JsonView::Text(calls[i].0)),
        call_object(calls[i].0, calls[i].1).get("arguments"@) == Some(calls[i].1),
{
    reveal_strlit("name");
    reveal_strlit("arguments");
    assert("name"@.len() == 4 && "arguments"@.len() == 9);
    json::lemma_object_of_2("name"@, JsonView::Text(calls[i].0), "arguments"@, calls[i].1);
}

/// The choice of a tool: `none` forbids, `required` demands, the name of a
/// function demands that one; everything else, and nothing, leaves it open.
pub proof fn law_choice_is_read(v: JsonView, f: JsonView, name: Seq<char>)
    ensures
        choice_of(Some(JsonView::Text("none"@))) == ToolChoiceView::Never,
        choice_of(Some(JsonView::Text("required"@))) == ToolChoiceView::Required,
        choice_of(None) == ToolChoiceView::Auto,
        v matches JsonView::Text(t) && t != "none"@ && t != "required"@ ==> choice_of(Some(v))
            == ToolChoiceView::Auto,
        v is Object && v.get("function"@) == Some(f) && f.get("name"@) == Some(JsonView::Text(name))
            && name.len() > 0 ==> choice_of(Some(v)) == ToolChoiceView::Named(name),
        v is Object && v.get("function"@) is None ==> choice_of(Some(v)) == ToolChoiceView::Auto,
{
    reveal_strlit("none");
    reveal_strlit("required");
    reveal_strlit("");
    assert("none"@.len() == 4 && "required"@.len() == 8 && ""@.len() == 0);
}

/// What the model is told of the choice: nothing where it is open, that it must
/// call a tool where one is demanded, and which one where it has a name.
pub proof fn law_choice_is_told(name: Seq<char>)
    ensures
        choice_text(ToolChoiceView::Auto).len() == 0,
        choice_text(ToolChoiceView::Never).len() == 0,
        choice_text(ToolChoiceView::Required)
            == "\n\nIMPORTANT: You MUST call at least one tool. Do not respond with text only."@,
        choice_text(ToolChoiceView::Named(name)) == "\n\nIMPORTANT: You MUST call the tool \""@
            + name + "\". Do not call other tools."@,
{
    reveal_strlit("");
}

} // verus!
