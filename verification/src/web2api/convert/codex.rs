//! The format of `/v1/responses`: it is turned into the messages and the tools
//! of `/v1/chat/completions`.

use crate::json;
use crate::json::{Json, JsonView};
use crate::text;
use crate::web2api::convert::openai;
use vstd::prelude::*;
use vstd::string::*;

verus! {

// ---------------------------------------------------------------------------
// Tools
// ---------------------------------------------------------------------------

/// A tool whose function stands in the tool itself is given a function of its
/// own; others stay.
pub open spec fn normalized(tool: JsonView) -> JsonView {
    if tool.get_text("type"@) == Some("function"@) && tool.get("function"@) is None {
        JsonView::object().with("type"@, JsonView::Text("function"@)).with(
            "function"@,
            openai::definition_of(tool),
        )
    } else {
        tool
    }
}

/// The tools of a request; none, where it has no list of them.
pub open spec fn normalized_tools(tools: Option<JsonView>) -> Seq<JsonView> {
    match tools {
        Some(JsonView::Array(list)) => Seq::new(list.len(), |i: int| normalized(list[i])),
        _ => Seq::empty(),
    }
}

fn normalize(tool: &Json) -> (r: Json)
    ensures
        r@ == normalized(tool@),
{
    let described = match tool.get_text("type") {
        Some(t) => text::same(t, "function"),
        None => false,
    };
    if described && tool.get("function").is_none() {
        Json::object().with("type", Json::from_text("function")).with(
            "function",
            openai::define(tool),
        )
    } else {
        tool.clone()
    }
}

/// The tools of a request, each with a function of its own.
pub fn normalize_responses_tools(tools: Option<&Json>) -> (r: Vec<Json>)
    ensures
        json::items_view(r@) == normalized_tools(json::option_json_view(tools)),
{
    let mut out: Vec<Json> = Vec::new();
    match tools {
        Some(Json::Array(list)) => {
            let ghost all = json::items_view(list@);
            let ghost wanted = Seq::new(all.len(), |i: int| normalized(all[i]));
            proof {
                json::lemma_items_view(list@);
                assert(wanted.take(0) =~= Seq::empty());
            }
            let mut i: usize = 0;
            while i < list.len()
                invariant
                    i <= list@.len(),
                    all.len() == list@.len(),
                    wanted == Seq::new(all.len(), |i: int| normalized(all[i])),
                    forall|k: int| 0 <= k < all.len() ==> #[trigger] all[k] == list@[k]@,
                    json::items_view(out@) == wanted.take(i as int),
                decreases list@.len() - i,
            {
                let tool = normalize(&list[i]);
                proof {
                    json::lemma_items_push(out@, tool);
                    assert(wanted[i as int] == normalized(all[i as int]));
                    assert(wanted.take(i + 1) =~= wanted.take(i as int).push(wanted[i as int]));
                }
                out.push(tool);
                i += 1;
            }
            proof {
                assert(wanted.take(wanted.len() as int) =~= wanted);
            }
        },
        _ => {},
    }
    out
}

// ---------------------------------------------------------------------------
// Messages
// ---------------------------------------------------------------------------

pub open spec fn message_value(role: Seq<char>, content: Seq<char>) -> JsonView {
    JsonView::object().with("role"@, JsonView::Text(role)).with(
        "content"@,
        JsonView::Text(content),
    )
}

/// The texts of the assistant's parts, put together.
pub open spec fn output_text(parts: Seq<JsonView>) -> Seq<char>
    decreases parts.len(),
{
    if parts.len() == 0 {
        Seq::empty()
    } else {
        let before = output_text(parts.drop_last());
        let part = parts.last();
        if part.get_text("type"@) == Some("output_text"@) && part.get_text("text"@) is Some {
            before + part.get_text("text"@)->Some_0
        } else {
            before
        }
    }
}

/// The calls among the assistant's parts.
pub open spec fn function_calls(parts: Seq<JsonView>) -> Seq<JsonView>
    decreases parts.len(),
{
    if parts.len() == 0 {
        Seq::empty()
    } else {
        let before = function_calls(parts.drop_last());
        if parts.last().get_text("type"@) == Some("function_call"@) {
            before.push(parts.last())
        } else {
            before
        }
    }
}

/// What the assistant said and called.
pub open spec fn assistant_parts(content: Option<JsonView>) -> (Seq<char>, Seq<JsonView>) {
    match content {
        Some(JsonView::Array(parts)) => (output_text(parts), function_calls(parts)),
        Some(JsonView::Text(s)) => (s, Seq::empty()),
        _ => (Seq::empty(), Seq::empty()),
    }
}

/// A call of the assistant, with its number among the calls of the message.
pub open spec fn call_value(call: JsonView, i: int) -> JsonView {
    JsonView::object().with(
        "id"@,
        JsonView::Text(call.text_or("call_id"@, "call_"@ + text::decimal(i as nat))),
    ).with("type"@, JsonView::Text("function"@)).with(
        "function"@,
        JsonView::object().with("name"@, JsonView::Text(call.text_or("name"@, ""@))).with(
            "arguments"@,
            JsonView::Text(call.text_or("arguments"@, "{}"@)),
        ),
    )
}

pub open spec fn call_values(calls: Seq<JsonView>) -> Seq<JsonView> {
    Seq::new(calls.len(), |i: int| call_value(calls[i], i))
}

/// A message of the assistant.
pub open spec fn assistant_message(content: Option<JsonView>) -> JsonView {
    let (said, calls) = assistant_parts(content);
    let m = message_value("assistant"@, said);
    if calls.len() > 0 {
        m.with("tool_calls"@, JsonView::Array(call_values(calls)))
    } else {
        m
    }
}

/// The message that an item of the input is; a text is the user's, and what is
/// neither a text nor an object is left out.
pub open spec fn item_message(item: JsonView) -> Option<JsonView> {
    match item {
        JsonView::Text(s) => Some(message_value("user"@, s)),
        JsonView::Object(_) => Some(
            if item.get_text("type"@) == Some("function_call_output"@) {
                JsonView::object().with("role"@, JsonView::Text("tool"@)).with(
                    "name"@,
                    JsonView::Text(item.text_or("name"@, ""@)),
                ).with("content"@, JsonView::Text(item.text_or("output"@, ""@)))
            } else if item.get_text("role"@) == Some("assistant"@) {
                assistant_message(item.get("content"@))
            } else {
                message_value(
                    item.text_or("role"@, "user"@),
                    openai::text_in(item.member_or_null("content"@)),
                )
            },
        ),
        _ => None,
    }
}

pub open spec fn item_messages(items: Seq<JsonView>) -> Seq<JsonView>
    decreases items.len(),
{
    if items.len() == 0 {
        Seq::empty()
    } else {
        let before = item_messages(items.drop_last());
        match item_message(items.last()) {
            Some(m) => before.push(m),
            None => before,
        }
    }
}

/// The messages that the input is: a text is one of the user.
pub open spec fn input_messages(input: Option<JsonView>) -> Seq<JsonView> {
    match input {
        Some(JsonView::Text(s)) => seq![message_value("user"@, s)],
        Some(JsonView::Array(items)) => item_messages(items),
        _ => Seq::empty(),
    }
}

/// The instructions of a request, as a message of the system.
pub open spec fn instruction_messages(req: JsonView) -> Seq<JsonView> {
    match req.get_text("instructions"@) {
        Some(t) => seq![message_value("system"@, t)],
        None => Seq::empty(),
    }
}

/// The messages of a request.
pub open spec fn messages_of(req: JsonView) -> Seq<JsonView> {
    instruction_messages(req) + input_messages(req.get("input"@))
}

fn message(role: &str, content: &str) -> (r: Json)
    ensures
        r@ == message_value(role@, content@),
{
    Json::object().with("role", Json::from_text(role)).with("content", Json::from_text(content))
}

fn read_assistant_parts(parts: &Vec<Json>) -> (r: (String, Vec<Json>))
    ensures
        r.0@ == output_text(json::items_view(parts@)),
        json::items_view(r.1@) == function_calls(json::items_view(parts@)),
{
    let ghost all = json::items_view(parts@);
    proof {
        json::lemma_items_view(parts@);
    }
    let mut said: String = String::new();
    let mut calls: Vec<Json> = Vec::new();
    let mut i: usize = 0;
    while i < parts.len()
        invariant
            i <= parts@.len(),
            all.len() == parts@.len(),
            forall|k: int| 0 <= k < all.len() ==> #[trigger] all[k] == parts@[k]@,
            said@ == output_text(all.take(i as int)),
            json::items_view(calls@) == function_calls(all.take(i as int)),
        decreases parts@.len() - i,
    {
        proof {
            assert(all.take(i + 1).drop_last() =~= all.take(i as int));
            assert(all.take(i + 1).last() == all[i as int]);
            reveal_strlit("output_text");
            reveal_strlit("function_call");
            assert("output_text"@.len() != "function_call"@.len());
        }
        match parts[i].get_text("type") {
            Some(kind) => {
                if text::same(kind, "output_text") {
                    match parts[i].get_text("text") {
                        Some(t) => said.append(t),
                        None => {},
                    }
                } else if text::same(kind, "function_call") {
                    let call = parts[i].clone();
                    proof {
                        json::lemma_items_push(calls@, call);
                    }
                    calls.push(call);
                }
            },
            None => {},
        }
        i += 1;
    }
    proof {
        assert(all.take(all.len() as int) =~= all);
    }
    (said, calls)
}

fn read_call_value(call: &Json, i: usize) -> (r: Json)
    ensures
        r@ == call_value(call@, i as int),
{
    let number = text::decimal_text(i as u64);
    let numbered = text::cat("call_", number.as_str());
    Json::object().with("id", Json::from_text(call.text_or("call_id", numbered.as_str()))).with(
        "type",
        Json::from_text("function"),
    ).with(
        "function",
        Json::object().with("name", Json::from_text(call.text_or("name", ""))).with(
            "arguments",
            Json::from_text(call.text_or("arguments", "{}")),
        ),
    )
}

fn read_call_values(calls: &Vec<Json>) -> (r: Vec<Json>)
    ensures
        json::items_view(r@) == call_values(json::items_view(calls@)),
{
    let ghost all = json::items_view(calls@);
    let ghost wanted = call_values(all);
    let mut out: Vec<Json> = Vec::new();
    proof {
        json::lemma_items_view(calls@);
        assert(wanted.take(0) =~= Seq::empty());
    }
    let mut i: usize = 0;
    while i < calls.len()
        invariant
            i <= calls@.len(),
            all.len() == calls@.len(),
            wanted == call_values(all),
            forall|k: int| 0 <= k < all.len() ==> #[trigger] all[k] == calls@[k]@,
            json::items_view(out@) == wanted.take(i as int),
        decreases calls@.len() - i,
    {
        let item = read_call_value(&calls[i], i);
        proof {
            json::lemma_items_push(out@, item);
            assert(wanted[i as int] == call_value(all[i as int], i as int));
            assert(wanted.take(i + 1) =~= wanted.take(i as int).push(wanted[i as int]));
        }
        out.push(item);
        i += 1;
    }
    proof {
        assert(wanted.take(wanted.len() as int) =~= wanted);
    }
    out
}

fn read_assistant_message(content: Option<&Json>) -> (r: Json)
    ensures
        r@ == assistant_message(json::option_json_view(content)),
{
    let (said, calls): (String, Vec<Json>) = match content {
        Some(Json::Array(parts)) => read_assistant_parts(parts),
        Some(Json::Text(s)) => (s.clone(), Vec::new()),
        _ => (String::new(), Vec::new()),
    };
    proof {
        json::lemma_items_view(calls@);
        assert(assistant_parts(json::option_json_view(content)) == (
            said@,
            json::items_view(calls@),
        ));
    }
    let m = message("assistant", said.as_str());
    if calls.len() > 0 {
        m.with("tool_calls", Json::Array(read_call_values(&calls)))
    } else {
        m
    }
}

fn read_item(item: &Json) -> (r: Option<Json>)
    ensures
        match r {
            Some(m) => item_message(item@) == Some(m@),
            None => item_message(item@) is None,
        },
{
    match item {
        Json::Text(s) => Some(message("user", s.as_str())),
        Json::Object(_) => {
            let is_output = match item.get_text("type") {
                Some(t) => text::same(t, "function_call_output"),
                None => false,
            };
            if is_output {
                return Some(
                    Json::object().with("role", Json::from_text("tool")).with(
                        "name",
                        Json::from_text(item.text_or("name", "")),
                    ).with("content", Json::from_text(item.text_or("output", ""))),
                );
            }
            let is_assistant = match item.get_text("role") {
                Some(t) => text::same(t, "assistant"),
                None => false,
            };
            if is_assistant {
                return Some(read_assistant_message(item.get("content")));
            }
            let raw = item.member_or_null("content");
            let content = openai::content_text(&raw);
            Some(message(item.text_or("role", "user"), content.as_str()))
        },
        _ => None,
    }
}

fn read_items(items: &Vec<Json>) -> (r: Vec<Json>)
    ensures
        json::items_view(r@) == item_messages(json::items_view(items@)),
{
    let ghost all = json::items_view(items@);
    proof {
        json::lemma_items_view(items@);
    }
    let mut out: Vec<Json> = Vec::new();
    let mut i: usize = 0;
    while i < items.len()
        invariant
            i <= items@.len(),
            all.len() == items@.len(),
            forall|k: int| 0 <= k < all.len() ==> #[trigger] all[k] == items@[k]@,
            json::items_view(out@) == item_messages(all.take(i as int)),
        decreases items@.len() - i,
    {
        proof {
            assert(all.take(i + 1).drop_last() =~= all.take(i as int));
            assert(all.take(i + 1).last() == all[i as int]);
        }
        match read_item(&items[i]) {
            Some(m) => {
                proof {
                    json::lemma_items_push(out@, m);
                }
                out.push(m);
            },
            None => {},
        }
        i += 1;
    }
    proof {
        assert(all.take(all.len() as int) =~= all);
    }
    out
}

/// The messages of a request: its instructions, then its input.
pub fn responses_input_to_messages(req: &Json) -> (r: Vec<Json>)
    ensures
        json::items_view(r@) == messages_of(req@),
{
    let mut messages: Vec<Json> = Vec::new();
    match req.get_text("instructions") {
        Some(t) => {
            let m = message("system", t);
            proof {
                json::lemma_items_push(messages@, m);
            }
            messages.push(m);
        },
        None => {},
    }
    proof {
        assert(json::items_view(messages@) =~= instruction_messages(req@));
    }
    let ghost before = messages@;
    let mut rest: Vec<Json> = match req.get("input") {
        Some(Json::Text(s)) => {
            let mut one: Vec<Json> = Vec::new();
            let m = message("user", s.as_str());
            proof {
                json::lemma_items_push(one@, m);
            }
            one.push(m);
            proof {
                assert(json::items_view(one@) =~= input_messages(req@.get("input"@)));
            }
            one
        },
        Some(Json::Array(items)) => read_items(items),
        _ => Vec::new(),
    };
    let ghost more = rest@;
    messages.append(&mut rest);
    proof {
        json::lemma_items_view(before);
        json::lemma_items_view(more);
        json::lemma_items_view(messages@);
        assert(json::items_view(messages@) =~= messages_of(req@));
    }
    messages
}

/// A text as the whole input is the same as a list with that text alone.
pub proof fn law_text_input_is_one_message(s: Seq<char>)
    ensures
        input_messages(Some(JsonView::Text(s))) == input_messages(
            Some(JsonView::Array(seq![JsonView::Text(s)])),
        ),
{
    reveal_with_fuel(item_messages, 2);
    let items = seq![JsonView::Text(s)];
    assert(items.drop_last() =~= Seq::<JsonView>::empty());
    assert(item_messages(items) =~= seq![message_value("user"@, s)]);
}

// ---------------------------------------------------------------------------
// What of a request reaches the model
// ---------------------------------------------------------------------------


proof fn lemma_message(role: Seq<char>, content: Seq<char>)
    ensures
        message_value(role, content).get("role"@) == Some(JsonView::Text(role)),
        message_value(role, content).get("content"@) == Some(JsonView::Text(content)),
        json::is_object(message_value(role, content)),
{
    reveal_strlit("role");
    reveal_strlit("content");
    assert("role"@.len() == 4);
    assert("content"@.len() == 7);
    json::lemma_object_of_2(
        "role"@,
        JsonView::Text(role),
        "content"@,
        JsonView::Text(content),
    );
}

/// The instructions of a request come first, as a message of the system; the
/// input follows, a text as one message of the user.
pub proof fn law_instructions_come_first(req: JsonView, t: Seq<char>, s: Seq<char>)
    ensures
        req.get("instructions"@) == Some(JsonView::Text(t)) ==> {
            &&& messages_of(req).len() == input_messages(req.get("input"@)).len() + 1
            &&& messages_of(req)[0].get("role"@) == Some(JsonView::Text("system"@))
            &&& messages_of(req)[0].get("content"@) == Some(JsonView::Text(t))
            &&& messages_of(req).skip(1) == input_messages(req.get("input"@))
        },
        req.get("instructions"@) is None ==> messages_of(req) == input_messages(req.get("input"@)),
        ({
            let said = input_messages(Some(JsonView::Text(s)));
            &&& said.len() == 1
            &&& said[0].get("role"@) == Some(JsonView::Text("user"@))
            &&& said[0].get("content"@) == Some(JsonView::Text(s))
        }),
{
    lemma_message("system"@, t);
    lemma_message("user"@, s);
    let rest = input_messages(req.get("input"@));
    assert((seq![message_value("system"@, t)] + rest).skip(1) =~= rest);
    assert(Seq::<JsonView>::empty() + rest =~= rest);
}

/// The items of the input are read one by one, in order: a text as the user's;
/// the result of a call as that of its tool; what the assistant said and called
/// as its message; anything else under its role with its text.
pub proof fn law_items_one_by_one(
    a: Seq<JsonView>,
    b: Seq<JsonView>,
    item: JsonView,
    s: Seq<char>,
    name: Seq<char>,
)
    ensures
        input_messages(Some(JsonView::Array(a))) == item_messages(a),
        item_messages(a + b) == item_messages(a) + item_messages(b),
        item == JsonView::Text(s) ==> item_messages(seq![item]).len() == 1 && item_messages(
            seq![item],
        )[0].get("role"@) == Some(JsonView::Text("user"@)) && item_messages(seq![item])[0].get(
            "content"@,
        ) == Some(JsonView::Text(s)),
        item is Object && item.get("type"@) == Some(JsonView::Text("function_call_output"@))
            && item.get("output"@) == Some(JsonView::Text(s)) && item.get("name"@) == Some(
            JsonView::Text(name),
        ) ==> item_messages(seq![item]).len() == 1 && item_messages(seq![item])[0].get("role"@)
            == Some(JsonView::Text("tool"@)) && item_messages(seq![item])[0].get("name"@) == Some(
            JsonView::Text(name),
        ) && item_messages(seq![item])[0].get("content"@) == Some(JsonView::Text(s)),
        item is Object && item.get("type"@) != Some(JsonView::Text("function_call_output"@))
            && item.get("role"@) == Some(JsonView::Text(name)) && name != "assistant"@ && item.get(
            "content"@,
        ) == Some(JsonView::Text(s)) ==> item_messages(seq![item]).len() == 1 && item_messages(
            seq![item],
        )[0].get("role"@) == Some(JsonView::Text(name)) && item_messages(seq![item])[0].get(
            "content"@,
        ) == Some(JsonView::Text(s)),
        item is Object && item.get("type"@) != Some(JsonView::Text("function_call_output"@))
            && item.get("role"@) == Some(JsonView::Text("assistant"@)) ==> item_messages(
            seq![item],
        ) == seq![assistant_message(item.get("content"@))],
    decreases b.len(),
{
    reveal_strlit("role");
    reveal_strlit("name");
    reveal_strlit("content");
    assert("role"@.len() == 4);
    assert("name"@.len() == 4);
    assert("content"@.len() == 7);
    assert("role"@[0] != "name"@[0]);
    lemma_message("user"@, s);
    lemma_message(name, s);
    json::lemma_object_of_3(
        "role"@,
        JsonView::Text("tool"@),
        "name"@,
        JsonView::Text(item.text_or("name"@, ""@)),
        "content"@,
        JsonView::Text(item.text_or("output"@, ""@)),
    );
    reveal_with_fuel(item_messages, 2);
    assert(seq![item].drop_last() =~= Seq::<JsonView>::empty());
    if b.len() == 0 {
        assert(a + b =~= a);
        assert(item_messages(a) + item_messages(b) =~= item_messages(a));
    } else {
        law_items_one_by_one(a, b.drop_last(), item, s, name);
        assert((a + b).drop_last() =~= a + b.drop_last());
        assert((a + b).last() == b.last());
        assert(item_messages(a + b) =~= item_messages(a) + item_messages(b));
    }
}

/// What the assistant said is its text, the texts of its parts put together; its
/// calls stand beside it, each with its identifier, its name and its arguments.
pub proof fn law_assistant_is_told(parts: Seq<JsonView>, s: Seq<char>)
    ensures
        ({
            let m = assistant_message(Some(JsonView::Array(parts)));
            &&& m.get("role"@) == Some(JsonView::Text("assistant"@))
            &&& m.get("content"@) == Some(JsonView::Text(output_text(parts)))
            &&& function_calls(parts).len() > 0 ==> m.get("tool_calls"@) == Some(
                JsonView::Array(call_values(function_calls(parts))),
            )
            &&& function_calls(parts).len() == 0 ==> m.get("tool_calls"@) is None
        }),
        assistant_message(Some(JsonView::Text(s))).get("content"@) == Some(JsonView::Text(s)),
{
    reveal_strlit("role");
    reveal_strlit("content");
    reveal_strlit("tool_calls");
    assert("role"@.len() == 4);
    assert("content"@.len() == 7);
    assert("tool_calls"@.len() == 10);
    lemma_message("assistant"@, s);
    let said = output_text(parts);
    let calls = function_calls(parts);
    lemma_message("assistant"@, said);
    json::lemma_object_of_3(
        "role"@,
        JsonView::Text("assistant"@),
        "content"@,
        JsonView::Text(said),
        "tool_calls"@,
        JsonView::Array(call_values(calls)),
    );
    json::lemma_with(JsonView::object(), "role"@, JsonView::Text("assistant"@), "tool_calls"@);
    json::lemma_with(
        JsonView::object().with("role"@, JsonView::Text("assistant"@)),
        "content"@,
        JsonView::Text(said),
        "tool_calls"@,
    );
}

/// The parts of the assistant are read one by one, in order: the texts of its
/// output add up, and its calls are kept as they are.
pub proof fn law_parts_of_the_assistant(a: Seq<JsonView>, b: Seq<JsonView>, part: JsonView, s: Seq<char>)
    ensures
        output_text(a + b) == output_text(a) + output_text(b),
        function_calls(a + b) == function_calls(a) + function_calls(b),
        part.get("type"@) == Some(JsonView::Text("output_text"@)) && part.get("text"@) == Some(
            JsonView::Text(s),
        ) ==> output_text(seq![part]) == s && function_calls(seq![part]).len() == 0,
        part.get("type"@) == Some(JsonView::Text("function_call"@)) ==> output_text(
            seq![part],
        ).len() == 0 && function_calls(seq![part]) == seq![part],
    decreases b.len(),
{
    reveal_strlit("output_text");
    reveal_strlit("function_call");
    assert("output_text"@.len() == 11);
    assert("function_call"@.len() == 13);
    reveal_with_fuel(output_text, 2);
    reveal_with_fuel(function_calls, 2);
    assert(seq![part].drop_last() =~= Seq::<JsonView>::empty());
    assert(Seq::<char>::empty() + s =~= s);
    if b.len() == 0 {
        assert(a + b =~= a);
        assert(output_text(a) + output_text(b) =~= output_text(a));
        assert(function_calls(a) + function_calls(b) =~= function_calls(a));
    } else {
        law_parts_of_the_assistant(a, b.drop_last(), part, s);
        assert((a + b).drop_last() =~= a + b.drop_last());
        assert((a + b).last() == b.last());
        assert(output_text(a + b) =~= output_text(a) + output_text(b));
        assert(function_calls(a + b) =~= function_calls(a) + function_calls(b));
    }
}

/// A call of the assistant keeps its identifier, its name and its arguments; one
/// without an identifier is numbered among the calls of its message.
pub proof fn law_call_is_kept(calls: Seq<JsonView>, i: int)
    requires
        0 <= i < calls.len(),
    ensures
        call_values(calls).len() == calls.len(),
        ({
            let call = calls[i];
            let v = call_values(calls)[i];
            &&& v.get("type"@) == Some(JsonView::Text("function"@))
            &&& call.get("call_id"@) matches Some(JsonView::Text(id)) ==> v.get("id"@) == Some(
                JsonView::Text(id),
            )
            &&& call.get("call_id"@) is None ==> v.get("id"@) == Some(
                JsonView::Text("call_"@ + text::decimal(i as nat)),
            )
            &&& v.get("function"@) matches Some(f) && (call.get("name"@) matches Some(
                JsonView::Text(n),
            ) ==> f.get("name"@) == Some(JsonView::Text(n))) && (call.get("arguments"@) matches Some(
                JsonView::Text(a),
            ) ==> f.get("arguments"@) == Some(JsonView::Text(a))) && (call.get("arguments"@) is None
                ==> f.get("arguments"@) == Some(JsonView::Text("{}"@)))
        }),
{
    reveal_strlit("id");
    reveal_strlit("type");
    reveal_strlit("function");
    assert("id"@.len() == 2);
    assert("type"@.len() == 4);
    assert("function"@.len() == 8);
    reveal_strlit("name");
    reveal_strlit("arguments");
    assert("name"@.len() == 4);
    assert("arguments"@.len() == 9);
    let call = calls[i];
    let name = JsonView::Text(call.text_or("name"@, ""@));
    let arguments = JsonView::Text(call.text_or("arguments"@, "{}"@));
    json::lemma_object_of_2("name"@, name, "arguments"@, arguments);
    json::lemma_object_of_3(
        "id"@,
        JsonView::Text(call.text_or("call_id"@, "call_"@ + text::decimal(i as nat))),
        "type"@,
        JsonView::Text("function"@),
        "function"@,
        JsonView::object().with("name"@, name).with("arguments"@, arguments),
    );
}

/// Every tool of a request is kept, in order; one whose function stands in the
/// tool itself is told with its name, its description and its parameters.
pub proof fn law_every_tool_is_kept(tools: Seq<JsonView>, i: int)
    requires
        0 <= i < tools.len(),
    ensures
        normalized_tools(Some(JsonView::Array(tools))).len() == tools.len(),
        ({
            let tool = tools[i];
            let kept = normalized_tools(Some(JsonView::Array(tools)))[i];
            &&& tool.get("function"@) is Some || tool.get("type"@) != Some(
                JsonView::Text("function"@),
            ) ==> kept == tool
            &&& tool.get("function"@) is None && tool.get("type"@) == Some(
                JsonView::Text("function"@),
            ) ==> kept.get("type"@) == Some(JsonView::Text("function"@)) && kept.get("function"@)
                == Some(openai::definition_of(tool))
        }),
{
    reveal_strlit("type");
    reveal_strlit("function");
    assert("type"@.len() == 4);
    assert("function"@.len() == 8);
    json::lemma_object_of_2(
        "type"@,
        JsonView::Text("function"@),
        "function"@,
        openai::definition_of(tools[i]),
    );
}

} // verus!
