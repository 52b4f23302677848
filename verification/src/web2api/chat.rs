//! `POST /v1/chat/completions`: what a request asks for, and what it is
//! answered.

use crate::gemini::clock;
use crate::gemini::models::{Resolved, ResolvedView};
use crate::json;
use crate::json::{Json, JsonView};
use crate::outside;
use crate::text;
use crate::web2api::convert::common;
use crate::web2api::convert::common::{ToolChoice, ToolChoiceView};
use crate::web2api::convert::openai;
use crate::web2api::http;
use crate::web2api::http::{Reply, StreamStep};
use vstd::prelude::*;
use vstd::string::*;

verus! {

// ---------------------------------------------------------------------------
// The request
// ---------------------------------------------------------------------------

/// What a request asks for.
#[derive(Debug, PartialEq, Eq)]
pub struct Plan {
    pub model_name: String,
    pub resolved: Resolved,
    pub prompt: String,
    /// The answer may call tools.
    pub has_tools: bool,
    /// The answer comes in events.
    pub stream: bool,
}

pub struct PlanView {
    pub model_name: Seq<char>,
    pub resolved: ResolvedView,
    pub prompt: Seq<char>,
    pub has_tools: bool,
    pub stream: bool,
}

impl View for Plan {
    type V = PlanView;

    open spec fn view(&self) -> PlanView {
        PlanView {
            model_name: self.model_name@,
            resolved: self.resolved@,
            prompt: self.prompt@,
            has_tools: self.has_tools,
            stream: self.stream,
        }
    }
}

impl Plan {
    /// The answer is handed on as it arrives. One that may call tools is read
    /// whole first, to find the calls in it.
    pub fn streams(&self) -> (r: bool)
        ensures
            r == (self@.stream && !self@.has_tools),
    {
        self.stream && !self.has_tools
    }
}

/// The plan for a model, a prompt and its settings, or why there is none.
pub open spec fn planned(
    model_name: Seq<char>,
    default_model: Seq<char>,
    prompt: Seq<char>,
    has_tools: bool,
    stream: bool,
    empty: Seq<char>,
) -> Result<PlanView, Seq<char>> {
    match common::strict_resolution(model_name, default_model) {
        Err(e) => Err(e),
        Ok(resolved) => if text::trimmed(prompt).len() == 0 {
            Err(empty)
        } else {
            Ok(PlanView { model_name, resolved, prompt, has_tools, stream })
        },
    }
}

/// What a request asks for, or why it is refused.
pub open spec fn plan_of(body: JsonView, default_model: Seq<char>) -> Result<PlanView, Seq<char>> {
    let messages = match body.get_array("messages"@) {
        Some(list) => list,
        None => Seq::empty(),
    };
    let tools = body.get_array("tools"@);
    let choice = common::choice_of(body.get("tool_choice"@));
    planned(
        body.text_or("model"@, default_model),
        default_model,
        openai::prompt_of(messages, tools, choice),
        tools is Some && choice != ToolChoiceView::Never,
        wants_stream(body),
        "empty prompt"@,
    )
}

pub open spec fn wants_stream(body: JsonView) -> bool {
    body.get("stream"@) == Some(JsonView::Bool(true))
}

/// Whether a request asks for events.
pub fn is_stream(body: &Json) -> (r: bool)
    ensures
        r == wants_stream(body@),
{
    match body.get("stream") {
        Some(Json::Bool(b)) => *b,
        _ => false,
    }
}

/// The plan for a model, a prompt and its settings, or why there is none.
pub fn plan(
    model_name: &str,
    default_model: &str,
    prompt: String,
    has_tools: bool,
    stream: bool,
    empty: &str,
) -> (r: Result<Plan, Reply>)
    ensures
        ({
            let wanted = planned(
                model_name@,
                default_model@,
                prompt@,
                has_tools,
                stream,
                empty@,
            );
            match r {
                Ok(p) => wanted == Ok::<PlanView, Seq<char>>(p@),
                Err(reply) => wanted is Err && reply@ == http::error_of(400, wanted->Err_0),
            }
        }),
{
    match common::resolve_model_strict(model_name, default_model) {
        Err(e) => Err(http::error_reply(400, e.as_str())),
        Ok(resolved) => if text::is_blank(prompt.as_str()) {
            Err(http::error_reply(400, empty))
        } else {
            Ok(Plan { model_name: model_name.to_owned(), resolved, prompt, has_tools, stream })
        },
    }
}

/// What a request asks for, or the reply that refuses it.
pub fn read_request(body: &Json, default_model: &str) -> (r: Result<Plan, Reply>)
    ensures
        match r {
            Ok(p) => plan_of(body@, default_model@) == Ok::<PlanView, Seq<char>>(p@),
            Err(reply) => plan_of(body@, default_model@) is Err && reply@ == http::error_of(
                400,
                plan_of(body@, default_model@)->Err_0,
            ),
        },
{
    let none: Vec<Json> = Vec::new();
    let messages: &Vec<Json> = match body.get_array("messages") {
        Some(list) => list,
        None => &none,
    };
    let tools = body.get_array("tools");
    let tool_choice = ToolChoice::parse(body.get("tool_choice"));
    let has_tools = tools.is_some() && !tool_choice.is_none();
    let prompt = openai::messages_to_prompt(messages, tools, &tool_choice);
    plan(
        body.text_or("model", default_model),
        default_model,
        prompt,
        has_tools,
        is_stream(body),
        "empty prompt",
    )
}

// ---------------------------------------------------------------------------
// The answer
// ---------------------------------------------------------------------------

/// What names an answer: the model, an identifier, and the second.
#[derive(Debug, PartialEq, Eq)]
pub struct Ctx {
    pub model_name: String,
    pub cid: String,
    pub created: u64,
}

/// A new name for an answer. The identifier is left to chance and the second
/// to the clock.
pub fn new_context(model_name: &str) -> (r: Ctx)
    ensures
        r.model_name@ == model_name@,
        exists|id: Seq<char>| #[trigger]
            outside::is_plain_id(id) && r.cid@ == "chatcmpl-"@ + id.take(12),
{
    let id = http::short_id(12);
    Ctx {
        model_name: model_name.to_owned(),
        cid: text::cat("chatcmpl-", id.as_str()),
        created: clock::now_unix_u64(),
    }
}

/// What heads an answer and each of its events.
pub open spec fn heading(ctx: Ctx, object: Seq<char>) -> JsonView {
    JsonView::object().with("id"@, JsonView::Text(ctx.cid@)).with(
        "object"@,
        JsonView::Text(object),
    ).with("created"@, json::count_value(ctx.created as nat)).with(
        "model"@,
        JsonView::Text(ctx.model_name@),
    )
}

pub open spec fn finish_value(finish: Option<Seq<char>>) -> JsonView {
    match finish {
        Some(f) => JsonView::Text(f),
        None => JsonView::Null,
    }
}

/// The only choice of an answer, under the name of its content.
pub open spec fn choices(name: Seq<char>, content: JsonView, finish: Option<Seq<char>>) -> JsonView {
    JsonView::Array(
        seq![
            JsonView::object().with("index"@, json::count_value(0)).with(name, content).with(
                "finish_reason"@,
                finish_value(finish),
            ),
        ],
    )
}

/// An event of an answer.
pub open spec fn chunk_value(ctx: Ctx, delta: JsonView, finish: Option<Seq<char>>) -> JsonView {
    heading(ctx, "chat.completion.chunk"@).with("choices"@, choices("delta"@, delta, finish))
}

/// What an event says that adds a text.
pub open spec fn delta_value(delta: Option<Seq<char>>) -> JsonView {
    match delta {
        Some(t) => JsonView::object().with("content"@, JsonView::Text(t)),
        None => JsonView::object(),
    }
}

fn head(ctx: &Ctx, object: &str) -> (r: Json)
    ensures
        r@ == heading(*ctx, object@),
{
    Json::object().with("id", Json::from_text(ctx.cid.as_str())).with(
        "object",
        Json::from_text(object),
    ).with("created", Json::from_integer(ctx.created)).with(
        "model",
        Json::from_text(ctx.model_name.as_str()),
    )
}

fn only_choice(name: &str, content: Json, finish: Option<&str>) -> (r: Json)
    ensures
        r@ == choices(name@, content@, text::option_str_view(finish)),
{
    let reason = match finish {
        Some(f) => Json::from_text(f),
        None => Json::Null,
    };
    Json::list_of(
        Json::object().with("index", Json::from_integer(0)).with(name, content).with(
            "finish_reason",
            reason,
        ),
    )
}

/// An event of an answer.
pub fn chunk(ctx: &Ctx, delta: Json, finish: Option<&str>) -> (r: Json)
    ensures
        r@ == chunk_value(*ctx, delta@, text::option_str_view(finish)),
{
    head(ctx, "chat.completion.chunk").with("choices", only_choice("delta", delta, finish))
}

/// The event with which a stream begins.
pub fn stream_start(ctx: &Ctx) -> (r: String)
    ensures
        r@ == json::json_printed(chunk_value(*ctx, delta_value(None), None)),
{
    http::sse_event(&chunk(ctx, Json::object(), None))
}

/// What is sent for an item of the service's stream: a text is an event; an
/// error, or the end, ends the stream.
pub open spec fn stream_events(ctx: Ctx, item: Option<Result<Seq<char>, Seq<char>>>) -> (
    Seq<Seq<char>>,
    bool,
) {
    match item {
        Some(Ok(delta)) => (
            seq![json::json_printed(chunk_value(ctx, delta_value(Some(delta)), None))],
            false,
        ),
        _ => (
            seq![
                json::json_printed(chunk_value(ctx, delta_value(None), Some("stop"@))),
                "[DONE]"@,
            ],
            true,
        ),
    }
}

pub open spec fn item_view(item: Option<Result<String, String>>) -> Option<
    Result<Seq<char>, Seq<char>>,
> {
    match item {
        Some(Ok(delta)) => Some(Ok(delta@)),
        Some(Err(e)) => Some(Err(e@)),
        None => None,
    }
}

/// What is sent for an item of the service's stream, or for its end.
pub fn stream_deltas(ctx: &Ctx, item: Option<Result<String, String>>) -> (r: StreamStep)
    ensures
        (text::texts_of(r.events@), r.over) == stream_events(*ctx, item_view(item)),
{
    let mut events: Vec<String> = Vec::new();
    let ghost wanted = stream_events(*ctx, item_view(item));
    match item {
        Some(Ok(delta)) => {
            let d = Json::object().with("content", Json::from_text(delta.as_str()));
            events.push(http::sse_event(&chunk(ctx, d, None)));
            proof {
                assert(text::texts_of(events@) =~= wanted.0);
            }
            StreamStep { events, over: false }
        },
        _ => {
            events.push(http::sse_event(&chunk(ctx, Json::object(), Some("stop"))));
            events.push("[DONE]".to_owned());
            proof {
                assert(text::texts_of(events@) =~= wanted.0);
            }
            StreamStep { events, over: true }
        },
    }
}

/// The message of the assistant.
pub open spec fn message_value(clean: Seq<char>, calls: Seq<JsonView>) -> JsonView {
    let m = JsonView::object().with("role"@, JsonView::Text("assistant"@)).with(
        "content"@,
        if clean.len() > 0 {
            JsonView::Text(clean)
        } else {
            JsonView::Null
        },
    );
    if calls.len() > 0 {
        m.with("tool_calls"@, JsonView::Array(calls))
    } else {
        m
    }
}

pub open spec fn finish_of(calls: Seq<JsonView>) -> Option<Seq<char>> {
    if calls.len() == 0 {
        Some("stop"@)
    } else {
        Some("tool_calls"@)
    }
}

/// A whole answer.
pub open spec fn completion_value(
    ctx: Ctx,
    prompt: Seq<char>,
    clean: Seq<char>,
    calls: Seq<JsonView>,
) -> JsonView {
    heading(ctx, "chat.completion"@).with(
        "choices"@,
        choices("message"@, message_value(clean, calls), finish_of(calls)),
    ).with("usage"@, common::usage_value(prompt.len(), clean.len()))
}

fn message(clean: &str, calls: &Vec<Json>) -> (r: Json)
    ensures
        r@ == message_value(clean@, json::items_view(calls@)),
{
    let content = if clean.is_empty() {
        Json::Null
    } else {
        Json::from_text(clean)
    };
    let m = Json::object().with("role", Json::from_text("assistant")).with("content", content);
    proof {
        json::lemma_items_view(calls@);
    }
    if calls.len() > 0 {
        m.with("tool_calls", Json::Array(json::copy_items(calls)))
    } else {
        m
    }
}

fn finish_reason(calls: &Vec<Json>) -> (r: Option<&'static str>)
    ensures
        text::option_str_view(r) == finish_of(json::items_view(calls@)),
{
    proof {
        json::lemma_items_view(calls@);
    }
    if calls.len() == 0 {
        Some("stop")
    } else {
        Some("tool_calls")
    }
}

/// The answer without its calls, and the calls, if it may have any.
pub open spec fn is_split(
    answer: Seq<char>,
    has_tools: bool,
    clean: Seq<char>,
    calls: Seq<JsonView>,
) -> bool {
    if has_tools && answer.len() > 0 {
        &&& clean == common::split_of(answer).0
        &&& common::are_call_items(calls, common::split_of(answer).1)
    } else {
        clean == answer && calls.len() == 0
    }
}

/// The answer without its calls, and the calls, if it may have any.
pub fn split_answer(answer: &str, has_tools: bool) -> (r: (String, Vec<Json>))
    ensures
        is_split(answer@, has_tools, r.0@, json::items_view(r.1@)),
{
    if has_tools && !answer.is_empty() {
        common::parse_tool_calls(answer)
    } else {
        (answer.to_owned(), Vec::new())
    }
}

/// The reply with a whole answer, whose calls were taken out.
pub fn complete(ctx: &Ctx, prompt: &str, clean: &str, calls: &Vec<Json>) -> (r: Reply)
    ensures
        r@ == http::reply_of(
            200,
            completion_value(*ctx, prompt@, clean@, json::items_view(calls@)),
        ),
{
    let value = head(ctx, "chat.completion").with(
        "choices",
        only_choice("message", message(clean, calls), finish_reason(calls)),
    ).with("usage", common::usage(prompt, clean));
    http::json_ok(&value)
}

/// The events with a whole answer, whose calls were taken out: one, and the
/// end.
pub fn complete_events(ctx: &Ctx, clean: &str, calls: &Vec<Json>) -> (r: Vec<String>)
    ensures
        text::texts_of(r@) == seq![
            json::json_printed(
                chunk_value(
                    *ctx,
                    message_value(clean@, json::items_view(calls@)),
                    finish_of(json::items_view(calls@)),
                ),
            ),
            "[DONE]"@,
        ],
{
    let mut events: Vec<String> = Vec::new();
    events.push(http::sse_event(&chunk(ctx, message(clean, calls), finish_reason(calls))));
    events.push("[DONE]".to_owned());
    proof {
        assert(text::texts_of(events@) =~= seq![
            json::json_printed(
                chunk_value(
                    *ctx,
                    message_value(clean@, json::items_view(calls@)),
                    finish_of(json::items_view(calls@)),
                ),
            ),
            "[DONE]"@,
        ]);
    }
    events
}

// ---------------------------------------------------------------------------
// Laws
// ---------------------------------------------------------------------------

proof fn lemma_heading(ctx: Ctx, object: Seq<char>)
    ensures
        json::is_object(heading(ctx, object)),
{
    let empty = JsonView::object();
    json::lemma_with(empty, "id"@, JsonView::Text(ctx.cid@), ""@);
    let a = empty.with("id"@, JsonView::Text(ctx.cid@));
    json::lemma_with(a, "object"@, JsonView::Text(object), ""@);
    let b = a.with("object"@, JsonView::Text(object));
    json::lemma_with(b, "created"@, json::count_value(ctx.created as nat), ""@);
    let c = b.with("created"@, json::count_value(ctx.created as nat));
    json::lemma_with(c, "model"@, JsonView::Text(ctx.model_name@), ""@);
}

proof fn lemma_choice(name: Seq<char>, content: JsonView, finish: Option<Seq<char>>)
    requires
        name == "delta"@ || name == "message"@,
    ensures
        ({
            let choice = choices(name, content, finish)->Array_0[0];
            choice.get(name) == Some(content) && choice.get("finish_reason"@) == Some(
                finish_value(finish),
            )
        }),
{
    reveal_strlit("delta");
    reveal_strlit("message");
    reveal_strlit("finish_reason");
    assert(name.len() != "finish_reason"@.len());
    let a = JsonView::object().with("index"@, json::count_value(0));
    json::lemma_with(JsonView::object(), "index"@, json::count_value(0), ""@);
    json::lemma_with(a, name, content, ""@);
    json::lemma_with(a.with(name, content), "finish_reason"@, finish_value(finish), name);
}

/// A text of the service reaches the client as it is: the event for it has the
/// text as the content of the delta of its only choice, and no reason to
/// finish.
pub proof fn law_event_carries_the_text(ctx: Ctx, delta: Seq<char>)
    ensures
        ({
            let event = chunk_value(ctx, delta_value(Some(delta)), None);
            let choice = event.get("choices"@)->Some_0.at(0)->Some_0;
            &&& choice.get("delta"@)->Some_0.get_text("content"@) == Some(delta)
            &&& choice.get("finish_reason"@) == Some(JsonView::Null)
        }),
{
    lemma_heading(ctx, "chat.completion.chunk"@);
    let d = delta_value(Some(delta));
    json::lemma_with(
        heading(ctx, "chat.completion.chunk"@),
        "choices"@,
        choices("delta"@, d, None),
        ""@,
    );
    lemma_choice("delta"@, d, None);
    json::lemma_with(JsonView::object(), "content"@, JsonView::Text(delta), ""@);
}

/// A whole answer has its text as the content of the message of its only
/// choice, and says that it stopped by itself, where it calls no tool.
pub proof fn law_completion_carries_the_answer(ctx: Ctx, prompt: Seq<char>, clean: Seq<char>)
    requires
        clean.len() > 0,
    ensures
        ({
            let reply = completion_value(ctx, prompt, clean, Seq::empty());
            let choice = reply.get("choices"@)->Some_0.at(0)->Some_0;
            &&& choice.get("message"@)->Some_0.get_text("content"@) == Some(clean)
            &&& choice.get("finish_reason"@) == Some(JsonView::Text("stop"@))
        }),
{
    reveal_strlit("choices");
    reveal_strlit("usage");
    assert("choices"@.len() != "usage"@.len());
    lemma_heading(ctx, "chat.completion"@);
    let m = message_value(clean, Seq::empty());
    let list = choices("message"@, m, finish_of(Seq::empty()));
    let h = heading(ctx, "chat.completion"@);
    json::lemma_with(h, "choices"@, list, ""@);
    json::lemma_with(
        h.with("choices"@, list),
        "usage"@,
        common::usage_value(prompt.len(), clean.len()),
        "choices"@,
    );
    lemma_choice("message"@, m, finish_of(Seq::empty()));
    let role = JsonView::object().with("role"@, JsonView::Text("assistant"@));
    json::lemma_with(JsonView::object(), "role"@, JsonView::Text("assistant"@), ""@);
    json::lemma_with(role, "content"@, JsonView::Text(clean), ""@);
}

/// A request is planned as it asks: the model that it names, or the default
/// where it names none; the prompt that its messages and tools make; events if
/// and only if it asks for them; and calls if and only if it brings tools and
/// does not forbid them. A model that is not known and a blank prompt are
/// refused.
pub proof fn law_request_is_planned_as_it_asks(
    body: JsonView,
    default_model: Seq<char>,
    messages: Seq<JsonView>,
)
    requires
        body.get("messages"@) == Some(JsonView::Array(messages)),
    ensures
        ({
            let name = match body.get("model"@) {
                Some(JsonView::Text(m)) => m,
                _ => default_model,
            };
            let tools = match body.get("tools"@) {
                Some(JsonView::Array(list)) => Some(list),
                _ => None,
            };
            let choice = common::choice_of(body.get("tool_choice"@));
            let prompt = openai::prompt_of(messages, tools, choice);
            match plan_of(body, default_model) {
                Ok(p) => {
                    &&& p.model_name == name
                    &&& common::strict_resolution(name, default_model) == Ok::<
                        ResolvedView,
                        Seq<char>,
                    >(p.resolved)
                    &&& p.prompt == prompt
                    &&& text::trimmed(prompt).len() > 0
                    &&& p.stream == (body.get("stream"@) == Some(JsonView::Bool(true)))
                    &&& p.has_tools == (tools is Some && choice != ToolChoiceView::Never)
                },
                Err(e) => {
                    ||| common::strict_resolution(name, default_model) == Err::<
                        ResolvedView,
                        Seq<char>,
                    >(e)
                    ||| (text::trimmed(prompt).len() == 0 && e == "empty prompt"@)
                },
            }
        }),
        ({
            let name = match body.get("model"@) {
                Some(JsonView::Text(m)) => m,
                _ => default_model,
            };
            let tools = match body.get("tools"@) {
                Some(JsonView::Array(list)) => Some(list),
                _ => None,
            };
            let choice = common::choice_of(body.get("tool_choice"@));
            plan_of(body, default_model) is Ok <==> common::strict_resolution(name, default_model)
                is Ok && text::trimmed(openai::prompt_of(messages, tools, choice)).len() > 0
        }),
{
}

/// Every answer and every event names itself, the second and the model.
pub proof fn law_heading_names_the_answer(ctx: Ctx, object: Seq<char>, key: Seq<char>, value: JsonView)
    requires
        key == "choices"@ || key == "usage"@,
    ensures
        ({
            let h = heading(ctx, object);
            &&& h.get("id"@) == Some(JsonView::Text(ctx.cid@))
            &&& h.get("object"@) == Some(JsonView::Text(object))
            &&& h.get("created"@) == Some(JsonView::Number(json::json_number(ctx.created)))
            &&& h.get("model"@) == Some(JsonView::Text(ctx.model_name@))
            &&& h.with(key, value).get("id"@) == Some(JsonView::Text(ctx.cid@))
            &&& h.with(key, value).get("model"@) == Some(JsonView::Text(ctx.model_name@))
            &&& h.with(key, value).get(key) == Some(value)
        }),
{
    reveal_strlit("id");
    reveal_strlit("object");
    reveal_strlit("created");
    reveal_strlit("model");
    reveal_strlit("choices");
    reveal_strlit("usage");
    assert("id"@.len() == 2);
    assert("object"@.len() == 6);
    assert("created"@.len() == 7);
    assert("model"@.len() == 5);
    assert("choices"@.len() == 7);
    assert("usage"@.len() == 5);
    assert("created"@[1] != "choices"@[1]);
    assert("model"@[0] != "usage"@[0]);
    json::lemma_object_of_4(
        "id"@,
        JsonView::Text(ctx.cid@),
        "object"@,
        JsonView::Text(object),
        "created"@,
        json::count_value(ctx.created as nat),
        "model"@,
        JsonView::Text(ctx.model_name@),
    );
    json::lemma_with(heading(ctx, object), key, value, "id"@);
    json::lemma_with(heading(ctx, object), key, value, "model"@);
}

/// An answer that calls tools has the calls in the message of its only choice,
/// with the text where there is one, and says that it stopped for them.
pub proof fn law_completion_carries_the_calls(
    ctx: Ctx,
    prompt: Seq<char>,
    clean: Seq<char>,
    calls: Seq<JsonView>,
)
    requires
        calls.len() > 0,
    ensures
        ({
            let reply = completion_value(ctx, prompt, clean, calls);
            let choice = reply.get("choices"@)->Some_0.at(0)->Some_0;
            let message = choice.get("message"@)->Some_0;
            &&& reply.get("choices"@) is Some
            &&& choice.get("message"@) is Some
            &&& message.get("tool_calls"@) == Some(JsonView::Array(calls))
            &&& message.get("role"@) == Some(JsonView::Text("assistant"@))
            &&& clean.len() > 0 ==> message.get("content"@) == Some(JsonView::Text(clean))
            &&& clean.len() == 0 ==> message.get("content"@) == Some(JsonView::Null)
            &&& choice.get("finish_reason"@) == Some(JsonView::Text("tool_calls"@))
            &&& reply.get("usage"@) == Some(common::usage_value(prompt.len(), clean.len()))
        }),
{
    reveal_strlit("choices");
    reveal_strlit("usage");
    assert("choices"@.len() == 7);
    assert("usage"@.len() == 5);
    reveal_strlit("role");
    reveal_strlit("content");
    reveal_strlit("tool_calls");
    assert("role"@.len() == 4);
    assert("content"@.len() == 7);
    assert("tool_calls"@.len() == 10);
    lemma_heading(ctx, "chat.completion"@);
    let m = message_value(clean, calls);
    let list = choices("message"@, m, finish_of(calls));
    let h = heading(ctx, "chat.completion"@);
    json::lemma_with(h, "choices"@, list, ""@);
    json::lemma_with(
        h.with("choices"@, list),
        "usage"@,
        common::usage_value(prompt.len(), clean.len()),
        "choices"@,
    );
    lemma_choice("message"@, m, finish_of(calls));
    json::lemma_object_of_3(
        "role"@,
        JsonView::Text("assistant"@),
        "content"@,
        if clean.len() > 0 {
            JsonView::Text(clean)
        } else {
            JsonView::Null
        },
        "tool_calls"@,
        JsonView::Array(calls),
    );
}

/// An answer to whose call no tool belongs is left as it is.
pub proof fn law_without_tools_the_answer_is_text(
    answer: Seq<char>,
    clean: Seq<char>,
    calls: Seq<JsonView>,
)
    ensures
        is_split(answer, false, clean, calls) <==> clean == answer && calls.len() == 0,
        is_split(answer, true, clean, calls) && answer.len() > 0 ==> clean == common::split_of(
            answer,
        ).0 && calls.len() == common::split_of(answer).1.len(),
{
}

/// A stream goes on with every text of the service, each as an event of its own,
/// and ends, once, with the end of the service's stream or its failure: the last
/// event but one says that the answer stopped, and the last that it is all.
pub proof fn law_stream_ends_once(ctx: Ctx, delta: Seq<char>, e: Seq<char>)
    ensures
        stream_events(ctx, Some(Ok(delta))) == (
            seq![json::json_printed(chunk_value(ctx, delta_value(Some(delta)), None))],
            false,
        ),
        stream_events(ctx, None) == stream_events(ctx, Some(Err(e))),
        stream_events(ctx, None).1,
        stream_events(ctx, None).0.len() == 2,
        stream_events(ctx, None).0[1] == "[DONE]"@,
        stream_events(ctx, None).0[0] == json::json_printed(
            chunk_value(ctx, JsonView::Object(Seq::empty()), Some("stop"@)),
        ),
        chunk_value(ctx, JsonView::object(), Some("stop"@)).get("choices"@)->Some_0.at(0)->Some_0.get(
            "finish_reason"@,
        ) == Some(JsonView::Text("stop"@)),
{
    lemma_heading(ctx, "chat.completion.chunk"@);
    let d = JsonView::object();
    json::lemma_with(
        heading(ctx, "chat.completion.chunk"@),
        "choices"@,
        choices("delta"@, d, Some("stop"@)),
        ""@,
    );
    lemma_choice("delta"@, d, Some("stop"@));
}

} // verus!
