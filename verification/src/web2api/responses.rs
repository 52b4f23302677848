//! `POST /v1/responses`: what a request asks for, and what it is answered, at
//! once or in events.

use crate::gemini::clock;
use crate::json;
use crate::json::{Json, JsonView};
use crate::outside;
use crate::text;
use crate::web2api::chat;
use crate::web2api::chat::{Plan, PlanView};
use crate::web2api::convert::codex;
use crate::web2api::convert::common;
use crate::web2api::convert::common::{ToolChoice, ToolChoiceView};
use crate::web2api::convert::openai;
use crate::web2api::http;
use crate::web2api::http::Reply;
use vstd::prelude::*;
use vstd::string::*;

verus! {

// ---------------------------------------------------------------------------
// The request
// ---------------------------------------------------------------------------

/// The tools that the answer may call, if there are any.
pub open spec fn tools_of(body: JsonView) -> Option<Seq<JsonView>> {
    let tools = codex::normalized_tools(body.get("tools"@));
    if tools.len() == 0 || common::choice_of(body.get("tool_choice"@)) == ToolChoiceView::Never {
        None
    } else {
        Some(tools)
    }
}

/// What a request asks for, or why it is refused.
pub open spec fn plan_of(body: JsonView, default_model: Seq<char>) -> Result<PlanView, Seq<char>> {
    chat::planned(
        body.text_or("model"@, default_model),
        default_model,
        openai::prompt_of(
            codex::messages_of(body),
            tools_of(body),
            common::choice_of(body.get("tool_choice"@)),
        ),
        tools_of(body) is Some,
        chat::wants_stream(body),
        "empty input"@,
    )
}

/// What a request asks for, or the reply that refuses it.
pub fn read_request(body: &Json, default_model: &str) -> (r: Result<Plan, Reply>)
    ensures
        match r {
            Ok(p) => plan_of(body@, default_model@) == Ok::<PlanView, Seq<char>>(p@),
            Err(reply) => plan_of(body@, default_model@) is Err && reply@ == http::error_of(
                400,
                plan_of(body@, default_model@)->Err_0,
            ),
        },
{
    let messages = codex::responses_input_to_messages(body);
    let tools = codex::normalize_responses_tools(body.get("tools"));
    let tool_choice = ToolChoice::parse(body.get("tool_choice"));
    proof {
        json::lemma_items_view(tools@);
    }
    let allowed: Option<&Vec<Json>> = if tools.len() == 0 || tool_choice.is_none() {
        None
    } else {
        Some(&tools)
    };
    let prompt = openai::messages_to_prompt(&messages, allowed, &tool_choice);
    chat::plan(
        body.text_or("model", default_model),
        default_model,
        prompt,
        allowed.is_some(),
        chat::is_stream(body),
        "empty input",
    )
}

// ---------------------------------------------------------------------------
// The answer
// ---------------------------------------------------------------------------

/// What names an answer: its identifier, that of its message, the second and
/// the model.
#[derive(Debug, PartialEq, Eq)]
pub struct Ctx {
    pub rid: String,
    pub mid: String,
    pub created: u64,
    pub model_name: String,
}

/// A new name for an answer. The identifiers are left to chance and the second
/// to the clock.
pub fn new_context(model_name: &str) -> (r: Ctx)
    ensures
        r.model_name@ == model_name@,
        exists|id: Seq<char>| #[trigger]
            outside::is_plain_id(id) && r.rid@ == "resp_"@ + id.take(16),
        exists|id: Seq<char>| #[trigger]
            outside::is_plain_id(id) && r.mid@ == "msg_"@ + id.take(12),
{
    let rid = http::short_id(16);
    let mid = http::short_id(12);
    Ctx {
        rid: text::cat("resp_", rid.as_str()),
        mid: text::cat("msg_", mid.as_str()),
        created: clock::now_unix_u64(),
        model_name: model_name.to_owned(),
    }
}

/// What heads an answer and each of its events.
pub open spec fn heading(ctx: Ctx) -> JsonView {
    JsonView::object().with("id"@, JsonView::Text(ctx.rid@)).with(
        "object"@,
        JsonView::Text("response"@),
    ).with("created_at"@, json::count_value(ctx.created as nat)).with(
        "model"@,
        JsonView::Text(ctx.model_name@),
    )
}

/// A call, as an item of the output.
pub open spec fn call_output(call: JsonView) -> JsonView {
    let f = call.member_or_null("function"@);
    JsonView::object().with("type"@, JsonView::Text("function_call"@)).with(
        "id"@,
        call.member_or_null("id"@),
    ).with("call_id"@, call.member_or_null("id"@)).with("name"@, f.member_or_null("name"@)).with(
        "arguments"@,
        f.member_or_null("arguments"@),
    ).with("status"@, JsonView::Text("completed"@))
}

/// A part of a message.
pub open spec fn text_part(s: Seq<char>) -> JsonView {
    JsonView::object().with("type"@, JsonView::Text("output_text"@)).with(
        "text"@,
        JsonView::Text(s),
    ).with("annotations"@, JsonView::Array(Seq::empty()))
}

/// The message, as an item of the output.
pub open spec fn message_output(mid: Seq<char>, clean: Seq<char>) -> JsonView {
    JsonView::object().with("type"@, JsonView::Text("message"@)).with(
        "id"@,
        JsonView::Text(mid),
    ).with("role"@, JsonView::Text("assistant"@)).with("status"@, JsonView::Text("completed"@)).with(
        "content"@,
        JsonView::Array(seq![text_part(clean)]),
    )
}

/// The output: the calls, then the message, if it says anything or is alone.
pub open spec fn output_of(mid: Seq<char>, clean: Seq<char>, calls: Seq<JsonView>) -> Seq<
    JsonView,
> {
    let called = Seq::new(calls.len(), |i: int| call_output(calls[i]));
    if clean.len() > 0 || calls.len() == 0 {
        called.push(message_output(mid, clean))
    } else {
        called
    }
}

/// The tokens: of each side by characters, of both by bytes.
pub open spec fn usage_value(prompt: Seq<char>, clean: Seq<char>) -> JsonView {
    JsonView::object().with("input_tokens"@, json::count_value(prompt.len() / 4)).with(
        "output_tokens"@,
        json::count_value(clean.len() / 4),
    ).with(
        "total_tokens"@,
        json::count_value((text::utf8_len(prompt) + text::utf8_len(clean)) / 4),
    )
}

/// The object that more is written into: the heading itself, or an empty one
/// where it is no object.
pub open spec fn head_of(base: JsonView) -> JsonView {
    match base {
        JsonView::Object(_) => base,
        _ => JsonView::object(),
    }
}

/// The answer with the given status.
pub open spec fn response_value(
    base: JsonView,
    status: Seq<char>,
    output: Seq<JsonView>,
    usage: JsonView,
) -> JsonView {
    head_of(base).with("status"@, JsonView::Text(status)).with(
        "output"@,
        JsonView::Array(output),
    ).with("usage"@, usage)
}

/// What heads an answer and each of its events.
pub fn base_of(ctx: &Ctx) -> (r: Json)
    ensures
        r@ == heading(*ctx),
{
    Json::object().with("id", Json::from_text(ctx.rid.as_str())).with(
        "object",
        Json::from_text("response"),
    ).with("created_at", Json::from_integer(ctx.created)).with(
        "model",
        Json::from_text(ctx.model_name.as_str()),
    )
}

fn output_call(call: &Json) -> (r: Json)
    ensures
        r@ == call_output(call@),
{
    let f = call.member_or_null("function");
    Json::object().with("type", Json::from_text("function_call")).with(
        "id",
        call.member_or_null("id"),
    ).with("call_id", call.member_or_null("id")).with("name", f.member_or_null("name")).with(
        "arguments",
        f.member_or_null("arguments"),
    ).with("status", Json::from_text("completed"))
}

fn part_with(s: &str) -> (r: Json)
    ensures
        r@ == text_part(s@),
{
    Json::object().with("type", Json::from_text("output_text")).with(
        "text",
        Json::from_text(s),
    ).with("annotations", Json::empty_list())
}

/// The output of an answer whose calls were taken out.
pub fn output_items(mid: &str, clean: &str, calls: &Vec<Json>) -> (r: Vec<Json>)
    ensures
        json::items_view(r@) == output_of(mid@, clean@, json::items_view(calls@)),
{
    let ghost all = json::items_view(calls@);
    let ghost wanted = Seq::new(all.len(), |i: int| call_output(all[i]));
    let mut out: Vec<Json> = Vec::new();
    proof {
        json::lemma_items_view(calls@);
        assert(wanted.take(0) =~= Seq::empty());
    }
    let mut i: usize = 0;
    while i < calls.len()
        invariant
            i <= calls@.len(),
            all.len() == calls@.len(),
            wanted == Seq::new(all.len(), |i: int| call_output(all[i])),
            forall|k: int| 0 <= k < all.len() ==> #[trigger] all[k] == calls@[k]@,
            json::items_view(out@) == wanted.take(i as int),
        decreases calls@.len() - i,
    {
        let item = output_call(&calls[i]);
        proof {
            json::lemma_items_push(out@, item);
            assert(wanted[i as int] == call_output(all[i as int]));
            assert(wanted.take(i + 1) =~= wanted.take(i as int).push(wanted[i as int]));
        }
        out.push(item);
        i += 1;
    }
    proof {
        assert(wanted.take(wanted.len() as int) =~= wanted);
    }
    if !clean.is_empty() || calls.len() == 0 {
        let item = Json::object().with("type", Json::from_text("message")).with(
            "id",
            Json::from_text(mid),
        ).with("role", Json::from_text("assistant")).with(
            "status",
            Json::from_text("completed"),
        ).with("content", Json::list_of(part_with(clean)));
        proof {
            json::lemma_items_push(out@, item);
        }
        out.push(item);
    }
    out
}

/// The tokens of a prompt and an answer.
pub fn usage(prompt: &str, clean: &str) -> (r: Json)
    ensures
        r@ == usage_value(prompt@, clean@),
{
    let sum: u128 = text::byte_len(prompt) as u128 + text::byte_len(clean) as u128;
    Json::object().with(
        "input_tokens",
        Json::from_integer(text::char_count(prompt) as u64 / 4),
    ).with("output_tokens", Json::from_integer(text::char_count(clean) as u64 / 4)).with(
        "total_tokens",
        Json::from_integer((sum / 4) as u64),
    )
}

fn head(base: &Json) -> (r: Json)
    ensures
        r@ == head_of(base@),
{
    match base {
        Json::Object(_) => base.clone(),
        _ => Json::object(),
    }
}

fn response(base: &Json, status: &str, output: Json, usage: Json) -> (r: Json)
    ensures
        r@ == head_of(base@).with("status"@, JsonView::Text(status@)).with("output"@, output@).with(
            "usage"@,
            usage@,
        ),
{
    head(base).with("status", Json::from_text(status)).with("output", output).with("usage", usage)
}

/// The reply with a whole answer.
pub fn complete(base: &Json, output: &Vec<Json>, usage: &Json) -> (r: Reply)
    ensures
        r@ == http::reply_of(
            200,
            response_value(base@, "completed"@, json::items_view(output@), usage@),
        ),
{
    http::json_ok(
        &response(base, "completed", Json::Array(json::copy_items(output)), usage.clone()),
    )
}

// ---------------------------------------------------------------------------
// Events
// ---------------------------------------------------------------------------

/// An object after more members were written, one after the other.
pub open spec fn merged_value(base: JsonView, extra: Seq<(Seq<char>, JsonView)>) -> JsonView
    decreases extra.len(),
{
    if extra.len() == 0 {
        base
    } else {
        merged_value(base, extra.drop_last()).with(extra.last().0, extra.last().1)
    }
}

/// An event: the heading, the kind, the number of the event and its fields.
pub open spec fn event(
    base: JsonView,
    number: nat,
    kind: Seq<char>,
    fields: Seq<(Seq<char>, JsonView)>,
) -> JsonView {
    merged_value(
        head_of(base).with("type"@, JsonView::Text(kind)).with(
            "sequence_number"@,
            json::count_value(number),
        ),
        fields,
    )
}

/// A call before its arguments are there.
pub open spec fn pending_call(item: JsonView) -> JsonView {
    JsonView::object().with("type"@, JsonView::Text("function_call"@)).with(
        "id"@,
        item.member_or_null("id"@),
    ).with("call_id"@, item.member_or_null("call_id"@)).with(
        "name"@,
        item.member_or_null("name"@),
    ).with("arguments"@, JsonView::Text(""@)).with("status"@, JsonView::Text("in_progress"@))
}

/// A message before its parts are there.
pub open spec fn pending_message(item: JsonView) -> JsonView {
    JsonView::object().with("type"@, JsonView::Text("message"@)).with(
        "id"@,
        item.member_or_null("id"@),
    ).with("role"@, JsonView::Text("assistant"@)).with(
        "status"@,
        JsonView::Text("in_progress"@),
    ).with("content"@, JsonView::Array(Seq::empty()))
}

/// The events of a call, after `start` others.
pub open spec fn call_events(base: JsonView, item: JsonView, oi: nat, start: nat) -> Seq<JsonView> {
    let id = item.member_or_null("id"@);
    let arguments = item.member_or_null("arguments"@);
    let at = json::count_value(oi);
    seq![
        event(
            base,
            start + 1,
            "response.output_item.added"@,
            seq![("output_index"@, at), ("item"@, pending_call(item))],
        ),
        event(
            base,
            start + 2,
            "response.function_call_arguments.delta"@,
            seq![("item_id"@, id), ("output_index"@, at), ("delta"@, arguments)],
        ),
        event(
            base,
            start + 3,
            "response.function_call_arguments.done"@,
            seq![("item_id"@, id), ("output_index"@, at), ("arguments"@, arguments)],
        ),
        event(
            base,
            start + 4,
            "response.output_item.done"@,
            seq![("output_index"@, at), ("item"@, item)],
        ),
    ]
}

/// The events of a part of a message, after `start` others.
pub open spec fn part_events(
    base: JsonView,
    id: JsonView,
    part: JsonView,
    oi: nat,
    ci: nat,
    start: nat,
) -> Seq<JsonView> {
    let said = JsonView::Text(part.text_or("text"@, ""@));
    let oat = json::count_value(oi);
    let cat = json::count_value(ci);
    seq![
        event(
            base,
            start + 1,
            "response.content_part.added"@,
            seq![
                ("item_id"@, id),
                ("output_index"@, oat),
                ("content_index"@, cat),
                ("part"@, text_part(""@)),
            ],
        ),
        event(
            base,
            start + 2,
            "response.output_text.delta"@,
            seq![
                ("item_id"@, id),
                ("output_index"@, oat),
                ("content_index"@, cat),
                ("delta"@, said),
            ],
        ),
        event(
            base,
            start + 3,
            "response.output_text.done"@,
            seq![
                ("item_id"@, id),
                ("output_index"@, oat),
                ("content_index"@, cat),
                ("text"@, said),
            ],
        ),
        event(
            base,
            start + 4,
            "response.content_part.done"@,
            seq![
                ("item_id"@, id),
                ("output_index"@, oat),
                ("content_index"@, cat),
                ("part"@, part),
            ],
        ),
    ]
}

/// The events of the parts of a message.
pub open spec fn parts_events(
    base: JsonView,
    id: JsonView,
    parts: Seq<JsonView>,
    oi: nat,
    start: nat,
) -> Seq<JsonView>
    decreases parts.len(),
{
    if parts.len() == 0 {
        Seq::empty()
    } else {
        let before = parts_events(base, id, parts.drop_last(), oi, start);
        before + part_events(
            base,
            id,
            parts.last(),
            oi,
            (parts.len() - 1) as nat,
            start + before.len(),
        )
    }
}

pub open spec fn content_of(item: JsonView) -> Seq<JsonView> {
    match item.get_array("content"@) {
        Some(parts) => parts,
        None => Seq::empty(),
    }
}

/// The events of a message, after `start` others.
pub open spec fn message_events(base: JsonView, item: JsonView, oi: nat, start: nat) -> Seq<
    JsonView,
> {
    let at = json::count_value(oi);
    let parts = parts_events(base, item.member_or_null("id"@), content_of(item), oi, start + 1);
    seq![
        event(
            base,
            start + 1,
            "response.output_item.added"@,
            seq![("output_index"@, at), ("item"@, pending_message(item))],
        ),
    ] + parts + seq![
        event(
            base,
            start + 1 + parts.len() + 1,
            "response.output_item.done"@,
            seq![("output_index"@, at), ("item"@, item)],
        ),
    ]
}

/// The events of the output, after `start` others.
pub open spec fn output_events(base: JsonView, output: Seq<JsonView>, start: nat) -> Seq<JsonView>
    decreases output.len(),
{
    if output.len() == 0 {
        Seq::empty()
    } else {
        let before = output_events(base, output.drop_last(), start);
        let item = output.last();
        let oi = (output.len() - 1) as nat;
        before + if item.get_text("type"@) == Some("function_call"@) {
            call_events(base, item, oi, start + before.len())
        } else {
            message_events(base, item, oi, start + before.len())
        }
    }
}

/// The events of an answer: it is created and in progress, then come the items
/// of the output, then it is complete.
pub open spec fn events_of(base: JsonView, output: Seq<JsonView>, usage: JsonView) -> Seq<
    JsonView,
> {
    let begun = response_value(base, "in_progress"@, Seq::empty(), JsonView::Null);
    let items = output_events(base, output, 2);
    seq![
        event(base, 1, "response.created"@, seq![("response"@, begun)]),
        event(base, 2, "response.in_progress"@, seq![("response"@, begun)]),
    ] + items + seq![
        event(
            base,
            2 + items.len() + 1,
            "response.completed"@,
            seq![("response"@, response_value(base, "completed"@, output, usage))],
        ),
    ]
}

fn add_field(fields: &mut Vec<(String, Json)>, key: &str, value: Json)
    ensures
        json::members_view(final(fields)@) == json::members_view(old(fields)@).push(
            (key@, value@),
        ),
{
    let member = (key.to_owned(), value);
    proof {
        json::lemma_members_push(fields@, member);
    }
    fields.push(member);
}

/// An object after more members were written, one after the other.
fn merged(base: Json, extra: &Vec<(String, Json)>) -> (r: Json)
    ensures
        r@ == merged_value(base@, json::members_view(extra@)),
{
    let ghost all = json::members_view(extra@);
    let ghost start = base@;
    proof {
        json::lemma_members_view(extra@);
    }
    let mut out = base;
    let mut i: usize = 0;
    while i < extra.len()
        invariant
            i <= extra@.len(),
            all.len() == extra@.len(),
            forall|k: int|
                0 <= k < all.len() ==> #[trigger] all[k] == (extra@[k].0@, extra@[k].1@),
            out@ == merged_value(start, all.take(i as int)),
        decreases extra@.len() - i,
    {
        proof {
            assert(all.take(i + 1).drop_last() =~= all.take(i as int));
            assert(all.take(i + 1).last() == all[i as int]);
        }
        out = out.with(extra[i].0.as_str(), extra[i].1.clone());
        i += 1;
    }
    proof {
        assert(all.take(all.len() as int) =~= all);
    }
    out
}

/// Adds an event, with the number that it has among all.
fn emit(events: &mut Vec<Json>, base: &Json, kind: &str, fields: &Vec<(String, Json)>)
    ensures
        json::items_view(final(events)@) == json::items_view(old(events)@).push(
            event(
                base@,
                (json::items_view(old(events)@).len() + 1) as nat,
                kind@,
                json::members_view(fields@),
            ),
        ),
{
    let ghost before = events@;
    events.push(Json::Null);
    let number: usize = events.len();
    let begun = head(base).with("type", Json::from_text(kind)).with(
        "sequence_number",
        Json::from_integer(number as u64),
    );
    let payload = merged(begun, fields);
    proof {
        json::lemma_items_view(before);
        json::lemma_items_push(before, payload);
        assert(events@.update(number - 1, payload) =~= before.push(payload));
    }
    events[number - 1] = payload;
}

fn position(n: usize) -> (r: Json)
    ensures
        r@ == json::count_value(n as nat),
{
    Json::from_integer(n as u64)
}

fn emit_item(events: &mut Vec<Json>, base: &Json, kind: &str, oi: usize, item: Json)
    ensures
        json::items_view(final(events)@) == json::items_view(old(events)@).push(
            event(
                base@,
                (json::items_view(old(events)@).len() + 1) as nat,
                kind@,
                seq![("output_index"@, json::count_value(oi as nat)), ("item"@, item@)],
            ),
        ),
{
    let mut fields: Vec<(String, Json)> = Vec::new();
    add_field(&mut fields, "output_index", position(oi));
    add_field(&mut fields, "item", item);
    proof {
        assert(json::members_view(fields@) =~= seq![
            ("output_index"@, json::count_value(oi as nat)),
            ("item"@, item@),
        ]);
    }
    emit(events, base, kind, &fields);
}

fn emit_arguments(events: &mut Vec<Json>, base: &Json, kind: &str, item: &Json, oi: usize, key: &str)
    ensures
        json::items_view(final(events)@) == json::items_view(old(events)@).push(
            event(
                base@,
                (json::items_view(old(events)@).len() + 1) as nat,
                kind@,
                seq![
                    ("item_id"@, item@.member_or_null("id"@)),
                    ("output_index"@, json::count_value(oi as nat)),
                    (key@, item@.member_or_null("arguments"@)),
                ],
            ),
        ),
{
    let mut fields: Vec<(String, Json)> = Vec::new();
    add_field(&mut fields, "item_id", item.member_or_null("id"));
    add_field(&mut fields, "output_index", position(oi));
    add_field(&mut fields, key, item.member_or_null("arguments"));
    proof {
        assert(json::members_view(fields@) =~= seq![
            ("item_id"@, item@.member_or_null("id"@)),
            ("output_index"@, json::count_value(oi as nat)),
            (key@, item@.member_or_null("arguments"@)),
        ]);
    }
    emit(events, base, kind, &fields);
}

fn emit_call(events: &mut Vec<Json>, base: &Json, item: &Json, oi: usize)
    ensures
        json::items_view(final(events)@) == json::items_view(old(events)@) + call_events(
            base@,
            item@,
            oi as nat,
            json::items_view(old(events)@).len(),
        ),
{
    let ghost before = json::items_view(events@);
    let pending = Json::object().with("type", Json::from_text("function_call")).with(
        "id",
        item.member_or_null("id"),
    ).with("call_id", item.member_or_null("call_id")).with(
        "name",
        item.member_or_null("name"),
    ).with("arguments", Json::from_text("")).with("status", Json::from_text("in_progress"));
    emit_item(events, base, "response.output_item.added", oi, pending);
    emit_arguments(events, base, "response.function_call_arguments.delta", item, oi, "delta");
    emit_arguments(events, base, "response.function_call_arguments.done", item, oi, "arguments");
    emit_item(events, base, "response.output_item.done", oi, item.clone());
    proof {
        assert(json::items_view(events@) =~= before + call_events(
            base@,
            item@,
            oi as nat,
            before.len(),
        ));
    }
}

fn emit_part_event(
    events: &mut Vec<Json>,
    base: &Json,
    kind: &str,
    item: &Json,
    oi: usize,
    ci: usize,
    key: &str,
    value: Json,
)
    ensures
        json::items_view(final(events)@) == json::items_view(old(events)@).push(
            event(
                base@,
                (json::items_view(old(events)@).len() + 1) as nat,
                kind@,
                seq![
                    ("item_id"@, item@.member_or_null("id"@)),
                    ("output_index"@, json::count_value(oi as nat)),
                    ("content_index"@, json::count_value(ci as nat)),
                    (key@, value@),
                ],
            ),
        ),
{
    let mut fields: Vec<(String, Json)> = Vec::new();
    add_field(&mut fields, "item_id", item.member_or_null("id"));
    add_field(&mut fields, "output_index", position(oi));
    add_field(&mut fields, "content_index", position(ci));
    add_field(&mut fields, key, value);
    proof {
        assert(json::members_view(fields@) =~= seq![
            ("item_id"@, item@.member_or_null("id"@)),
            ("output_index"@, json::count_value(oi as nat)),
            ("content_index"@, json::count_value(ci as nat)),
            (key@, value@),
        ]);
    }
    emit(events, base, kind, &fields);
}

fn emit_part(events: &mut Vec<Json>, base: &Json, item: &Json, part: &Json, oi: usize, ci: usize)
    ensures
        json::items_view(final(events)@) == json::items_view(old(events)@) + part_events(
            base@,
            item@.member_or_null("id"@),
            part@,
            oi as nat,
            ci as nat,
            json::items_view(old(events)@).len(),
        ),
{
    let ghost before = json::items_view(events@);
    let said = part.text_or("text", "");
    emit_part_event(
        events,
        base,
        "response.content_part.added",
        item,
        oi,
        ci,
        "part",
        part_with(""),
    );
    emit_part_event(
        events,
        base,
        "response.output_text.delta",
        item,
        oi,
        ci,
        "delta",
        Json::from_text(said),
    );
    emit_part_event(
        events,
        base,
        "response.output_text.done",
        item,
        oi,
        ci,
        "text",
        Json::from_text(said),
    );
    emit_part_event(
        events,
        base,
        "response.content_part.done",
        item,
        oi,
        ci,
        "part",
        part.clone(),
    );
    proof {
        assert(json::items_view(events@) =~= before + part_events(
            base@,
            item@.member_or_null("id"@),
            part@,
            oi as nat,
            ci as nat,
            before.len(),
        ));
    }
}

fn emit_parts(events: &mut Vec<Json>, base: &Json, item: &Json, oi: usize)
    ensures
        json::items_view(final(events)@) == json::items_view(old(events)@) + parts_events(
            base@,
            item@.member_or_null("id"@),
            content_of(item@),
            oi as nat,
            json::items_view(old(events)@).len(),
        ),
{
    let ghost before = json::items_view(events@);
    let ghost id = item@.member_or_null("id"@);
    proof {
        assert(before + Seq::<JsonView>::empty() =~= before);
    }
    match item.get_array("content") {
        Some(parts) => {
            let ghost all = json::items_view(parts@);
            proof {
                json::lemma_items_view(parts@);
            }
            let mut ci: usize = 0;
            while ci < parts.len()
                invariant
                    ci <= parts@.len(),
                    all.len() == parts@.len(),
                    id == item@.member_or_null("id"@),
                    forall|k: int| 0 <= k < all.len() ==> #[trigger] all[k] == parts@[k]@,
                    json::items_view(events@) == before + parts_events(
                        base@,
                        id,
                        all.take(ci as int),
                        oi as nat,
                        before.len(),
                    ),
                decreases parts@.len() - ci,
            {
                let ghost now = json::items_view(events@);
                let ghost done = parts_events(
                    base@,
                    id,
                    all.take(ci as int),
                    oi as nat,
                    before.len(),
                );
                emit_part(events, base, item, &parts[ci], oi, ci);
                proof {
                    let next = all.take(ci + 1);
                    assert(next.drop_last() =~= all.take(ci as int));
                    assert(next.last() == all[ci as int]);
                    let added = part_events(
                        base@,
                        id,
                        all[ci as int],
                        oi as nat,
                        ci as nat,
                        before.len() + done.len(),
                    );
                    assert(now.len() == before.len() + done.len());
                    assert((before + done) + added =~= before + (done + added));
                }
                ci += 1;
            }
            proof {
                assert(all.take(all.len() as int) =~= all);
            }
        },
        None => {},
    }
}

fn emit_message(events: &mut Vec<Json>, base: &Json, item: &Json, oi: usize)
    ensures
        json::items_view(final(events)@) == json::items_view(old(events)@) + message_events(
            base@,
            item@,
            oi as nat,
            json::items_view(old(events)@).len(),
        ),
{
    let ghost before = json::items_view(events@);
    let pending = Json::object().with("type", Json::from_text("message")).with(
        "id",
        item.member_or_null("id"),
    ).with("role", Json::from_text("assistant")).with(
        "status",
        Json::from_text("in_progress"),
    ).with("content", Json::empty_list());
    emit_item(events, base, "response.output_item.added", oi, pending);
    emit_parts(events, base, item, oi);
    emit_item(events, base, "response.output_item.done", oi, item.clone());
    proof {
        assert(json::items_view(events@) =~= before + message_events(
            base@,
            item@,
            oi as nat,
            before.len(),
        ));
    }
}

fn emit_output(events: &mut Vec<Json>, base: &Json, output: &Vec<Json>)
    ensures
        json::items_view(final(events)@) == json::items_view(old(events)@) + output_events(
            base@,
            json::items_view(output@),
            json::items_view(old(events)@).len(),
        ),
{
    let ghost before = json::items_view(events@);
    let ghost all = json::items_view(output@);
    proof {
        json::lemma_items_view(output@);
        assert(before + output_events(base@, all.take(0), before.len()) =~= before);
    }
    let mut oi: usize = 0;
    while oi < output.len()
        invariant
            oi <= output@.len(),
            all.len() == output@.len(),
            forall|k: int| 0 <= k < all.len() ==> #[trigger] all[k] == output@[k]@,
            json::items_view(events@) == before + output_events(
                base@,
                all.take(oi as int),
                before.len(),
            ),
        decreases output@.len() - oi,
    {
        let ghost now = json::items_view(events@);
        let ghost done = output_events(base@, all.take(oi as int), before.len());
        let item = &output[oi];
        let is_call = match item.get_text("type") {
            Some(t) => text::same(t, "function_call"),
            None => false,
        };
        if is_call {
            emit_call(events, base, item, oi);
        } else {
            emit_message(events, base, item, oi);
        }
        proof {
            let next = all.take(oi + 1);
            assert(next.drop_last() =~= all.take(oi as int));
            assert(next.last() == all[oi as int]);
            let added = if is_call {
                call_events(base@, item@, oi as nat, before.len() + done.len())
            } else {
                message_events(base@, item@, oi as nat, before.len() + done.len())
            };
            assert(now.len() == before.len() + done.len());
            assert((before + done) + added =~= before + (done + added));
        }
        oi += 1;
    }
    proof {
        assert(all.take(all.len() as int) =~= all);
    }
}

fn emit_response(events: &mut Vec<Json>, base: &Json, kind: &str, value: Json)
    ensures
        json::items_view(final(events)@) == json::items_view(old(events)@).push(
            event(
                base@,
                (json::items_view(old(events)@).len() + 1) as nat,
                kind@,
                seq![("response"@, value@)],
            ),
        ),
{
    let mut fields: Vec<(String, Json)> = Vec::new();
    add_field(&mut fields, "response", value);
    emit(events, base, kind, &fields);
}

/// The events of an answer, in order and numbered from 1 on.
pub fn emit_stream(base: &Json, output: &Vec<Json>, usage: &Json) -> (r: Vec<Json>)
    ensures
        json::items_view(r@) == events_of(base@, json::items_view(output@), usage@),
        numbered(json::items_view(r@), 0),
{
    let mut events: Vec<Json> = Vec::new();
    emit_response(
        &mut events,
        base,
        "response.created",
        response(base, "in_progress", Json::empty_list(), Json::Null),
    );
    emit_response(
        &mut events,
        base,
        "response.in_progress",
        response(base, "in_progress", Json::empty_list(), Json::Null),
    );
    emit_output(&mut events, base, output);
    emit_response(
        &mut events,
        base,
        "response.completed",
        response(base, "completed", Json::Array(json::copy_items(output)), usage.clone()),
    );
    proof {
        assert(json::items_view(events@) =~= events_of(
            base@,
            json::items_view(output@),
            usage@,
        ));
        json::lemma_keys_of_a_value(*base);
        law_events_are_numbered(base@, json::items_view(output@), usage@);
    }
    events
}

// ---------------------------------------------------------------------------
// Laws
// ---------------------------------------------------------------------------

/// The number that an event gives.
pub open spec fn has_number(e: JsonView, n: nat) -> bool {
    e.get("sequence_number"@) == Some(json::count_value(n))
}

/// The events are numbered from `start + 1` on.
pub open spec fn numbered(events: Seq<JsonView>, start: nat) -> bool {
    forall|i: int|
        0 <= i < events.len() ==> has_number(#[trigger] events[i], (start + i + 1) as nat)
}

/// The keys are shorter than that of the number.
spec fn short_keys(fields: Seq<(Seq<char>, JsonView)>) -> bool {
    forall|i: int| 0 <= i < fields.len() ==> (#[trigger] fields[i]).0.len() < 15
}

proof fn lemma_merged(base: JsonView, extra: Seq<(Seq<char>, JsonView)>)
    requires
        json::is_object(base),
        short_keys(extra),
    ensures
        json::is_object(merged_value(base, extra)),
        merged_value(base, extra).get("sequence_number"@) == base.get("sequence_number"@),
    decreases extra.len(),
{
    reveal_strlit("sequence_number");
    assert("sequence_number"@.len() == 15);
    if extra.len() > 0 {
        let front = extra.drop_last();
        assert forall|i: int| 0 <= i < front.len() implies (#[trigger] front[i]).0.len() < 15 by {
            assert(front[i] == extra[i]);
        }
        lemma_merged(base, front);
        assert(extra[extra.len() - 1].0.len() < 15);
        json::lemma_with(
            merged_value(base, front),
            extra.last().0,
            extra.last().1,
            "sequence_number"@,
        );
    }
}

/// What may head an answer: an object has each of its keys once.
pub open spec fn valid_base(base: JsonView) -> bool {
    base is Object ==> json::is_object(base)
}

proof fn lemma_head(base: JsonView)
    requires
        valid_base(base),
    ensures
        json::is_object(head_of(base)),
{
}

proof fn lemma_event(base: JsonView, n: nat, kind: Seq<char>, fields: Seq<(Seq<char>, JsonView)>)
    requires
        valid_base(base),
        short_keys(fields),
    ensures
        has_number(event(base, n, kind, fields), n),
{
    let head = head_of(base);
    lemma_head(base);
    let a = head.with("type"@, JsonView::Text(kind));
    json::lemma_with(head, "type"@, JsonView::Text(kind), ""@);
    json::lemma_with(a, "sequence_number"@, json::count_value(n), ""@);
    lemma_merged(a.with("sequence_number"@, json::count_value(n)), fields);
}

proof fn lemma_keys()
    ensures
        "response"@.len() < 15,
        "output_index"@.len() < 15,
        "item"@.len() < 15,
        "item_id"@.len() < 15,
        "delta"@.len() < 15,
        "arguments"@.len() < 15,
        "content_index"@.len() < 15,
        "part"@.len() < 15,
        "text"@.len() < 15,
{
    reveal_strlit("response");
    reveal_strlit("output_index");
    reveal_strlit("item");
    reveal_strlit("item_id");
    reveal_strlit("delta");
    reveal_strlit("arguments");
    reveal_strlit("content_index");
    reveal_strlit("part");
    reveal_strlit("text");
}

proof fn lemma_call_events(base: JsonView, item: JsonView, oi: nat, start: nat)
    requires
        valid_base(base),
    ensures
        numbered(call_events(base, item, oi, start), start),
{
    lemma_keys();
    let id = item.member_or_null("id"@);
    let arguments = item.member_or_null("arguments"@);
    let at = json::count_value(oi);
    lemma_event(
        base,
        start + 1,
        "response.output_item.added"@,
        seq![("output_index"@, at), ("item"@, pending_call(item))],
    );
    lemma_event(
        base,
        start + 2,
        "response.function_call_arguments.delta"@,
        seq![("item_id"@, id), ("output_index"@, at), ("delta"@, arguments)],
    );
    lemma_event(
        base,
        start + 3,
        "response.function_call_arguments.done"@,
        seq![("item_id"@, id), ("output_index"@, at), ("arguments"@, arguments)],
    );
    lemma_event(
        base,
        start + 4,
        "response.output_item.done"@,
        seq![("output_index"@, at), ("item"@, item)],
    );
}

proof fn lemma_part_events(
    base: JsonView,
    id: JsonView,
    part: JsonView,
    oi: nat,
    ci: nat,
    start: nat,
)
    requires
        valid_base(base),
    ensures
        numbered(part_events(base, id, part, oi, ci, start), start),
{
    lemma_keys();
    let said = JsonView::Text(part.text_or("text"@, ""@));
    let oat = json::count_value(oi);
    let cat = json::count_value(ci);
    lemma_event(
        base,
        start + 1,
        "response.content_part.added"@,
        seq![
            ("item_id"@, id),
            ("output_index"@, oat),
            ("content_index"@, cat),
            ("part"@, text_part(""@)),
        ],
    );
    lemma_event(
        base,
        start + 2,
        "response.output_text.delta"@,
        seq![
            ("item_id"@, id),
            ("output_index"@, oat),
            ("content_index"@, cat),
            ("delta"@, said),
        ],
    );
    lemma_event(
        base,
        start + 3,
        "response.output_text.done"@,
        seq![
            ("item_id"@, id),
            ("output_index"@, oat),
            ("content_index"@, cat),
            ("text"@, said),
        ],
    );
    lemma_event(
        base,
        start + 4,
        "response.content_part.done"@,
        seq![
            ("item_id"@, id),
            ("output_index"@, oat),
            ("content_index"@, cat),
            ("part"@, part),
        ],
    );
}

proof fn lemma_numbered_add(a: Seq<JsonView>, b: Seq<JsonView>, start: nat)
    requires
        numbered(a, start),
        numbered(b, start + a.len()),
    ensures
        numbered(a + b, start),
{
    assert forall|i: int| 0 <= i < (a + b).len() implies has_number(
        #[trigger] (a + b)[i],
        (start + i + 1) as nat,
    ) by {
        if i < a.len() {
            assert((a + b)[i] == a[i]);
        } else {
            assert((a + b)[i] == b[i - a.len()]);
        }
    }
}

proof fn lemma_parts_events(
    base: JsonView,
    id: JsonView,
    parts: Seq<JsonView>,
    oi: nat,
    start: nat,
)
    requires
        valid_base(base),
    ensures
        numbered(parts_events(base, id, parts, oi, start), start),
    decreases parts.len(),
{
    if parts.len() > 0 {
        lemma_parts_events(base, id, parts.drop_last(), oi, start);
        let before = parts_events(base, id, parts.drop_last(), oi, start);
        let ci = (parts.len() - 1) as nat;
        lemma_part_events(base, id, parts.last(), oi, ci, start + before.len());
        lemma_numbered_add(
            before,
            part_events(base, id, parts.last(), oi, ci, start + before.len()),
            start,
        );
    }
}

proof fn lemma_message_events(base: JsonView, item: JsonView, oi: nat, start: nat)
    requires
        valid_base(base),
    ensures
        numbered(message_events(base, item, oi, start), start),
{
    lemma_keys();
    let at = json::count_value(oi);
    let id = item.member_or_null("id"@);
    let parts = parts_events(base, id, content_of(item), oi, start + 1);
    let first = event(
        base,
        start + 1,
        "response.output_item.added"@,
        seq![("output_index"@, at), ("item"@, pending_message(item))],
    );
    let last = event(
        base,
        start + 1 + parts.len() + 1,
        "response.output_item.done"@,
        seq![("output_index"@, at), ("item"@, item)],
    );
    lemma_event(
        base,
        start + 1,
        "response.output_item.added"@,
        seq![("output_index"@, at), ("item"@, pending_message(item))],
    );
    lemma_parts_events(base, id, content_of(item), oi, start + 1);
    lemma_event(
        base,
        start + 1 + parts.len() + 1,
        "response.output_item.done"@,
        seq![("output_index"@, at), ("item"@, item)],
    );
    assert(numbered(seq![first], start));
    lemma_numbered_add(seq![first], parts, start);
    assert(numbered(seq![last], start + (seq![first] + parts).len()));
    lemma_numbered_add(seq![first] + parts, seq![last], start);
}

proof fn lemma_output_events(base: JsonView, output: Seq<JsonView>, start: nat)
    requires
        valid_base(base),
    ensures
        numbered(output_events(base, output, start), start),
    decreases output.len(),
{
    if output.len() > 0 {
        lemma_output_events(base, output.drop_last(), start);
        let before = output_events(base, output.drop_last(), start);
        let item = output.last();
        let oi = (output.len() - 1) as nat;
        lemma_call_events(base, item, oi, start + before.len());
        lemma_message_events(base, item, oi, start + before.len());
        if item.get_text("type"@) == Some("function_call"@) {
            lemma_numbered_add(before, call_events(base, item, oi, start + before.len()), start);
        } else {
            lemma_numbered_add(
                before,
                message_events(base, item, oi, start + before.len()),
                start,
            );
        }
    }
}

/// The events are numbered from 1 on, without a gap.
pub proof fn law_events_are_numbered(base: JsonView, output: Seq<JsonView>, usage: JsonView)
    requires
        valid_base(base),
    ensures
        numbered(events_of(base, output, usage), 0),
{
    lemma_keys();
    let begun = response_value(base, "in_progress"@, Seq::empty(), JsonView::Null);
    let done = response_value(base, "completed"@, output, usage);
    let items = output_events(base, output, 2);
    let first = seq![
        event(base, 1, "response.created"@, seq![("response"@, begun)]),
        event(base, 2, "response.in_progress"@, seq![("response"@, begun)]),
    ];
    let last = seq![
        event(base, 2 + items.len() + 1, "response.completed"@, seq![("response"@, done)]),
    ];
    lemma_event(base, 1, "response.created"@, seq![("response"@, begun)]);
    lemma_event(base, 2, "response.in_progress"@, seq![("response"@, begun)]);
    lemma_event(base, 2 + items.len() + 1, "response.completed"@, seq![("response"@, done)]);
    lemma_output_events(base, output, 2);
    assert(numbered(first, 0));
    lemma_numbered_add(first, items, 0);
    assert(numbered(last, (first + items).len()));
    lemma_numbered_add(first + items, last, 0);
}

/// The last event carries the answer that a request without events gets.
pub proof fn law_last_event_is_the_answer(base: JsonView, output: Seq<JsonView>, usage: JsonView)
    requires
        valid_base(base),
    ensures
        events_of(base, output, usage).last().get("response"@) == Some(
            response_value(base, "completed"@, output, usage),
        ),
{
    lemma_head(base);
    lemma_keys();
    let done = response_value(base, "completed"@, output, usage);
    let n = 2 + output_events(base, output, 2).len() + 1;
    let start = head_of(base);
    let head = start.with("type"@, JsonView::Text("response.completed"@)).with(
        "sequence_number"@,
        json::count_value(n),
    );
    json::lemma_with(start, "type"@, JsonView::Text("response.completed"@), ""@);
    json::lemma_with(
        start.with("type"@, JsonView::Text("response.completed"@)),
        "sequence_number"@,
        json::count_value(n),
        ""@,
    );
    let fields = seq![("response"@, done)];
    assert(fields.drop_last() =~= Seq::<(Seq<char>, JsonView)>::empty());
    reveal_with_fuel(merged_value, 2);
    json::lemma_with(head, "response"@, done, ""@);
}

// ---------------------------------------------------------------------------
// What the client gets
// ---------------------------------------------------------------------------


/// A request is planned as it asks: the model that it names, or the default
/// where it names none; the prompt of its instructions, its input and its tools;
/// events if and only if it asks for them; and calls if and only if it brings
/// tools and does not forbid them.
pub proof fn law_request_is_planned_as_it_asks(body: JsonView, default_model: Seq<char>)
    ensures
        ({
            let name = match body.get("model"@) {
                Some(JsonView::Text(m)) => m,
                _ => default_model,
            };
            let choice = common::choice_of(body.get("tool_choice"@));
            let tools = codex::normalized_tools(body.get("tools"@));
            let prompt = openai::prompt_of(
                codex::messages_of(body),
                if tools.len() > 0 && choice != ToolChoiceView::Never {
                    Some(tools)
                } else {
                    None
                },
                choice,
            );
            &&& plan_of(body, default_model) is Ok <==> common::strict_resolution(
                name,
                default_model,
            ) is Ok && text::trimmed(prompt).len() > 0
            &&& plan_of(body, default_model) matches Ok(p) ==> {
                &&& p.model_name == name
                &&& common::strict_resolution(name, default_model) matches Ok(m) && m == p.resolved
                &&& p.prompt == prompt
                &&& p.stream == (body.get("stream"@) == Some(JsonView::Bool(true)))
                &&& p.has_tools == (tools.len() > 0 && choice != ToolChoiceView::Never)
            }
            &&& plan_of(body, default_model) matches Err(e) ==> {
                ||| common::strict_resolution(name, default_model) matches Err(why) && why == e
                ||| (text::trimmed(prompt).len() == 0 && e == "empty input"@)
            }
        }),
{
}

/// Every answer and every event names itself, the second and the model.
pub proof fn law_heading_names_the_answer(ctx: Ctx)
    ensures
        heading(ctx).get("id"@) == Some(JsonView::Text(ctx.rid@)),
        heading(ctx).get("object"@) == Some(JsonView::Text("response"@)),
        heading(ctx).get("created_at"@) == Some(JsonView::Number(json::json_number(ctx.created))),
        heading(ctx).get("model"@) == Some(JsonView::Text(ctx.model_name@)),
        json::is_object(heading(ctx)),
{
    reveal_strlit("id");
    reveal_strlit("object");
    reveal_strlit("created_at");
    reveal_strlit("model");
    assert("id"@.len() == 2);
    assert("object"@.len() == 6);
    assert("created_at"@.len() == 10);
    assert("model"@.len() == 5);
    json::lemma_object_of_4(
        "id"@,
        JsonView::Text(ctx.rid@),
        "object"@,
        JsonView::Text("response"@),
        "created_at"@,
        json::count_value(ctx.created as nat),
        "model"@,
        JsonView::Text(ctx.model_name@),
    );
}

/// A call in the output keeps its identifier, its name and its arguments.
pub proof fn law_output_keeps_the_call(call: JsonView, f: JsonView)
    requires
        call.get("function"@) == Some(f),
    ensures
        ({
            let item = call_output(call);
            &&& item.get("type"@) == Some(JsonView::Text("function_call"@))
            &&& item.get("status"@) == Some(JsonView::Text("completed"@))
            &&& call.get("id"@) matches Some(id) ==> item.get("id"@) == Some(id) && item.get(
                "call_id"@,
            ) == Some(id)
            &&& f.get("name"@) matches Some(n) ==> item.get("name"@) == Some(n)
            &&& f.get("arguments"@) matches Some(a) ==> item.get("arguments"@) == Some(a)
        }),
{
    reveal_strlit("type");
    reveal_strlit("id");
    reveal_strlit("call_id");
    reveal_strlit("name");
    reveal_strlit("arguments");
    reveal_strlit("status");
    assert("type"@.len() == 4);
    assert("id"@.len() == 2);
    assert("call_id"@.len() == 7);
    assert("name"@.len() == 4);
    assert("arguments"@.len() == 9);
    assert("status"@.len() == 6);
    assert("type"@[0] != "name"@[0]);
    json::lemma_object_of_6(
        "type"@,
        JsonView::Text("function_call"@),
        "id"@,
        call.member_or_null("id"@),
        "call_id"@,
        call.member_or_null("id"@),
        "name"@,
        f.member_or_null("name"@),
        "arguments"@,
        f.member_or_null("arguments"@),
        "status"@,
        JsonView::Text("completed"@),
    );
}

/// The message of the output holds the text of the answer, whole, as its only
/// part.
pub proof fn law_output_keeps_the_text(mid: Seq<char>, clean: Seq<char>)
    ensures
        ({
            let item = message_output(mid, clean);
            &&& item.get("type"@) == Some(JsonView::Text("message"@))
            &&& item.get("id"@) == Some(JsonView::Text(mid))
            &&& item.get("role"@) == Some(JsonView::Text("assistant"@))
            &&& item.get("status"@) == Some(JsonView::Text("completed"@))
            &&& item.get("content"@) == Some(JsonView::Array(seq![text_part(clean)]))
            &&& text_part(clean).get("type"@) == Some(JsonView::Text("output_text"@))
            &&& text_part(clean).get("text"@) == Some(JsonView::Text(clean))
        }),
{
    reveal_strlit("type");
    reveal_strlit("id");
    reveal_strlit("role");
    reveal_strlit("status");
    reveal_strlit("content");
    assert("type"@.len() == 4);
    assert("id"@.len() == 2);
    assert("role"@.len() == 4);
    assert("status"@.len() == 6);
    assert("content"@.len() == 7);
    assert("type"@[0] != "role"@[0]);
    reveal_strlit("type");
    reveal_strlit("text");
    reveal_strlit("annotations");
    assert("type"@.len() == 4);
    assert("text"@.len() == 4);
    assert("annotations"@.len() == 11);
    assert("type"@[1] != "text"@[1]);
    json::lemma_object_of_3(
        "type"@,
        JsonView::Text("output_text"@),
        "text"@,
        JsonView::Text(clean),
        "annotations"@,
        JsonView::Array(Seq::empty()),
    );
    json::lemma_object_of_5(
        "type"@,
        JsonView::Text("message"@),
        "id"@,
        JsonView::Text(mid),
        "role"@,
        JsonView::Text("assistant"@),
        "status"@,
        JsonView::Text("completed"@),
        "content"@,
        JsonView::Array(seq![text_part(clean)]),
    );
}

/// The output is all the calls, in order, and then the message; the message is
/// left out only where it would say nothing beside calls.
pub proof fn law_output_is_calls_then_message(mid: Seq<char>, clean: Seq<char>, calls: Seq<JsonView>)
    ensures
        forall|i: int|
            0 <= i < calls.len() ==> #[trigger] output_of(mid, clean, calls)[i] == call_output(
                calls[i],
            ),
        clean.len() > 0 || calls.len() == 0 ==> output_of(mid, clean, calls).len() == calls.len() + 1
            && output_of(mid, clean, calls).last() == message_output(mid, clean),
        clean.len() == 0 && calls.len() > 0 ==> output_of(mid, clean, calls).len() == calls.len(),
{
}

/// The tokens of the prompt and of the answer are told, each at four characters,
/// and of both together at four bytes.
pub proof fn law_tokens_are_told(prompt: Seq<char>, clean: Seq<char>)
    ensures
        usage_value(prompt, clean).get("input_tokens"@) == Some(json::count_value(prompt.len() / 4)),
        usage_value(prompt, clean).get("output_tokens"@) == Some(json::count_value(clean.len() / 4)),
        usage_value(prompt, clean).get("total_tokens"@) == Some(
            json::count_value((text::utf8_len(prompt) + text::utf8_len(clean)) / 4),
        ),
{
    reveal_strlit("input_tokens");
    reveal_strlit("output_tokens");
    reveal_strlit("total_tokens");
    assert("input_tokens"@.len() == 12);
    assert("output_tokens"@.len() == 13);
    assert("total_tokens"@.len() == 12);
    assert("input_tokens"@[0] != "total_tokens"@[0]);
    json::lemma_object_of_3(
        "input_tokens"@,
        json::count_value(prompt.len() / 4),
        "output_tokens"@,
        json::count_value(clean.len() / 4),
        "total_tokens"@,
        json::count_value((text::utf8_len(prompt) + text::utf8_len(clean)) / 4),
    );
}

/// The answer keeps its heading, and gives its status, its output and its usage.
pub proof fn law_response_carries_the_output(
    base: JsonView,
    status: Seq<char>,
    output: Seq<JsonView>,
    usage: JsonView,
    key: Seq<char>,
)
    requires
        json::is_object(base),
        key != "status"@,
        key != "output"@,
        key != "usage"@,
    ensures
        ({
            let r = response_value(base, status, output, usage);
            &&& r.get("status"@) == Some(JsonView::Text(status))
            &&& r.get("output"@) == Some(JsonView::Array(output))
            &&& r.get("usage"@) == Some(usage)
            &&& r.get(key) == base.get(key)
        }),
{
    reveal_strlit("status");
    reveal_strlit("output");
    reveal_strlit("usage");
    assert("status"@.len() == 6);
    assert("output"@.len() == 6);
    assert("usage"@.len() == 5);
    assert("status"@[0] != "output"@[0]);
    let a = base.with("status"@, JsonView::Text(status));
    let b = a.with("output"@, JsonView::Array(output));
    json::lemma_with(base, "status"@, JsonView::Text(status), key);
    json::lemma_with(a, "output"@, JsonView::Array(output), key);
    json::lemma_with(a, "output"@, JsonView::Array(output), "status"@);
    json::lemma_with(b, "usage"@, usage, key);
    json::lemma_with(b, "usage"@, usage, "status"@);
    json::lemma_with(b, "usage"@, usage, "output"@);
}

proof fn lemma_merged_get(base: JsonView, extra: Seq<(Seq<char>, JsonView)>, key: Seq<char>)
    requires
        json::is_object(base),
        json::keys_distinct(extra),
    ensures
        json::is_object(merged_value(base, extra)),
        forall|i: int|
            0 <= i < extra.len() ==> merged_value(base, extra).get((#[trigger] extra[i]).0) == Some(
                extra[i].1,
            ),
        (forall|i: int| 0 <= i < extra.len() ==> (#[trigger] extra[i]).0 != key) ==> merged_value(
            base,
            extra,
        ).get(key) == base.get(key),
    decreases extra.len(),
{
    if extra.len() > 0 {
        let front = extra.drop_last();
        let n = extra.len() - 1;
        assert forall|i: int, j: int| 0 <= i < j < front.len() implies (#[trigger] front[i]).0 != (
        #[trigger] front[j]).0 by {
            assert(extra[i].0 != extra[j].0);
        }
        lemma_merged_get(base, front, key);
        let before = merged_value(base, front);
        json::lemma_with(before, extra[n].0, extra[n].1, key);
        assert forall|i: int| 0 <= i < extra.len() implies merged_value(base, extra).get(
            (#[trigger] extra[i]).0,
        ) == Some(extra[i].1) by {
            if i < n {
                assert(extra[i].0 != extra[n].0);
                assert(front[i] == extra[i]);
                json::lemma_with(before, extra[n].0, extra[n].1, extra[i].0);
            }
        }
        if forall|i: int| 0 <= i < extra.len() ==> (#[trigger] extra[i]).0 != key {
            assert forall|i: int| 0 <= i < front.len() implies (#[trigger] front[i]).0 != key by {
                assert(front[i] == extra[i]);
            }
            assert(extra[n].0 != key);
        }
    }
}

/// An event says its kind and its number, and each of its fields as it was
/// given; the rest of it is the heading.
pub proof fn law_event_says_its_fields(
    base: JsonView,
    number: nat,
    kind: Seq<char>,
    fields: Seq<(Seq<char>, JsonView)>,
    i: int,
    key: Seq<char>,
)
    requires
        json::is_object(base),
        json::keys_distinct(fields),
        forall|k: int|
            0 <= k < fields.len() ==> (#[trigger] fields[k]).0 != "type"@ && fields[k].0
                != "sequence_number"@,
    ensures
        event(base, number, kind, fields).get("type"@) == Some(JsonView::Text(kind)),
        event(base, number, kind, fields).get("sequence_number"@) == Some(
            JsonView::Number(json::json_number(number as u64)),
        ),
        0 <= i < fields.len() ==> event(base, number, kind, fields).get(fields[i].0) == Some(
            fields[i].1,
        ),
        key != "type"@ && key != "sequence_number"@ && (forall|k: int|
            0 <= k < fields.len() ==> (#[trigger] fields[k]).0 != key) ==> event(
            base,
            number,
            kind,
            fields,
        ).get(key) == base.get(key),
{
    reveal_strlit("type");
    reveal_strlit("sequence_number");
    assert("type"@.len() == 4);
    assert("sequence_number"@.len() == 15);
    let a = base.with("type"@, JsonView::Text(kind));
    let b = a.with("sequence_number"@, json::count_value(number));
    json::lemma_with(base, "type"@, JsonView::Text(kind), key);
    json::lemma_with(a, "sequence_number"@, json::count_value(number), key);
    json::lemma_with(a, "sequence_number"@, json::count_value(number), "type"@);
    lemma_merged_get(b, fields, key);
    lemma_merged_get(b, fields, "type"@);
    lemma_merged_get(b, fields, "sequence_number"@);
}

proof fn lemma_field_names()
    ensures
        "type"@ != "sequence_number"@,
        "type"@ != "response"@,
        "type"@ != "output_index"@,
        "type"@ != "item"@,
        "type"@ != "item_id"@,
        "type"@ != "delta"@,
        "type"@ != "arguments"@,
        "type"@ != "content_index"@,
        "type"@ != "part"@,
        "type"@ != "text"@,
        "sequence_number"@ != "response"@,
        "sequence_number"@ != "output_index"@,
        "sequence_number"@ != "item"@,
        "sequence_number"@ != "item_id"@,
        "sequence_number"@ != "delta"@,
        "sequence_number"@ != "arguments"@,
        "sequence_number"@ != "content_index"@,
        "sequence_number"@ != "part"@,
        "sequence_number"@ != "text"@,
        "response"@ != "output_index"@,
        "response"@ != "item"@,
        "response"@ != "item_id"@,
        "response"@ != "delta"@,
        "response"@ != "arguments"@,
        "response"@ != "content_index"@,
        "response"@ != "part"@,
        "response"@ != "text"@,
        "output_index"@ != "item"@,
        "output_index"@ != "item_id"@,
        "output_index"@ != "delta"@,
        "output_index"@ != "arguments"@,
        "output_index"@ != "content_index"@,
        "output_index"@ != "part"@,
        "output_index"@ != "text"@,
        "item"@ != "item_id"@,
        "item"@ != "delta"@,
        "item"@ != "arguments"@,
        "item"@ != "content_index"@,
        "item"@ != "part"@,
        "item"@ != "text"@,
        "item_id"@ != "delta"@,
        "item_id"@ != "arguments"@,
        "item_id"@ != "content_index"@,
        "item_id"@ != "part"@,
        "item_id"@ != "text"@,
        "delta"@ != "arguments"@,
        "delta"@ != "content_index"@,
        "delta"@ != "part"@,
        "delta"@ != "text"@,
        "arguments"@ != "content_index"@,
        "arguments"@ != "part"@,
        "arguments"@ != "text"@,
        "content_index"@ != "part"@,
        "content_index"@ != "text"@,
        "part"@ != "text"@,
{
    reveal_strlit("type");
    reveal_strlit("sequence_number");
    reveal_strlit("response");
    reveal_strlit("output_index");
    reveal_strlit("item");
    reveal_strlit("item_id");
    reveal_strlit("delta");
    reveal_strlit("arguments");
    reveal_strlit("content_index");
    reveal_strlit("part");
    reveal_strlit("text");
    assert("type"@.len() == 4);
    assert("sequence_number"@.len() == 15);
    assert("response"@.len() == 8);
    assert("output_index"@.len() == 12);
    assert("item"@.len() == 4);
    assert("item_id"@.len() == 7);
    assert("delta"@.len() == 5);
    assert("arguments"@.len() == 9);
    assert("content_index"@.len() == 13);
    assert("part"@.len() == 4);
    assert("text"@.len() == 4);
    assert("type"@[0] != "item"@[0]);
    assert("type"@[0] != "part"@[0]);
    assert("type"@[1] != "text"@[1]);
    assert("item"@[0] != "part"@[0]);
    assert("item"@[0] != "text"@[0]);
    assert("part"@[0] != "text"@[0]);
}

/// A call is told in four events: it is added, its arguments come and are whole,
/// and it is done; the last carries the call as it stands in the output.
pub proof fn law_call_is_told_in_events(base: JsonView, item: JsonView, oi: nat, start: nat)
    requires
        json::is_object(base),
    ensures
        ({
            let events = call_events(base, item, oi, start);
            let arguments = match item.get("arguments"@) {
                Some(a) => a,
                None => JsonView::Null,
            };
            &&& events.len() == 4
            &&& events[0].get("type"@) == Some(JsonView::Text("response.output_item.added"@))
            &&& events[1].get("type"@) == Some(
                JsonView::Text("response.function_call_arguments.delta"@),
            )
            &&& events[1].get("delta"@) == Some(arguments)
            &&& events[2].get("type"@) == Some(
                JsonView::Text("response.function_call_arguments.done"@),
            )
            &&& events[2].get("arguments"@) == Some(arguments)
            &&& events[3].get("type"@) == Some(JsonView::Text("response.output_item.done"@))
            &&& events[3].get("item"@) == Some(item)
            &&& forall|i: int|
                0 <= i < 4 ==> (#[trigger] events[i]).get("output_index"@) == Some(
                    json::count_value(oi),
                )
        }),
{
    lemma_field_names();
    let id = item.member_or_null("id"@);
    let arguments = item.member_or_null("arguments"@);
    let at = json::count_value(oi);
    let f0 = seq![("output_index"@, at), ("item"@, pending_call(item))];
    let f1 = seq![("item_id"@, id), ("output_index"@, at), ("delta"@, arguments)];
    let f2 = seq![("item_id"@, id), ("output_index"@, at), ("arguments"@, arguments)];
    let f3 = seq![("output_index"@, at), ("item"@, item)];
    law_event_says_its_fields(base, start + 1, "response.output_item.added"@, f0, 0, ""@);
    law_event_says_its_fields(
        base,
        start + 2,
        "response.function_call_arguments.delta"@,
        f1,
        1,
        ""@,
    );
    law_event_says_its_fields(
        base,
        start + 2,
        "response.function_call_arguments.delta"@,
        f1,
        2,
        ""@,
    );
    law_event_says_its_fields(
        base,
        start + 3,
        "response.function_call_arguments.done"@,
        f2,
        1,
        ""@,
    );
    law_event_says_its_fields(
        base,
        start + 3,
        "response.function_call_arguments.done"@,
        f2,
        2,
        ""@,
    );
    law_event_says_its_fields(base, start + 4, "response.output_item.done"@, f3, 0, ""@);
    law_event_says_its_fields(base, start + 4, "response.output_item.done"@, f3, 1, ""@);
    let events = call_events(base, item, oi, start);
    assert forall|i: int| 0 <= i < 4 implies (#[trigger] events[i]).get("output_index"@) == Some(
        json::count_value(oi),
    ) by {
        assert(f0[0].0 == "output_index"@ && f1[1].0 == "output_index"@);
        assert(f2[1].0 == "output_index"@ && f3[0].0 == "output_index"@);
        assert(i == 0 || i == 1 || i == 2 || i == 3);
    }
    assert(f1[2].0 == "delta"@ && f2[2].0 == "arguments"@ && f3[1].0 == "item"@);
}

/// A part of a message is told in four events: it is added, its text comes and
/// is whole, and it is done; the text that comes is the text of the part.
pub proof fn law_text_is_told_in_events(
    base: JsonView,
    id: JsonView,
    part: JsonView,
    s: Seq<char>,
    oi: nat,
    ci: nat,
    start: nat,
)
    requires
        json::is_object(base),
        part.get("text"@) == Some(JsonView::Text(s)),
    ensures
        ({
            let events = part_events(base, id, part, oi, ci, start);
            &&& events.len() == 4
            &&& events[0].get("type"@) == Some(JsonView::Text("response.content_part.added"@))
            &&& events[1].get("type"@) == Some(JsonView::Text("response.output_text.delta"@))
            &&& events[1].get("delta"@) == Some(JsonView::Text(s))
            &&& events[2].get("type"@) == Some(JsonView::Text("response.output_text.done"@))
            &&& events[2].get("text"@) == Some(JsonView::Text(s))
            &&& events[3].get("type"@) == Some(JsonView::Text("response.content_part.done"@))
            &&& events[3].get("part"@) == Some(part)
            &&& forall|i: int|
                0 <= i < 4 ==> (#[trigger] events[i]).get("output_index"@) == Some(
                    json::count_value(oi),
                ) && events[i].get("content_index"@) == Some(json::count_value(ci))
                    && events[i].get("item_id"@) == Some(id)
        }),
{
    lemma_field_names();
    let said = JsonView::Text(part.text_or("text"@, ""@));
    let oat = json::count_value(oi);
    let cat = json::count_value(ci);
    let a = ("item_id"@, id);
    let b = ("output_index"@, oat);
    let c = ("content_index"@, cat);
    let f0 = seq![a, b, c, ("part"@, text_part(""@))];
    let f1 = seq![a, b, c, ("delta"@, said)];
    let f2 = seq![a, b, c, ("text"@, said)];
    let f3 = seq![a, b, c, ("part"@, part)];
    lemma_four_fields(base, start + 1, "response.content_part.added"@, f0);
    lemma_four_fields(base, start + 2, "response.output_text.delta"@, f1);
    lemma_four_fields(base, start + 3, "response.output_text.done"@, f2);
    lemma_four_fields(base, start + 4, "response.content_part.done"@, f3);
    let events = part_events(base, id, part, oi, ci, start);
    assert forall|i: int| 0 <= i < 4 implies (#[trigger] events[i]).get("output_index"@) == Some(
        json::count_value(oi),
    ) && events[i].get("content_index"@) == Some(json::count_value(ci)) && events[i].get("item_id"@)
        == Some(id) by {
        assert(i == 0 || i == 1 || i == 2 || i == 3);
    }
}

proof fn lemma_four_fields(
    base: JsonView,
    number: nat,
    kind: Seq<char>,
    fields: Seq<(Seq<char>, JsonView)>,
)
    requires
        json::is_object(base),
        fields.len() == 4,
        fields[0].0 == "item_id"@,
        fields[1].0 == "output_index"@,
        fields[2].0 == "content_index"@,
        fields[3].0 == "part"@ || fields[3].0 == "delta"@ || fields[3].0 == "text"@,
    ensures
        event(base, number, kind, fields).get("type"@) == Some(JsonView::Text(kind)),
        event(base, number, kind, fields).get("item_id"@) == Some(fields[0].1),
        event(base, number, kind, fields).get("output_index"@) == Some(fields[1].1),
        event(base, number, kind, fields).get("content_index"@) == Some(fields[2].1),
        event(base, number, kind, fields).get(fields[3].0) == Some(fields[3].1),
{
    lemma_field_names();
    law_event_says_its_fields(base, number, kind, fields, 0, ""@);
    law_event_says_its_fields(base, number, kind, fields, 1, ""@);
    law_event_says_its_fields(base, number, kind, fields, 2, ""@);
    law_event_says_its_fields(base, number, kind, fields, 3, ""@);
}

/// A message is told from its first event to its last: it is added, then come
/// its parts, and it is done; the last event carries the message as it stands in
/// the output.
pub proof fn law_message_is_told_in_events(
    base: JsonView,
    item: JsonView,
    parts: Seq<JsonView>,
    oi: nat,
    start: nat,
)
    requires
        json::is_object(base),
        item.get("content"@) == Some(JsonView::Array(parts)),
    ensures
        ({
            let events = message_events(base, item, oi, start);
            let told = parts_events(base, item.member_or_null("id"@), parts, oi, start + 1);
            &&& events.len() == told.len() + 2
            &&& events.subrange(1, events.len() - 1) == told
            &&& events[0].get("type"@) == Some(JsonView::Text("response.output_item.added"@))
            &&& events.last().get("type"@) == Some(JsonView::Text("response.output_item.done"@))
            &&& events.last().get("item"@) == Some(item)
            &&& parts.len() == 1 ==> told == part_events(
                base,
                item.member_or_null("id"@),
                parts[0],
                oi,
                0,
                start + 1,
            )
        }),
{
    lemma_field_names();
    let at = json::count_value(oi);
    let id = item.member_or_null("id"@);
    let told = parts_events(base, id, parts, oi, start + 1);
    let f0 = seq![("output_index"@, at), ("item"@, pending_message(item))];
    let f1 = seq![("output_index"@, at), ("item"@, item)];
    law_event_says_its_fields(base, start + 1, "response.output_item.added"@, f0, 0, ""@);
    law_event_says_its_fields(
        base,
        start + 1 + told.len() + 1,
        "response.output_item.done"@,
        f1,
        1,
        ""@,
    );
    assert(f1[1].0 == "item"@);
    let events = message_events(base, item, oi, start);
    assert(events.subrange(1, events.len() - 1) =~= told);
    if parts.len() == 1 {
        reveal_with_fuel(parts_events, 2);
        let before = parts_events(base, id, parts.drop_last(), oi, start + 1);
        assert(before.len() == 0);
        assert(told =~= part_events(base, id, parts[0], oi, 0, start + 1));
    }
}

/// The items of the output are told one after the other, in order, each under
/// its place: a call as a call, anything else as a message.
pub proof fn law_items_are_told_in_order(base: JsonView, output: Seq<JsonView>, item: JsonView, start: nat)
    ensures
        output_events(base, Seq::empty(), start).len() == 0,
        ({
            let before = output_events(base, output, start);
            let all = output_events(base, output.push(item), start);
            &&& item.get("type"@) == Some(JsonView::Text("function_call"@)) ==> all == before
                + call_events(base, item, output.len(), start + before.len())
            &&& item.get("type"@) != Some(JsonView::Text("function_call"@)) ==> all == before
                + message_events(base, item, output.len(), start + before.len())
        }),
{
    assert(output.push(item).drop_last() =~= output);
}

/// An answer is told in order: it is created, it is in progress, then comes its
/// output, and it is complete.
pub proof fn law_answer_is_told_in_order(base: JsonView, output: Seq<JsonView>, usage: JsonView)
    requires
        json::is_object(base),
    ensures
        ({
            let events = events_of(base, output, usage);
            let items = output_events(base, output, 2);
            &&& events.len() == items.len() + 3
            &&& events.subrange(2, events.len() - 1) == items
            &&& events[0].get("type"@) == Some(JsonView::Text("response.created"@))
            &&& events[1].get("type"@) == Some(JsonView::Text("response.in_progress"@))
            &&& events.last().get("type"@) == Some(JsonView::Text("response.completed"@))
            &&& events[0].get("response"@) == Some(
                response_value(base, "in_progress"@, Seq::empty(), JsonView::Null),
            )
        }),
{
    lemma_field_names();
    let begun = response_value(base, "in_progress"@, Seq::empty(), JsonView::Null);
    let done = response_value(base, "completed"@, output, usage);
    let items = output_events(base, output, 2);
    let f0 = seq![("response"@, begun)];
    let f1 = seq![("response"@, done)];
    law_event_says_its_fields(base, 1, "response.created"@, f0, 0, ""@);
    law_event_says_its_fields(base, 2, "response.in_progress"@, f0, 0, ""@);
    law_event_says_its_fields(base, 2 + items.len() + 1, "response.completed"@, f1, 0, ""@);
    assert(f0[0].0 == "response"@);
    let events = events_of(base, output, usage);
    assert(events.subrange(2, events.len() - 1) =~= items);
}

/// What is added before it is there says which call or which message it is, that
/// it is in progress, and nothing of what is still to come.
pub proof fn law_pending_items(item: JsonView, id: JsonView, name: JsonView)
    ensures
        ({
            let p = pending_call(item);
            &&& p.get("type"@) == Some(JsonView::Text("function_call"@))
            &&& item.get("id"@) == Some(id) ==> p.get("id"@) == Some(id)
            &&& item.get("call_id"@) == Some(id) ==> p.get("call_id"@) == Some(id)
            &&& item.get("name"@) == Some(name) ==> p.get("name"@) == Some(name)
            &&& p.get("arguments"@) == Some(JsonView::Text(""@))
            &&& p.get("status"@) == Some(JsonView::Text("in_progress"@))
        }),
        ({
            let p = pending_message(item);
            &&& p.get("type"@) == Some(JsonView::Text("message"@))
            &&& item.get("id"@) == Some(id) ==> p.get("id"@) == Some(id)
            &&& p.get("role"@) == Some(JsonView::Text("assistant"@))
            &&& p.get("status"@) == Some(JsonView::Text("in_progress"@))
            &&& p.get("content"@) == Some(JsonView::Array(Seq::empty()))
        }),
{
    reveal_strlit("type");
    reveal_strlit("id");
    reveal_strlit("call_id");
    reveal_strlit("name");
    reveal_strlit("arguments");
    reveal_strlit("status");
    reveal_strlit("role");
    reveal_strlit("content");
    assert("type"@.len() == 4);
    assert("id"@.len() == 2);
    assert("call_id"@.len() == 7);
    assert("name"@.len() == 4);
    assert("arguments"@.len() == 9);
    assert("status"@.len() == 6);
    assert("role"@.len() == 4);
    assert("content"@.len() == 7);
    assert("type"@[0] != "name"@[0]);
    assert("type"@[0] != "role"@[0]);
    assert("call_id"@[1] != "content"@[1]);
    assert("name"@[0] != "role"@[0]);
    json::lemma_object_of_6(
        "type"@,
        JsonView::Text("function_call"@),
        "id"@,
        item.member_or_null("id"@),
        "call_id"@,
        item.member_or_null("call_id"@),
        "name"@,
        item.member_or_null("name"@),
        "arguments"@,
        JsonView::Text(""@),
        "status"@,
        JsonView::Text("in_progress"@),
    );
    json::lemma_object_of_5(
        "type"@,
        JsonView::Text("message"@),
        "id"@,
        item.member_or_null("id"@),
        "role"@,
        JsonView::Text("assistant"@),
        "status"@,
        JsonView::Text("in_progress"@),
        "content"@,
        JsonView::Array(Seq::empty()),
    );
}

} // verus!
