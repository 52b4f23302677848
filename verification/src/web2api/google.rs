//! `POST /v1beta/models/{model}:generateContent` and
//! `:streamGenerateContent`, and the list of the models.

use crate::gemini::models;
use crate::gemini::models::ResolvedView;
use crate::json;
use crate::json::{Json, JsonView};
use crate::text;
use crate::web2api::chat;
use crate::web2api::chat::{Plan, PlanView};
use crate::web2api::convert::common;
use crate::web2api::convert::google;
use crate::web2api::http;
use crate::web2api::http::{Reply, StreamStep};
use vstd::prelude::*;
use vstd::string::*;

verus! {

// ---------------------------------------------------------------------------
// The models
// ---------------------------------------------------------------------------

/// A model, as the protocol describes it.
pub open spec fn description_of(name: Seq<char>) -> JsonView {
    JsonView::object().with("name"@, JsonView::Text("models/"@ + name)).with(
        "displayName"@,
        JsonView::Text(name),
    ).with("description"@, JsonView::Text(name)).with(
        "supportedGenerationMethods"@,
        JsonView::Array(
            seq![JsonView::Text("generateContent"@), JsonView::Text("streamGenerateContent"@)],
        ),
    )
}

/// All the models.
pub open spec fn models_value() -> JsonView {
    JsonView::object().with(
        "models"@,
        JsonView::Array(
            Seq::new(models::MODEL_KEYS@.len(), |i: int| description_of(models::MODEL_KEYS@[i]@)),
        ),
    )
}

fn describe(name: &str) -> (r: Json)
    ensures
        r@ == description_of(name@),
{
    let full = text::cat("models/", name);
    let mut methods: Vec<Json> = Vec::new();
    methods.push(Json::from_text("generateContent"));
    methods.push(Json::from_text("streamGenerateContent"));
    proof {
        json::lemma_items_view(methods@);
        assert(json::items_view(methods@) =~= seq![
            JsonView::Text("generateContent"@),
            JsonView::Text("streamGenerateContent"@),
        ]);
    }
    Json::object().with("name", Json::from_text(full.as_str())).with(
        "displayName",
        Json::from_text(name),
    ).with("description", Json::from_text(name)).with(
        "supportedGenerationMethods",
        Json::Array(methods),
    )
}

/// The reply with all the models.
pub fn models_list() -> (r: Reply)
    ensures
        r@ == http::reply_of(200, models_value()),
{
    let ghost wanted = Seq::new(
        models::MODEL_KEYS@.len(),
        |i: int| description_of(models::MODEL_KEYS@[i]@),
    );
    let keys = models::MODEL_KEYS;
    let mut list: Vec<Json> = Vec::new();
    proof {
        assert(wanted.take(0) =~= Seq::empty());
    }
    let mut i: usize = 0;
    while i < keys.len()
        invariant
            i <= keys@.len(),
            keys@ == models::MODEL_KEYS@,
            wanted == Seq::new(
                models::MODEL_KEYS@.len(),
                |i: int| description_of(models::MODEL_KEYS@[i]@),
            ),
            json::items_view(list@) == wanted.take(i as int),
        decreases keys@.len() - i,
    {
        let item = describe(keys[i]);
        proof {
            json::lemma_items_push(list@, item);
            assert(wanted[i as int] == description_of(keys@[i as int]@));
            assert(wanted.take(i + 1) =~= wanted.take(i as int).push(wanted[i as int]));
        }
        list.push(item);
        i += 1;
    }
    proof {
        assert(wanted.take(wanted.len() as int) =~= wanted);
    }
    http::json_ok(&Json::object().with("models", Json::Array(list)))
}

// ---------------------------------------------------------------------------
// The request
// ---------------------------------------------------------------------------

/// The model and whether events are wanted, as the last part of the path says.
pub open spec fn path_parts(path: Seq<char>) -> Option<(Seq<char>, bool)> {
    if text::ends_with_spec(path, ":streamGenerateContent"@) {
        Some((path.take(path.len() - ":streamGenerateContent"@.len()), true))
    } else if text::ends_with_spec(path, ":streamGenerate"@) {
        Some((path.take(path.len() - ":streamGenerate"@.len()), true))
    } else if text::ends_with_spec(path, ":generateContent"@) {
        Some((path.take(path.len() - ":generateContent"@.len()), false))
    } else {
        None
    }
}

/// What a request asks for, or why it is refused.
pub open spec fn plan_of(path: Seq<char>, body: JsonView, default_model: Seq<char>) -> Result<
    PlanView,
    Seq<char>,
> {
    match path_parts(path) {
        Some((model, stream)) => chat::planned(
            model,
            default_model,
            google::prompt_of(body),
            body.get("tools"@) is Some && google::calling_mode(body) != "NONE"@,
            stream,
            "empty content"@,
        ),
        None => Err("model not specified in path"@),
    }
}

fn split_path(path: &str) -> (r: Option<(&str, bool)>)
    ensures
        match r {
            Some((model, stream)) => path_parts(path@) == Some((model@, stream)),
            None => path_parts(path@) is None,
        },
{
    match text::strip_suffix(path, ":streamGenerateContent") {
        Some(model) => {
            return Some((model, true));
        },
        None => {},
    }
    match text::strip_suffix(path, ":streamGenerate") {
        Some(model) => {
            return Some((model, true));
        },
        None => {},
    }
    match text::strip_suffix(path, ":generateContent") {
        Some(model) => Some((model, false)),
        None => None,
    }
}

/// What a request asks for and the images that it brings, or the reply that
/// refuses it.
pub fn generate(path: &str, body: &Json, default_model: &str) -> (r: Result<
    (Plan, Vec<(String, String)>),
    Reply,
>)
    ensures
        ({
            let wanted = plan_of(path@, body@, default_model@);
            match r {
                Ok((p, images)) => wanted == Ok::<PlanView, Seq<char>>(p@)
                    && google::images_view(images@) == google::images_of(body@),
                Err(reply) => wanted is Err && reply@ == http::error_of(400, wanted->Err_0),
            }
        }),
{
    let (model, stream): (&str, bool) = match split_path(path) {
        Some(parts) => parts,
        None => {
            return Err(http::error_reply(400, "model not specified in path"));
        },
    };
    let has_tools = body.get("tools").is_some() && !text::same(
        google::function_calling_mode(body),
        "NONE",
    );
    let (prompt, images) = google::google_contents_to_prompt(body);
    match chat::plan(model, default_model, prompt, has_tools, stream, "empty content") {
        Ok(p) => Ok((p, images)),
        Err(reply) => Err(reply),
    }
}

// ---------------------------------------------------------------------------
// The answer
// ---------------------------------------------------------------------------

pub open spec fn text_part(s: Seq<char>) -> JsonView {
    JsonView::object().with("text"@, JsonView::Text(s))
}

/// A call of a function, as a part.
pub open spec fn call_part(call: JsonView) -> JsonView {
    JsonView::object().with(
        "functionCall"@,
        JsonView::object().with("name"@, call.member_or_null("name"@)).with(
            "args"@,
            call.member_or_null("args"@),
        ),
    )
}

/// The parts of an answer, without its calls, and of the calls. An answer that
/// gives none is one part as it is.
pub open spec fn parts_of(answer: Seq<char>, clean: Seq<char>, calls: Seq<JsonView>) -> Seq<
    JsonView,
> {
    let said = if clean.len() > 0 {
        seq![text_part(clean)]
    } else {
        Seq::empty()
    };
    let parts = said + Seq::new(calls.len(), |i: int| call_part(calls[i]));
    if parts.len() == 0 {
        seq![text_part(answer)]
    } else {
        parts
    }
}

/// The parts of an answer that may call functions.
pub open spec fn answer_parts(answer: Seq<char>, has_tools: bool) -> Seq<JsonView> {
    if has_tools {
        parts_of(answer, google::parsed_answer(answer).0, google::parsed_answer(answer).1)
    } else {
        seq![text_part(answer)]
    }
}

pub open spec fn content_value(parts: Seq<JsonView>) -> JsonView {
    JsonView::object().with("parts"@, JsonView::Array(parts)).with(
        "role"@,
        JsonView::Text("model"@),
    )
}

pub open spec fn usage_value(prompt: nat, answer: nat, total: nat) -> JsonView {
    JsonView::object().with("promptTokenCount"@, json::count_value(prompt)).with(
        "candidatesTokenCount"@,
        json::count_value(answer),
    ).with("totalTokenCount"@, json::count_value(total))
}

/// The only candidate of a whole answer.
pub open spec fn candidate_value(parts: Seq<JsonView>) -> JsonView {
    JsonView::object().with("content"@, content_value(parts)).with(
        "finishReason"@,
        JsonView::Text("STOP"@),
    ).with("index"@, json::count_value(0))
}

/// An answer of one candidate, with the tokens and the model.
pub open spec fn whole_value(parts: Seq<JsonView>, usage: JsonView, model: Seq<char>) -> JsonView {
    JsonView::object().with("candidates"@, JsonView::Array(seq![candidate_value(parts)])).with(
        "usageMetadata"@,
        usage,
    ).with("modelVersion"@, JsonView::Text(model))
}

/// A whole answer. The tokens are told by bytes.
pub open spec fn response_value(
    answer: Seq<char>,
    model: Seq<char>,
    prompt_len: nat,
    has_tools: bool,
) -> JsonView {
    whole_value(
        answer_parts(answer, has_tools),
        usage_value(
            prompt_len / 4,
            text::utf8_len(answer) / 4,
            (prompt_len + text::utf8_len(answer)) / 4,
        ),
        model,
    )
}

/// An event with a text.
pub open spec fn chunk_value(delta: Seq<char>) -> JsonView {
    JsonView::object().with(
        "candidates"@,
        JsonView::Array(
            seq![
                JsonView::object().with("content"@, content_value(seq![text_part(delta)])).with(
                    "index"@,
                    json::count_value(0),
                ),
            ],
        ),
    )
}

/// The last event. The tokens of each side are told by characters, those of
/// both by bytes.
pub open spec fn final_value(prompt: Seq<char>, emitted: Seq<char>, model: Seq<char>) -> JsonView {
    whole_value(
        seq![text_part(""@)],
        usage_value(
            prompt.len() / 4,
            emitted.len() / 4,
            (text::utf8_len(prompt) + text::utf8_len(emitted)) / 4,
        ),
        model,
    )
}

fn a_text_part(s: &str) -> (r: Json)
    ensures
        r@ == text_part(s@),
{
    Json::object().with("text", Json::from_text(s))
}

/// The parts of an answer whose calls were taken out.
pub fn parts_with(answer: &str, clean: &str, calls: &Vec<Json>) -> (r: Vec<Json>)
    ensures
        json::items_view(r@) == parts_of(answer@, clean@, json::items_view(calls@)),
{
    let ghost all = json::items_view(calls@);
    let ghost said = if clean@.len() > 0 {
        seq![text_part(clean@)]
    } else {
        Seq::empty()
    };
    let ghost wanted = Seq::new(all.len(), |i: int| call_part(all[i]));
    let mut parts: Vec<Json> = Vec::new();
    if !clean.is_empty() {
        let part = a_text_part(clean);
        proof {
            json::lemma_items_push(parts@, part);
        }
        parts.push(part);
    }
    proof {
        json::lemma_items_view(calls@);
        assert(json::items_view(parts@) =~= said + wanted.take(0));
    }
    let mut i: usize = 0;
    while i < calls.len()
        invariant
            i <= calls@.len(),
            all.len() == calls@.len(),
            wanted == Seq::new(all.len(), |i: int| call_part(all[i])),
            forall|k: int| 0 <= k < all.len() ==> #[trigger] all[k] == calls@[k]@,
            json::items_view(parts@) == said + wanted.take(i as int),
        decreases calls@.len() - i,
    {
        let part = Json::object().with(
            "functionCall",
            Json::object().with("name", calls[i].member_or_null("name")).with(
                "args",
                calls[i].member_or_null("args"),
            ),
        );
        proof {
            json::lemma_items_push(parts@, part);
            assert(wanted[i as int] == call_part(all[i as int]));
            assert((said + wanted.take(i as int)).push(wanted[i as int]) =~= said + wanted.take(
                i + 1,
            ));
        }
        parts.push(part);
        i += 1;
    }
    proof {
        assert(wanted.take(wanted.len() as int) =~= wanted);
        json::lemma_items_view(parts@);
    }
    if parts.len() == 0 {
        let part = a_text_part(answer);
        proof {
            json::lemma_items_push(parts@, part);
            assert(parts@ =~= Seq::<Json>::empty());
            assert(json::items_view(parts@).push(part@) =~= seq![text_part(answer@)]);
        }
        parts.push(part);
    }
    parts
}

fn content(parts: Json) -> (r: Json)
    ensures
        r@ == JsonView::object().with("parts"@, parts@).with("role"@, JsonView::Text("model"@)),
{
    Json::object().with("parts", parts).with("role", Json::from_text("model"))
}

fn usage(prompt: u64, answer: u64, total: u64) -> (r: Json)
    ensures
        r@ == usage_value(prompt as nat, answer as nat, total as nat),
{
    Json::object().with("promptTokenCount", Json::from_integer(prompt)).with(
        "candidatesTokenCount",
        Json::from_integer(answer),
    ).with("totalTokenCount", Json::from_integer(total))
}

fn quarter_of_sum(a: usize, b: usize) -> (r: u64)
    ensures
        r == (a + b) / 4,
{
    let sum: u128 = a as u128 + b as u128;
    (sum / 4) as u64
}

fn whole(parts: Vec<Json>, usage: Json, model: &str) -> (r: Json)
    ensures
        r@ == whole_value(json::items_view(parts@), usage@, model@),
{
    let candidate = Json::object().with("content", content(Json::Array(parts))).with(
        "finishReason",
        Json::from_text("STOP"),
    ).with("index", Json::from_integer(0));
    Json::object().with("candidates", Json::list_of(candidate)).with("usageMetadata", usage).with(
        "modelVersion",
        Json::from_text(model),
    )
}

/// A whole answer.
pub fn response_object(answer: &str, model_name: &str, prompt_len: usize, has_tools: bool) -> (r:
    Json)
    ensures
        r@ == response_value(answer@, model_name@, prompt_len as nat, has_tools),
{
    let parts: Vec<Json> = if has_tools {
        let (clean, calls) = google::parse_google_function_calls(answer);
        parts_with(answer, clean.as_str(), &calls)
    } else {
        let mut one: Vec<Json> = Vec::new();
        let part = a_text_part(answer);
        proof {
            json::lemma_items_push(one@, part);
            assert(json::items_view(one@).push(part@) =~= seq![text_part(answer@)]);
        }
        one.push(part);
        one
    };
    let len: usize = text::byte_len(answer);
    let tokens = usage(
        prompt_len as u64 / 4,
        len as u64 / 4,
        quarter_of_sum(prompt_len, len),
    );
    whole(parts, tokens, model_name)
}

/// An answer that comes in events: the texts so far are kept for the tokens.
#[derive(Debug)]
pub struct GenerateStream {
    model_name: String,
    prompt: String,
    emitted: String,
}

impl GenerateStream {
    pub closed spec fn model(&self) -> Seq<char> {
        self.model_name@
    }

    pub closed spec fn asked(&self) -> Seq<char> {
        self.prompt@
    }

    pub closed spec fn said(&self) -> Seq<char> {
        self.emitted@
    }

    pub fn new(model_name: &str, prompt: &str) -> (r: Self)
        ensures
            r.model() == model_name@,
            r.asked() == prompt@,
            r.said() == Seq::<char>::empty(),
    {
        GenerateStream {
            model_name: model_name.to_owned(),
            prompt: prompt.to_owned(),
            emitted: String::new(),
        }
    }

    /// What is sent for an item of the service's stream, or for its end: a text
    /// is an event; an error, or the end, gives the last event.
    pub fn stream_chunks(&mut self, item: Option<Result<String, String>>) -> (r: StreamStep)
        ensures
            final(self).model() == old(self).model(),
            final(self).asked() == old(self).asked(),
            match item {
                Some(Ok(delta)) => final(self).said() == old(self).said() + delta@ && !r.over
                    && text::texts_of(r.events@) == seq![json::json_printed(chunk_value(delta@))],
                _ => final(self).said() == old(self).said() && r.over && text::texts_of(r.events@)
                    == seq![
                    json::json_printed(
                        final_value(old(self).asked(), old(self).said(), old(self).model()),
                    ),
                ],
            },
    {
        let mut events: Vec<String> = Vec::new();
        match item {
            Some(Ok(delta)) => {
                self.emitted.append(delta.as_str());
                let candidate = Json::object().with(
                    "content",
                    content(Json::list_of(a_text_part(delta.as_str()))),
                ).with("index", Json::from_integer(0));
                let event = Json::object().with("candidates", Json::list_of(candidate));
                events.push(http::sse_event(&event));
                proof {
                    assert(text::texts_of(events@) =~= seq![
                        json::json_printed(chunk_value(delta@)),
                    ]);
                }
                StreamStep { events, over: false }
            },
            _ => {
                let tokens = usage(
                    text::char_count(self.prompt.as_str()) as u64 / 4,
                    text::char_count(self.emitted.as_str()) as u64 / 4,
                    quarter_of_sum(
                        text::byte_len(self.prompt.as_str()),
                        text::byte_len(self.emitted.as_str()),
                    ),
                );
                let mut parts: Vec<Json> = Vec::new();
                let part = a_text_part("");
                proof {
                    json::lemma_items_push(parts@, part);
                    assert(json::items_view(parts@).push(part@) =~= seq![text_part(""@)]);
                }
                parts.push(part);
                let event = whole(parts, tokens, self.model_name.as_str());
                events.push(http::sse_event(&event));
                proof {
                    assert(text::texts_of(events@) =~= seq![
                        json::json_printed(
                            final_value(self.asked(), self.said(), self.model()),
                        ),
                    ]);
                }
                StreamStep { events, over: true }
            },
        }
    }
}

/// An answer is never without a part.
pub proof fn law_answer_has_a_part(answer: Seq<char>, has_tools: bool)
    ensures
        answer_parts(answer, has_tools).len() > 0,
{
}

// ---------------------------------------------------------------------------
// What the client gets
// ---------------------------------------------------------------------------


/// The path says which model is asked for and whether events are wanted; a path
/// that says neither is refused.
pub proof fn law_path_names_the_model(model: Seq<char>, path: Seq<char>)
    ensures
        path_parts(model + ":generateContent"@) == Some((model, false)),
        path_parts(model + ":streamGenerateContent"@) == Some((model, true)),
        path_parts(model + ":streamGenerate"@) == Some((model, true)),
        !path.contains(':') ==> path_parts(path) is None,
{
    reveal_strlit(":generateContent");
    reveal_strlit(":streamGenerateContent");
    reveal_strlit(":streamGenerate");
    let a = model + ":generateContent"@;
    let b = model + ":streamGenerateContent"@;
    let c = model + ":streamGenerate"@;
    let n = model.len() as int;
    assert(a.subrange(n, n + 16) =~= ":generateContent"@);
    assert(b.subrange(n, n + 22) =~= ":streamGenerateContent"@);
    assert(c.subrange(n, n + 15) =~= ":streamGenerate"@);
    assert(a.take(n) =~= model);
    assert(b.take(n) =~= model);
    assert(c.take(n) =~= model);
    if a.len() >= 22 {
        assert(a.subrange(a.len() - 22, a.len() as int)[7] == a[a.len() - 15]);
        assert(":streamGenerateContent"@[7] == 'G');
        assert(a[a.len() - 15] == ":generateContent"@[1]);
    }
    if a.len() >= 15 {
        assert(a.subrange(a.len() - 15, a.len() as int)[0] == a[a.len() - 15]);
        assert(a[a.len() - 15] == ":generateContent"@[1]);
    }
    if c.len() >= 22 {
        assert(c.subrange(c.len() - 22, c.len() as int)[21] == c.last());
        assert(c.last() == 'e');
    }
    if !path.contains(':') {
        let m = path.len() as int;
        if m >= 22 {
            assert(path.subrange(m - 22, m)[0] == path[m - 22]);
            assert(path.contains(path[m - 22]));
        }
        if m >= 16 {
            assert(path.subrange(m - 16, m)[0] == path[m - 16]);
            assert(path.contains(path[m - 16]));
        }
        if m >= 15 {
            assert(path.subrange(m - 15, m)[0] == path[m - 15]);
            assert(path.contains(path[m - 15]));
        }
    }
}

/// A request is planned as it asks: the model of its path, the prompt of its
/// contents, events as its path says, and calls if and only if it brings tools
/// and does not forbid them. A blank prompt and a model that is not known are
/// refused.
pub proof fn law_request_is_planned_as_it_asks(
    path: Seq<char>,
    body: JsonView,
    default_model: Seq<char>,
    model: Seq<char>,
    stream: bool,
)
    requires
        path_parts(path) == Some((model, stream)),
    ensures
        match plan_of(path, body, default_model) {
            Ok(p) => {
                &&& p.model_name == model
                &&& common::strict_resolution(model, default_model) == Ok::<
                    ResolvedView,
                    Seq<char>,
                >(p.resolved)
                &&& p.prompt == google::prompt_of(body)
                &&& p.stream == stream
                &&& p.has_tools == (body.get("tools"@) is Some && google::calling_mode(body)
                    != "NONE"@)
            },
            Err(e) => {
                ||| common::strict_resolution(model, default_model) == Err::<
                    ResolvedView,
                    Seq<char>,
                >(e)
                ||| (text::trimmed(google::prompt_of(body)).len() == 0 && e == "empty content"@)
            },
        },
        plan_of(path, body, default_model) is Ok <==> common::strict_resolution(
            model,
            default_model,
        ) is Ok && text::trimmed(google::prompt_of(body)).len() > 0,
{
}

/// A path without a model is refused for that reason.
pub proof fn law_no_model_no_plan(path: Seq<char>, body: JsonView, default_model: Seq<char>)
    requires
        path_parts(path) is None,
    ensures
        plan_of(path, body, default_model) == Err::<PlanView, Seq<char>>(
            "model not specified in path"@,
        ),
{
}

/// The text of an answer is a part of it, whole; the calls follow, each with its
/// name and its arguments. Without functions the answer is all text.
pub proof fn law_parts_carry_the_answer(
    answer: Seq<char>,
    clean: Seq<char>,
    calls: Seq<JsonView>,
    call: JsonView,
)
    ensures
        text_part(answer).get("text"@) == Some(JsonView::Text(answer)),
        answer_parts(answer, false) == seq![text_part(answer)],
        answer_parts(answer, true) == parts_of(
            answer,
            google::parsed_answer(answer).0,
            google::parsed_answer(answer).1,
        ),
        clean.len() > 0 ==> parts_of(answer, clean, calls) == seq![text_part(clean)] + Seq::new(
            calls.len(),
            |i: int| call_part(calls[i]),
        ),
        clean.len() == 0 && calls.len() > 0 ==> parts_of(answer, clean, calls) == Seq::new(
            calls.len(),
            |i: int| call_part(calls[i]),
        ),
        clean.len() == 0 && calls.len() == 0 ==> parts_of(answer, clean, calls) == seq![
            text_part(answer),
        ],
        call_part(call).get("functionCall"@) matches Some(f) && (call.get("name"@) matches Some(n)
            ==> f.get("name"@) == Some(n)) && (call.get("args"@) matches Some(a) ==> f.get("args"@)
            == Some(a)),
{
    reveal_strlit("name");
    reveal_strlit("args");
    assert("name"@.len() == 4);
    assert("args"@.len() == 4);
    assert("name"@[0] != "args"@[0]);
    json::lemma_object_of_1("text"@, JsonView::Text(answer));
    json::lemma_object_of_2(
        "name"@,
        call.member_or_null("name"@),
        "args"@,
        call.member_or_null("args"@),
    );
    json::lemma_object_of_1(
        "functionCall"@,
        JsonView::object().with("name"@, call.member_or_null("name"@)).with(
            "args"@,
            call.member_or_null("args"@),
        ),
    );
    let made = Seq::new(calls.len(), |i: int| call_part(calls[i]));
    assert(Seq::<JsonView>::empty() + made =~= made);
}

/// A whole answer is one candidate of the model, with the parts of the answer
/// and the reason that it stopped; beside it stand the tokens, at four bytes
/// each, and the model.
pub proof fn law_response_carries_the_answer(
    answer: Seq<char>,
    model: Seq<char>,
    prompt_len: nat,
    has_tools: bool,
)
    ensures
        ({
            let r = response_value(answer, model, prompt_len, has_tools);
            let candidate = r.get("candidates"@)->Some_0.at(0)->Some_0;
            let content = candidate.get("content"@)->Some_0;
            let usage = r.get("usageMetadata"@)->Some_0;
            let bytes = text::utf8_len(answer);
            &&& r.get("candidates"@) matches Some(JsonView::Array(list)) && list.len() == 1
            &&& candidate.get("finishReason"@) == Some(JsonView::Text("STOP"@))
            &&& content.get("parts"@) == Some(JsonView::Array(answer_parts(answer, has_tools)))
            &&& content.get("role"@) == Some(JsonView::Text("model"@))
            &&& r.get("modelVersion"@) == Some(JsonView::Text(model))
            &&& usage.get("promptTokenCount"@) == Some(json::count_value(prompt_len / 4))
            &&& usage.get("candidatesTokenCount"@) == Some(json::count_value(bytes / 4))
            &&& usage.get("totalTokenCount"@) == Some(json::count_value((prompt_len + bytes) / 4))
        }),
{
    let bytes = text::utf8_len(answer);
    lemma_whole(
        answer_parts(answer, has_tools),
        prompt_len / 4,
        bytes / 4,
        (prompt_len + bytes) / 4,
        model,
    );
}

proof fn lemma_whole(parts: Seq<JsonView>, p: nat, a: nat, t: nat, model: Seq<char>)
    ensures
        ({
            let r = whole_value(parts, usage_value(p, a, t), model);
            let candidate = r.get("candidates"@)->Some_0.at(0)->Some_0;
            let content = candidate.get("content"@)->Some_0;
            let usage = r.get("usageMetadata"@)->Some_0;
            &&& r.get("candidates"@) == Some(JsonView::Array(seq![candidate_value(parts)]))
            &&& candidate.get("content"@) is Some
            &&& candidate.get("finishReason"@) == Some(JsonView::Text("STOP"@))
            &&& content.get("parts"@) == Some(JsonView::Array(parts))
            &&& content.get("role"@) == Some(JsonView::Text("model"@))
            &&& r.get("modelVersion"@) == Some(JsonView::Text(model))
            &&& usage.get("promptTokenCount"@) == Some(json::count_value(p))
            &&& usage.get("candidatesTokenCount"@) == Some(json::count_value(a))
            &&& usage.get("totalTokenCount"@) == Some(json::count_value(t))
        }),
{
    reveal_strlit("candidates");
    reveal_strlit("usageMetadata");
    reveal_strlit("modelVersion");
    assert("candidates"@.len() == 10);
    assert("usageMetadata"@.len() == 13);
    assert("modelVersion"@.len() == 12);
    reveal_strlit("content");
    reveal_strlit("finishReason");
    reveal_strlit("index");
    assert("content"@.len() == 7);
    assert("finishReason"@.len() == 12);
    assert("index"@.len() == 5);
    reveal_strlit("parts");
    reveal_strlit("role");
    assert("parts"@.len() == 5);
    assert("role"@.len() == 4);
    reveal_strlit("promptTokenCount");
    reveal_strlit("candidatesTokenCount");
    reveal_strlit("totalTokenCount");
    assert("promptTokenCount"@.len() == 16);
    assert("candidatesTokenCount"@.len() == 20);
    assert("totalTokenCount"@.len() == 15);
    json::lemma_object_of_2(
        "parts"@,
        JsonView::Array(parts),
        "role"@,
        JsonView::Text("model"@),
    );
    json::lemma_object_of_3(
        "content"@,
        content_value(parts),
        "finishReason"@,
        JsonView::Text("STOP"@),
        "index"@,
        json::count_value(0),
    );
    json::lemma_object_of_3(
        "promptTokenCount"@,
        json::count_value(p),
        "candidatesTokenCount"@,
        json::count_value(a),
        "totalTokenCount"@,
        json::count_value(t),
    );
    json::lemma_object_of_3(
        "candidates"@,
        JsonView::Array(seq![candidate_value(parts)]),
        "usageMetadata"@,
        usage_value(p, a, t),
        "modelVersion"@,
        JsonView::Text(model),
    );
}

/// An event carries its text as the only part of the only candidate.
pub proof fn law_event_carries_the_text(delta: Seq<char>)
    ensures
        ({
            let candidate = chunk_value(delta).get("candidates"@)->Some_0.at(0)->Some_0;
            let content = candidate.get("content"@)->Some_0;
            &&& chunk_value(delta).get("candidates"@) matches Some(JsonView::Array(list))
                && list.len() == 1
            &&& content.get("parts"@) == Some(JsonView::Array(seq![text_part(delta)]))
            &&& content.get("role"@) == Some(JsonView::Text("model"@))
            &&& text_part(delta).get("text"@) == Some(JsonView::Text(delta))
            &&& candidate.get("finishReason"@) is None
        }),
{
    reveal_strlit("content");
    reveal_strlit("index");
    reveal_strlit("finishReason");
    assert("content"@.len() == 7);
    assert("index"@.len() == 5);
    assert("finishReason"@.len() == 12);
    reveal_strlit("parts");
    reveal_strlit("role");
    assert("parts"@.len() == 5);
    assert("role"@.len() == 4);
    json::lemma_object_of_1("text"@, JsonView::Text(delta));
    json::lemma_object_of_2(
        "parts"@,
        JsonView::Array(seq![text_part(delta)]),
        "role"@,
        JsonView::Text("model"@),
    );
    json::lemma_object_of_2(
        "content"@,
        content_value(seq![text_part(delta)]),
        "index"@,
        json::count_value(0),
    );
    let candidate = JsonView::object().with("content"@, content_value(seq![text_part(delta)])).with(
        "index"@,
        json::count_value(0),
    );
    json::lemma_with(
        JsonView::object(),
        "content"@,
        content_value(seq![text_part(delta)]),
        "finishReason"@,
    );
    json::lemma_with(
        JsonView::object().with("content"@, content_value(seq![text_part(delta)])),
        "index"@,
        json::count_value(0),
        "finishReason"@,
    );
    json::lemma_object_of_1("candidates"@, JsonView::Array(seq![candidate]));
}

/// The last event says that the answer stopped, and tells the tokens of all that
/// was said and the model.
pub proof fn law_last_event_tells_the_tokens(
    prompt: Seq<char>,
    emitted: Seq<char>,
    model: Seq<char>,
)
    ensures
        ({
            let r = final_value(prompt, emitted, model);
            let candidate = r.get("candidates"@)->Some_0.at(0)->Some_0;
            let usage = r.get("usageMetadata"@)->Some_0;
            &&& candidate.get("finishReason"@) == Some(JsonView::Text("STOP"@))
            &&& r.get("modelVersion"@) == Some(JsonView::Text(model))
            &&& usage.get("promptTokenCount"@) == Some(json::count_value(prompt.len() / 4))
            &&& usage.get("candidatesTokenCount"@) == Some(json::count_value(emitted.len() / 4))
            &&& usage.get("totalTokenCount"@) == Some(
                json::count_value((text::utf8_len(prompt) + text::utf8_len(emitted)) / 4),
            )
        }),
{
    lemma_whole(
        seq![text_part(""@)],
        prompt.len() / 4,
        emitted.len() / 4,
        (text::utf8_len(prompt) + text::utf8_len(emitted)) / 4,
        model,
    );
}

/// A model is described under its own name, with both ways to ask it.
pub proof fn law_model_is_described(name: Seq<char>)
    ensures
        description_of(name).get("name"@) == Some(JsonView::Text("models/"@ + name)),
        description_of(name).get("displayName"@) == Some(JsonView::Text(name)),
        description_of(name).get("supportedGenerationMethods"@) == Some(
            JsonView::Array(
                seq![JsonView::Text("generateContent"@), JsonView::Text("streamGenerateContent"@)],
            ),
        ),
{
    reveal_strlit("name");
    reveal_strlit("displayName");
    reveal_strlit("description");
    reveal_strlit("supportedGenerationMethods");
    assert("name"@.len() == 4);
    assert("displayName"@.len() == 11);
    assert("description"@.len() == 11);
    assert("supportedGenerationMethods"@.len() == 26);
    assert("displayName"@[1] != "description"@[1]);
    json::lemma_object_of_4(
        "name"@,
        JsonView::Text("models/"@ + name),
        "displayName"@,
        JsonView::Text(name),
        "description"@,
        JsonView::Text(name),
        "supportedGenerationMethods"@,
        JsonView::Array(
            seq![JsonView::Text("generateContent"@), JsonView::Text("streamGenerateContent"@)],
        ),
    );
}

/// All the models of the table are listed, in their order.
pub proof fn law_every_model_is_listed(i: int)
    requires
        0 <= i < models::MODEL_KEYS@.len(),
    ensures
        models_value().get("models"@) matches Some(JsonView::Array(list)) && list.len()
            == models::MODEL_KEYS@.len() && list[i] == description_of(models::MODEL_KEYS@[i]@),
{
    json::lemma_object_of_1(
        "models"@,
        JsonView::Array(
            Seq::new(models::MODEL_KEYS@.len(), |i: int| description_of(models::MODEL_KEYS@[i]@)),
        ),
    );
}

} // verus!
