//! The format of `/v1/chat/completions`.

use crate::gemini::tool_prompt;
use crate::gemini::tool_prompt::BlockKind;
use crate::json;
use crate::json::{Json, JsonView};
use crate::text;
use crate::web2api::convert::common;
use crate::web2api::convert::common::{ToolChoice, ToolChoiceView};
use vstd::prelude::*;
use vstd::string::*;

verus! {

/// How to call a tool.
pub const INSTRUCTION_OPENAI: &'static str =
    "You have access to tools. To call a tool, respond with:\n```tool_call\n{\"name\": \"func_name\", \"arguments\": {{...}}}\n```\nOnly use tool_call blocks when needed.\n\nAvailable tools:\n";

/// What stands for an image.
pub const IMAGE_NOTE: &'static str =
    "[Note: Image input not supported by this server; describe the image in text]. ";

// ---------------------------------------------------------------------------
// Tools
// ---------------------------------------------------------------------------

/// The function that a tool of a request describes.
pub open spec fn function_in(tool: JsonView) -> Option<JsonView> {
    if tool.get_text("type"@) == Some("function"@) {
        tool.get("function"@)
    } else {
        Some(tool)
    }
}

/// A function as the model is told of it.
pub open spec fn definition_of(f: JsonView) -> JsonView {
    JsonView::object().with("name"@, JsonView::Text(f.text_or("name"@, ""@))).with(
        "description"@,
        JsonView::Text(f.text_or("description"@, ""@)),
    ).with("parameters"@, f.member_or_object("parameters"@))
}

/// The functions that tools describe.
pub open spec fn definitions_in(tools: Seq<JsonView>) -> Seq<JsonView>
    decreases tools.len(),
{
    if tools.len() == 0 {
        Seq::empty()
    } else {
        let before = definitions_in(tools.drop_last());
        match function_in(tools.last()) {
            Some(f) => before.push(definition_of(f)),
            None => before,
        }
    }
}

/// The section that tells the model of the tools, if there are any.
pub open spec fn section_of(tools: Seq<JsonView>, choice: ToolChoiceView) -> Option<Seq<char>> {
    let defs = definitions_in(tools);
    if defs.len() == 0 {
        None
    } else {
        Some(
            "[System instruction]: "@ + tool_prompt::section_text(
                INSTRUCTION_OPENAI@,
                defs,
                common::choice_text(choice),
            ),
        )
    }
}

/// A function as the model is told of it.
pub fn define(f: &Json) -> (r: Json)
    ensures
        r@ == definition_of(f@),
{
    Json::object().with("name", Json::from_text(f.text_or("name", ""))).with(
        "description",
        Json::from_text(f.text_or("description", "")),
    ).with("parameters", f.member_or_object("parameters"))
}

fn definitions(tools: &Vec<Json>) -> (r: Vec<Json>)
    ensures
        json::items_view(r@) == definitions_in(json::items_view(tools@)),
{
    let ghost all = json::items_view(tools@);
    proof {
        json::lemma_items_view(tools@);
    }
    let mut defs: Vec<Json> = Vec::new();
    let mut i: usize = 0;
    while i < tools.len()
        invariant
            i <= tools@.len(),
            all.len() == tools@.len(),
            forall|k: int| 0 <= k < all.len() ==> #[trigger] all[k] == tools@[k]@,
            json::items_view(defs@) == definitions_in(all.take(i as int)),
        decreases tools@.len() - i,
    {
        proof {
            assert(all.take(i + 1).drop_last() =~= all.take(i as int));
            assert(all.take(i + 1).last() == all[i as int]);
        }
        let tool = &tools[i];
        let described = match tool.get_text("type") {
            Some(t) => text::same(t, "function"),
            None => false,
        };
        let found: Option<&Json> = if described {
            tool.get("function")
        } else {
            Some(tool)
        };
        match found {
            Some(f) => {
                let def = define(f);
                proof {
                    json::lemma_items_push(defs@, def);
                }
                defs.push(def);
            },
            None => {},
        }
        i += 1;
    }
    proof {
        assert(all.take(all.len() as int) =~= all);
    }
    defs
}

proof fn lemma_instruction()
    ensures
        text::occurs(INSTRUCTION_OPENAI@, tool_prompt::fence_of(BlockKind::ToolCall)),
{
    reveal_strlit("```tool_call");
    reveal_strlit(
        "You have access to tools. To call a tool, respond with:\n```tool_call\n{\"name\": \"func_name\", \"arguments\": {{...}}}\n```\nOnly use tool_call blocks when needed.\n\nAvailable tools:\n",
    );
    assert(INSTRUCTION_OPENAI@.subrange(56, 68) =~= "```tool_call"@);
    assert(text::matches_at(INSTRUCTION_OPENAI@, "```tool_call"@, 56));
}

/// The section that tells the model of the tools, if there are any.
pub fn tools_section(tools: &Vec<Json>, tool_choice: &ToolChoice) -> (r: Option<String>)
    ensures
        text::option_view(r) == section_of(json::items_view(tools@), tool_choice@),
{
    let defs = definitions(tools);
    proof {
        json::lemma_items_view(defs@);
        lemma_instruction();
    }
    if defs.len() == 0 {
        return None;
    }
    let constraint = tool_choice.instruction();
    let section = tool_prompt::tool_use_section(
        BlockKind::ToolCall,
        INSTRUCTION_OPENAI,
        &defs,
        constraint.as_str(),
    );
    Some(text::cat("[System instruction]: ", section.as_str()))
}

// ---------------------------------------------------------------------------
// Messages
// ---------------------------------------------------------------------------

/// The text of one part of a message.
pub open spec fn part_text(part: JsonView) -> Option<Seq<char>> {
    let kind = part.get_text("type"@);
    if kind == Some("text"@) || kind == Some("input_text"@) {
        part.get_text("text"@)
    } else if kind == Some("image_url"@) {
        Some(IMAGE_NOTE@)
    } else {
        None
    }
}

pub open spec fn part_texts(parts: Seq<JsonView>) -> Seq<Seq<char>>
    decreases parts.len(),
{
    if parts.len() == 0 {
        Seq::empty()
    } else {
        let before = part_texts(parts.drop_last());
        match part_text(parts.last()) {
            Some(t) => before.push(t),
            None => before,
        }
    }
}

/// The text of a message: a text, or the texts of its parts.
pub open spec fn text_in(content: JsonView) -> Seq<char> {
    match content {
        JsonView::Text(s) => s,
        JsonView::Array(parts) => text::joined(part_texts(parts), " "@),
        _ => ""@,
    }
}

fn read_part(part: &Json) -> (r: Option<String>)
    ensures
        text::option_view(r) == part_text(part@),
{
    match part.get_text("type") {
        Some(kind) => {
            if text::same(kind, "text") || text::same(kind, "input_text") {
                match part.get_text("text") {
                    Some(t) => Some(t.to_owned()),
                    None => None,
                }
            } else if text::same(kind, "image_url") {
                Some(IMAGE_NOTE.to_owned())
            } else {
                None
            }
        },
        None => None,
    }
}

fn read_parts(parts: &Vec<Json>) -> (r: Vec<String>)
    ensures
        text::texts_of(r@) == part_texts(json::items_view(parts@)),
{
    let ghost all = json::items_view(parts@);
    let mut out: Vec<String> = Vec::new();
    proof {
        json::lemma_items_view(parts@);
        assert(text::texts_of(out@) =~= Seq::empty());
    }
    let mut i: usize = 0;
    while i < parts.len()
        invariant
            i <= parts@.len(),
            all.len() == parts@.len(),
            forall|k: int| 0 <= k < all.len() ==> #[trigger] all[k] == parts@[k]@,
            text::texts_of(out@) == part_texts(all.take(i as int)),
        decreases parts@.len() - i,
    {
        proof {
            assert(all.take(i + 1).drop_last() =~= all.take(i as int));
            assert(all.take(i + 1).last() == all[i as int]);
        }
        match read_part(&parts[i]) {
            Some(t) => {
                proof {
                    text::lemma_texts_push(out@, t);
                }
                out.push(t);
            },
            None => {},
        }
        i += 1;
    }
    proof {
        assert(all.take(all.len() as int) =~= all);
    }
    out
}

/// The text of a message: a text, or the texts of its parts.
pub fn content_text(content: &Json) -> (r: String)
    ensures
        r@ == text_in(content@),
{
    match content {
        Json::Text(s) => s.clone(),
        Json::Array(parts) => {
            let texts = read_parts(parts);
            text::join(texts.as_slice(), " ")
        },
        _ => "".to_owned(),
    }
}

/// The arguments of a call, which are written as a text.
pub open spec fn written_arguments(f: JsonView) -> JsonView {
    match f.get_text("arguments"@) {
        Some(a) => match json::json_parsed(a) {
            Some(v) => v,
            None => JsonView::object(),
        },
        None => JsonView::object(),
    }
}

/// A call of the history, as the model wrote it.
pub open spec fn block_of(call: JsonView) -> Seq<char> {
    let f = call.member_or_object("function"@);
    common::call_block_text(f.text_or("name"@, ""@), written_arguments(f))
}

pub open spec fn blocks_of(calls: Seq<JsonView>) -> Seq<Seq<char>> {
    Seq::new(calls.len(), |i: int| block_of(calls[i]))
}

/// What the assistant said, with the tools that it called.
pub open spec fn assistant_text(content: Seq<char>, calls: Option<JsonView>) -> Seq<char> {
    match calls {
        Some(JsonView::Array(list)) => if list.len() > 0 {
            "[Assistant]: "@ + (if content.len() == 0 {
                ""@
            } else {
                content + "\n"@
            }) + text::joined(blocks_of(list), "\n"@)
        } else {
            "[Assistant]: "@ + content
        },
        _ => "[Assistant]: "@ + content,
    }
}

/// A message in the prompt; one without a text, of the user, is left out.
pub open spec fn message_text(msg: JsonView) -> Option<Seq<char>> {
    let role = msg.text_or("role"@, "user"@);
    let content = text_in(msg.member_or_null("content"@));
    if role == "system"@ {
        Some("[System instruction]: "@ + content)
    } else if role == "assistant"@ {
        Some(assistant_text(content, msg.get("tool_calls"@)))
    } else if role == "tool"@ {
        Some(tool_prompt::result_line(msg.text_or("name"@, ""@), content))
    } else if content.len() > 0 {
        Some(content)
    } else {
        None
    }
}

pub open spec fn message_texts(messages: Seq<JsonView>) -> Seq<Seq<char>>
    decreases messages.len(),
{
    if messages.len() == 0 {
        Seq::empty()
    } else {
        let before = message_texts(messages.drop_last());
        match message_text(messages.last()) {
            Some(t) => before.push(t),
            None => before,
        }
    }
}

/// The section of the tools, if they may be called.
pub open spec fn leading_section(tools: Option<Seq<JsonView>>, choice: ToolChoiceView) -> Seq<
    Seq<char>,
> {
    match tools {
        Some(list) => if choice == ToolChoiceView::Never {
            Seq::empty()
        } else {
            match section_of(list, choice) {
                Some(s) => seq![s],
                None => Seq::empty(),
            }
        },
        None => Seq::empty(),
    }
}

/// The prompt that the messages make.
pub open spec fn prompt_of(
    messages: Seq<JsonView>,
    tools: Option<Seq<JsonView>>,
    choice: ToolChoiceView,
) -> Seq<char> {
    text::joined(leading_section(tools, choice) + message_texts(messages), "\n\n"@)
}

pub open spec fn tools_view(tools: Option<&Vec<Json>>) -> Option<Seq<JsonView>> {
    match tools {
        Some(list) => Some(json::items_view(list@)),
        None => None,
    }
}

fn read_block(call: &Json) -> (r: String)
    ensures
        r@ == block_of(call@),
{
    let f = call.member_or_object("function");
    let args = match f.get_text("arguments") {
        Some(a) => match Json::parse(a) {
            Some(v) => v,
            None => Json::object(),
        },
        None => Json::object(),
    };
    common::tool_call_block(f.text_or("name", ""), &args)
}

fn read_blocks(calls: &Vec<Json>) -> (r: Vec<String>)
    ensures
        text::texts_of(r@) == blocks_of(json::items_view(calls@)),
{
    let ghost all = json::items_view(calls@);
    proof {
        json::lemma_items_view(calls@);
    }
    let mut out: Vec<String> = Vec::new();
    let mut i: usize = 0;
    while i < calls.len()
        invariant
            i <= calls@.len(),
            all.len() == calls@.len(),
            forall|k: int| 0 <= k < all.len() ==> #[trigger] all[k] == calls@[k]@,
            out@.len() == i,
            forall|k: int| 0 <= k < i ==> (#[trigger] out@[k])@ == block_of(all[k]),
        decreases calls@.len() - i,
    {
        out.push(read_block(&calls[i]));
        i += 1;
    }
    proof {
        assert(text::texts_of(out@) =~= blocks_of(all));
    }
    out
}

fn read_assistant(content: &str, calls: Option<&Json>) -> (r: String)
    ensures
        r@ == assistant_text(content@, json::option_json_view(calls)),
{
    match calls {
        Some(Json::Array(list)) => {
            proof {
                json::lemma_items_view(list@);
            }
            if list.len() > 0 {
                let blocks = read_blocks(list);
                let joined = text::join(blocks.as_slice(), "\n");
                let prefix = if content.is_empty() {
                    "".to_owned()
                } else {
                    text::cat(content, "\n")
                };
                text::cat3("[Assistant]: ", prefix.as_str(), joined.as_str())
            } else {
                text::cat("[Assistant]: ", content)
            }
        },
        _ => text::cat("[Assistant]: ", content),
    }
}

fn read_message(msg: &Json) -> (r: Option<String>)
    ensures
        text::option_view(r) == message_text(msg@),
{
    let role = msg.text_or("role", "user");
    let raw = msg.member_or_null("content");
    let content = content_text(&raw);
    if text::same(role, "system") {
        Some(text::cat("[System instruction]: ", content.as_str()))
    } else if text::same(role, "assistant") {
        Some(read_assistant(content.as_str(), msg.get("tool_calls")))
    } else if text::same(role, "tool") {
        Some(tool_prompt::tool_result_line(msg.text_or("name", ""), content.as_str()))
    } else if content.as_str().is_empty() {
        None
    } else {
        Some(content)
    }
}

/// The prompt that the messages make, after the section of the tools, if they
/// may be called.
pub fn messages_to_prompt(
    messages: &Vec<Json>,
    tools: Option<&Vec<Json>>,
    tool_choice: &ToolChoice,
) -> (r: String)
    ensures
        r@ == prompt_of(json::items_view(messages@), tools_view(tools), tool_choice@),
{
    let mut parts: Vec<String> = Vec::new();
    proof {
        assert(text::texts_of(parts@) =~= Seq::empty());
    }
    match tools {
        Some(list) => {
            if !tool_choice.is_none() {
                match tools_section(list, tool_choice) {
                    Some(section) => {
                        proof {
                            text::lemma_texts_push(parts@, section);
                        }
                        parts.push(section);
                    },
                    None => {},
                }
            }
        },
        None => {},
    }
    let ghost lead = leading_section(tools_view(tools), tool_choice@);
    let ghost all = json::items_view(messages@);
    proof {
        json::lemma_items_view(messages@);
        assert(text::texts_of(parts@) =~= lead);
        assert(lead + message_texts(all.take(0)) =~= lead);
    }
    let mut i: usize = 0;
    while i < messages.len()
        invariant
            i <= messages@.len(),
            all.len() == messages@.len(),
            forall|k: int| 0 <= k < all.len() ==> #[trigger] all[k] == messages@[k]@,
            text::texts_of(parts@) == lead + message_texts(all.take(i as int)),
        decreases messages@.len() - i,
    {
        proof {
            assert(all.take(i + 1).drop_last() =~= all.take(i as int));
            assert(all.take(i + 1).last() == all[i as int]);
        }
        match read_message(&messages[i]) {
            Some(t) => {
                proof {
                    text::lemma_texts_push(parts@, t);
                    assert((lead + message_texts(all.take(i as int))).push(t@) =~= lead
                        + message_texts(all.take(i as int)).push(t@));
                }
                parts.push(t);
            },
            None => {},
        }
        i += 1;
    }
    proof {
        assert(all.take(all.len() as int) =~= all);
    }
    text::join(parts.as_slice(), "\n\n")
}

/// Where no tool may be called, the prompt is the one without tools.
pub proof fn law_forbidden_tools_are_not_shown(
    messages: Seq<JsonView>,
    tools: Seq<JsonView>,
    choice: ToolChoiceView,
)
    ensures
        prompt_of(messages, Some(tools), ToolChoiceView::Never) == prompt_of(
            messages,
            None,
            choice,
        ),
{
}

/// The messages stand in the prompt in their order: those of a longer history
/// follow those of its beginning.
pub proof fn law_messages_keep_their_order(first: Seq<JsonView>, more: Seq<JsonView>)
    ensures
        message_texts(first + more) == message_texts(first) + message_texts(more),
    decreases more.len(),
{
    if more.len() == 0 {
        assert(first + more =~= first);
        assert(message_texts(first) + message_texts(more) =~= message_texts(first));
    } else {
        law_messages_keep_their_order(first, more.drop_last());
        assert((first + more).drop_last() =~= first + more.drop_last());
        assert((first + more).last() == more.last());
        match message_text(more.last()) {
            Some(t) => {
                assert(message_texts(first + more) =~= message_texts(first) + message_texts(
                    more.drop_last(),
                ).push(t));
            },
            None => {},
        }
    }
}

/// A definition carries what the client declared: the name, the description and
/// the parameters of the function, as they came. The empty object stands for the
/// parameters only where there are none.
pub proof fn law_definition_carries_the_declaration(f: JsonView)
    ensures
        f.get("parameters"@) matches Some(p) ==> definition_of(f).get("parameters"@) == Some(p),
        f.get("parameters"@) is None ==> definition_of(f).get("parameters"@) == Some(
            JsonView::Object(Seq::empty()),
        ),
        f.get("name"@) matches Some(JsonView::Text(name)) ==> definition_of(f).get("name"@) == Some(
            JsonView::Text(name),
        ),
        f.get("description"@) matches Some(JsonView::Text(d)) ==> definition_of(f).get(
            "description"@,
        ) == Some(JsonView::Text(d)),
        f.get("description"@) is None ==> definition_of(f).get("description"@) == Some(
            JsonView::Text(Seq::empty()),
        ),
{
    reveal_strlit("");
    reveal_strlit("name");
    reveal_strlit("description");
    reveal_strlit("parameters");
    assert(""@ =~= Seq::<char>::empty());
    assert("name"@.len() == 4 && "description"@.len() == 11 && "parameters"@.len() == 10);
    json::lemma_object_of_3(
        "name"@,
        JsonView::Text(f.text_or("name"@, ""@)),
        "description"@,
        JsonView::Text(f.text_or("description"@, ""@)),
        "parameters"@,
        f.member_or_object("parameters"@),
    );
}

/// Every tool of a request is told, in order: the function of one of the type
/// `function`, and one of no such type as it is.
pub proof fn law_every_tool_is_told(a: Seq<JsonView>, b: Seq<JsonView>, tool: JsonView)
    ensures
        definitions_in(a + b) == definitions_in(a) + definitions_in(b),
        tool.get("type"@) == Some(JsonView::Text("function"@)) ==> (tool.get("function"@) matches Some(
            f,
        ) ==> definitions_in(seq![tool]) == seq![definition_of(f)]),
        tool.get("type"@) is None ==> definitions_in(seq![tool]) == seq![definition_of(tool)],
    decreases b.len(),
{
    reveal_with_fuel(definitions_in, 2);
    assert(seq![tool].drop_last() =~= Seq::<JsonView>::empty());
    if b.len() == 0 {
        assert(a + b =~= a);
        assert(definitions_in(a) + definitions_in(b) =~= definitions_in(a));
    } else {
        law_every_tool_is_told(a, b.drop_last(), tool);
        assert((a + b).drop_last() =~= a + b.drop_last());
        assert((a + b).last() == b.last());
        assert(definitions_in(a + b) =~= definitions_in(a) + definitions_in(b));
    }
}

/// Where there are tools and they may be called, the prompt begins with what the
/// model is told of them: how to call one, the definitions of all, and the
/// choice. The messages follow.
pub proof fn law_tools_lead_the_prompt(
    messages: Seq<JsonView>,
    tools: Seq<JsonView>,
    choice: ToolChoiceView,
)
    requires
        definitions_in(tools).len() > 0,
        choice != ToolChoiceView::Never,
    ensures
        ({
            let section = "[System instruction]: "@ + INSTRUCTION_OPENAI@ + json::json_pretty(
                JsonView::Array(definitions_in(tools)),
            ) + common::choice_text(choice);
            let prompt = prompt_of(messages, Some(tools), choice);
            &&& prompt.len() >= section.len()
            &&& prompt.take(section.len() as int) == section
            &&& message_texts(messages).len() > 0 ==> prompt == section + "\n\n"@ + prompt_of(
                messages,
                None,
                choice,
            )
        }),
{
    reveal_strlit(
        "You have access to tools. To call a tool, respond with:\n```tool_call\n{\"name\": \"func_name\", \"arguments\": {{...}}}\n```\nOnly use tool_call blocks when needed.\n\nAvailable tools:\n",
    );
    let defs = definitions_in(tools);
    let told = common::choice_text(choice);
    tool_prompt::law_section_shows_the_definitions(INSTRUCTION_OPENAI@, defs, told);
    assert(INSTRUCTION_OPENAI@.last() == '\n');
    let section = "[System instruction]: "@ + INSTRUCTION_OPENAI@ + json::json_pretty(
        JsonView::Array(defs),
    ) + told;
    assert("[System instruction]: "@ + tool_prompt::section_text(INSTRUCTION_OPENAI@, defs, told)
        =~= section);
    let texts = message_texts(messages);
    let parts = seq![section] + texts;
    text::lemma_joined_begins(parts, "\n\n"@);
    if texts.len() > 0 {
        text::law_joined_in_order(seq![section], texts, section, "\n\n"@);
        assert(Seq::<Seq<char>>::empty() + texts =~= texts);
    }
}

/// Each message stands in the prompt under its role, with its text whole: an
/// instruction of the system, what the assistant said, the result of a tool, and
/// what the user said as it is.
pub proof fn law_message_is_told_under_its_role(msg: JsonView, t: Seq<char>, name: Seq<char>)
    requires
        msg.get("content"@) == Some(JsonView::Text(t)),
    ensures
        msg.get("role"@) == Some(JsonView::Text("system"@)) ==> message_text(msg) == Some(
            "[System instruction]: "@ + t,
        ),
        msg.get("role"@) == Some(JsonView::Text("assistant"@)) && msg.get("tool_calls"@) is None
            ==> message_text(msg) == Some("[Assistant]: "@ + t),
        msg.get("role"@) == Some(JsonView::Text("tool"@)) && msg.get("name"@) == Some(
            JsonView::Text(name),
        ) ==> message_text(msg) == Some("[Tool result for "@ + name + "]: "@ + t),
        (msg.get("role"@) == Some(JsonView::Text("user"@)) || msg.get("role"@) is None) && t.len()
            > 0 ==> message_text(msg) == Some(t),
        (msg.get("role"@) == Some(JsonView::Text("user"@)) || msg.get("role"@) is None) && t.len()
            == 0 ==> message_text(msg) is None,
{
    lemma_roles_differ();
}

proof fn lemma_roles_differ()
    ensures
        "system"@ != "assistant"@,
        "system"@ != "tool"@,
        "system"@ != "user"@,
        "assistant"@ != "tool"@,
        "assistant"@ != "user"@,
        "tool"@ != "user"@,
{
    reveal_strlit("system");
    reveal_strlit("assistant");
    reveal_strlit("tool");
    reveal_strlit("user");
    assert("system"@.len() == 6 && "assistant"@.len() == 9);
    assert("tool"@.len() == 4 && "user"@.len() == 4);
    assert("tool"@[0] != "user"@[0]);
}

/// The prompt is the messages, in order, an empty line between two: where every
/// message has a text, all of them are there and nothing else is.
pub proof fn law_prompt_is_the_messages(
    messages: Seq<JsonView>,
    texts: Seq<Seq<char>>,
    choice: ToolChoiceView,
)
    requires
        messages.len() == texts.len(),
        forall|i: int|
            0 <= i < messages.len() ==> message_text(#[trigger] messages[i]) == Some(texts[i]),
    ensures
        prompt_of(messages, None, choice) == text::joined(texts, "\n\n"@),
{
    lemma_all_told(messages, texts);
    assert(Seq::<Seq<char>>::empty() + texts =~= texts);
}

proof fn lemma_all_told(messages: Seq<JsonView>, texts: Seq<Seq<char>>)
    requires
        messages.len() == texts.len(),
        forall|i: int|
            0 <= i < messages.len() ==> message_text(#[trigger] messages[i]) == Some(texts[i]),
    ensures
        message_texts(messages) == texts,
    decreases messages.len(),
{
    if messages.len() > 0 {
        let n = messages.len() - 1;
        assert forall|i: int| 0 <= i < n implies message_text(
            #[trigger] messages.drop_last()[i],
        ) == Some(texts.drop_last()[i]) by {
            assert(messages.drop_last()[i] == messages[i]);
            assert(message_text(messages[i]) == Some(texts[i]));
        }
        lemma_all_told(messages.drop_last(), texts.drop_last());
        assert(message_text(messages[n]) == Some(texts[n]));
        assert(texts.drop_last().push(texts[n]) =~= texts);
    } else {
        assert(texts =~= Seq::<Seq<char>>::empty());
    }
}

/// The text of a message made of parts: the texts, in order, a space between
/// two; an image leaves a note; other parts nothing.
pub proof fn law_parts_are_told(a: Seq<JsonView>, b: Seq<JsonView>, part: JsonView, t: Seq<char>)
    ensures
        text_in(JsonView::Text(t)) == t,
        text_in(JsonView::Array(a)) == text::joined(part_texts(a), " "@),
        part_texts(a + b) == part_texts(a) + part_texts(b),
        (part.get("type"@) == Some(JsonView::Text("text"@)) || part.get("type"@) == Some(
            JsonView::Text("input_text"@),
        )) && part.get("text"@) == Some(JsonView::Text(t)) ==> part_texts(seq![part]) == seq![t],
        part.get("type"@) == Some(JsonView::Text("image_url"@)) ==> part_texts(seq![part]) == seq![
            "[Note: Image input not supported by this server; describe the image in text]. "@,
        ],
        part.get("type"@) is None ==> part_texts(seq![part]).len() == 0,
    decreases b.len(),
{
    reveal_strlit("text");
    reveal_strlit("input_text");
    reveal_strlit("image_url");
    assert("text"@.len() == 4 && "input_text"@.len() == 10 && "image_url"@.len() == 9);
    reveal_with_fuel(part_texts, 2);
    assert(seq![part].drop_last() =~= Seq::<JsonView>::empty());
    if b.len() == 0 {
        assert(a + b =~= a);
        assert(part_texts(a) + part_texts(b) =~= part_texts(a));
    } else {
        law_parts_are_told(a, b.drop_last(), part, t);
        assert((a + b).drop_last() =~= a + b.drop_last());
        assert((a + b).last() == b.last());
        assert(part_texts(a + b) =~= part_texts(a) + part_texts(b));
    }
}

/// What the assistant called stands behind what it said, each call as the block
/// that makes it: the name of the function, and the arguments that its text
/// spells.
pub proof fn law_calls_of_the_assistant_are_told(
    content: Seq<char>,
    call: JsonView,
    f: JsonView,
    name: Seq<char>,
    source: Seq<char>,
    args: JsonView,
)
    requires
        call.get("function"@) == Some(f),
        f.get("name"@) == Some(JsonView::Text(name)),
        f.get("arguments"@) == Some(JsonView::Text(source)),
        json::json_parsed(source) == Some(args),
    ensures
        ({
            let block = "```tool_call\n"@ + json::json_printed(common::call_object(name, args))
                + "\n```"@;
            let told = assistant_text(content, Some(JsonView::Array(seq![call])));
            &&& content.len() > 0 ==> told == "[Assistant]: "@ + content + "\n"@ + block
            &&& content.len() == 0 ==> told == "[Assistant]: "@ + block
        }),
{
    reveal_strlit("");
    let block = common::call_block_text(name, args);
    let blocks = blocks_of(seq![call]);
    assert(blocks =~= seq![block]);
    assert("[Assistant]: "@ + (content + "\n"@) + block =~= "[Assistant]: "@ + content + "\n"@
        + block);
    assert("[Assistant]: "@ + ""@ + block =~= "[Assistant]: "@ + block);
}

} // verus!
