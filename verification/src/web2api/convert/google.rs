//! The format of `/v1beta/models`.

use crate::gemini::tool_prompt;
use crate::gemini::tool_prompt::BlockKind;
use crate::json;
use crate::json::{Json, JsonView};
use crate::outside;
use crate::text;
use vstd::prelude::*;
use vstd::string::*;

verus! {

// ---------------------------------------------------------------------------
// Tools
// ---------------------------------------------------------------------------

/// The parameters that a declaration gives, under one of two names.
pub open spec fn parameters_of(f: JsonView) -> Option<JsonView> {
    match f.get("parameters"@) {
        Some(p) => Some(p),
        None => f.get("parametersJsonSchema"@),
    }
}

/// A function as the model is told of it.
pub open spec fn declared(f: JsonView) -> JsonView {
    let td = JsonView::object().with("name"@, JsonView::Text(f.text_or("name"@, ""@))).with(
        "description"@,
        JsonView::Text(f.text_or("description"@, ""@)),
    );
    match parameters_of(f) {
        Some(p) => td.with("parameters"@, p),
        None => td,
    }
}

/// The functions that one group declares.
pub open spec fn group_definitions(group: JsonView) -> Seq<JsonView> {
    match group.get_array("functionDeclarations"@) {
        Some(fns) => Seq::new(fns.len(), |i: int| declared(fns[i])),
        None => Seq::empty(),
    }
}

pub open spec fn groups_definitions(groups: Seq<JsonView>) -> Seq<JsonView>
    decreases groups.len(),
{
    if groups.len() == 0 {
        Seq::empty()
    } else {
        groups_definitions(groups.drop_last()) + group_definitions(groups.last())
    }
}

/// The functions that a request declares.
pub open spec fn definitions_of(req: JsonView) -> Seq<JsonView> {
    match req.get_array("tools"@) {
        Some(groups) => groups_definitions(groups),
        None => Seq::empty(),
    }
}

fn declare(f: &Json) -> (r: Json)
    ensures
        r@ == declared(f@),
{
    let td = Json::object().with("name", Json::from_text(f.text_or("name", ""))).with(
        "description",
        Json::from_text(f.text_or("description", "")),
    );
    let params: Option<&Json> = match f.get("parameters") {
        Some(p) => Some(p),
        None => f.get("parametersJsonSchema"),
    };
    match params {
        Some(p) => td.with("parameters", p.clone()),
        None => td,
    }
}

fn group_defs(group: &Json) -> (r: Vec<Json>)
    ensures
        json::items_view(r@) == group_definitions(group@),
{
    let mut defs: Vec<Json> = Vec::new();
    match group.get_array("functionDeclarations") {
        Some(fns) => {
            let ghost all = json::items_view(fns@);
            let ghost wanted = Seq::new(all.len(), |i: int| declared(all[i]));
            proof {
                json::lemma_items_view(fns@);
                assert(wanted.take(0) =~= Seq::empty());
            }
            let mut i: usize = 0;
            while i < fns.len()
                invariant
                    i <= fns@.len(),
                    all.len() == fns@.len(),
                    wanted == Seq::new(all.len(), |i: int| declared(all[i])),
                    forall|k: int| 0 <= k < all.len() ==> #[trigger] all[k] == fns@[k]@,
                    json::items_view(defs@) == wanted.take(i as int),
                decreases fns@.len() - i,
            {
                let def = declare(&fns[i]);
                proof {
                    json::lemma_items_push(defs@, def);
                    assert(wanted[i as int] == declared(all[i as int]));
                    assert(wanted.take(i + 1) =~= wanted.take(i as int).push(wanted[i as int]));
                }
                defs.push(def);
                i += 1;
            }
            proof {
                assert(wanted.take(wanted.len() as int) =~= wanted);
            }
        },
        None => {},
    }
    defs
}

/// The functions that a request declares.
pub fn google_tool_defs(req: &Json) -> (r: Vec<Json>)
    ensures
        json::items_view(r@) == definitions_of(req@),
{
    let mut defs: Vec<Json> = Vec::new();
    match req.get_array("tools") {
        Some(groups) => {
            let ghost all = json::items_view(groups@);
            proof {
                json::lemma_items_view(groups@);
            }
            let mut i: usize = 0;
            while i < groups.len()
                invariant
                    i <= groups@.len(),
                    all.len() == groups@.len(),
                    forall|k: int| 0 <= k < all.len() ==> #[trigger] all[k] == groups@[k]@,
                    json::items_view(defs@) == groups_definitions(all.take(i as int)),
                decreases groups@.len() - i,
            {
                let mut more = group_defs(&groups[i]);
                let ghost before = defs@;
                let ghost added = more@;
                defs.append(&mut more);
                proof {
                    assert(all.take(i + 1).drop_last() =~= all.take(i as int));
                    assert(all.take(i + 1).last() == all[i as int]);
                    json::lemma_items_view(before);
                    json::lemma_items_view(added);
                    json::lemma_items_view(defs@);
                    assert(json::items_view(defs@) =~= json::items_view(before)
                        + json::items_view(added));
                }
                i += 1;
            }
            proof {
                assert(all.take(all.len() as int) =~= all);
            }
        },
        None => {},
    }
    defs
}

/// How the model is to call functions, and which there are.
pub open spec fn section_of(defs: Seq<JsonView>) -> Seq<char> {
    tool_prompt::section_text(tool_prompt::INSTRUCTION_FUNCTION_CALL@, defs, ""@)
}

/// How the model is to call functions, and which there are.
pub fn google_tools_section(defs: &Vec<Json>) -> (r: String)
    ensures
        r@ == section_of(json::items_view(defs@)),
{
    proof {
        tool_prompt::law_instructions_show_their_block();
    }
    tool_prompt::tool_use_section(
        BlockKind::FunctionCall,
        tool_prompt::INSTRUCTION_FUNCTION_CALL,
        defs,
        "",
    )
}

/// What a request says about calling functions.
pub open spec fn calling_config(req: JsonView) -> Option<JsonView> {
    match req.get("toolConfig"@) {
        Some(c) => c.get("functionCallingConfig"@),
        None => None,
    }
}

/// Whether functions may, must or must not be called: `AUTO`, `ANY`, `NONE`.
pub open spec fn calling_mode(req: JsonView) -> Seq<char> {
    match calling_config(req) {
        Some(c) => c.text_or("mode"@, "AUTO"@),
        None => "AUTO"@,
    }
}

/// The texts of a list, in quotes.
pub open spec fn quoted_texts(items: Seq<JsonView>) -> Seq<Seq<char>>
    decreases items.len(),
{
    if items.len() == 0 {
        Seq::empty()
    } else {
        let before = quoted_texts(items.drop_last());
        match items.last() {
            JsonView::Text(t) => before.push("\""@ + t + "\""@),
            _ => before,
        }
    }
}

/// The functions of which one must be called, in quotes.
pub open spec fn allowed_names(req: JsonView) -> Seq<Seq<char>> {
    match calling_config(req) {
        Some(c) => match c.get_array("allowedFunctionNames"@) {
            Some(names) => quoted_texts(names),
            None => Seq::empty(),
        },
        None => Seq::empty(),
    }
}

/// What the model is told about calling functions.
pub open spec fn calling_text(req: JsonView) -> Seq<char> {
    let mode = calling_mode(req);
    if mode == "NONE"@ {
        "\n\nIMPORTANT: Do NOT call any tools. Respond with text only."@
    } else if mode == "ANY"@ {
        let names = allowed_names(req);
        if names.len() == 0 {
            "\n\nIMPORTANT: You MUST call at least one tool. Do not respond with text only."@
        } else {
            "\n\nIMPORTANT: You MUST call one of these tools: "@ + text::joined(names, ", "@)
                + ". Do not respond with text only."@
        }
    } else {
        ""@
    }
}

fn read_config(req: &Json) -> (r: Option<&Json>)
    ensures
        json::option_json_view(r) == calling_config(req@),
{
    match req.get("toolConfig") {
        Some(c) => c.get("functionCallingConfig"),
        None => None,
    }
}

/// Whether functions may, must or must not be called.
pub fn function_calling_mode(req: &Json) -> (r: &str)
    ensures
        r@ == calling_mode(req@),
{
    match read_config(req) {
        Some(c) => c.text_or("mode", "AUTO"),
        None => "AUTO",
    }
}

fn read_names(items: &Vec<Json>) -> (r: Vec<String>)
    ensures
        text::texts_of(r@) == quoted_texts(json::items_view(items@)),
{
    let ghost all = json::items_view(items@);
    let mut out: Vec<String> = Vec::new();
    proof {
        json::lemma_items_view(items@);
        assert(text::texts_of(out@) =~= Seq::empty());
    }
    let mut i: usize = 0;
    while i < items.len()
        invariant
            i <= items@.len(),
            all.len() == items@.len(),
            forall|k: int| 0 <= k < all.len() ==> #[trigger] all[k] == items@[k]@,
            text::texts_of(out@) == quoted_texts(all.take(i as int)),
        decreases items@.len() - i,
    {
        proof {
            assert(all.take(i + 1).drop_last() =~= all.take(i as int));
            assert(all.take(i + 1).last() == all[i as int]);
        }
        match items[i].as_text() {
            Some(t) => {
                let quoted = text::cat3("\"", t, "\"");
                proof {
                    text::lemma_texts_push(out@, quoted);
                }
                out.push(quoted);
            },
            None => {},
        }
        i += 1;
    }
    proof {
        assert(all.take(all.len() as int) =~= all);
    }
    out
}

/// What the model is told about calling functions.
pub fn google_tool_choice_instruction(req: &Json) -> (r: String)
    ensures
        r@ == calling_text(req@),
{
    let mode = function_calling_mode(req);
    if text::same(mode, "NONE") {
        return "\n\nIMPORTANT: Do NOT call any tools. Respond with text only.".to_owned();
    }
    if !text::same(mode, "ANY") {
        return "".to_owned();
    }
    let names: Vec<String> = match read_config(req) {
        Some(c) => match c.get_array("allowedFunctionNames") {
            Some(list) => read_names(list),
            None => Vec::new(),
        },
        None => Vec::new(),
    };
    proof {
        assert(text::texts_of(names@) =~= allowed_names(req@));
    }
    if names.len() == 0 {
        "\n\nIMPORTANT: You MUST call at least one tool. Do not respond with text only.".to_owned()
    } else {
        let list = text::join(names.as_slice(), ", ");
        text::cat3(
            "\n\nIMPORTANT: You MUST call one of these tools: ",
            list.as_str(),
            ". Do not respond with text only.",
        )
    }
}

// ---------------------------------------------------------------------------
// Parts
// ---------------------------------------------------------------------------

/// A call of the history: its name and its arguments.
pub open spec fn history_call(fc: JsonView) -> JsonView {
    JsonView::object().with("name"@, JsonView::Text(fc.text_or("name"@, ""@))).with(
        "args"@,
        fc.member_or_object("args"@),
    )
}

/// A call of the history, as the model wrote it.
pub open spec fn call_text(fc: JsonView) -> Seq<char> {
    "```function_call\n"@ + json::json_printed(history_call(fc)) + "\n```"@
}

/// The part is a text that says something.
pub open spec fn says(part: JsonView) -> bool {
    part.get_text("text"@) matches Some(t) && t.len() > 0
}

/// What a part adds to the text.
pub open spec fn part_text(part: JsonView) -> Option<Seq<char>> {
    if says(part) {
        part.get_text("text"@)
    } else if part.get("functionCall"@) is Some {
        Some(call_text(part.get("functionCall"@)->Some_0))
    } else if part.get("inlineData"@) is Some {
        None
    } else {
        match part.get("functionResponse"@) {
            Some(fr) => Some(
                tool_prompt::result_line(
                    fr.text_or("name"@, ""@),
                    json::json_printed(fr.member_or_null("response"@)),
                ),
            ),
            None => None,
        }
    }
}

/// The image that a part is: its data and its type.
pub open spec fn part_image(part: JsonView) -> Option<(Seq<char>, Seq<char>)> {
    if says(part) || part.get("functionCall"@) is Some {
        None
    } else {
        match part.get("inlineData"@) {
            Some(id) => Some((id.text_or("data"@, ""@), id.text_or("mimeType"@, "image/png"@))),
            None => None,
        }
    }
}

pub open spec fn part_texts(parts: Seq<JsonView>) -> Seq<Seq<char>>
    decreases parts.len(),
{
    if parts.len() == 0 {
        Seq::empty()
    } else {
        let before = part_texts(parts.drop_last());
        match part_text(parts.last()) {
            Some(t) => before.push(t),
            None => before,
        }
    }
}

pub open spec fn part_images(parts: Seq<JsonView>) -> Seq<(Seq<char>, Seq<char>)>
    decreases parts.len(),
{
    if parts.len() == 0 {
        Seq::empty()
    } else {
        let before = part_images(parts.drop_last());
        match part_image(parts.last()) {
            Some(i) => before.push(i),
            None => before,
        }
    }
}

/// The text of parts.
pub open spec fn text_of_parts(parts: Option<JsonView>) -> Seq<char> {
    match parts {
        Some(JsonView::Array(list)) => text::joined(part_texts(list), " "@),
        _ => ""@,
    }
}

/// The images of parts.
pub open spec fn images_of_parts(parts: Option<JsonView>) -> Seq<(Seq<char>, Seq<char>)> {
    match parts {
        Some(JsonView::Array(list)) => part_images(list),
        _ => Seq::empty(),
    }
}

pub open spec fn images_view(images: Seq<(String, String)>) -> Seq<(Seq<char>, Seq<char>)> {
    Seq::new(images.len(), |i: int| (images[i].0@, images[i].1@))
}

/// A call of the history, as the model wrote it. Where its arguments hold no
/// fraction, [`parse_google_function_calls`] reads the call back.
pub fn function_call_block(fc: &Json) -> (r: String)
    ensures
        r@ == call_text(fc@),
        json::is_plain(fc@.member_or_object("args"@), 126) ==> json::reads_back(history_call(fc@)),
{
    proof {
        lemma_plain_call(fc@);
    }
    let call = Json::object().with("name", Json::from_text(fc.text_or("name", ""))).with(
        "args",
        fc.member_or_object("args"),
    );
    let printed = call.print();
    text::cat3("```function_call\n", printed.as_str(), "\n```")
}

fn read_part(part: &Json) -> (r: (Option<String>, Option<(String, String)>))
    ensures
        text::option_view(r.0) == part_text(part@),
        match r.1 {
            Some((data, mime)) => part_image(part@) == Some((data@, mime@)),
            None => part_image(part@) is None,
        },
{
    match part.get_text("text") {
        Some(t) => {
            if !t.is_empty() {
                return (Some(t.to_owned()), None);
            }
        },
        None => {},
    }
    match part.get("functionCall") {
        Some(fc) => {
            return (Some(function_call_block(fc)), None);
        },
        None => {},
    }
    match part.get("inlineData") {
        Some(id) => {
            let image = (
                id.text_or("data", "").to_owned(),
                id.text_or("mimeType", "image/png").to_owned(),
            );
            return (None, Some(image));
        },
        None => {},
    }
    match part.get("functionResponse") {
        Some(fr) => {
            let response = fr.member_or_null("response").print();
            let line = tool_prompt::tool_result_line(fr.text_or("name", ""), response.as_str());
            (Some(line), None)
        },
        None => (None, None),
    }
}

/// The text of parts. Their images are added to the list.
pub fn parts_text(parts: Option<&Json>, images: &mut Vec<(String, String)>) -> (r: String)
    ensures
        r@ == text_of_parts(json::option_json_view(parts)),
        images_view(final(images)@) == images_view(old(images)@) + images_of_parts(
            json::option_json_view(parts),
        ),
{
    let ghost before = images_view(images@);
    proof {
        assert(before + Seq::<(Seq<char>, Seq<char>)>::empty() =~= before);
    }
    match parts {
        Some(Json::Array(list)) => {
            let ghost all = json::items_view(list@);
            let mut out: Vec<String> = Vec::new();
            proof {
                json::lemma_items_view(list@);
                assert(text::texts_of(out@) =~= Seq::empty());
            }
            let mut i: usize = 0;
            while i < list.len()
                invariant
                    i <= list@.len(),
                    all.len() == list@.len(),
                    forall|k: int| 0 <= k < all.len() ==> #[trigger] all[k] == list@[k]@,
                    text::texts_of(out@) == part_texts(all.take(i as int)),
                    images_view(images@) == before + part_images(all.take(i as int)),
                decreases list@.len() - i,
            {
                proof {
                    assert(all.take(i + 1).drop_last() =~= all.take(i as int));
                    assert(all.take(i + 1).last() == all[i as int]);
                }
                let (said, image) = read_part(&list[i]);
                match said {
                    Some(t) => {
                        proof {
                            text::lemma_texts_push(out@, t);
                        }
                        out.push(t);
                    },
                    None => {},
                }
                match image {
                    Some(pair) => {
                        proof {
                            assert(images_view(images@.push(pair)) =~= images_view(images@).push(
                                (pair.0@, pair.1@),
                            ));
                            assert((before + part_images(all.take(i as int))).push(
                                (pair.0@, pair.1@),
                            ) =~= before + part_images(all.take(i as int)).push(
                                (pair.0@, pair.1@),
                            ));
                        }
                        images.push(pair);
                    },
                    None => {},
                }
                i += 1;
            }
            proof {
                assert(all.take(all.len() as int) =~= all);
            }
            text::join(out.as_slice(), " ")
        },
        _ => "".to_owned(),
    }
}

// ---------------------------------------------------------------------------
// The prompt
// ---------------------------------------------------------------------------

/// The text of the system instruction.
pub open spec fn system_text(req: JsonView) -> Seq<char> {
    match req.get("systemInstruction"@) {
        Some(sys) => text_of_parts(sys.get("parts"@)),
        None => ""@,
    }
}

/// What stands before the contents: the instruction, and the functions.
pub open spec fn leading_text(req: JsonView) -> Seq<Seq<char>> {
    let sys = system_text(req);
    let defs = definitions_of(req);
    if sys.len() > 0 {
        if defs.len() == 0 {
            seq!["[System instruction]: "@ + sys]
        } else {
            seq![
                "[System instruction]: "@ + sys + "\n\n"@ + section_of(defs) + calling_text(req),
            ]
        }
    } else if defs.len() > 0 {
        seq![section_of(defs) + calling_text(req)]
    } else {
        Seq::empty()
    }
}

/// One entry of the contents in the prompt; one without a text, of the user,
/// is left out.
pub open spec fn content_text(content: JsonView) -> Option<Seq<char>> {
    let said = text_of_parts(content.get("parts"@));
    if content.text_or("role"@, "user"@) == "model"@ {
        Some("[Assistant]: "@ + said)
    } else if said.len() > 0 {
        Some(said)
    } else {
        None
    }
}

pub open spec fn content_texts(contents: Seq<JsonView>) -> Seq<Seq<char>>
    decreases contents.len(),
{
    if contents.len() == 0 {
        Seq::empty()
    } else {
        let before = content_texts(contents.drop_last());
        match content_text(contents.last()) {
            Some(t) => before.push(t),
            None => before,
        }
    }
}

pub open spec fn content_images(contents: Seq<JsonView>) -> Seq<(Seq<char>, Seq<char>)>
    decreases contents.len(),
{
    if contents.len() == 0 {
        Seq::empty()
    } else {
        content_images(contents.drop_last()) + images_of_parts(contents.last().get("parts"@))
    }
}

pub open spec fn contents_of(req: JsonView) -> Seq<JsonView> {
    match req.get_array("contents"@) {
        Some(list) => list,
        None => Seq::empty(),
    }
}

/// The prompt of a request.
pub open spec fn prompt_of(req: JsonView) -> Seq<char> {
    text::joined(leading_text(req) + content_texts(contents_of(req)), "\n\n"@)
}

/// The images of a request.
pub open spec fn images_of(req: JsonView) -> Seq<(Seq<char>, Seq<char>)> {
    content_images(contents_of(req))
}

fn read_leading(req: &Json) -> (r: Vec<String>)
    ensures
        text::texts_of(r@) == leading_text(req@),
{
    let defs = google_tool_defs(req);
    let mut ignored: Vec<(String, String)> = Vec::new();
    let sys = match req.get("systemInstruction") {
        Some(s) => parts_text(s.get("parts"), &mut ignored),
        None => "".to_owned(),
    };
    proof {
        json::lemma_items_view(defs@);
    }
    let mut parts: Vec<String> = Vec::new();
    if !sys.as_str().is_empty() {
        let mut lead = text::cat("[System instruction]: ", sys.as_str());
        if defs.len() > 0 {
            let section = google_tools_section(&defs);
            let choice = google_tool_choice_instruction(req);
            lead.append("\n\n");
            lead.append(section.as_str());
            lead.append(choice.as_str());
        }
        parts.push(lead);
    } else if defs.len() > 0 {
        let section = google_tools_section(&defs);
        let choice = google_tool_choice_instruction(req);
        parts.push(text::cat(section.as_str(), choice.as_str()));
    }
    proof {
        assert(text::texts_of(parts@) =~= leading_text(req@));
    }
    parts
}

fn read_content(content: &Json, images: &mut Vec<(String, String)>) -> (r: Option<String>)
    ensures
        text::option_view(r) == content_text(content@),
        images_view(final(images)@) == images_view(old(images)@) + images_of_parts(
            content@.get("parts"@),
        ),
{
    let said = parts_text(content.get("parts"), images);
    if text::same(content.text_or("role", "user"), "model") {
        Some(text::cat("[Assistant]: ", said.as_str()))
    } else if said.as_str().is_empty() {
        None
    } else {
        Some(said)
    }
}

/// The prompt of a request, and its images.
pub fn google_contents_to_prompt(req: &Json) -> (r: (String, Vec<(String, String)>))
    ensures
        r.0@ == prompt_of(req@),
        images_view(r.1@) == images_of(req@),
{
    let mut parts = read_leading(req);
    let mut images: Vec<(String, String)> = Vec::new();
    let ghost lead = leading_text(req@);
    proof {
        assert(images_view(images@) =~= Seq::empty());
        assert(lead + Seq::<Seq<char>>::empty() =~= lead);
    }
    match req.get_array("contents") {
        Some(contents) => {
            let ghost all = json::items_view(contents@);
            proof {
                json::lemma_items_view(contents@);
            }
            let mut i: usize = 0;
            while i < contents.len()
                invariant
                    i <= contents@.len(),
                    all.len() == contents@.len(),
                    forall|k: int| 0 <= k < all.len() ==> #[trigger] all[k] == contents@[k]@,
                    text::texts_of(parts@) == lead + content_texts(all.take(i as int)),
                    images_view(images@) == content_images(all.take(i as int)),
                decreases contents@.len() - i,
            {
                proof {
                    assert(all.take(i + 1).drop_last() =~= all.take(i as int));
                    assert(all.take(i + 1).last() == all[i as int]);
                }
                match read_content(&contents[i], &mut images) {
                    Some(t) => {
                        proof {
                            text::lemma_texts_push(parts@, t);
                            assert((lead + content_texts(all.take(i as int))).push(t@) =~= lead
                                + content_texts(all.take(i as int)).push(t@));
                        }
                        parts.push(t);
                    },
                    None => {},
                }
                i += 1;
            }
            proof {
                assert(all.take(all.len() as int) =~= all);
            }
        },
        None => {},
    }
    (text::join(parts.as_slice(), "\n\n"), images)
}

/// The texts and the images of contents keep their order: those of a longer
/// history follow those of its beginning.
pub proof fn law_contents_keep_their_order(first: Seq<JsonView>, more: Seq<JsonView>)
    ensures
        content_texts(first + more) == content_texts(first) + content_texts(more),
        content_images(first + more) == content_images(first) + content_images(more),
    decreases more.len(),
{
    if more.len() == 0 {
        assert(first + more =~= first);
        assert(content_texts(first) + content_texts(more) =~= content_texts(first));
        assert(content_images(first) + content_images(more) =~= content_images(first));
    } else {
        law_contents_keep_their_order(first, more.drop_last());
        assert((first + more).drop_last() =~= first + more.drop_last());
        assert((first + more).last() == more.last());
        match content_text(more.last()) {
            Some(t) => {
                assert(content_texts(first + more) =~= content_texts(first) + content_texts(
                    more.drop_last(),
                ).push(t));
            },
            None => {},
        }
        assert(content_images(first + more) =~= content_images(first) + content_images(more));
    }
}

// ---------------------------------------------------------------------------
// The calls in an answer
// ---------------------------------------------------------------------------

/// The arguments that a call gives, under one of two names.
pub open spec fn arguments_of(v: JsonView) -> Option<JsonView> {
    match v.get("args"@) {
        Some(a) => Some(a),
        None => v.get("arguments"@),
    }
}

/// A call, as the protocol writes it.
pub open spec fn call_value(v: JsonView, name: Seq<char>) -> JsonView {
    JsonView::object().with("name"@, JsonView::Text(name)).with(
        "args"@,
        match arguments_of(v) {
            Some(a) => a,
            None => JsonView::object(),
        },
    )
}

/// The call that a block holds: what is not JSON, or has no name, is none.
pub open spec fn call_in(value: Option<JsonView>) -> Option<JsonView> {
    match value {
        Some(v) => match v.get_text("name"@) {
            Some(name) => Some(call_value(v, name)),
            None => None,
        },
        None => None,
    }
}

/// The call that an answer is as a whole: it must give arguments too.
pub open spec fn bare_call_in(value: Option<JsonView>) -> Option<JsonView> {
    match value {
        Some(v) => if arguments_of(v) is Some {
            call_in(value)
        } else {
            None
        },
        None => None,
    }
}

pub open spec fn calls_in(blocks: Seq<Seq<char>>) -> Seq<JsonView>
    decreases blocks.len(),
{
    if blocks.len() == 0 {
        Seq::empty()
    } else {
        let before = calls_in(blocks.drop_last());
        match call_in(json::json_parsed(text::trimmed(blocks.last()))) {
            Some(call) => before.push(call),
            None => before,
        }
    }
}

/// The answer without the matches of a pattern.
pub open spec fn without(pattern: Seq<char>, s: Seq<char>) -> Seq<char> {
    text::trimmed(outside::matches_removed(pattern, s))
}

/// The answer without its calls, and the calls: those in blocks, then those on
/// lines, or else the whole answer.
pub open spec fn parsed_answer(s: Seq<char>) -> (Seq<char>, Seq<JsonView>) {
    let first = without(outside::FUNCTION_CALL_BLOCK@, s);
    let clean = without(outside::FUNCTION_CALL_LINE@, first);
    let calls = calls_in(outside::first_groups(outside::FUNCTION_CALL_BLOCK@, s)) + calls_in(
        outside::first_groups(outside::FUNCTION_CALL_LINE@, first),
    );
    let bare = bare_call_in(json::json_parsed(text::trimmed(clean)));
    if calls.len() == 0 && text::starts_with_spec(text::trimmed_start(clean), "{"@) && bare is Some {
        (Seq::empty(), seq![bare->Some_0])
    } else {
        (clean, calls)
    }
}

proof fn lemma_patterns_differ()
    ensures
        outside::FUNCTION_CALL_BLOCK@ != outside::TOOL_CALL_BLOCK@,
{
    reveal_strlit("(?s)```tool_call\\s*\\n(.*?)\\n```");
    reveal_strlit("(?s)```function_call\\s*\\n(.*?)\\n```");
    assert(outside::FUNCTION_CALL_BLOCK@.len() != outside::TOOL_CALL_BLOCK@.len());
}

/// A call is an object of two members.
proof fn lemma_plain_call(fc: JsonView)
    ensures
        history_call(fc) is Object,
        json::is_plain(fc.member_or_object("args"@), 126) ==> json::is_plain(history_call(fc), 127),
{
    let name = JsonView::Text(fc.text_or("name"@, ""@));
    let args = fc.member_or_object("args"@);
    reveal_strlit("name");
    reveal_strlit("args");
    reveal_strlit("$serde_json::private::RawValue");
    assert("name"@[0] != "args"@[0]);
    let one = seq![("name"@, name)];
    reveal_with_fuel(json::index_of_key, 3);
    assert(JsonView::object().with("name"@, name) == JsonView::Object(one)) by {
        assert(Seq::<(Seq<char>, JsonView)>::empty().push(("name"@, name)) =~= one);
    }
    assert(one.drop_last() =~= Seq::<(Seq<char>, JsonView)>::empty());
    assert(history_call(fc) == JsonView::Object(one.push(("args"@, args))));
    assert("name"@.len() == 4 && "args"@.len() == 4);
    assert("$serde_json::private::RawValue"@.len() == 30);
    if json::is_plain(args, 126) {
        let both = one.push(("args"@, args));
        assert(json::is_plain(name, 126));
        assert(both[0].0 == "name"@);
        assert forall|i: int| 0 <= i < both.len() implies json::is_plain(
            (#[trigger] both[i]).1,
            126,
        ) by {}
        assert(json::is_plain(JsonView::Object(both), 127));
    }
}

/// A call that was written is read: where the block of it is the one match and
/// nothing else stands in the answer, and what was printed reads back, the
/// answer is that call and no text.
pub proof fn law_written_call_is_read(fc: JsonView)
    requires
        json::reads_back(history_call(fc)),
        outside::first_groups(outside::FUNCTION_CALL_BLOCK@, call_text(fc)) == seq![
            json::json_printed(history_call(fc)),
        ],
        outside::matches_removed(outside::FUNCTION_CALL_BLOCK@, call_text(fc)).len() == 0,
        outside::first_groups(outside::FUNCTION_CALL_LINE@, Seq::empty()).len() == 0,
        outside::matches_removed(outside::FUNCTION_CALL_LINE@, Seq::empty()).len() == 0,
    ensures
        parsed_answer(call_text(fc)) == (Seq::<char>::empty(), seq![history_call(fc)]),
{
    let call = history_call(fc);
    let name = JsonView::Text(fc.text_or("name"@, ""@));
    let args = fc.member_or_object("args"@);
    reveal_strlit("name");
    reveal_strlit("args");
    assert("name"@[0] != "args"@[0]);
    json::lemma_with(JsonView::object(), "name"@, name, "args"@);
    json::lemma_with(JsonView::object().with("name"@, name), "args"@, args, "name"@);
    assert(call_in(Some(call)) == Some(call));
    let blocks = outside::first_groups(outside::FUNCTION_CALL_BLOCK@, call_text(fc));
    assert(blocks.drop_last() =~= Seq::<Seq<char>>::empty());
    assert(blocks.last() == json::json_printed(call));
    assert(calls_in(Seq::<Seq<char>>::empty()) =~= Seq::<JsonView>::empty());
    assert(calls_in(blocks) =~= seq![call]);
    let removed = outside::matches_removed(outside::FUNCTION_CALL_BLOCK@, call_text(fc));
    assert(removed =~= Seq::<char>::empty());
    let first = without(outside::FUNCTION_CALL_BLOCK@, call_text(fc));
    assert(first =~= Seq::<char>::empty());
    let more = outside::matches_removed(outside::FUNCTION_CALL_LINE@, first);
    assert(more =~= Seq::<char>::empty());
    let lines = outside::first_groups(outside::FUNCTION_CALL_LINE@, first);
    assert(calls_in(lines) =~= Seq::<JsonView>::empty());
    assert(calls_in(blocks) + calls_in(lines) =~= seq![call]);
}

/// The call that a block holds, if it holds one.
pub fn read_call(value: Option<&Json>) -> (r: Option<Json>)
    ensures
        match r {
            Some(call) => call_in(json::option_json_view(value)) == Some(call@),
            None => call_in(json::option_json_view(value)) is None,
        },
{
    match value {
        Some(v) => match v.get_text("name") {
            Some(name) => {
                let found: Option<&Json> = match v.get("args") {
                    Some(a) => Some(a),
                    None => v.get("arguments"),
                };
                let args = match found {
                    Some(a) => a.clone(),
                    None => Json::object(),
                };
                Some(Json::object().with("name", Json::from_text(name)).with("args", args))
            },
            None => None,
        },
        None => None,
    }
}

/// The call that an answer is as a whole, if it is one.
pub fn read_bare_call(value: Option<&Json>) -> (r: Option<Json>)
    ensures
        match r {
            Some(call) => bare_call_in(json::option_json_view(value)) == Some(call@),
            None => bare_call_in(json::option_json_view(value)) is None,
        },
{
    match value {
        Some(v) => if v.get("args").is_some() || v.get("arguments").is_some() {
            read_call(value)
        } else {
            None
        },
        None => None,
    }
}

/// Adds the calls that blocks hold.
fn add_calls(blocks: &Vec<String>, calls: &mut Vec<Json>)
    ensures
        json::items_view(final(calls)@) == json::items_view(old(calls)@) + calls_in(
            text::texts_of(blocks@),
        ),
{
    let ghost all = text::texts_of(blocks@);
    let ghost before = json::items_view(calls@);
    proof {
        assert(before + calls_in(all.take(0)) =~= before);
    }
    let mut i: usize = 0;
    while i < blocks.len()
        invariant
            i <= blocks@.len(),
            all == text::texts_of(blocks@),
            json::items_view(calls@) == before + calls_in(all.take(i as int)),
        decreases blocks@.len() - i,
    {
        proof {
            assert(all.take(i + 1).drop_last() =~= all.take(i as int));
            assert(all.take(i + 1).last() == blocks@[i as int]@);
        }
        let parsed = Json::parse(text::trim(blocks[i].as_str()));
        let call = match &parsed {
            Some(v) => read_call(Some(v)),
            None => None,
        };
        match call {
            Some(c) => {
                proof {
                    json::lemma_items_push(calls@, c);
                    assert((before + calls_in(all.take(i as int))).push(c@) =~= before + calls_in(
                        all.take(i as int),
                    ).push(c@));
                }
                calls.push(c);
            },
            None => {},
        }
        i += 1;
    }
    proof {
        assert(all.take(all.len() as int) =~= all);
    }
}

/// The answer without its calls, and the calls. An answer that is a call as
/// [`function_call_block`] writes it is read as that call and no text.
pub fn parse_google_function_calls(answer: &str) -> (r: (String, Vec<Json>))
    ensures
        (r.0@, json::items_view(r.1@)) == parsed_answer(answer@),
        forall|fc: JsonView|
            answer@ == #[trigger] call_text(fc) && json::reads_back(history_call(fc)) ==> r.0@.len()
                == 0 && json::items_view(r.1@) == seq![history_call(fc)],
{
    let mut calls: Vec<Json> = Vec::new();
    let blocks = outside::groups_of_matches(outside::FUNCTION_CALL_BLOCK, answer);
    add_calls(&blocks, &mut calls);
    let rest = outside::remove_matches(outside::FUNCTION_CALL_BLOCK, answer);
    let first = text::trim(rest.as_str());
    let lines = outside::groups_of_matches(outside::FUNCTION_CALL_LINE, first);
    add_calls(&lines, &mut calls);
    let more = outside::remove_matches(outside::FUNCTION_CALL_LINE, first);
    let clean = text::trim(more.as_str());
    proof {
        assert forall|fc: JsonView|
            answer@ == #[trigger] call_text(fc) && json::reads_back(
                history_call(fc),
            ) implies parsed_answer(answer@) == (
            Seq::<char>::empty(),
            seq![history_call(fc)],
        ) by {
            let printed = json::json_printed(history_call(fc));
            lemma_patterns_differ();
            assert(answer@ == outside::block(outside::FUNCTION_CALL_BLOCK@, printed));
            assert(rest@ =~= Seq::<char>::empty());
            assert(first@ =~= Seq::<char>::empty());
            assert(text::texts_of(lines@).len() == lines@.len());
            law_written_call_is_read(fc);
        }
        assert(json::items_view(calls@) =~= calls_in(
            outside::first_groups(outside::FUNCTION_CALL_BLOCK@, answer@),
        ) + calls_in(outside::first_groups(outside::FUNCTION_CALL_LINE@, first@)));
        json::lemma_items_view(calls@);
    }
    if calls.len() == 0 && text::starts_with(text::trim_start(clean), "{") {
        let parsed = Json::parse(text::trim(clean));
        let bare = match &parsed {
            Some(v) => read_bare_call(Some(v)),
            None => None,
        };
        match bare {
            Some(call) => {
                let mut one: Vec<Json> = Vec::new();
                proof {
                    json::lemma_items_push(one@, call);
                    assert(Seq::<JsonView>::empty().push(call@) =~= seq![call@]);
                }
                one.push(call);
                return (String::new(), one);
            },
            None => {},
        }
    }
    (clean.to_owned(), calls)
}

// ---------------------------------------------------------------------------
// What of a request reaches the model
// ---------------------------------------------------------------------------


/// Parts of which the only one that says anything is a text are that text.
proof fn lemma_one_text(part: JsonView, s: Seq<char>)
    requires
        part.get("text"@) == Some(JsonView::Text(s)),
        s.len() > 0,
    ensures
        text_of_parts(Some(JsonView::Array(seq![part]))) == s,
{
    reveal_with_fuel(part_texts, 2);
    assert(seq![part].drop_last() =~= Seq::<JsonView>::empty());
    assert(part_texts(seq![part]) =~= seq![s]);
}

/// The system instruction of a request leads the prompt, whatever tools and
/// contents the request has.
pub proof fn law_system_instruction_leads(
    req: JsonView,
    sys: JsonView,
    part: JsonView,
    s: Seq<char>,
)
    requires
        req.get("systemInstruction"@) == Some(sys),
        sys.get("parts"@) == Some(JsonView::Array(seq![part])),
        part.get("text"@) == Some(JsonView::Text(s)),
        s.len() > 0,
    ensures
        ({
            let lead = "[System instruction]: "@ + s;
            &&& prompt_of(req).len() >= lead.len()
            &&& prompt_of(req).take(lead.len() as int) == lead
        }),
{
    lemma_one_text(part, s);
    let lead = "[System instruction]: "@ + s;
    let first = leading_text(req)[0];
    let parts = leading_text(req) + content_texts(contents_of(req));
    text::lemma_joined_begins(parts, "\n\n"@);
    assert(parts[0] == first);
    assert(first.take(lead.len() as int) =~= lead);
    assert(prompt_of(req).take(first.len() as int).take(lead.len() as int) =~= prompt_of(req).take(
        lead.len() as int,
    ));
}

/// The prompt of a request: the instruction, the functions with what is said of
/// calling them, and the contents, an empty line between two of them. What a
/// request does not have leaves no trace.
pub proof fn law_prompt_is_the_request(
    req: JsonView,
    sys: JsonView,
    part: JsonView,
    s: Seq<char>,
    contents: Seq<JsonView>,
    texts: Seq<Seq<char>>,
)
    requires
        sys.get("parts"@) == Some(JsonView::Array(seq![part])),
        part.get("text"@) == Some(JsonView::Text(s)),
        s.len() > 0,
        req.get("contents"@) == Some(JsonView::Array(contents)),
        contents.len() == texts.len(),
        forall|i: int|
            0 <= i < contents.len() ==> content_text(#[trigger] contents[i]) == Some(texts[i]),
    ensures
        req.get("systemInstruction"@) is None && definitions_of(req).len() == 0 ==> prompt_of(req)
            == text::joined(texts, "\n\n"@),
        req.get("systemInstruction"@) == Some(sys) && definitions_of(req).len() == 0 ==> prompt_of(
            req,
        ) == text::joined(seq!["[System instruction]: "@ + s] + texts, "\n\n"@),
        req.get("systemInstruction"@) is None && definitions_of(req).len() > 0 ==> prompt_of(req)
            == text::joined(
            seq![section_of(definitions_of(req)) + calling_text(req)] + texts,
            "\n\n"@,
        ),
        req.get("systemInstruction"@) == Some(sys) && definitions_of(req).len() > 0 ==> prompt_of(
            req,
        ) == text::joined(
            seq![
                "[System instruction]: "@ + s + "\n\n"@ + section_of(definitions_of(req))
                    + calling_text(req),
            ] + texts,
            "\n\n"@,
        ),
{
    lemma_one_text(part, s);
    lemma_all_told(contents, texts);
    reveal_strlit("");
    assert(Seq::<Seq<char>>::empty() + texts =~= texts);
}

proof fn lemma_all_told(contents: Seq<JsonView>, texts: Seq<Seq<char>>)
    requires
        contents.len() == texts.len(),
        forall|i: int|
            0 <= i < contents.len() ==> content_text(#[trigger] contents[i]) == Some(texts[i]),
    ensures
        content_texts(contents) == texts,
    decreases contents.len(),
{
    if contents.len() > 0 {
        let n = contents.len() - 1;
        assert forall|i: int| 0 <= i < n implies content_text(
            #[trigger] contents.drop_last()[i],
        ) == Some(texts.drop_last()[i]) by {
            assert(contents.drop_last()[i] == contents[i]);
            assert(content_text(contents[i]) == Some(texts[i]));
        }
        lemma_all_told(contents.drop_last(), texts.drop_last());
        assert(content_text(contents[n]) == Some(texts[n]));
        assert(texts.drop_last().push(texts[n]) =~= texts);
    } else {
        assert(texts =~= Seq::<Seq<char>>::empty());
    }
}

/// What the user says stands in the prompt as it is, what the model said under
/// its name.
pub proof fn law_content_is_told_under_its_role(content: JsonView, part: JsonView, s: Seq<char>)
    requires
        content.get("parts"@) == Some(JsonView::Array(seq![part])),
        part.get("text"@) == Some(JsonView::Text(s)),
        s.len() > 0,
    ensures
        content.get("role"@) == Some(JsonView::Text("model"@)) ==> content_text(content) == Some(
            "[Assistant]: "@ + s,
        ),
        content.get("role"@) == Some(JsonView::Text("user"@)) || content.get("role"@) is None
            ==> content_text(content) == Some(s),
{
    lemma_one_text(part, s);
    reveal_strlit("model");
    reveal_strlit("user");
    assert("model"@.len() == 5 && "user"@.len() == 4);
}

/// The parts of an entry are told in order, a space between two: a text as it
/// is, a call as the block that makes it, a result as the line of its function.
/// An image is no text; it is handed on with its data and its type, which is
/// `image/png` where none is given.
pub proof fn law_parts_are_told(
    a: Seq<JsonView>,
    b: Seq<JsonView>,
    part: JsonView,
    v: JsonView,
    s: Seq<char>,
)
    ensures
        text_of_parts(Some(JsonView::Array(a))) == text::joined(part_texts(a), " "@),
        images_of_parts(Some(JsonView::Array(a))) == part_images(a),
        part_texts(a + b) == part_texts(a) + part_texts(b),
        part_images(a + b) == part_images(a) + part_images(b),
        part.get("text"@) == Some(JsonView::Text(s)) && s.len() > 0 ==> part_texts(seq![part])
            == seq![s] && part_images(seq![part]).len() == 0,
        part.get("text"@) is None && part.get("functionCall"@) == Some(v) ==> part_texts(seq![part])
            == seq!["```function_call\n"@ + json::json_printed(history_call(v)) + "\n```"@]
            && part_images(seq![part]).len() == 0,
        part.get("text"@) is None && part.get("functionCall"@) is None && part.get("inlineData"@)
            == Some(v) ==> part_texts(seq![part]).len() == 0 && part_images(seq![part]) == seq![
            (
                v.text_or("data"@, Seq::empty()),
                v.text_or("mimeType"@, "image/png"@),
            ),
        ],
        part.get("text"@) is None && part.get("functionCall"@) is None && part.get("inlineData"@)
            is None && part.get("functionResponse"@) == Some(v) ==> part_texts(seq![part]) == seq![
            "[Tool result for "@ + v.text_or("name"@, Seq::empty()) + "]: "@ + json::json_printed(
                v.member_or_null("response"@),
            ),
        ],
    decreases b.len(),
{
    reveal_strlit("");
    assert(""@ =~= Seq::<char>::empty());
    reveal_with_fuel(part_texts, 2);
    reveal_with_fuel(part_images, 2);
    assert(seq![part].drop_last() =~= Seq::<JsonView>::empty());
    if b.len() == 0 {
        assert(a + b =~= a);
        assert(part_texts(a) + part_texts(b) =~= part_texts(a));
        assert(part_images(a) + part_images(b) =~= part_images(a));
    } else {
        law_parts_are_told(a, b.drop_last(), part, v, s);
        assert((a + b).drop_last() =~= a + b.drop_last());
        assert((a + b).last() == b.last());
        assert(part_texts(a + b) =~= part_texts(a) + part_texts(b));
        assert(part_images(a + b) =~= part_images(a) + part_images(b));
    }
}

/// A call of the history keeps its name and its arguments.
pub proof fn law_history_call_keeps_the_call(fc: JsonView)
    ensures
        fc.get("name"@) matches Some(JsonView::Text(name)) ==> history_call(fc).get("name"@) == Some(
            JsonView::Text(name),
        ),
        fc.get("args"@) matches Some(args) ==> history_call(fc).get("args"@) == Some(args),
        fc.get("args"@) is None ==> history_call(fc).get("args"@) == Some(
            JsonView::Object(Seq::empty()),
        ),
{
    reveal_strlit("name");
    reveal_strlit("args");
    assert("name"@[0] != "args"@[0]);
    json::lemma_object_of_2(
        "name"@,
        JsonView::Text(fc.text_or("name"@, ""@)),
        "args"@,
        fc.member_or_object("args"@),
    );
}

/// The images of a request are those of its contents, in order.
pub proof fn law_images_of_the_contents(req: JsonView, contents: Seq<JsonView>, content: JsonView)
    ensures
        req.get("contents"@) == Some(JsonView::Array(contents)) ==> images_of(req)
            == content_images(contents),
        content_images(seq![content]) == images_of_parts(content.get("parts"@)),
{
    reveal_with_fuel(content_images, 2);
    assert(seq![content].drop_last() =~= Seq::<JsonView>::empty());
    assert(content_images(seq![content]) =~= images_of_parts(content.get("parts"@)));
}

/// A definition carries what the client declared: the name, the description, and
/// the parameters under either of their two names, the first of them first.
/// Where there are none, none are shown.
pub proof fn law_definition_carries_the_declaration(f: JsonView)
    ensures
        f.get("parameters"@) matches Some(p) ==> declared(f).get("parameters"@) == Some(p),
        f.get("parameters"@) is None ==> declared(f).get("parameters"@) == f.get(
            "parametersJsonSchema"@,
        ),
        f.get("name"@) matches Some(JsonView::Text(name)) ==> declared(f).get("name"@) == Some(
            JsonView::Text(name),
        ),
        f.get("description"@) matches Some(JsonView::Text(d)) ==> declared(f).get("description"@)
            == Some(JsonView::Text(d)),
{
    reveal_strlit("name");
    reveal_strlit("description");
    reveal_strlit("parameters");
    assert("name"@.len() == 4 && "description"@.len() == 11 && "parameters"@.len() == 10);
    let name = JsonView::Text(f.text_or("name"@, ""@));
    let description = JsonView::Text(f.text_or("description"@, ""@));
    json::lemma_object_of_2("name"@, name, "description"@, description);
    match parameters_of(f) {
        Some(p) => {
            json::lemma_object_of_3(
                "name"@,
                name,
                "description"@,
                description,
                "parameters"@,
                p,
            );
        },
        None => {
            json::lemma_with(JsonView::object(), "name"@, name, "parameters"@);
            json::lemma_with(
                JsonView::object().with("name"@, name),
                "description"@,
                description,
                "parameters"@,
            );
        },
    }
}

/// Every function that a request declares is told, group by group and in order.
pub proof fn law_every_function_is_told(
    req: JsonView,
    a: Seq<JsonView>,
    b: Seq<JsonView>,
    group: JsonView,
    fns: Seq<JsonView>,
)
    ensures
        req.get("tools"@) == Some(JsonView::Array(a)) ==> definitions_of(req) == groups_definitions(
            a,
        ),
        req.get("tools"@) is None ==> definitions_of(req).len() == 0,
        groups_definitions(a + b) == groups_definitions(a) + groups_definitions(b),
        group.get("functionDeclarations"@) == Some(JsonView::Array(fns)) ==> groups_definitions(
            seq![group],
        ) == Seq::new(fns.len(), |i: int| declared(fns[i])),
    decreases b.len(),
{
    reveal_with_fuel(groups_definitions, 2);
    assert(seq![group].drop_last() =~= Seq::<JsonView>::empty());
    assert(groups_definitions(seq![group]) =~= group_definitions(group));
    if b.len() == 0 {
        assert(a + b =~= a);
        assert(groups_definitions(a) + groups_definitions(b) =~= groups_definitions(a));
    } else {
        law_every_function_is_told(req, a, b.drop_last(), group, fns);
        assert((a + b).drop_last() =~= a + b.drop_last());
        assert((a + b).last() == b.last());
        assert(groups_definitions(a + b) =~= groups_definitions(a) + groups_definitions(b));
    }
}

/// What the model is told of the functions: how to call one, and all their
/// definitions.
pub proof fn law_section_shows_the_definitions(defs: Seq<JsonView>)
    ensures
        section_of(defs) == tool_prompt::INSTRUCTION_FUNCTION_CALL@ + json::json_pretty(
            JsonView::Array(defs),
        ),
{
    reveal_strlit("");
    reveal_strlit(
        "# Tool Use\n\nYou can call the following tools to help accomplish tasks. These tools connect to the user's local environment and will execute when called.\n\nCall format (use this exact format):\n```function_call\n{\"name\": \"<tool_name>\", \"args\": {<arguments>}}\n```\n\nWhen calling tools:\n- Output ONLY the function_call block(s), nothing else\n- You may call multiple tools with multiple blocks\n- After receiving a [Tool result for ...], use that data to answer the user\n\nAvailable tools:\n",
    );
    let instruction = tool_prompt::INSTRUCTION_FUNCTION_CALL@;
    tool_prompt::law_section_shows_the_definitions(instruction, defs, ""@);
    assert(instruction.last() == '\n');
    let shown = json::json_pretty(JsonView::Array(defs));
    assert(instruction + shown + ""@ =~= instruction + shown);
}

/// What a request says of calling functions reaches the model: that it must not,
/// that it must, and which ones it must call.
pub proof fn law_calling_mode_is_told(
    req: JsonView,
    config: JsonView,
    calling: JsonView,
    names: Seq<JsonView>,
)
    requires
        req.get("toolConfig"@) == Some(config),
        config.get("functionCallingConfig"@) == Some(calling),
    ensures
        calling.get("mode"@) == Some(JsonView::Text("NONE"@)) ==> calling_text(req)
            == "\n\nIMPORTANT: Do NOT call any tools. Respond with text only."@,
        calling.get("mode"@) == Some(JsonView::Text("ANY"@)) && calling.get(
            "allowedFunctionNames"@,
        ) is None ==> calling_text(req)
            == "\n\nIMPORTANT: You MUST call at least one tool. Do not respond with text only."@,
        calling.get("mode"@) == Some(JsonView::Text("ANY"@)) && calling.get(
            "allowedFunctionNames"@,
        ) == Some(JsonView::Array(names)) && quoted_texts(names).len() > 0 ==> calling_text(req)
            == "\n\nIMPORTANT: You MUST call one of these tools: "@ + text::joined(
            quoted_texts(names),
            ", "@,
        ) + ". Do not respond with text only."@,
        calling.get("mode"@) == Some(JsonView::Text("AUTO"@)) || calling.get("mode"@) is None
            ==> calling_text(req).len() == 0,
{
    reveal_strlit("NONE");
    reveal_strlit("ANY");
    reveal_strlit("AUTO");
    reveal_strlit("");
    assert("NONE"@.len() == 4 && "ANY"@.len() == 3 && "AUTO"@.len() == 4);
    assert("NONE"@[0] != "AUTO"@[0]);
}

/// Without a word on calling functions, the model is told nothing of it.
pub proof fn law_no_mode_is_open(req: JsonView)
    requires
        req.get("toolConfig"@) is None,
    ensures
        calling_mode(req) == "AUTO"@,
        calling_text(req).len() == 0,
{
    reveal_strlit("NONE");
    reveal_strlit("ANY");
    reveal_strlit("AUTO");
    reveal_strlit("");
    assert("NONE"@[0] != "AUTO"@[0]);
    assert("ANY"@.len() == 3 && "AUTO"@.len() == 4);
}

/// The names of functions are told in quotes, in order; what is no text is none.
pub proof fn law_names_are_quoted(names: Seq<JsonView>, name: Seq<char>, odd: JsonView)
    requires
        !(odd is Text),
    ensures
        quoted_texts(Seq::empty()).len() == 0,
        quoted_texts(names.push(JsonView::Text(name))) == quoted_texts(names).push(
            seq!['"'] + name + seq!['"'],
        ),
        quoted_texts(names.push(odd)) == quoted_texts(names),
{
    reveal_strlit("\"");
    assert("\""@ =~= seq!['"']);
    assert(names.push(JsonView::Text(name)).drop_last() =~= names);
    assert(names.push(odd).drop_last() =~= names);
}

/// The blocks of an answer are read one by one, in order: a block that spells an
/// object with a name is a call of that name, with the arguments that it gives
/// under either of their two names, the first of them first; any other block is
/// none.
pub proof fn law_blocks_one_by_one(a: Seq<Seq<char>>, b: Seq<Seq<char>>, block: Seq<char>)
    ensures
        calls_in(a + b) == calls_in(a) + calls_in(b),
        json::json_parsed(text::trimmed(block)) is None ==> calls_in(seq![block]).len() == 0,
        json::json_parsed(text::trimmed(block)) matches Some(v) ==> {
            &&& v.get("name"@) is None ==> calls_in(seq![block]).len() == 0
            &&& v.get("name"@) matches Some(JsonView::Text(name)) ==> {
                &&& calls_in(seq![block]).len() == 1
                &&& calls_in(seq![block])[0].get("name"@) == Some(JsonView::Text(name))
                &&& v.get("args"@) matches Some(args) ==> calls_in(seq![block])[0].get("args"@)
                    == Some(args)
                &&& v.get("args"@) is None ==> (v.get("arguments"@) matches Some(args) ==> calls_in(
                    seq![block],
                )[0].get("args"@) == Some(args))
                &&& v.get("args"@) is None && v.get("arguments"@) is None ==> calls_in(
                    seq![block],
                )[0].get("args"@) == Some(JsonView::Object(Seq::empty()))
            }
        },
    decreases b.len(),
{
    reveal_strlit("name");
    reveal_strlit("args");
    assert("name"@[0] != "args"@[0]);
    reveal_with_fuel(calls_in, 2);
    assert(seq![block].drop_last() =~= Seq::<Seq<char>>::empty());
    match json::json_parsed(text::trimmed(block)) {
        Some(v) => {
            match v.get_text("name"@) {
                Some(name) => {
                    let args = match arguments_of(v) {
                        Some(x) => x,
                        None => JsonView::object(),
                    };
                    json::lemma_object_of_2("name"@, JsonView::Text(name), "args"@, args);
                },
                None => {},
            }
        },
        None => {},
    }
    if b.len() == 0 {
        assert(a + b =~= a);
        assert(calls_in(a) + calls_in(b) =~= calls_in(a));
    } else {
        law_blocks_one_by_one(a, b.drop_last(), block);
        assert((a + b).drop_last() =~= a + b.drop_last());
        assert((a + b).last() == b.last());
        assert(calls_in(a + b) =~= calls_in(a) + calls_in(b));
    }
}

/// An answer in which neither a block nor a line makes a call, and that is no
/// object itself, is all text.
pub proof fn law_plain_answer_is_text(s: Seq<char>)
    requires
        outside::first_groups(outside::FUNCTION_CALL_BLOCK@, s).len() == 0,
        outside::matches_removed(outside::FUNCTION_CALL_BLOCK@, s) == s,
        outside::first_groups(outside::FUNCTION_CALL_LINE@, text::trimmed(s)).len() == 0,
        outside::matches_removed(outside::FUNCTION_CALL_LINE@, text::trimmed(s)) == text::trimmed(s),
        json::json_parsed(text::trimmed(s)) is None,
    ensures
        parsed_answer(s) == (text::trimmed(s), Seq::<JsonView>::empty()),
{
    text::law_trimmed_text_has_bare_ends(s);
    assert(calls_in(outside::first_groups(outside::FUNCTION_CALL_BLOCK@, s)) + calls_in(
        outside::first_groups(outside::FUNCTION_CALL_LINE@, text::trimmed(s)),
    ) =~= Seq::<JsonView>::empty());
}

/// The calls of an answer are those of its blocks and then those of its lines;
/// the text is what stands beside them.
pub proof fn law_calls_in_blocks_then_lines(s: Seq<char>)
    requires
        calls_in(outside::first_groups(outside::FUNCTION_CALL_BLOCK@, s)).len() > 0,
    ensures
        ({
            let rest = text::trimmed(outside::matches_removed(outside::FUNCTION_CALL_BLOCK@, s));
            &&& parsed_answer(s).0 == text::trimmed(
                outside::matches_removed(outside::FUNCTION_CALL_LINE@, rest),
            )
            &&& parsed_answer(s).1 == calls_in(
                outside::first_groups(outside::FUNCTION_CALL_BLOCK@, s),
            ) + calls_in(outside::first_groups(outside::FUNCTION_CALL_LINE@, rest))
        }),
{
}

/// An answer that is itself an object with a name and arguments is that call,
/// and no text.
pub proof fn law_bare_call_is_read(s: Seq<char>, v: JsonView, name: Seq<char>, args: JsonView)
    requires
        s.len() > 0,
        s[0] == '{',
        text::trimmed(s) == s,
        outside::first_groups(outside::FUNCTION_CALL_BLOCK@, s).len() == 0,
        outside::matches_removed(outside::FUNCTION_CALL_BLOCK@, s) == s,
        outside::first_groups(outside::FUNCTION_CALL_LINE@, s).len() == 0,
        outside::matches_removed(outside::FUNCTION_CALL_LINE@, s) == s,
        json::json_parsed(s) == Some(v),
        v.get("name"@) == Some(JsonView::Text(name)),
        v.get("args"@) == Some(args) || (v.get("args"@) is None && v.get("arguments"@) == Some(
            args,
        )),
    ensures
        parsed_answer(s).0.len() == 0,
        parsed_answer(s).1.len() == 1,
        parsed_answer(s).1[0].get("name"@) == Some(JsonView::Text(name)),
        parsed_answer(s).1[0].get("args"@) == Some(args),
{
    reveal_strlit("name");
    reveal_strlit("args");
    assert("name"@.len() == 4);
    assert("args"@.len() == 4);
    assert("name"@[0] != "args"@[0]);
    reveal_strlit("{");
    assert(text::trimmed_start(s) == s) by {
        assert(!text::is_white('{'));
    }
    assert(s.subrange(0, 1) =~= "{"@);
    json::lemma_object_of_2("name"@, JsonView::Text(name), "args"@, args);
}

} // verus!
