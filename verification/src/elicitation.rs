//! Questions to the user: the forms that a client shows, and the
//! `AskUserQuestion` calls of the model that lead to them.

use crate::json;
use crate::json::{Json, JsonView};
use crate::outside;
use crate::text;
use vstd::prelude::*;
use vstd::string::*;

verus! {

/// Which ways of asking a client supports.
#[derive(Debug, Clone, Copy, PartialEq, Eq, Structural)]
pub struct ElicitationSupport {
    pub form: bool,
    pub url: bool,
}

impl Default for ElicitationSupport {
    fn default() -> (r: Self)
        ensures
            r == (ElicitationSupport { form: false, url: false }),
    {
        ElicitationSupport { form: false, url: false }
    }
}

// ---------------------------------------------------------------------------
// Forms
// ---------------------------------------------------------------------------

/// A form to show: its fields by name, each with its schema, and the names of
/// those that must be filled in.
#[derive(Debug)]
pub struct ElicitationRequestSpec {
    pub session_id: String,
    pub message: String,
    pub properties: Json,
    pub required: Vec<String>,
}

pub struct RequestView {
    pub session_id: Seq<char>,
    pub message: Seq<char>,
    pub properties: JsonView,
    pub required: Seq<Seq<char>>,
}

impl View for ElicitationRequestSpec {
    type V = RequestView;

    open spec fn view(&self) -> RequestView {
        RequestView {
            session_id: self.session_id@,
            message: self.message@,
            properties: self.properties@,
            required: text::texts_of(self.required@),
        }
    }
}

/// The form with one more field.
pub open spec fn with_property(
    form: RequestView,
    name: Seq<char>,
    schema: JsonView,
    required: bool,
) -> RequestView {
    RequestView {
        properties: form.properties.with(name, schema),
        required: if required && !form.required.contains(name) {
            form.required.push(name)
        } else {
            form.required
        },
        ..form
    }
}

fn holds_text(list: &Vec<String>, wanted: &str) -> (r: bool)
    ensures
        r == text::texts_of(list@).contains(wanted@),
{
    let ghost all = text::texts_of(list@);
    let mut i: usize = 0;
    while i < list.len()
        invariant
            i <= list@.len(),
            all == text::texts_of(list@),
            forall|k: int| 0 <= k < i ==> #[trigger] all[k] != wanted@,
        decreases list@.len() - i,
    {
        proof {
            assert(all[i as int] == list@[i as int]@);
        }
        if text::same(list[i].as_str(), wanted) {
            return true;
        }
        i += 1;
    }
    false
}

impl ElicitationRequestSpec {
    /// A form without fields.
    pub fn new(session_id: &str, message: &str) -> (r: Self)
        ensures
            r.properties is Object,
            r@ == (RequestView {
                session_id: session_id@,
                message: message@,
                properties: JsonView::object(),
                required: Seq::empty(),
            }),
    {
        let required: Vec<String> = Vec::new();
        proof {
            assert(text::texts_of(required@) =~= Seq::empty());
        }
        ElicitationRequestSpec {
            session_id: session_id.to_owned(),
            message: message.to_owned(),
            properties: Json::object(),
            required,
        }
    }

    /// The form with one more field. A field of the same name is replaced.
    pub fn property(self, name: &str, schema: Json, required: bool) -> (r: Self)
        ensures
            self.properties is Object ==> r.properties is Object,
            r@ == with_property(self@, name@, schema@, required),
    {
        let mut must = self.required;
        if required && !holds_text(&must, name) {
            let owned = name.to_owned();
            proof {
                text::lemma_texts_push(must@, owned);
            }
            must.push(owned);
        }
        ElicitationRequestSpec {
            session_id: self.session_id,
            message: self.message,
            properties: self.properties.with(name, schema),
            required: must,
        }
    }

    /// Whether a field must be filled in.
    pub fn is_required(&self, name: &str) -> (r: bool)
        ensures
            r == self@.required.contains(name@),
    {
        holds_text(&self.required, name)
    }
}

/// A field that was added is there, and it must be filled in if it was said to
/// be; the other fields stay.
pub proof fn law_property_is_added(
    form: ElicitationRequestSpec,
    name: Seq<char>,
    schema: JsonView,
    required: bool,
    other: Seq<char>,
)
    requires
        form.properties is Object,
    ensures
        ({
            let after = with_property(form@, name, schema, required);
            &&& after.properties.get(name) == Some(schema)
            &&& required ==> after.required.contains(name)
            &&& other != name ==> after.properties.get(other) == form@.properties.get(other)
            &&& form@.required.contains(other) ==> after.required.contains(other)
        }),
{
    json::law_member_read_back(form.properties, name, schema, other);
    let before = form@.required;
    let after = with_property(form@, name, schema, required).required;
    if required && !before.contains(name) {
        assert(after[before.len() as int] == name);
    }
    if before.contains(other) {
        let i = choose|i: int| 0 <= i < before.len() && before[i] == other;
        assert(after[i] == other);
    }
}

/// What the user filled into a field.
#[derive(Debug, PartialEq)]
pub enum ElicitationContentValue {
    Text(String),
    Integer(i64),
    /// A number, as JSON.
    Number(Json),
    Boolean(bool),
    TextList(Vec<String>),
    /// A kind that is not known.
    Other,
}

/// What the user did with a form.
#[derive(Debug, PartialEq)]
pub enum ElicitationAction {
    /// Sent it, with what was filled in, if anything was.
    Accept(Option<Vec<(String, ElicitationContentValue)>>),
    Decline,
    Cancel,
    /// Something that is not known.
    Other,
}

/// What came of a form.
#[derive(Debug, PartialEq)]
pub enum ElicitationOutcome {
    Accepted(Vec<(String, ElicitationContentValue)>),
    Declined,
    Cancelled,
}

/// What came of a form: an unknown action is a cancellation.
pub fn response_to_outcome(action: ElicitationAction) -> (r: ElicitationOutcome)
    ensures
        match action {
            ElicitationAction::Accept(Some(content)) => r == ElicitationOutcome::Accepted(content),
            ElicitationAction::Accept(None) => r matches ElicitationOutcome::Accepted(content)
                && content@.len() == 0,
            ElicitationAction::Decline => r is Declined,
            ElicitationAction::Cancel => r is Cancelled,
            ElicitationAction::Other => r is Cancelled,
        },
{
    match action {
        ElicitationAction::Accept(Some(content)) => ElicitationOutcome::Accepted(content),
        ElicitationAction::Accept(None) => ElicitationOutcome::Accepted(Vec::new()),
        ElicitationAction::Decline => ElicitationOutcome::Declined,
        ElicitationAction::Cancel => ElicitationOutcome::Cancelled,
        ElicitationAction::Other => ElicitationOutcome::Cancelled,
    }
}

/// What was filled in, if the form was sent.
pub fn clarification(outcome: ElicitationOutcome) -> (r: Option<
    Vec<(String, ElicitationContentValue)>,
>)
    ensures
        match outcome {
            ElicitationOutcome::Accepted(content) => r == Some(content),
            _ => r is None,
        },
{
    match outcome {
        ElicitationOutcome::Accepted(content) => Some(content),
        ElicitationOutcome::Declined => None,
        ElicitationOutcome::Cancelled => None,
    }
}

// ---------------------------------------------------------------------------
// Questions of the model
// ---------------------------------------------------------------------------

#[derive(Debug, PartialEq, Eq)]
pub struct AskUserOption {
    pub label: String,
    pub description: Option<String>,
    pub preview: Option<String>,
}

#[derive(Debug, PartialEq, Eq)]
pub struct AskUserQuestion {
    pub question: String,
    pub header: Option<String>,
    pub options: Vec<AskUserOption>,
    pub multi_select: bool,
}

/// The questions of one call.
#[derive(Debug, PartialEq, Eq)]
pub struct GeminiElicitation {
    pub tool_name: String,
    pub questions: Vec<AskUserQuestion>,
}

pub struct OptionView {
    pub label: Seq<char>,
    pub description: Option<Seq<char>>,
    pub preview: Option<Seq<char>>,
}

pub struct QuestionView {
    pub question: Seq<char>,
    pub header: Option<Seq<char>>,
    pub options: Seq<OptionView>,
    pub multi_select: bool,
}

impl View for AskUserOption {
    type V = OptionView;

    open spec fn view(&self) -> OptionView {
        OptionView {
            label: self.label@,
            description: text::option_view(self.description),
            preview: text::option_view(self.preview),
        }
    }
}

pub open spec fn options_view(options: Seq<AskUserOption>) -> Seq<OptionView> {
    Seq::new(options.len(), |i: int| options[i]@)
}

impl View for AskUserQuestion {
    type V = QuestionView;

    open spec fn view(&self) -> QuestionView {
        QuestionView {
            question: self.question@,
            header: text::option_view(self.header),
            options: options_view(self.options@),
            multi_select: self.multi_select,
        }
    }
}

pub open spec fn questions_view(questions: Seq<AskUserQuestion>) -> Seq<QuestionView> {
    Seq::new(questions.len(), |i: int| questions[i]@)
}

pub open spec fn question_texts(questions: Seq<QuestionView>) -> Seq<Seq<char>> {
    Seq::new(questions.len(), |i: int| questions[i].question)
}

/// The option that a value spells, if it does.
pub open spec fn option_of(v: JsonView) -> Option<OptionView> {
    match (
        json::field_of(v, "label"@, 0),
        json::optional_text(json::field_of(v, "description"@, 1)),
        json::optional_text(json::field_of(v, "preview"@, 2)),
    ) {
        (Some(JsonView::Text(label)), Ok(description), Ok(preview)) => if json::is_record(v, 3) {
            Some(OptionView { label, description, preview })
        } else {
            None
        },
        _ => None,
    }
}

/// The options that the values spell, if each of them spells one.
pub open spec fn options_of(items: Seq<JsonView>) -> Option<Seq<OptionView>>
    decreases items.len(),
{
    if items.len() == 0 {
        Some(Seq::empty())
    } else {
        match (options_of(items.drop_last()), option_of(items.last())) {
            (Some(before), Some(o)) => Some(before.push(o)),
            _ => None,
        }
    }
}

/// The question that a value spells, if it does.
pub open spec fn question_of(v: JsonView) -> Option<QuestionView> {
    let multi_select = match json::field_of(v, "multi_select"@, 3) {
        None => Some(false),
        Some(JsonView::Bool(b)) => Some(b),
        Some(_) => None,
    };
    let options = match json::field_of(v, "options"@, 2) {
        Some(JsonView::Array(items)) => options_of(items),
        _ => None,
    };
    match (
        json::field_of(v, "question"@, 0),
        json::optional_text(json::field_of(v, "header"@, 1)),
        options,
        multi_select,
    ) {
        (
            Some(JsonView::Text(question)),
            Ok(header),
            Some(options),
            Some(multi_select),
        ) => if json::is_record(v, 4) {
            Some(QuestionView { question, header, options, multi_select })
        } else {
            None
        },
        _ => None,
    }
}

/// A question that can be asked: it says something and offers something.
pub open spec fn can_be_asked(q: QuestionView) -> bool {
    text::trimmed(q.question).len() > 0 && q.options.len() > 0
}

/// The questions among the values that can be asked.
pub open spec fn questions_in(items: Seq<JsonView>) -> Seq<QuestionView>
    decreases items.len(),
{
    if items.len() == 0 {
        Seq::empty()
    } else {
        let before = questions_in(items.drop_last());
        match question_of(items.last()) {
            Some(q) => if can_be_asked(q) {
                before.push(q)
            } else {
                before
            },
            None => before,
        }
    }
}

/// The questions of a call, if there is any.
pub open spec fn questions_of(input: JsonView) -> Option<Seq<QuestionView>> {
    match input.get_array("questions"@) {
        Some(items) => if questions_in(items).len() > 0 {
            Some(questions_in(items))
        } else {
            None
        },
        None => None,
    }
}

/// A name without hyphens and underscores.
pub open spec fn plain_name(s: Seq<char>) -> Seq<char>
    decreases s.len(),
{
    if s.len() == 0 {
        Seq::empty()
    } else {
        let before = plain_name(s.drop_last());
        if s.last() == '-' || s.last() == '_' {
            before
        } else {
            before.push(s.last())
        }
    }
}

/// The tool asks the user a question.
pub open spec fn asks_user(tool_name: Seq<char>) -> bool {
    let name = plain_name(text::ascii_lowered(text::trimmed(tool_name)));
    name == "askuserquestion"@ || name == "askuser"@ || name == "elicitation"@
}

impl GeminiElicitation {
    /// The questions, one a line.
    pub fn message(&self) -> (r: String)
        ensures
            r@ == text::joined(question_texts(questions_view(self.questions@)), "\n"@),
    {
        let ghost wanted = question_texts(questions_view(self.questions@));
        let mut lines: Vec<String> = Vec::new();
        let mut i: usize = 0;
        while i < self.questions.len()
            invariant
                i <= self.questions@.len(),
                wanted == question_texts(questions_view(self.questions@)),
                text::texts_of(lines@) =~= wanted.take(i as int),
            decreases self.questions@.len() - i,
        {
            let line = self.questions[i].question.clone();
            proof {
                text::lemma_texts_push(lines@, line);
                assert(wanted[i as int] == self.questions@[i as int].question@);
            }
            lines.push(line);
            i += 1;
        }
        proof {
            assert(text::texts_of(lines@) =~= wanted);
        }
        text::join(lines.as_slice(), "\n")
    }
}

fn read_option(v: &Json) -> (r: Option<AskUserOption>)
    ensures
        match r {
            Some(o) => option_of(v@) == Some(o@),
            None => option_of(v@) is None,
        },
{
    let description = json::read_optional_text(json::read_field(v, "description", 1));
    let preview = json::read_optional_text(json::read_field(v, "preview", 2));
    match (json::read_field(v, "label", 0), description, preview) {
        (Some(Json::Text(label)), Ok(description), Ok(preview)) => if json::reads_as_record(v, 3) {
            Some(AskUserOption { label: label.clone(), description, preview })
        } else {
            None
        },
        _ => None,
    }
}

proof fn lemma_one_bad(all: Seq<JsonView>, n: int)
    requires
        0 <= n <= all.len(),
        options_of(all.take(n)) is None,
    ensures
        options_of(all) is None,
    decreases all.len() - n,
{
    if n < all.len() {
        assert(all.take(n + 1).drop_last() =~= all.take(n));
        lemma_one_bad(all, n + 1);
    } else {
        assert(all.take(n) =~= all);
    }
}

fn read_options(items: &Vec<Json>) -> (r: Option<Vec<AskUserOption>>)
    ensures
        match r {
            Some(options) => options_of(json::items_view(items@)) == Some(options_view(options@)),
            None => options_of(json::items_view(items@)) is None,
        },
{
    let ghost all = json::items_view(items@);
    proof {
        json::lemma_items_view(items@);
    }
    let mut out: Vec<AskUserOption> = Vec::new();
    let mut i: usize = 0;
    proof {
        assert(options_view(out@) =~= Seq::empty());
    }
    while i < items.len()
        invariant
            i <= items@.len(),
            all == json::items_view(items@),
            all.len() == items@.len(),
            forall|k: int| 0 <= k < all.len() ==> #[trigger] all[k] == items@[k]@,
            options_of(all.take(i as int)) == Some(options_view(out@)),
        decreases items@.len() - i,
    {
        proof {
            assert(all.take(i + 1).drop_last() =~= all.take(i as int));
            assert(all.take(i + 1).last() == items@[i as int]@);
        }
        match read_option(&items[i]) {
            Some(o) => {
                proof {
                    assert(options_view(out@.push(o)) =~= options_view(out@).push(o@));
                }
                out.push(o);
            },
            None => {
                proof {
                    lemma_one_bad(all, i + 1);
                }
                return None;
            },
        }
        i += 1;
    }
    proof {
        assert(all.take(all.len() as int) =~= all);
    }
    Some(out)
}

fn read_question(v: &Json) -> (r: Option<AskUserQuestion>)
    ensures
        match r {
            Some(q) => question_of(v@) == Some(q@),
            None => question_of(v@) is None,
        },
{
    let multi_select: Option<bool> = match json::read_field(v, "multi_select", 3) {
        None => Some(false),
        Some(Json::Bool(b)) => Some(*b),
        Some(_) => None,
    };
    let options: Option<Vec<AskUserOption>> = match json::read_field(v, "options", 2) {
        Some(Json::Array(items)) => read_options(items),
        _ => None,
    };
    let header = json::read_optional_text(json::read_field(v, "header", 1));
    match (json::read_field(v, "question", 0), header, options, multi_select) {
        (
            Some(Json::Text(question)),
            Ok(header),
            Some(options),
            Some(multi_select),
        ) => if json::reads_as_record(v, 4) {
            Some(AskUserQuestion { question: question.clone(), header, options, multi_select })
        } else {
            None
        },
        _ => None,
    }
}

/// The questions of a call that can be asked, if there is any.
pub fn extract_ask_user_questions(input: &Json) -> (r: Option<Vec<AskUserQuestion>>)
    ensures
        match r {
            Some(questions) => questions_of(input@) == Some(questions_view(questions@)),
            None => questions_of(input@) is None,
        },
{
    match input.get_array("questions") {
        Some(items) => {
            let ghost all = json::items_view(items@);
            proof {
                json::lemma_items_view(items@);
            }
            let mut out: Vec<AskUserQuestion> = Vec::new();
            let mut i: usize = 0;
            proof {
                assert(questions_view(out@) =~= Seq::empty());
            }
            while i < items.len()
                invariant
                    i <= items@.len(),
                    all == json::items_view(items@),
                    all.len() == items@.len(),
                    forall|k: int| 0 <= k < all.len() ==> #[trigger] all[k] == items@[k]@,
                    questions_in(all.take(i as int)) == questions_view(out@),
                decreases items@.len() - i,
            {
                proof {
                    assert(all.take(i + 1).drop_last() =~= all.take(i as int));
                    assert(all.take(i + 1).last() == items@[i as int]@);
                }
                match read_question(&items[i]) {
                    Some(q) => {
                        proof {
                            assert(options_view(q.options@).len() == q.options@.len());
                        }
                        if !text::is_blank(q.question.as_str()) && q.options.len() > 0 {
                            proof {
                                assert(questions_view(out@.push(q)) =~= questions_view(out@).push(
                                    q@,
                                ));
                            }
                            out.push(q);
                        }
                    },
                    None => {},
                }
                i += 1;
            }
            proof {
                assert(all.take(all.len() as int) =~= all);
                assert(questions_view(out@).len() == out@.len());
            }
            if out.len() > 0 {
                Some(out)
            } else {
                None
            }
        },
        None => None,
    }
}

fn without_marks(s: &str) -> (r: String)
    ensures
        r@ == plain_name(s@),
{
    let mut out: String = String::new();
    for c in it: s.chars()
        invariant
            it.seq() == s@,
            out@ == plain_name(s@.take(it.index())),
    {
        proof {
            assert(s@.take(it.index() + 1).drop_last() =~= s@.take(it.index()));
        }
        if !(c == '-' || c == '_') {
            out.push(c);
        }
    }
    proof {
        assert(s@.take(s@.len() as int) =~= s@);
    }
    out
}

fn is_question_tool(tool_name: &str) -> (r: bool)
    ensures
        r == asks_user(tool_name@),
{
    let lower = text::to_ascii_lowercase(text::trim(tool_name));
    let name = without_marks(lower.as_str());
    text::same(name.as_str(), "askuserquestion") || text::same(name.as_str(), "askuser")
        || text::same(name.as_str(), "elicitation")
}

/// The questions of a call, where the tool is one that asks the user, however
/// the model writes its name.
pub fn capture_gemini_elicitation(tool_name: &str, input: &Json) -> (r: Option<GeminiElicitation>)
    ensures
        match r {
            Some(e) => {
                &&& asks_user(tool_name@)
                &&& e.tool_name@ == tool_name@
                &&& questions_of(input@) == Some(questions_view(e.questions@))
            },
            None => !asks_user(tool_name@) || questions_of(input@) is None,
        },
{
    if !is_question_tool(tool_name) {
        return None;
    }
    match extract_ask_user_questions(input) {
        Some(questions) => Some(GeminiElicitation { tool_name: tool_name.to_owned(), questions }),
        None => None,
    }
}

// ---------------------------------------------------------------------------
// Answers of the user
// ---------------------------------------------------------------------------

/// What came of the questions.
#[derive(Debug, PartialEq)]
pub enum AskUserQuestionOutcome {
    Answered(Json),
    Cancelled,
}

pub open spec fn list_view(items: Seq<String>) -> Seq<JsonView> {
    Seq::new(items.len(), |i: int| JsonView::Text(items[i]@))
}

/// A value that the user filled in, as JSON.
pub open spec fn value_view(v: ElicitationContentValue) -> JsonView {
    match v {
        ElicitationContentValue::Text(t) => JsonView::Text(t@),
        ElicitationContentValue::Boolean(b) => JsonView::Bool(b),
        ElicitationContentValue::Number(j) => j@,
        ElicitationContentValue::TextList(items) => JsonView::Array(list_view(items@)),
        ElicitationContentValue::Integer(_) => JsonView::Null,
        ElicitationContentValue::Other => JsonView::Null,
    }
}

/// What was filled into the field of that name.
pub open spec fn filled_in(
    content: Seq<(String, ElicitationContentValue)>,
    name: Seq<char>,
) -> Option<ElicitationContentValue>
    decreases content.len(),
{
    if content.len() == 0 {
        None
    } else if content.last().0@ == name {
        Some(content.last().1)
    } else {
        filled_in(content.drop_last(), name)
    }
}

pub open spec fn question_name(index: int) -> Seq<char> {
    "question_"@ + text::decimal(index as nat)
}

pub open spec fn custom_name(index: int) -> Seq<char> {
    "question_"@ + text::decimal(index as nat) + "_custom"@
}

/// The answer to a question: what the user wrote freely, else what the user
/// chose, if anything.
pub open spec fn answer_to(
    content: Seq<(String, ElicitationContentValue)>,
    index: int,
) -> Option<JsonView> {
    let custom = match filled_in(content, custom_name(index)) {
        Some(ElicitationContentValue::Text(t)) => text::trimmed(t@),
        _ => Seq::empty(),
    };
    if custom.len() > 0 {
        Some(JsonView::Text(custom))
    } else {
        match filled_in(content, question_name(index)) {
            Some(v) => Some(value_view(v)),
            None => None,
        }
    }
}

/// The answers to the questions, by question.
pub open spec fn answers_to(
    content: Seq<(String, ElicitationContentValue)>,
    questions: Seq<QuestionView>,
) -> JsonView
    decreases questions.len(),
{
    if questions.len() == 0 {
        JsonView::object()
    } else {
        let before = answers_to(content, questions.drop_last());
        match answer_to(content, questions.len() - 1) {
            Some(a) => before.with(questions.last().question, a),
            None => before,
        }
    }
}

/// The input of a call with the answers in it.
pub open spec fn with_answers(input: JsonView, answers: JsonView) -> JsonView {
    match input {
        JsonView::Null => JsonView::object().with("answers"@, answers),
        _ => input.with("answers"@, answers),
    }
}

fn number_name(index: usize) -> (r: String)
    ensures
        r@ == question_name(index as int),
{
    let n = text::decimal_text(index as u64);
    text::cat("question_", n.as_str())
}

/// The name of the field in which the user chooses the answer to a question.
pub fn question_key(index: usize) -> (r: String)
    ensures
        r@ == question_name(index as int),
{
    number_name(index)
}

/// The name of the field in which the user writes an answer of their own.
pub fn custom_answer_key(index: usize) -> (r: String)
    ensures
        r@ == custom_name(index as int),
{
    let name = number_name(index);
    text::cat(name.as_str(), "_custom")
}

fn find_value<'a>(content: &'a Vec<(String, ElicitationContentValue)>, name: &str) -> (r: Option<
    &'a ElicitationContentValue,
>)
    ensures
        match r {
            Some(v) => filled_in(content@, name@) == Some(*v),
            None => filled_in(content@, name@) is None,
        },
{
    let mut i: usize = content.len();
    proof {
        assert(content@.take(i as int) =~= content@);
    }
    while i > 0
        invariant
            i <= content@.len(),
            filled_in(content@, name@) == filled_in(content@.take(i as int), name@),
        decreases i,
    {
        proof {
            assert(content@.take(i as int).drop_last() =~= content@.take(i - 1));
            assert(content@.take(i as int).last() == content@[i - 1]);
        }
        i -= 1;
        if text::same(content[i].0.as_str(), name) {
            return Some(&content[i].1);
        }
    }
    None
}

fn elicitation_value_to_json(value: &ElicitationContentValue) -> (r: Json)
    ensures
        r@ == value_view(*value),
{
    match value {
        ElicitationContentValue::Text(t) => Json::Text(t.clone()),
        ElicitationContentValue::Boolean(b) => Json::Bool(*b),
        ElicitationContentValue::Number(j) => j.clone(),
        ElicitationContentValue::TextList(items) => {
            let mut out: Vec<Json> = Vec::new();
            let mut i: usize = 0;
            while i < items.len()
                invariant
                    i <= items@.len(),
                    json::items_view(out@) =~= list_view(items@).take(i as int),
                decreases items@.len() - i,
            {
                let item = Json::Text(items[i].clone());
                proof {
                    json::lemma_items_push(out@, item);
                }
                out.push(item);
                i += 1;
            }
            proof {
                assert(json::items_view(out@) =~= list_view(items@));
            }
            Json::Array(out)
        },
        ElicitationContentValue::Integer(_) => Json::Null,
        ElicitationContentValue::Other => Json::Null,
    }
}

fn read_answer(content: &Vec<(String, ElicitationContentValue)>, index: usize) -> (r: Option<Json>)
    ensures
        match r {
            Some(j) => answer_to(content@, index as int) == Some(j@),
            None => answer_to(content@, index as int) is None,
        },
{
    let custom = custom_answer_key(index);
    match find_value(content, custom.as_str()) {
        Some(ElicitationContentValue::Text(t)) => {
            let own = text::trim(t.as_str());
            if !own.is_empty() {
                return Some(Json::from_text(own));
            }
        },
        _ => {},
    }
    let chosen = question_key(index);
    match find_value(content, chosen.as_str()) {
        Some(v) => Some(elicitation_value_to_json(v)),
        None => None,
    }
}

fn read_answers(
    content: &Vec<(String, ElicitationContentValue)>,
    questions: &[AskUserQuestion],
) -> (r: Json)
    ensures
        r@ == answers_to(content@, questions_view(questions@)),
{
    let ghost all = questions_view(questions@);
    let mut answers = Json::object();
    let mut i: usize = 0;
    while i < questions.len()
        invariant
            i <= questions@.len(),
            all == questions_view(questions@),
            answers@ == answers_to(content@, all.take(i as int)),
        decreases questions@.len() - i,
    {
        proof {
            assert(all.take(i + 1).drop_last() =~= all.take(i as int));
            assert(all.take(i + 1).last() == questions@[i as int]@);
        }
        match read_answer(content, i) {
            Some(a) => {
                answers = answers.with(questions[i].question.as_str(), a);
            },
            None => {},
        }
        i += 1;
    }
    proof {
        assert(all.take(all.len() as int) =~= all);
    }
    answers
}

fn put_answers(input: &Json, answers: Json) -> (r: Json)
    ensures
        r@ == with_answers(input@, answers@),
{
    match input {
        Json::Null => Json::object().with("answers", answers),
        _ => input.clone().with("answers", answers),
    }
}

/// The input of a call after the user answered, if they did: nothing is
/// answered by one who declines, and all that was filled in by one who sends.
pub open spec fn answered(
    action: ElicitationAction,
    input: JsonView,
    questions: Seq<QuestionView>,
) -> Option<JsonView> {
    match action {
        ElicitationAction::Decline => Some(with_answers(input, JsonView::object())),
        ElicitationAction::Accept(Some(content)) => Some(
            with_answers(input, answers_to(content@, questions)),
        ),
        ElicitationAction::Accept(None) => Some(
            with_answers(input, answers_to(Seq::empty(), questions)),
        ),
        _ => None,
    }
}

/// The input of the call with the answers in it, or that the user gave none. A
/// form that was declined has no answers. Except where the user cancelled, the
/// input must be an object, or null.
pub fn apply_ask_user_response(
    action: &ElicitationAction,
    tool_input: &Json,
    questions: &[AskUserQuestion],
) -> (r: AskUserQuestionOutcome)
    requires
        (action is Decline || action is Accept) ==> (tool_input is Object || tool_input is Null),
    ensures
        match *action {
            ElicitationAction::Decline => r matches AskUserQuestionOutcome::Answered(j) && j@
                == with_answers(tool_input@, JsonView::object()),
            ElicitationAction::Accept(Some(content)) => r matches AskUserQuestionOutcome::Answered(
                j,
            ) && j@ == with_answers(
                tool_input@,
                answers_to(content@, questions_view(questions@)),
            ),
            ElicitationAction::Accept(None) => r matches AskUserQuestionOutcome::Answered(j) && j@
                == with_answers(
                tool_input@,
                answers_to(Seq::empty(), questions_view(questions@)),
            ),
            _ => r is Cancelled,
        },
        match answered(*action, tool_input@, questions_view(questions@)) {
            Some(v) => r matches AskUserQuestionOutcome::Answered(j) && j@ == v,
            None => r is Cancelled,
        },
{
    match action {
        ElicitationAction::Decline => AskUserQuestionOutcome::Answered(
            put_answers(tool_input, Json::object()),
        ),
        ElicitationAction::Accept(Some(content)) => AskUserQuestionOutcome::Answered(
            put_answers(tool_input, read_answers(content, questions)),
        ),
        ElicitationAction::Accept(None) => {
            let none: Vec<(String, ElicitationContentValue)> = Vec::new();
            proof {
                assert(none@ =~= Seq::empty());
            }
            AskUserQuestionOutcome::Answered(put_answers(tool_input, read_answers(&none, questions)))
        },
        ElicitationAction::Cancel => AskUserQuestionOutcome::Cancelled,
        ElicitationAction::Other => AskUserQuestionOutcome::Cancelled,
    }
}

/// A free answer wins over a choice.
pub proof fn law_free_answer_wins(
    content: Seq<(String, ElicitationContentValue)>,
    index: int,
    own: String,
)
    requires
        filled_in(content, custom_name(index)) == Some(ElicitationContentValue::Text(own)),
        text::trimmed(own@).len() > 0,
    ensures
        answer_to(content, index) == Some(JsonView::Text(text::trimmed(own@))),
{
}

// ---------------------------------------------------------------------------
// Vague prompts
// ---------------------------------------------------------------------------

/// A text in lower case holds a word that asks for work without saying which.
pub open spec fn holds_vague_word(lower: Seq<char>) -> bool {
    ||| text::occurs(lower, "refactor"@)
    ||| text::occurs(lower, "optimise"@)
    ||| text::occurs(lower, "optimize"@)
    ||| text::occurs(lower, "teste"@)
    ||| text::occurs(lower, "test "@)
    ||| text::occurs(lower, "améliore"@)
    ||| text::occurs(lower, "ameliore"@)
    ||| text::occurs(lower, "simplifie"@)
    ||| text::occurs(lower, "nettoie"@)
    ||| text::occurs(lower, "réécris"@)
    ||| text::occurs(lower, "reecris"@)
}

/// A prompt, given as it is and in lower case, is vague: it is short, and holds
/// a word that asks for work without saying which.
pub open spec fn vague(message: Seq<char>, lower: Seq<char>) -> bool {
    holds_vague_word(lower) && message.len() < 80
}

/// Whether a prompt, given as it is and in lower case, is vague: short, and
/// with a word that asks for work without saying which.
pub fn is_vague(message: &str, lower: &str) -> (r: bool)
    ensures
        r == vague(message@, lower@),
{
    let worded: bool = text::contains(lower, "refactor") || text::contains(lower, "optimise")
        || text::contains(lower, "optimize") || text::contains(lower, "teste") || text::contains(
        lower,
        "test ",
    ) || text::contains(lower, "améliore") || text::contains(lower, "ameliore")
        || text::contains(lower, "simplifie") || text::contains(lower, "nettoie")
        || text::contains(lower, "réécris") || text::contains(lower, "reecris");
    worded && text::char_count(message) < 80
}

/// Whether a prompt is vague.
pub fn is_vague_prompt(message: &str) -> (r: bool)
    ensures
        r == vague(message@, outside::lowercased(message@)),
{
    let lower = outside::to_lowercase(message);
    is_vague(message, lower.as_str())
}

// ---------------------------------------------------------------------------
// What is asked and what is answered
// ---------------------------------------------------------------------------


/// Each of the words makes a prompt of fewer than 80 characters vague; a longer
/// one is not, nor is one without such a word.
pub proof fn law_vague_prompts(message: Seq<char>, lower: Seq<char>)
    ensures
        message.len() >= 80 ==> !vague(message, lower),
        !holds_vague_word(lower) ==> !vague(message, lower),
        message.len() < 80 && text::occurs(lower, "refactor"@) ==> vague(message, lower),
        message.len() < 80 && text::occurs(lower, "optimise"@) ==> vague(message, lower),
        message.len() < 80 && text::occurs(lower, "optimize"@) ==> vague(message, lower),
        message.len() < 80 && text::occurs(lower, "teste"@) ==> vague(message, lower),
        message.len() < 80 && text::occurs(lower, "test "@) ==> vague(message, lower),
        message.len() < 80 && text::occurs(lower, "améliore"@) ==> vague(message, lower),
        message.len() < 80 && text::occurs(lower, "ameliore"@) ==> vague(message, lower),
        message.len() < 80 && text::occurs(lower, "simplifie"@) ==> vague(message, lower),
        message.len() < 80 && text::occurs(lower, "nettoie"@) ==> vague(message, lower),
        message.len() < 80 && text::occurs(lower, "réécris"@) ==> vague(message, lower),
        message.len() < 80 && text::occurs(lower, "reecris"@) ==> vague(message, lower),
{
}

/// A tool asks the user if it has one of the three names, in whatever case and
/// with or without hyphens and underscores.
pub proof fn law_tools_that_ask(name: Seq<char>, c: char)
    ensures
        asks_user(name) <==> (plain_name(text::ascii_lowered(text::trimmed(name)))
            == "askuserquestion"@ || plain_name(text::ascii_lowered(text::trimmed(name)))
            == "askuser"@ || plain_name(text::ascii_lowered(text::trimmed(name)))
            == "elicitation"@),
        c == '-' || c == '_' ==> plain_name(name.push(c)) == plain_name(name),
        c != '-' && c != '_' ==> plain_name(name.push(c)) == plain_name(name).push(c),
        plain_name(Seq::empty()).len() == 0,
{
    assert(name.push(c).drop_last() =~= name);
}

/// A question is read as it is written: its text, its header, its options in
/// order, and whether several may be chosen, which is no where it is not said.
pub proof fn law_question_is_read(
    v: JsonView,
    t: Seq<char>,
    h: Seq<char>,
    items: Seq<JsonView>,
    options: Seq<OptionView>,
)
    requires
        v is Object,
        v.get("question"@) == Some(JsonView::Text(t)),
        v.get("options"@) == Some(JsonView::Array(items)),
        options_of(items) == Some(options),
    ensures
        v.get("header"@) is None && v.get("multi_select"@) is None ==> question_of(v) == Some(
            QuestionView { question: t, header: None, options, multi_select: false },
        ),
        v.get("header"@) == Some(JsonView::Text(h)) && v.get("multi_select"@) == Some(
            JsonView::Bool(true),
        ) ==> question_of(v) == Some(
            QuestionView { question: t, header: Some(h), options, multi_select: true },
        ),
        v.get("header"@) == Some(JsonView::Text(h)) && v.get("multi_select"@) == Some(
            JsonView::Bool(false),
        ) ==> question_of(v) == Some(
            QuestionView { question: t, header: Some(h), options, multi_select: false },
        ),
{
}

/// An option is read as it is written, and all of them or none are.
pub proof fn law_options_are_read(
    items: Seq<JsonView>,
    v: JsonView,
    label: Seq<char>,
    d: Seq<char>,
    p: Seq<char>,
)
    ensures
        v is Object && v.get("label"@) == Some(JsonView::Text(label)) && v.get("description"@) is None
            && v.get("preview"@) is None ==> option_of(v) == Some(
            OptionView { label, description: None, preview: None },
        ),
        v is Object && v.get("label"@) == Some(JsonView::Text(label)) && v.get("description"@)
            == Some(JsonView::Text(d)) && v.get("preview"@) == Some(JsonView::Text(p))
            ==> option_of(v) == Some(
            OptionView { label, description: Some(d), preview: Some(p) },
        ),
        v is Object && v.get("label"@) is None ==> option_of(v) is None,
        options_of(Seq::empty()) == Some(Seq::<OptionView>::empty()),
        option_of(v) is None ==> options_of(items.push(v)) is None,
        options_of(items) matches Some(before) ==> (option_of(v) matches Some(o) ==> options_of(
            items.push(v),
        ) == Some(before.push(o))),
{
    assert(items.push(v).drop_last() =~= items);
}

/// The questions of a call are those that can be asked, in order: one that says
/// nothing or offers nothing is passed over; without any there is nothing to
/// ask.
pub proof fn law_questions_of_a_call(
    input: JsonView,
    a: Seq<JsonView>,
    b: Seq<JsonView>,
    v: JsonView,
    q: QuestionView,
)
    ensures
        input.get("questions"@) == Some(JsonView::Array(a)) && questions_in(a).len() > 0
            ==> questions_of(input) == Some(questions_in(a)),
        input.get("questions"@) == Some(JsonView::Array(a)) && questions_in(a).len() == 0
            ==> questions_of(input) is None,
        input.get("questions"@) is None ==> questions_of(input) is None,
        questions_in(a + b) == questions_in(a) + questions_in(b),
        question_of(v) == Some(q) && text::trimmed(q.question).len() > 0 && q.options.len() > 0
            ==> questions_in(seq![v]) == seq![q],
        question_of(v) == Some(q) && (text::trimmed(q.question).len() == 0 || q.options.len() == 0)
            ==> questions_in(seq![v]).len() == 0,
        question_of(v) is None ==> questions_in(seq![v]).len() == 0,
    decreases b.len(),
{
    reveal_with_fuel(questions_in, 2);
    assert(seq![v].drop_last() =~= Seq::<JsonView>::empty());
    if b.len() == 0 {
        assert(a + b =~= a);
        assert(questions_in(a) + questions_in(b) =~= questions_in(a));
    } else {
        law_questions_of_a_call(input, a, b.drop_last(), v, q);
        assert((a + b).drop_last() =~= a + b.drop_last());
        assert((a + b).last() == b.last());
        assert(questions_in(a + b) =~= questions_in(a) + questions_in(b));
    }
}

/// What the user chose is the answer, as it was filled in, where they wrote
/// nothing freely; where they did neither there is none.
pub proof fn law_choice_is_the_answer(
    content: Seq<(String, ElicitationContentValue)>,
    index: int,
    t: String,
    list: Vec<String>,
    b: bool,
)
    requires
        filled_in(content, custom_name(index)) is None,
    ensures
        filled_in(content, question_name(index)) == Some(ElicitationContentValue::Text(t))
            ==> answer_to(content, index) == Some(JsonView::Text(t@)),
        filled_in(content, question_name(index)) == Some(ElicitationContentValue::Boolean(b))
            ==> answer_to(content, index) == Some(JsonView::Bool(b)),
        filled_in(content, question_name(index)) == Some(ElicitationContentValue::TextList(list))
            ==> answer_to(content, index) == Some(
            JsonView::Array(Seq::new(list@.len(), |i: int| JsonView::Text(list@[i]@))),
        ),
        filled_in(content, question_name(index)) is None ==> answer_to(content, index) is None,
{
    assert(list_view(list@) =~= Seq::new(list@.len(), |i: int| JsonView::Text(list@[i]@)));
}

/// The fields of the questions are numbered, and what is filled into a field is
/// found under its name.
pub proof fn law_fields_by_name(
    content: Seq<(String, ElicitationContentValue)>,
    name: String,
    v: ElicitationContentValue,
    other: Seq<char>,
    index: nat,
)
    ensures
        question_name(index as int) == "question_"@ + text::decimal(index),
        custom_name(index as int) == "question_"@ + text::decimal(index) + "_custom"@,
        filled_in(content.push((name, v)), name@) == Some(v),
        other != name@ ==> filled_in(content.push((name, v)), other) == filled_in(content, other),
        filled_in(Seq::empty(), other) is None,
{
    assert(content.push((name, v)).drop_last() =~= content);
}

/// The answers stand by their questions: each answer is the member of its
/// question's name.
pub proof fn law_answers_by_question(
    content: Seq<(String, ElicitationContentValue)>,
    questions: Seq<QuestionView>,
    q: QuestionView,
    other: Seq<char>,
)
    ensures
        json::is_object(answers_to(content, questions)),
        answer_to(content, questions.len() as int) matches Some(a) ==> answers_to(
            content,
            questions.push(q),
        ).get(q.question) == Some(a),
        other != q.question ==> answers_to(content, questions.push(q)).get(other) == answers_to(
            content,
            questions,
        ).get(other),
        answer_to(content, questions.len() as int) is None ==> answers_to(
            content,
            questions.push(q),
        ) == answers_to(content, questions),
        answers_to(content, Seq::empty()) == JsonView::Object(Seq::empty()),
    decreases questions.len(),
{
    if questions.len() > 0 {
        law_answers_by_question(content, questions.drop_last(), questions.last(), other);
        assert(questions.drop_last().push(questions.last()) =~= questions);
        let before = answers_to(content, questions.drop_last());
        match answer_to(content, questions.len() - 1) {
            Some(a) => {
                json::lemma_with(before, questions.last().question, a, other);
            },
            None => {},
        }
    }
    assert(questions.push(q).drop_last() =~= questions);
    match answer_to(content, questions.len() as int) {
        Some(a) => {
            json::lemma_with(answers_to(content, questions), q.question, a, other);
        },
        None => {},
    }
}

/// Who sends the form answers the call: the input gets the answers and stays as
/// it is otherwise. Who declines answers nothing. Who cancels ends the call.
pub proof fn law_form_answers_the_call(
    input: JsonView,
    questions: Seq<QuestionView>,
    content: Vec<(String, ElicitationContentValue)>,
    key: Seq<char>,
)
    requires
        json::is_object(input),
    ensures
        answered(ElicitationAction::Accept(Some(content)), input, questions) matches Some(v)
            && v.get("answers"@) == Some(answers_to(content@, questions)) && (key != "answers"@
            ==> v.get(key) == input.get(key)),
        answered(ElicitationAction::Decline, input, questions) matches Some(v) && v.get("answers"@)
            == Some(JsonView::Object(Seq::empty())) && (key != "answers"@ ==> v.get(key)
            == input.get(key)),
        answered(ElicitationAction::Cancel, input, questions) is None,
        answered(ElicitationAction::Other, input, questions) is None,
{
    json::lemma_with(input, "answers"@, answers_to(content@, questions), key);
    json::lemma_with(input, "answers"@, JsonView::object(), key);
}

} // verus!
