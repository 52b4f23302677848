//! The body of a request, and the tokens that the page of the service holds.

use crate::gemini::models;
use crate::gemini::models::{Resolved, ResolvedView};
use crate::json;
use crate::json::{Json, JsonView};
use crate::outside;
use crate::text;
use vstd::prelude::*;
use vstd::string::*;
use vstd::utf8::encode_utf8;

verus! {

// ---------------------------------------------------------------------------
// Form encoding
// ---------------------------------------------------------------------------

/// A byte that stands for itself in a form.
pub open spec fn is_plain_byte(b: u8) -> bool {
    ||| 0x30 <= b <= 0x39
    ||| 0x41 <= b <= 0x5a
    ||| 0x61 <= b <= 0x7a
    ||| b == 0x2a
    ||| b == 0x2d
    ||| b == 0x2e
    ||| b == 0x5f
}

/// The upper-case hexadecimal digit for a number below sixteen.
pub open spec fn upper_hex(n: int) -> char {
    if n < 10 {
        (('0' as u32) + n) as char
    } else {
        (('A' as u32) + (n - 10)) as char
    }
}

/// A byte as it stands in a form.
pub open spec fn form_byte(b: u8) -> Seq<char> {
    if is_plain_byte(b) {
        seq![(b as u32) as char]
    } else if b == 0x20 {
        seq!['+']
    } else {
        seq!['%', upper_hex(b as int / 16), upper_hex(b as int % 16)]
    }
}

/// Bytes as they stand in a form.
pub open spec fn form_bytes(bytes: Seq<u8>) -> Seq<char>
    decreases bytes.len(),
{
    if bytes.len() == 0 {
        Seq::empty()
    } else {
        form_bytes(bytes.drop_last()) + form_byte(bytes.last())
    }
}

/// A text as it stands in a form.
pub open spec fn form_text(s: Seq<char>) -> Seq<char> {
    form_bytes(encode_utf8(s))
}

pub open spec fn pairs_view(pairs: Seq<(String, String)>) -> Seq<(Seq<char>, Seq<char>)> {
    Seq::new(pairs.len(), |i: int| (pairs[i].0@, pairs[i].1@))
}

/// A form: `name=value` for each pair, with `&` between two.
pub open spec fn form_of(pairs: Seq<(Seq<char>, Seq<char>)>) -> Seq<char> {
    text::joined(
        Seq::new(pairs.len(), |i: int| form_text(pairs[i].0) + "="@ + form_text(pairs[i].1)),
        "&"@,
    )
}

/// The number that a hexadecimal digit stands for.
pub open spec fn hex_value(c: char) -> int {
    if '0' <= c <= '9' {
        c as u32 - '0' as u32
    } else {
        c as u32 - 'A' as u32 + 10
    }
}

/// The bytes that a text in a form stands for, read from position `i` on.
pub open spec fn read_form(s: Seq<char>, i: int) -> Seq<u8>
    decreases s.len() - i,
{
    if i < 0 || i >= s.len() {
        Seq::empty()
    } else if s[i] == '%' && i + 2 < s.len() {
        seq![(hex_value(s[i + 1]) * 16 + hex_value(s[i + 2])) as u8] + read_form(s, i + 3)
    } else if s[i] == '+' {
        seq![0x20u8] + read_form(s, i + 1)
    } else {
        seq![(s[i] as u32) as u8] + read_form(s, i + 1)
    }
}

proof fn lemma_read_form_tail(head: Seq<char>, s: Seq<char>, i: int)
    requires
        0 <= i,
    ensures
        read_form(head + s, head.len() + i) == read_form(s, i),
    decreases s.len() - i,
{
    if i < s.len() {
        assert((head + s)[head.len() + i] == s[i]);
        if s[i] == '%' && i + 2 < s.len() {
            assert((head + s)[head.len() + i + 1] == s[i + 1]);
            assert((head + s)[head.len() + i + 2] == s[i + 2]);
            lemma_read_form_tail(head, s, i + 3);
        } else {
            lemma_read_form_tail(head, s, i + 1);
        }
    }
}

proof fn lemma_form_bytes_front(bytes: Seq<u8>)
    requires
        bytes.len() > 0,
    ensures
        form_bytes(bytes) == form_byte(bytes[0]) + form_bytes(bytes.drop_first()),
    decreases bytes.len(),
{
    if bytes.len() == 1 {
        assert(bytes.drop_last() =~= Seq::<u8>::empty());
        assert(bytes.drop_first() =~= Seq::<u8>::empty());
        assert(form_bytes(bytes) =~= form_byte(bytes[0]) + form_bytes(bytes.drop_first()));
    } else {
        let front = bytes.drop_last();
        lemma_form_bytes_front(front);
        assert(bytes.drop_first().drop_last() =~= front.drop_first());
        assert(form_bytes(bytes) =~= form_byte(bytes[0]) + form_bytes(bytes.drop_first()));
    }
}

/// What is written into a form is read back.
pub proof fn law_form_read_back(bytes: Seq<u8>)
    ensures
        read_form(form_bytes(bytes), 0) == bytes,
    decreases bytes.len(),
{
    if bytes.len() == 0 {
        assert(bytes =~= Seq::<u8>::empty());
    } else {
        let b = bytes[0];
        let rest = form_bytes(bytes.drop_first());
        let head = form_byte(b);
        lemma_form_bytes_front(bytes);
        law_form_read_back(bytes.drop_first());
        lemma_read_form_tail(head, rest, 0);
        let all = head + rest;
        assert(all[0] == head[0]);
        if !is_plain_byte(b) && b != 0x20 {
            assert(all[1] == head[1]);
            assert(all[2] == head[2]);
            let high = b as int / 16;
            let low = b as int % 16;
            assert(hex_value(upper_hex(high)) == high);
            assert(hex_value(upper_hex(low)) == low);
            assert(high * 16 + low == b);
        }
        assert(seq![b] + bytes.drop_first() =~= bytes);
    }
}

fn upper_digit(n: u8) -> (r: char)
    requires
        n < 16,
    ensures
        r == upper_hex(n as int),
{
    if n < 10 {
        (48 + n) as char
    } else {
        (55 + n) as char
    }
}

fn encode_text(s: &str) -> (r: String)
    ensures
        r@ == form_text(s@),
{
    let bytes = s.as_bytes();
    let ghost all = bytes@;
    let mut out: String = String::new();
    let mut i: usize = 0;
    while i < bytes.len()
        invariant
            i <= bytes@.len(),
            all == bytes@,
            all == encode_utf8(s@),
            out@ == form_bytes(all.take(i as int)),
        decreases bytes@.len() - i,
    {
        let b: u8 = bytes[i];
        let ghost before = out@;
        proof {
            assert(all.take(i + 1).drop_last() =~= all.take(i as int));
            assert(all.take(i + 1).last() == b);
        }
        if (0x30 <= b && b <= 0x39) || (0x41 <= b && b <= 0x5a) || (0x61 <= b && b <= 0x7a) || b
            == 0x2a || b == 0x2d || b == 0x2e || b == 0x5f {
            out.push(b as char);
        } else if b == 0x20 {
            out.push('+');
        } else {
            out.push('%');
            out.push(upper_digit(b / 16));
            out.push(upper_digit(b % 16));
        }
        proof {
            assert(out@ =~= before + form_byte(b));
        }
        i += 1;
    }
    proof {
        assert(all.take(all.len() as int) =~= all);
    }
    out
}

/// A form: `name=value` for each pair, with `&` between two.
pub fn form_urlencode(params: &[(String, String)]) -> (r: String)
    ensures
        r@ == form_of(pairs_view(params@)),
{
    let ghost pairs = pairs_view(params@);
    let ghost wanted = Seq::new(
        pairs.len(),
        |i: int| form_text(pairs[i].0) + "="@ + form_text(pairs[i].1),
    );
    let mut parts: Vec<String> = Vec::new();
    let mut i: usize = 0;
    while i < params.len()
        invariant
            i <= params@.len(),
            pairs == pairs_view(params@),
            wanted == Seq::new(
                pairs.len(),
                |i: int| form_text(pairs[i].0) + "="@ + form_text(pairs[i].1),
            ),
            text::texts_of(parts@) =~= wanted.take(i as int),
        decreases params@.len() - i,
    {
        let name = encode_text(params[i].0.as_str());
        let value = encode_text(params[i].1.as_str());
        let part = text::cat3(name.as_str(), "=", value.as_str());
        proof {
            text::lemma_texts_push(parts@, part);
        }
        parts.push(part);
        i += 1;
    }
    proof {
        assert(text::texts_of(parts@) =~= wanted);
    }
    text::join(parts.as_slice(), "&")
}

// ---------------------------------------------------------------------------
// The body
// ---------------------------------------------------------------------------

/// How many slots a request has.
pub const SLOTS: usize = 102;

/// The references of the images, each in a list of its own, or null where there
/// are none.
pub open spec fn refs_view(refs: Seq<Seq<char>>) -> JsonView {
    if refs.len() == 0 {
        JsonView::Null
    } else {
        JsonView::Array(
            Seq::new(
                refs.len(),
                |i: int|
                    JsonView::Array(
                        seq![JsonView::Null, JsonView::Null, JsonView::Text(refs[i])],
                    ),
            ),
        )
    }
}

/// The value that the model puts into a slot, the last one where it names
/// several.
pub open spec fn extra_value(extra: Seq<(u32, i64)>, slot: int) -> Option<i64>
    decreases extra.len(),
{
    if extra.len() == 0 {
        None
    } else if extra.last().0 == slot {
        Some(extra.last().1)
    } else {
        extra_value(extra.drop_last(), slot)
    }
}

/// What the slots of a request hold before the model fills its own: the prompt
/// with the images, the level of thinking, an identifier, the mode.
pub open spec fn common_slot(
    slot: int,
    prompt: Seq<char>,
    refs: Seq<Seq<char>>,
    m: ResolvedView,
    id: Seq<char>,
) -> JsonView {
    if slot == 0 {
        JsonView::Array(
            seq![JsonView::Text(prompt), JsonView::Null, JsonView::Null, refs_view(refs)],
        )
    } else if slot == 17 {
        JsonView::Array(
            seq![JsonView::Array(seq![JsonView::Number(json::json_number(m.think as u64))])],
        )
    } else if slot == 59 {
        JsonView::Text(id)
    } else if slot == 79 {
        JsonView::Number(json::json_number(m.mode as u64))
    } else {
        JsonView::Null
    }
}

/// The slots of a request.
pub open spec fn slots_of(
    prompt: Seq<char>,
    refs: Seq<Seq<char>>,
    m: ResolvedView,
    id: Seq<char>,
) -> JsonView {
    JsonView::Array(
        Seq::new(
            SLOTS as nat,
            |i: int|
                {
                    let own = match m.extra {
                        Some(extra) => extra_value(extra, i),
                        None => None,
                    };
                    match own {
                        Some(v) => JsonView::Number(json::json_signed(v)),
                        None => common_slot(i, prompt, refs, m, id),
                    }
                },
        ),
    )
}

/// The slots, printed, in the envelope of a request.
pub open spec fn envelope(slots: JsonView) -> JsonView {
    JsonView::Array(seq![JsonView::Null, JsonView::Text(json::json_printed(slots))])
}

/// The body of a request.
pub open spec fn body_of(slots: JsonView, at: Option<Seq<char>>) -> Seq<char> {
    let request = ("f.req"@, json::json_printed(envelope(slots)));
    match at {
        Some(token) => form_of(seq![request, ("at"@, token)]),
        None => form_of(seq![request]),
    }
}

fn refs_json(refs: &[String]) -> (r: Json)
    ensures
        r@ == refs_view(text::texts_of(refs@)),
{
    if refs.len() == 0 {
        return Json::Null;
    }
    let ghost wanted = Seq::new(
        refs@.len(),
        |i: int|
            JsonView::Array(seq![JsonView::Null, JsonView::Null, JsonView::Text(refs@[i]@)]),
    );
    let mut out: Vec<Json> = Vec::new();
    let mut i: usize = 0;
    while i < refs.len()
        invariant
            i <= refs@.len(),
            wanted == Seq::new(
                refs@.len(),
                |i: int|
                    JsonView::Array(
                        seq![JsonView::Null, JsonView::Null, JsonView::Text(refs@[i]@)],
                    ),
            ),
            json::items_view(out@) =~= wanted.take(i as int),
        decreases refs@.len() - i,
    {
        let mut one: Vec<Json> = Vec::new();
        one.push(Json::Null);
        one.push(Json::Null);
        one.push(Json::Text(refs[i].clone()));
        proof {
            json::lemma_items_view(one@);
            assert(json::items_view(one@) =~= seq![
                JsonView::Null,
                JsonView::Null,
                JsonView::Text(refs@[i as int]@),
            ]);
        }
        let item = Json::Array(one);
        proof {
            json::lemma_items_push(out@, item);
        }
        out.push(item);
        i += 1;
    }
    proof {
        assert(json::items_view(out@) =~= wanted);
        assert(refs_view(text::texts_of(refs@)) == JsonView::Array(wanted)) by {
            assert(Seq::new(
                text::texts_of(refs@).len(),
                |i: int|
                    JsonView::Array(
                        seq![
                            JsonView::Null,
                            JsonView::Null,
                            JsonView::Text(text::texts_of(refs@)[i]),
                        ],
                    ),
            ) =~= wanted);
        }
    }
    Json::Array(out)
}

fn find_extra(extra: &Option<Vec<(u32, i64)>>, slot: usize) -> (r: Option<i64>)
    ensures
        r == match models::extra_view(*extra) {
            Some(e) => extra_value(e, slot as int),
            None => None,
        },
{
    match extra {
        Some(list) => {
            let mut i: usize = list.len();
            proof {
                assert(list@.take(i as int) =~= list@);
            }
            while i > 0
                invariant
                    *extra == Some(*list),
                    i <= list@.len(),
                    extra_value(list@, slot as int) == extra_value(
                        list@.take(i as int),
                        slot as int,
                    ),
                decreases i,
            {
                proof {
                    assert(list@.take(i as int).drop_last() =~= list@.take(i - 1));
                    assert(list@.take(i as int).last() == list@[i - 1]);
                }
                i -= 1;
                if list[i].0 as usize == slot {
                    return Some(list[i].1);
                }
            }
            None
        },
        None => None,
    }
}

fn common_json(slot: usize, prompt: &str, refs: &[String], m: &Resolved, id: &str) -> (r: Json)
    ensures
        r@ == common_slot(slot as int, prompt@, text::texts_of(refs@), m@, id@),
{
    if slot == 0 {
        let mut first: Vec<Json> = Vec::new();
        first.push(Json::from_text(prompt));
        first.push(Json::Null);
        first.push(Json::Null);
        first.push(refs_json(refs));
        proof {
            json::lemma_items_view(first@);
            assert(json::items_view(first@) =~= seq![
                JsonView::Text(prompt@),
                JsonView::Null,
                JsonView::Null,
                refs_view(text::texts_of(refs@)),
            ]);
        }
        Json::Array(first)
    } else if slot == 17 {
        let mut level: Vec<Json> = Vec::new();
        level.push(Json::from_integer(m.think as u64));
        proof {
            json::lemma_items_view(level@);
            assert(json::items_view(level@) =~= seq![
                JsonView::Number(json::json_number(m.think as u64)),
            ]);
        }
        let mut levels: Vec<Json> = Vec::new();
        let ghost inner = JsonView::Array(json::items_view(level@));
        levels.push(Json::Array(level));
        proof {
            json::lemma_items_view(levels@);
            assert(json::items_view(levels@) =~= seq![inner]);
        }
        Json::Array(levels)
    } else if slot == 59 {
        Json::from_text(id)
    } else if slot == 79 {
        Json::from_integer(m.mode as u64)
    } else {
        Json::Null
    }
}

/// The slots of a request under the given identifier.
pub fn slots(prompt: &str, refs: &[String], m: &Resolved, id: &str) -> (r: Json)
    ensures
        r@ == slots_of(prompt@, text::texts_of(refs@), m@, id@),
{
    let ghost wanted = slots_of(prompt@, text::texts_of(refs@), m@, id@)->Array_0;
    let mut out: Vec<Json> = Vec::new();
    let mut i: usize = 0;
    while i < SLOTS
        invariant
            i <= SLOTS,
            wanted == slots_of(prompt@, text::texts_of(refs@), m@, id@)->Array_0,
            wanted.len() == SLOTS,
            json::items_view(out@) =~= wanted.take(i as int),
        decreases SLOTS - i,
    {
        let item: Json = match find_extra(&m.extra, i) {
            Some(v) => Json::from_signed(v),
            None => common_json(i, prompt, refs, m, id),
        };
        proof {
            json::lemma_items_push(out@, item);
        }
        out.push(item);
        i += 1;
    }
    proof {
        assert(json::items_view(out@) =~= wanted);
    }
    Json::Array(out)
}

/// The body of a request with the given slots and token.
pub fn body(slots: &Json, at: Option<&str>) -> (r: String)
    ensures
        r@ == body_of(slots@, text::option_str_view(at)),
{
    let printed = slots.print();
    let mut outer: Vec<Json> = Vec::new();
    outer.push(Json::Null);
    outer.push(Json::Text(printed));
    proof {
        json::lemma_items_view(outer@);
        assert(json::items_view(outer@) =~= seq![
            JsonView::Null,
            JsonView::Text(json::json_printed(slots@)),
        ]);
    }
    let request = Json::Array(outer).print();
    let mut params: Vec<(String, String)> = Vec::new();
    params.push(("f.req".to_owned(), request));
    match at {
        Some(token) => {
            params.push(("at".to_owned(), token.to_owned()));
            proof {
                assert(pairs_view(params@) =~= seq![
                    ("f.req"@, json::json_printed(envelope(slots@))),
                    ("at"@, token@),
                ]);
            }
        },
        None => {
            proof {
                assert(pairs_view(params@) =~= seq![
                    ("f.req"@, json::json_printed(envelope(slots@))),
                ]);
            }
        },
    }
    form_urlencode(params.as_slice())
}

/// The body of a request: the prompt for the model, the images, and the token
/// of the page, under a new identifier.
pub fn payload(prompt: &str, m: &Resolved, refs: &[String], at: Option<&str>) -> (r: String)
    ensures
        exists|id: Seq<char>|
            #[trigger] outside::is_grouped_id(id) && r@ == body_of(
                slots_of(prompt@, text::texts_of(refs@), m@, id),
                text::option_str_view(at),
            ),
{
    let id = outside::grouped_id();
    let filled = slots(prompt, refs, m, id.as_str());
    body(&filled, at)
}

// ---------------------------------------------------------------------------
// The page
// ---------------------------------------------------------------------------

/// The tokens that the page of the service holds, as far as they were found.
#[derive(Debug)]
pub struct PageTokens {
    /// `SNlM0e`: goes with every prompt.
    pub at: Option<String>,
    /// `qKIAYe`: goes with an upload.
    pub push_id: Option<String>,
    /// `Ylro7b`: goes with an upload.
    pub pctx: Option<String>,
}

/// What stands between quotes after the key, if it stands there.
pub open spec fn quoted_after(body: Seq<char>, key: Seq<char>) -> Option<Seq<char>> {
    match text::first_match(body, key) {
        Some(i) => {
            let rest = body.skip(i + key.len());
            match text::first_match(rest, "\""@) {
                Some(end) => Some(rest.take(end)),
                None => None,
            }
        },
        None => None,
    }
}

fn find_quoted(body: &str, key: &str) -> (r: Option<String>)
    ensures
        text::option_view(r) == quoted_after(body@, key@),
{
    match text::split_once(body, key) {
        Some((_, rest)) => match text::split_once(rest, "\"") {
            Some((value, _)) => Some(value.to_owned()),
            None => None,
        },
        None => None,
    }
}

/// The three tokens of a page: the one for prompts, and the two for uploads.
pub open spec fn tokens_in(page: Seq<char>) -> (
    Option<Seq<char>>,
    Option<Seq<char>>,
    Option<Seq<char>>,
) {
    (
        quoted_after(page, "\"SNlM0e\":\""@),
        quoted_after(page, "\"qKIAYe\":\""@),
        quoted_after(page, "\"Ylro7b\":\""@),
    )
}

/// The tokens that a page holds.
pub fn extract_page_tokens(page: &str) -> (r: PageTokens)
    ensures
        text::option_view(r.at) == quoted_after(page@, "\"SNlM0e\":\""@),
        text::option_view(r.push_id) == quoted_after(page@, "\"qKIAYe\":\""@),
        text::option_view(r.pctx) == quoted_after(page@, "\"Ylro7b\":\""@),
        tokens_in(page@) == (
            text::option_view(r.at),
            text::option_view(r.push_id),
            text::option_view(r.pctx),
        ),
{
    PageTokens {
        at: find_quoted(page, "\"SNlM0e\":\""),
        push_id: find_quoted(page, "\"qKIAYe\":\""),
        pctx: find_quoted(page, "\"Ylro7b\":\""),
    }
}

// ---------------------------------------------------------------------------
// What a request holds
// ---------------------------------------------------------------------------


/// A request has 102 slots: the prompt with the images in the first, the level of
/// thinking in slot 17, an identifier in slot 59, the mode in slot 79; what the
/// model sets for itself stands in its own slots, and the others are null.
pub proof fn law_slots_of_a_request(
    prompt: Seq<char>,
    refs: Seq<Seq<char>>,
    m: ResolvedView,
    id: Seq<char>,
    i: int,
)
    requires
        0 <= i < 102,
    ensures
        slots_of(prompt, refs, m, id) matches JsonView::Array(slots) && slots.len() == 102 && (
        m.extra is None ==> {
            &&& slots[0].at(0) == Some(JsonView::Text(prompt))
            &&& slots[0].at(3) == Some(refs_view(refs))
            &&& slots[17] == JsonView::Array(
                seq![JsonView::Array(seq![JsonView::Number(json::json_number(m.think as u64))])],
            )
            &&& slots[59] == JsonView::Text(id)
            &&& slots[79] == JsonView::Number(json::json_number(m.mode as u64))
            &&& i != 0 && i != 17 && i != 59 && i != 79 ==> slots[i] == JsonView::Null
        }) && (m.extra matches Some(extra) ==> {
            &&& extra_value(extra, i) matches Some(v) ==> slots[i] == JsonView::Number(
                json::json_signed(v),
            )
            &&& extra_value(extra, 0) is None ==> slots[0].at(0) == Some(JsonView::Text(prompt))
            &&& extra_value(extra, 79) is None ==> slots[79] == JsonView::Number(
                json::json_number(m.mode as u64),
            )
            &&& extra_value(extra, 17) is None ==> slots[17] == JsonView::Array(
                seq![JsonView::Array(seq![JsonView::Number(json::json_number(m.think as u64))])],
            )
        }),
{
}

/// A slot that the model sets holds what it sets, the last word where there are
/// several.
pub proof fn law_own_slots(extra: Seq<(u32, i64)>, slot: u32, v: i64, other: int)
    ensures
        extra_value(extra.push((slot, v)), slot as int) == Some(v),
        other != slot ==> extra_value(extra.push((slot, v)), other) == extra_value(extra, other),
        extra_value(Seq::empty(), other) is None,
{
    assert(extra.push((slot, v)).drop_last() =~= extra);
}

/// Every image stands in the request by its reference, in order; without images
/// the place is null.
pub proof fn law_images_by_reference(refs: Seq<Seq<char>>, i: int)
    ensures
        refs.len() == 0 ==> refs_view(refs) == JsonView::Null,
        0 <= i < refs.len() ==> (refs_view(refs) matches JsonView::Array(list) && list.len()
            == refs.len() && list[i].at(2) == Some(JsonView::Text(refs[i]))),
{
}

/// The body of a request is a form: the slots, printed in their envelope, under
/// `f.req`, and the token of the page, where there is one, under `at`.
pub proof fn law_body_is_a_form(slots: JsonView, token: Seq<char>)
    ensures
        ({
            let printed = json::json_printed(
                JsonView::Array(seq![JsonView::Null, JsonView::Text(json::json_printed(slots))]),
            );
            &&& body_of(slots, None) == form_text("f.req"@) + "="@ + form_text(printed)
            &&& body_of(slots, Some(token)) == form_text("f.req"@) + "="@ + form_text(printed)
                + "&"@ + (form_text("at"@) + "="@ + form_text(token))
        }),
{
    let printed = json::json_printed(envelope(slots));
    let a = ("f.req"@, printed);
    let b = ("at"@, token);
    let one = Seq::new(
        seq![a].len(),
        |i: int| form_text(seq![a][i].0) + "="@ + form_text(seq![a][i].1),
    );
    let first = form_text("f.req"@) + "="@ + form_text(printed);
    let second = form_text("at"@) + "="@ + form_text(token);
    assert(one =~= seq![first]);
    let two = Seq::new(
        seq![a, b].len(),
        |i: int| form_text(seq![a, b][i].0) + "="@ + form_text(seq![a, b][i].1),
    );
    assert(two =~= seq![first, second]);
    assert(two.drop_last() =~= seq![first]);
    reveal_with_fuel(text::joined, 3);
}

/// Letters, digits and the four marks stand in a form as they are, a space as
/// `+`, and every other byte as `%` with its two digits.
pub proof fn law_bytes_of_a_form(b: u8)
    ensures
        (0x30 <= b <= 0x39 || 0x41 <= b <= 0x5a || 0x61 <= b <= 0x7a || b == 0x2a || b == 0x2d || b
            == 0x2e || b == 0x5f) ==> form_byte(b) == seq![(b as u32) as char],
        b == 0x20 ==> form_byte(b) == seq!['+'],
        (b < 0x20 || b == 0x26 || b == 0x3d || b == 0x25 || b == 0x2b || b >= 0x80) ==> form_byte(
            b,
        ).len() == 3 && form_byte(b)[0] == '%',
{
}

/// A token stands on the page between quotes behind its name, and is read whole.
pub proof fn law_token_is_read(before: Seq<char>, token: Seq<char>, after: Seq<char>, key: Seq<char>)
    requires
        !token.contains('"'),
        text::first_match(before + key + token + seq!['"'] + after, key) == Some(
            before.len() as int,
        ),
    ensures
        quoted_after(before + key + token + seq!['"'] + after, key) == Some(token),
        key == "\"SNlM0e\":\""@ ==> tokens_in(before + key + token + seq!['"'] + after).0 == Some(
            token,
        ),
        key == "\"qKIAYe\":\""@ ==> tokens_in(before + key + token + seq!['"'] + after).1 == Some(
            token,
        ),
        key == "\"Ylro7b\":\""@ ==> tokens_in(before + key + token + seq!['"'] + after).2 == Some(
            token,
        ),
{
    reveal_strlit("\"");
    let page = before + key + token + seq!['"'] + after;
    let rest = page.skip(before.len() as int + key.len());
    assert(rest =~= token + seq!['"'] + after);
    let n = token.len() as int;
    assert(rest.subrange(n, n + 1) =~= "\""@);
    assert(text::matches_at(rest, "\""@, n));
    assert forall|j: int| 0 <= j < n implies !text::matches_at(rest, "\""@, j) by {
        assert(rest.subrange(j, j + 1)[0] == token[j]);
        assert("\""@[0] == '"');
        assert(token.contains(token[j]));
    }
    text::lemma_find_from_is(rest, "\""@, 0, n);
    assert(rest.take(n) =~= token);
}

} // verus!
