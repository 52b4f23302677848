//! JSON values.
//!
//! [`Json`] is the library's own tree. An object is the list of its members as
//! they were written; where a key is written twice, the later value counts and
//! stands where the key stood first, which is what [`Json::view`] says. Parsing
//! and printing are `serde_json`'s.

use crate::text;
use vstd::prelude::*;
use vstd::string::*;

verus! {

/// A JSON number, carried as it came.
#[verifier::external_type_specification]
#[verifier::external_body]
pub struct ExNumber(serde_json::Number);

/// A JSON value of `serde_json`.
#[verifier::external_type_specification]
#[verifier::external_body]
pub struct ExValue(serde_json::Value);

/// What a JSON value is: the members of an object in order, each key once.
pub enum JsonView {
    Null,
    Bool(bool),
    Number(serde_json::Number),
    Text(Seq<char>),
    Array(Seq<JsonView>),
    Object(Seq<(Seq<char>, JsonView)>),
}

/// Where `key` stands last among the members, or -1.
pub open spec fn index_of_key(members: Seq<(Seq<char>, JsonView)>, key: Seq<char>) -> int
    decreases members.len(),
{
    if members.len() == 0 {
        -1
    } else if members.last().0 == key {
        members.len() - 1
    } else {
        index_of_key(members.drop_last(), key)
    }
}

/// The members after one more was written: a key that is there keeps its
/// place and gets the new value, another one comes last.
pub open spec fn with_member(
    members: Seq<(Seq<char>, JsonView)>,
    key: Seq<char>,
    value: JsonView,
) -> Seq<(Seq<char>, JsonView)> {
    let i = index_of_key(members, key);
    if 0 <= i < members.len() {
        members.update(i, (key, value))
    } else {
        members.push((key, value))
    }
}

/// The members after all of `written` were written, one after the other.
pub open spec fn members_of(written: Seq<(Seq<char>, JsonView)>) -> Seq<(Seq<char>, JsonView)>
    decreases written.len(),
{
    if written.len() == 0 {
        Seq::empty()
    } else {
        with_member(members_of(written.drop_last()), written.last().0, written.last().1)
    }
}

impl JsonView {
    /// The object without members.
    pub open spec fn object() -> JsonView {
        JsonView::Object(Seq::empty())
    }

    /// The object after one more member was written.
    pub open spec fn with(self, key: Seq<char>, value: JsonView) -> JsonView {
        match self {
            JsonView::Object(members) => JsonView::Object(with_member(members, key, value)),
            _ => self,
        }
    }

    /// The value of a member.
    pub open spec fn get(self, key: Seq<char>) -> Option<JsonView> {
        match self {
            JsonView::Object(members) => {
                let i = index_of_key(members, key);
                if 0 <= i < members.len() {
                    Some(members[i].1)
                } else {
                    None
                }
            },
            _ => None,
        }
    }

    /// An element of an array.
    pub open spec fn at(self, i: int) -> Option<JsonView> {
        match self {
            JsonView::Array(items) => if 0 <= i < items.len() {
                Some(items[i])
            } else {
                None
            },
            _ => None,
        }
    }

    pub open spec fn text(self) -> Option<Seq<char>> {
        match self {
            JsonView::Text(t) => Some(t),
            _ => None,
        }
    }

    /// The text that a member holds.
    pub open spec fn get_text(self, key: Seq<char>) -> Option<Seq<char>> {
        match self.get(key) {
            Some(JsonView::Text(t)) => Some(t),
            _ => None,
        }
    }

    /// The text that a member holds, or the default.
    pub open spec fn text_or(self, key: Seq<char>, default: Seq<char>) -> Seq<char> {
        match self.get_text(key) {
            Some(t) => t,
            None => default,
        }
    }

    /// The value of a member, or the empty object.
    pub open spec fn member_or_object(self, key: Seq<char>) -> JsonView {
        match self.get(key) {
            Some(v) => v,
            None => JsonView::object(),
        }
    }

    /// The value of a member, or null.
    pub open spec fn member_or_null(self, key: Seq<char>) -> JsonView {
        match self.get(key) {
            Some(v) => v,
            None => JsonView::Null,
        }
    }

    /// The elements of the array that a member holds.
    pub open spec fn get_array(self, key: Seq<char>) -> Option<Seq<JsonView>> {
        match self.get(key) {
            Some(JsonView::Array(items)) => Some(items),
            _ => None,
        }
    }
}

/// The number of a JSON value.
pub open spec fn count_value(n: nat) -> JsonView {
    JsonView::Number(json_number(n as u64))
}

pub open spec fn option_json_view(v: Option<&Json>) -> Option<JsonView> {
    match v {
        Some(j) => Some(j@),
        None => None,
    }
}

/// A field of a record, written as a member of an object or, where the record
/// is an array, as the element at its place.
pub open spec fn field_of(v: JsonView, key: Seq<char>, place: int) -> Option<JsonView> {
    match v {
        JsonView::Array(_) => v.at(place),
        _ => v.get(key),
    }
}

/// A record is an object, or an array with no more elements than it has fields.
pub open spec fn is_record(v: JsonView, fields: nat) -> bool {
    match v {
        JsonView::Object(_) => true,
        JsonView::Array(items) => items.len() <= fields,
        _ => false,
    }
}

/// A text that may be left out or null; `Err` for anything else.
pub open spec fn optional_text(v: Option<JsonView>) -> Result<Option<Seq<char>>, ()> {
    match v {
        None => Ok(None),
        Some(JsonView::Null) => Ok(None),
        Some(JsonView::Text(t)) => Ok(Some(t)),
        Some(_) => Err(()),
    }
}

/// The library's own JSON value.
#[derive(Debug, PartialEq)]
pub enum Json {
    Null,
    Bool(bool),
    Number(serde_json::Number),
    Text(String),
    Array(Vec<Json>),
    Object(Vec<(String, Json)>),
}

pub open spec fn json_view(j: Json) -> JsonView
    decreases j, 0int,
{
    match j {
        Json::Null => JsonView::Null,
        Json::Bool(b) => JsonView::Bool(b),
        Json::Number(n) => JsonView::Number(n),
        Json::Text(t) => JsonView::Text(t@),
        Json::Array(items) => JsonView::Array(items_view(items@)),
        Json::Object(members) => JsonView::Object(members_of(members_view(members@))),
    }
}

/// The values of a list.
pub open spec fn items_view(items: Seq<Json>) -> Seq<JsonView>
    decreases items, items.len(),
{
    if items.len() == 0 {
        Seq::empty()
    } else {
        items_view(items.drop_last()).push(json_view(items.last()))
    }
}

/// The members of a list as they were written.
pub open spec fn members_view(members: Seq<(String, Json)>) -> Seq<(Seq<char>, JsonView)>
    decreases members, members.len(),
{
    if members.len() == 0 {
        Seq::empty()
    } else {
        members_view(members.drop_last()).push(
            (members.last().0@, json_view(members.last().1)),
        )
    }
}

impl View for Json {
    type V = JsonView;

    open spec fn view(&self) -> JsonView {
        json_view(*self)
    }
}

/// One level of a `serde_json` value: the values below are still whole.
pub enum Node {
    Null,
    Bool(bool),
    Number(serde_json::Number),
    Text(String),
    Array(Vec<serde_json::Value>),
    Object(Vec<(String, serde_json::Value)>),
}

/// What a `serde_json` value holds.
pub uninterp spec fn json_of(value: serde_json::Value) -> JsonView;

/// What a text means as JSON, if it is JSON.
pub uninterp spec fn json_parsed(source: Seq<char>) -> Option<JsonView>;

/// A value printed without white space.
pub uninterp spec fn json_printed(value: JsonView) -> Seq<char>;

/// A value printed with one member or element a line.
pub uninterp spec fn json_pretty(value: JsonView) -> Seq<char>;

/// The JSON number for an unsigned integer.
pub uninterp spec fn json_number(n: u64) -> serde_json::Number;

pub open spec fn node_members(members: Seq<(String, serde_json::Value)>) -> Seq<
    (Seq<char>, JsonView),
> {
    Seq::new(members.len(), |i: int| (members[i].0@, json_of(members[i].1)))
}

/// What one level holds.
pub open spec fn node_view(node: Node) -> JsonView {
    match node {
        Node::Null => JsonView::Null,
        Node::Bool(b) => JsonView::Bool(b),
        Node::Number(n) => JsonView::Number(n),
        Node::Text(t) => JsonView::Text(t@),
        Node::Array(items) => JsonView::Array(Seq::new(items@.len(), |i: int| json_of(items@[i]))),
        Node::Object(members) => JsonView::Object(members_of(node_members(members@))),
    }
}

/// Calls `serde_json::from_str::<Value>`: the value that the text spells, or
/// nothing where the text is not JSON. The result is a function of the text.
#[verifier::external_body]
pub(crate) fn parse_value(source: &str) -> (r: Option<serde_json::Value>)
    ensures
        match r {
            Some(v) => json_parsed(source@) == Some(json_of(v)),
            None => json_parsed(source@) is None,
        },
{
    serde_json::from_str::<serde_json::Value>(source).ok()
}

/// What bytes mean as JSON, if they are JSON.
pub uninterp spec fn json_parsed_bytes(source: Seq<u8>) -> Option<JsonView>;

/// Calls `serde_json::from_slice::<Value>`: the value that the bytes spell, or
/// nothing where they are not JSON. The result is a function of the bytes; on
/// UTF-8 it is what `from_str` makes of the text.
#[verifier::external_body]
pub(crate) fn parse_value_bytes(source: &[u8]) -> (r: Option<serde_json::Value>)
    ensures
        match r {
            Some(v) => json_parsed_bytes(source@) == Some(json_of(v)),
            None => json_parsed_bytes(source@) is None,
        },
        vstd::utf8::valid_utf8(source@) ==> match r {
            Some(v) => json_parsed(vstd::utf8::decode_utf8(source@)) == Some(json_of(v)),
            None => json_parsed(vstd::utf8::decode_utf8(source@)) is None,
        },
{
    serde_json::from_slice::<serde_json::Value>(source).ok()
}

/// The value with which a text begins, as it is written there, and what follows
/// it.
pub uninterp spec fn leading_value(source: Seq<char>) -> Option<(Seq<char>, Seq<char>)>;

/// Calls `next` on the `StreamDeserializer` of a text, for `IgnoredAny`: the
/// value with which the text begins, taken over unread, and what follows it; or
/// nothing, where the text does not begin with a well-formed value. The result
/// is a function of the text. A value has at least one character.
#[verifier::external_body]
pub(crate) fn first_value(source: &str) -> (r: Option<(String, String)>)
    ensures
        match r {
            Some((value, rest)) => leading_value(source@) == Some((value@, rest@)) && value@
                + rest@ == source@ && value@.len() > 0,
            None => leading_value(source@) is None,
        },
{
    let mut values = serde_json::Deserializer::from_str(source).into_iter::<serde::de::IgnoredAny>();
    values.next()?.ok()?;
    let (value, rest) = source.split_at(values.byte_offset());
    Some((value.to_owned(), rest.to_owned()))
}

/// The number is an integer.
pub open spec fn is_integer(n: serde_json::Number) -> bool {
    ||| exists|k: u64| n == #[trigger] json_number(k)
    ||| exists|k: i64| n == #[trigger] json_signed(k)
}

/// A value whose numbers are all integers, and that is nested no deeper than
/// the given number of levels. No object begins with the one key that
/// `serde_json` keeps for itself; further on in an object it is a key like any
/// other.
pub open spec fn is_plain(v: JsonView, levels: nat) -> bool
    decreases levels,
{
    match v {
        JsonView::Number(n) => is_integer(n),
        JsonView::Array(items) => levels > 0 && forall|i: int|
            0 <= i < items.len() ==> is_plain(#[trigger] items[i], (levels - 1) as nat),
        JsonView::Object(members) => {
            &&& levels > 0
            &&& members.len() > 0 ==> members[0].0 != "$serde_json::private::RawValue"@
            &&& forall|i: int|
                0 <= i < members.len() ==> is_plain(
                    (#[trigger] members[i]).1,
                    (levels - 1) as nat,
                )
        },
        _ => true,
    }
}

/// The value is printed on one line, without white space around it, and what is
/// printed reads back as the value.
pub open spec fn reads_back(v: JsonView) -> bool {
    let printed = json_printed(v);
    &&& !printed.contains('\n')
    &&& text::trimmed(printed) == printed
    &&& json_parsed(printed) == Some(v)
}

/// Calls `Value::to_string`: the value without white space, a function of what
/// the value holds. It stands on one line; an object stands between braces; and
/// `from_str` reads the value back, unless it holds a number that is no
/// integer, whose last digit may be lost, is nested beyond the depth to which
/// `from_str` reads, or holds an object whose first key is the one that
/// `from_str` takes for a raw value.
#[verifier::external_body]
pub(crate) fn print_value(value: &serde_json::Value) -> (r: String)
    ensures
        r@ == json_printed(json_of(*value)),
        !r@.contains('\n'),
        json_of(*value) is Object ==> r@.len() >= 2 && r@[0] == '{' && r@.last() == '}',
        is_plain(json_of(*value), 127) ==> json_parsed(r@) == Some(json_of(*value)),
{
    value.to_string()
}

/// Calls `serde_json::to_string_pretty` on a `Value`, which has no key that is
/// not a string and so always prints: one member or element a line, a function
/// of what the value holds.
#[verifier::external_body]
pub(crate) fn print_value_pretty(value: &serde_json::Value) -> (r: String)
    ensures
        r@ == json_pretty(json_of(*value)),
{
    serde_json::to_string_pretty(value).unwrap_or_default()
}

/// Calls `Number::from(u64)`: the number, a function of the integer.
#[verifier::external_body]
pub(crate) fn number_of(n: u64) -> (r: serde_json::Number)
    ensures
        r == json_number(n),
{
    serde_json::Number::from(n)
}

/// Two values are the same, whatever the order of the members of an object.
pub uninterp spec fn json_equal(a: JsonView, b: JsonView) -> bool;

/// Calls `==` on two values of `serde_json`: whether they are the same, a
/// function of what they hold. A value is the same as itself.
#[verifier::external_body]
pub(crate) fn same_value(a: &serde_json::Value, b: &serde_json::Value) -> (r: bool)
    ensures
        r == json_equal(json_of(*a), json_of(*b)),
        json_of(*a) == json_of(*b) ==> r,
{
    a == b
}

/// The JSON number for a signed integer.
pub uninterp spec fn json_signed(n: i64) -> serde_json::Number;

/// Calls `Number::from(i64)`: the number, a function of the integer.
#[verifier::external_body]
pub(crate) fn signed_number_of(n: i64) -> (r: serde_json::Number)
    ensures
        r == json_signed(n),
{
    serde_json::Number::from(n)
}

/// `Number::clone` gives the same number.
pub assume_specification[ <serde_json::Number as Clone>::clone ](
    n: &serde_json::Number,
) -> (r: serde_json::Number)
    ensures
        r == *n,
;

/// A JSON number without its fraction, within the range of `i64`.
pub uninterp spec fn whole_part(n: serde_json::Number) -> Option<i64>;

/// Calls `Number::as_f64` and takes the result as an integer: a function of
/// the number.
#[verifier::external_body]
pub(crate) fn whole_part_of(n: &serde_json::Number) -> (r: Option<i64>)
    ensures
        r == whole_part(*n),
{
    n.as_f64().map(|v| v as i64)
}

/// Matches on the variant of a `Value` and moves its fields out: what the
/// value holds, level by level. The members of an object come in the order of
/// its `Map`, which has each key once.
#[verifier::external_body]
pub(crate) fn take_apart(value: serde_json::Value) -> (r: Node)
    ensures
        node_view(r) == json_of(value),
        r matches Node::Object(members) ==> json_of(value) == JsonView::Object(
            node_members(members@),
        ),
{
    match value {
        serde_json::Value::Null => Node::Null,
        serde_json::Value::Bool(b) => Node::Bool(b),
        serde_json::Value::Number(n) => Node::Number(n),
        serde_json::Value::String(s) => Node::Text(s),
        serde_json::Value::Array(items) => Node::Array(items),
        serde_json::Value::Object(members) => Node::Object(members.into_iter().collect()),
    }
}

/// Builds the `Value` of one level. For an object this is what
/// `serde_json::Map` makes of a list of members: a key that comes again keeps
/// its place and takes the later value.
#[verifier::external_body]
pub(crate) fn put_together(node: Node) -> (r: serde_json::Value)
    ensures
        json_of(r) == node_view(node),
{
    match node {
        Node::Null => serde_json::Value::Null,
        Node::Bool(b) => serde_json::Value::Bool(b),
        Node::Number(n) => serde_json::Value::Number(n),
        Node::Text(s) => serde_json::Value::String(s),
        Node::Array(items) => serde_json::Value::Array(items),
        Node::Object(members) => serde_json::Value::Object(members.into_iter().collect()),
    }
}

// ---------------------------------------------------------------------------
// Facts about the models
// ---------------------------------------------------------------------------

pub proof fn lemma_items_view(items: Seq<Json>)
    ensures
        items_view(items).len() == items.len(),
        forall|i: int| 0 <= i < items.len() ==> #[trigger] items_view(items)[i] == items[i]@,
    decreases items.len(),
{
    if items.len() > 0 {
        lemma_items_view(items.drop_last());
        assert forall|i: int| 0 <= i < items.len() implies #[trigger] items_view(items)[i]
            == items[i]@ by {
            if i < items.len() - 1 {
                assert(items_view(items)[i] == items_view(items.drop_last())[i]);
                assert(items.drop_last()[i] == items[i]);
            }
        }
    }
}

pub proof fn lemma_items_push(items: Seq<Json>, item: Json)
    ensures
        items_view(items.push(item)) == items_view(items).push(item@),
{
    assert(items.push(item).drop_last() =~= items);
}

pub proof fn lemma_members_view(members: Seq<(String, Json)>)
    ensures
        members_view(members).len() == members.len(),
        forall|i: int|
            0 <= i < members.len() ==> #[trigger] members_view(members)[i] == (
                members[i].0@,
                members[i].1@,
            ),
    decreases members.len(),
{
    if members.len() > 0 {
        lemma_members_view(members.drop_last());
        assert forall|i: int| 0 <= i < members.len() implies #[trigger] members_view(members)[i]
            == (members[i].0@, members[i].1@) by {
            if i < members.len() - 1 {
                assert(members_view(members)[i] == members_view(members.drop_last())[i]);
                assert(members.drop_last()[i] == members[i]);
            }
        }
    }
}

pub proof fn lemma_members_push(members: Seq<(String, Json)>, member: (String, Json))
    ensures
        members_view(members.push(member)) == members_view(members).push((member.0@, member.1@)),
        members_of(members_view(members.push(member))) == with_member(
            members_of(members_view(members)),
            member.0@,
            member.1@,
        ),
{
    assert(members.push(member).drop_last() =~= members);
    let written = members_view(members);
    assert(written.push((member.0@, member.1@)).drop_last() =~= written);
}

pub proof fn lemma_index_of_key(members: Seq<(Seq<char>, JsonView)>, key: Seq<char>)
    ensures
        ({
            let i = index_of_key(members, key);
            &&& -1 <= i < members.len()
            &&& i >= 0 ==> members[i].0 == key
            &&& forall|j: int| i < j < members.len() ==> (#[trigger] members[j]).0 != key
        }),
    decreases members.len(),
{
    if members.len() > 0 && members.last().0 != key {
        lemma_index_of_key(members.drop_last(), key);
        let i = index_of_key(members.drop_last(), key);
        assert forall|j: int| i < j < members.len() implies (#[trigger] members[j]).0 != key by {
            if j < members.len() - 1 {
                assert(members.drop_last()[j] == members[j]);
            }
        }
    }
}

/// No key stands twice.
pub open spec fn keys_distinct(members: Seq<(Seq<char>, JsonView)>) -> bool {
    forall|i: int, j: int|
        0 <= i < j < members.len() ==> (#[trigger] members[i]).0 != (#[trigger] members[j]).0
}

pub proof fn lemma_with_member(
    members: Seq<(Seq<char>, JsonView)>,
    key: Seq<char>,
    value: JsonView,
    other: Seq<char>,
)
    requires
        keys_distinct(members),
    ensures
        keys_distinct(with_member(members, key, value)),
        JsonView::Object(with_member(members, key, value)).get(key) == Some(value),
        other != key ==> JsonView::Object(with_member(members, key, value)).get(other)
            == JsonView::Object(members).get(other),
{
    let after = with_member(members, key, value);
    lemma_index_of_key(members, key);
    lemma_index_of_key(after, key);
    lemma_index_of_key(members, other);
    lemma_index_of_key(after, other);
    let i = index_of_key(members, key);
    if i >= 0 {
        assert(after[i].0 == key);
    } else {
        assert(after.last().0 == key);
    }
    if other != key {
        let a = index_of_key(members, other);
        let b = index_of_key(after, other);
        if a >= 0 {
            assert(after[a] == members[a]);
            assert(b >= 0);
        }
        if b >= 0 {
            assert(b < members.len());
            assert(after[b] == members[b]);
        }
    }
}

/// The members of an object have distinct keys.
pub open spec fn is_object(v: JsonView) -> bool {
    v matches JsonView::Object(members) && keys_distinct(members)
}

/// A member that was written is found, and no other member changes.
pub proof fn lemma_with(v: JsonView, key: Seq<char>, value: JsonView, other: Seq<char>)
    requires
        is_object(v),
    ensures
        is_object(v.with(key, value)),
        v.with(key, value).get(key) == Some(value),
        other != key ==> v.with(key, value).get(other) == v.get(other),
{
    lemma_with_member(v->Object_0, key, value, other);
}

/// Written members are found: the last one written under a key is the one.
pub proof fn lemma_members_of(written: Seq<(Seq<char>, JsonView)>, key: Seq<char>)
    ensures
        keys_distinct(members_of(written)),
        JsonView::Object(members_of(written)).get(key) == {
            let i = index_of_key(written, key);
            if i >= 0 {
                Some(written[i].1)
            } else {
                None
            }
        },
    decreases written.len(),
{
    lemma_index_of_key(written, key);
    if written.len() > 0 {
        let before = written.drop_last();
        lemma_members_of(before, key);
        lemma_index_of_key(before, key);
        lemma_with_member(members_of(before), written.last().0, written.last().1, key);
    }
}

/// The object that a value is has each of its keys once.
pub proof fn lemma_keys_of_a_value(v: Json)
    ensures
        v@ is Object ==> is_object(v@),
{
    match v {
        Json::Object(members) => {
            lemma_members_of(members_view(members@), Seq::empty());
        },
        _ => {},
    }
}

/// Distinct members are kept as they are written.
pub proof fn lemma_members_of_distinct(written: Seq<(Seq<char>, JsonView)>)
    requires
        keys_distinct(written),
    ensures
        members_of(written) == written,
    decreases written.len(),
{
    if written.len() > 0 {
        let before = written.drop_last();
        assert forall|i: int, j: int| 0 <= i < j < before.len() implies (#[trigger] before[i]).0
            != (#[trigger] before[j]).0 by {
            assert(written[i].0 != written[j].0);
        }
        lemma_members_of_distinct(before);
        lemma_index_of_key(before, written.last().0);
        let i = index_of_key(before, written.last().0);
        if i >= 0 {
            assert(written[i].0 != written[written.len() - 1].0);
        }
        assert(before.push((written.last().0, written.last().1)) =~= written);
    } else {
        assert(written =~= Seq::<(Seq<char>, JsonView)>::empty());
    }
}

/// A member that was written is read back, and no other member changes.
pub proof fn law_member_read_back(object: Json, key: Seq<char>, value: JsonView, other: Seq<char>)
    requires
        object is Object,
    ensures
        object@.with(key, value).get(key) == Some(value),
        other != key ==> object@.with(key, value).get(other) == object@.get(other),
{
    let written = members_view(object->Object_0@);
    lemma_members_of(written, key);
    lemma_with_member(members_of(written), key, value, other);
}

// ---------------------------------------------------------------------------
// Functions
// ---------------------------------------------------------------------------

/// The library's value for one of `serde_json`.
pub(crate) fn from_value(value: serde_json::Value) -> (r: Json)
    ensures
        r@ == json_of(value),
    decreases json_of(value),
{
    let ghost whole = json_of(value);
    match take_apart(value) {
        Node::Null => Json::Null,
        Node::Bool(b) => Json::Bool(b),
        Node::Number(n) => Json::Number(n),
        Node::Text(t) => Json::Text(t),
        Node::Array(items) => {
            let ghost all = items@;
            let ghost wanted = Seq::new(all.len(), |i: int| json_of(all[i]));
            let mut done: Vec<Json> = Vec::new();
            for item in it: items
                invariant
                    it.seq() == all,
                    whole == json_of(value),
                    whole == JsonView::Array(wanted),
                    wanted == Seq::new(all.len(), |i: int| json_of(all[i])),
                    done@.len() == it.index(),
                    items_view(done@) =~= wanted.take(it.index()),
            {
                let ghost n = done@.len() as int;
                proof {
                    assert(wanted[n] == json_of(all[n]));
                    assert(decreases_to!(whole => whole->Array_0));
                    assert(decreases_to!(whole->Array_0 => whole->Array_0[n]));
                }
                let j = from_value(item);
                proof {
                    lemma_items_push(done@, j);
                }
                done.push(j);
            }
            proof {
                assert(items_view(done@) =~= wanted);
            }
            Json::Array(done)
        },
        Node::Object(members) => {
            let ghost all = members@;
            let ghost wanted = node_members(all);
            let mut done: Vec<(String, Json)> = Vec::new();
            for (key, item) in it: members
                invariant
                    it.seq() == all,
                    whole == json_of(value),
                    whole == JsonView::Object(wanted),
                    wanted == node_members(all),
                    done@.len() == it.index(),
                    members_view(done@) =~= wanted.take(it.index()),
            {
                let ghost n = done@.len() as int;
                proof {
                    assert(wanted[n] == (all[n].0@, json_of(all[n].1)));
                    assert(decreases_to!(whole => whole->Object_0));
                    assert(decreases_to!(whole->Object_0 => whole->Object_0[n]));
                    assert(decreases_to!(whole->Object_0[n] => whole->Object_0[n].1));
                }
                let j = from_value(item);
                proof {
                    lemma_members_push(done@, (key, j));
                }
                done.push((key, j));
            }
            proof {
                assert(members_view(done@) =~= wanted);
            }
            Json::Object(done)
        },
    }
}

/// The value of `serde_json` for one of the library.
pub(crate) fn to_value(json: &Json) -> (r: serde_json::Value)
    ensures
        json_of(r) == json@,
    decreases json,
{
    match json {
        Json::Null => put_together(Node::Null),
        Json::Bool(b) => put_together(Node::Bool(*b)),
        Json::Number(n) => put_together(Node::Number(n.clone())),
        Json::Text(t) => put_together(Node::Text(t.clone())),
        Json::Array(items) => {
            let mut done: Vec<serde_json::Value> = Vec::new();
            let mut i: usize = 0;
            while i < items.len()
                invariant
                    i <= items@.len(),
                    done@.len() == i,
                    *json == Json::Array(*items),
                    forall|k: int| 0 <= k < i ==> json_of(#[trigger] done@[k]) == items@[k]@,
                decreases items@.len() - i,
            {
                proof {
                    assert(decreases_to!(json => json->Array_0));
                    assert(decreases_to!(items@ => items@[i as int]));
                }
                done.push(to_value(&items[i]));
                i += 1;
            }
            proof {
                lemma_items_view(items@);
                assert(items_view(items@) =~= Seq::new(done@.len(), |k: int| json_of(done@[k])));
            }
            put_together(Node::Array(done))
        },
        Json::Object(members) => {
            let mut done: Vec<(String, serde_json::Value)> = Vec::new();
            let mut i: usize = 0;
            while i < members.len()
                invariant
                    i <= members@.len(),
                    done@.len() == i,
                    *json == Json::Object(*members),
                    forall|k: int|
                        0 <= k < i ==> (#[trigger] done@[k]).0@ == members@[k].0@ && json_of(
                            done@[k].1,
                        ) == members@[k].1@,
                decreases members@.len() - i,
            {
                proof {
                    assert(decreases_to!(json => json->Object_0));
                    assert(decreases_to!(members@ => members@[i as int]));
                    assert(decreases_to!(members@[i as int] => members@[i as int].1));
                }
                done.push((members[i].0.clone(), to_value(&members[i].1)));
                i += 1;
            }
            proof {
                lemma_members_view(members@);
                assert(members_view(members@) =~= node_members(done@));
            }
            put_together(Node::Object(done))
        },
    }
}

impl Clone for Json {
    fn clone(&self) -> (r: Self)
        ensures
            r@ == self@,
        decreases self,
    {
        match self {
            Json::Null => Json::Null,
            Json::Bool(b) => Json::Bool(*b),
            Json::Number(n) => Json::Number(n.clone()),
            Json::Text(t) => Json::Text(t.clone()),
            Json::Array(items) => {
                let mut done: Vec<Json> = Vec::new();
                let mut i: usize = 0;
                while i < items.len()
                    invariant
                        i <= items@.len(),
                        *self == Json::Array(*items),
                        items_view(done@) == items_view(items@.take(i as int)),
                    decreases items@.len() - i,
                {
                    proof {
                        assert(decreases_to!(self => self->Array_0));
                        assert(decreases_to!(items@ => items@[i as int]));
                        assert(items@.take(i + 1).drop_last() =~= items@.take(i as int));
                    }
                    let item = items[i].clone();
                    proof {
                        lemma_items_push(done@, item);
                    }
                    done.push(item);
                    i += 1;
                }
                proof {
                    assert(items@.take(items@.len() as int) =~= items@);
                }
                Json::Array(done)
            },
            Json::Object(members) => {
                let mut done: Vec<(String, Json)> = Vec::new();
                let mut i: usize = 0;
                while i < members.len()
                    invariant
                        i <= members@.len(),
                        *self == Json::Object(*members),
                        members_view(done@) == members_view(members@.take(i as int)),
                    decreases members@.len() - i,
                {
                    proof {
                        assert(decreases_to!(self => self->Object_0));
                        assert(decreases_to!(members@ => members@[i as int]));
                        assert(decreases_to!(members@[i as int] => members@[i as int].1));
                        assert(members@.take(i + 1).drop_last() =~= members@.take(i as int));
                    }
                    let key = members[i].0.clone();
                    let item = members[i].1.clone();
                    proof {
                        lemma_members_push(done@, (key, item));
                    }
                    done.push((key, item));
                    i += 1;
                }
                proof {
                    assert(members@.take(members@.len() as int) =~= members@);
                }
                Json::Object(done)
            },
        }
    }
}

/// The same values once more.
pub fn copy_items(items: &Vec<Json>) -> (r: Vec<Json>)
    ensures
        items_view(r@) == items_view(items@),
{
    let mut out: Vec<Json> = Vec::new();
    let mut i: usize = 0;
    while i < items.len()
        invariant
            i <= items@.len(),
            items_view(out@) == items_view(items@.take(i as int)),
        decreases items@.len() - i,
    {
        let item = items[i].clone();
        proof {
            lemma_items_push(out@, item);
            assert(items@.take(i + 1).drop_last() =~= items@.take(i as int));
        }
        out.push(item);
        i += 1;
    }
    proof {
        assert(items@.take(items@.len() as int) =~= items@);
    }
    out
}

impl Json {
    /// The value that a text spells, if it is JSON.
    pub fn parse(source: &str) -> (r: Option<Json>)
        ensures
            match r {
                Some(j) => json_parsed(source@) == Some(j@),
                None => json_parsed(source@) is None,
            },
    {
        match parse_value(source) {
            Some(v) => Some(from_value(v)),
            None => None,
        }
    }

    /// The value that bytes spell, if they are JSON.
    pub fn parse_bytes(source: &[u8]) -> (r: Option<Json>)
        ensures
            match r {
                Some(j) => json_parsed_bytes(source@) == Some(j@),
                None => json_parsed_bytes(source@) is None,
            },
    {
        match parse_value_bytes(source) {
            Some(v) => Some(from_value(v)),
            None => None,
        }
    }

    /// The value printed without white space. An object without fractions reads
    /// back.
    pub fn print(&self) -> (r: String)
        ensures
            r@ == json_printed(self@),
            self@ is Object && is_plain(self@, 127) ==> reads_back(self@),
    {
        print_value(&to_value(self))
    }

    /// The value printed with one member or element a line.
    pub fn print_pretty(&self) -> (r: String)
        ensures
            r@ == json_pretty(self@),
    {
        print_value_pretty(&to_value(self))
    }

    /// Whether two values are the same, whatever the order of the members.
    pub fn same(&self, other: &Json) -> (r: bool)
        ensures
            r == json_equal(self@, other@),
            self@ == other@ ==> r,
    {
        same_value(&to_value(self), &to_value(other))
    }

    /// The value, as the only element of an array.
    pub fn list_of(item: Json) -> (r: Json)
        ensures
            r@ == JsonView::Array(seq![item@]),
    {
        let mut items: Vec<Json> = Vec::new();
        proof {
            lemma_items_push(items@, item);
            assert(Seq::<JsonView>::empty().push(item@) =~= seq![item@]);
        }
        items.push(item);
        Json::Array(items)
    }

    /// The array without elements.
    pub fn empty_list() -> (r: Json)
        ensures
            r@ == JsonView::Array(Seq::empty()),
    {
        Json::Array(Vec::new())
    }

    /// The text, as a value.
    pub fn from_text(t: &str) -> (r: Json)
        ensures
            r@ == JsonView::Text(t@),
    {
        Json::Text(t.to_owned())
    }

    /// The integer, as a value.
    pub fn from_integer(n: u64) -> (r: Json)
        ensures
            r@ == JsonView::Number(json_number(n)),
    {
        Json::Number(number_of(n))
    }

    /// The signed integer, as a value.
    pub fn from_signed(n: i64) -> (r: Json)
        ensures
            r@ == JsonView::Number(json_signed(n)),
    {
        Json::Number(signed_number_of(n))
    }

    /// The object without members.
    pub fn object() -> (r: Json)
        ensures
            r is Object,
            r@ == JsonView::object(),
    {
        let members: Vec<(String, Json)> = Vec::new();
        Json::Object(members)
    }

    /// The object after one more member was written.
    pub fn with(self, key: &str, value: Json) -> (r: Json)
        ensures
            self is Object ==> r is Object,
            r@ == self@.with(key@, value@),
    {
        match self {
            Json::Object(mut members) => {
                let member = (key.to_owned(), value);
                proof {
                    lemma_members_push(members@, member);
                }
                members.push(member);
                Json::Object(members)
            },
            other => other,
        }
    }

    /// The value of a member.
    pub fn get(&self, key: &str) -> (r: Option<&Json>)
        ensures
            match r {
                Some(j) => self@.get(key@) == Some(j@),
                None => self@.get(key@) is None,
            },
    {
        match self {
            Json::Object(members) => {
                let ghost written = members_view(members@);
                proof {
                    lemma_members_view(members@);
                    lemma_members_of(written, key@);
                    lemma_index_of_key(written, key@);
                }
                let mut i: usize = members.len();
                while i > 0
                    invariant
                        i <= members@.len(),
                        written.len() == members@.len(),
                        forall|k: int|
                            0 <= k < written.len() ==> #[trigger] written[k] == (
                                members@[k].0@,
                                members@[k].1@,
                            ),
                        forall|k: int| i <= k < written.len() ==> (#[trigger] written[k]).0 != key@,
                        -1 <= index_of_key(written, key@) < written.len(),
                        index_of_key(written, key@) >= 0 ==> written[index_of_key(
                            written,
                            key@,
                        )].0 == key@,
                        forall|k: int|
                            index_of_key(written, key@) < k < written.len() ==> (
                            #[trigger] written[k]).0 != key@,
                        self@.get(key@) == {
                            let at = index_of_key(written, key@);
                            if at >= 0 {
                                Some(written[at].1)
                            } else {
                                None
                            }
                        },
                    decreases i,
                {
                    i -= 1;
                    proof {
                        assert(written[i as int] == (members@[i as int].0@, members@[i as int].1@));
                    }
                    if text::same(members[i].0.as_str(), key) {
                        return Some(&members[i].1);
                    }
                }
                None
            },
            _ => None,
        }
    }

    /// An element of an array.
    pub fn at(&self, i: usize) -> (r: Option<&Json>)
        ensures
            match r {
                Some(j) => self@.at(i as int) == Some(j@),
                None => self@.at(i as int) is None,
            },
    {
        match self {
            Json::Array(items) => {
                proof {
                    lemma_items_view(items@);
                }
                if i < items.len() {
                    proof {
                        assert(items_view(items@)[i as int] == items@[i as int]@);
                    }
                    Some(&items[i])
                } else {
                    None
                }
            },
            _ => None,
        }
    }

    pub fn as_text(&self) -> (r: Option<&str>)
        ensures
            match r {
                Some(t) => self@.text() == Some(t@),
                None => self@.text() is None,
            },
    {
        match self {
            Json::Text(t) => Some(t.as_str()),
            _ => None,
        }
    }

    pub fn as_array(&self) -> (r: Option<&Vec<Json>>)
        ensures
            match r {
                Some(items) => self@ == JsonView::Array(items_view(items@)),
                None => !(self@ is Array),
            },
    {
        match self {
            Json::Array(items) => Some(items),
            _ => None,
        }
    }

    /// The text that a member holds.
    pub fn get_text(&self, key: &str) -> (r: Option<&str>)
        ensures
            match r {
                Some(t) => self@.get_text(key@) == Some(t@),
                None => self@.get_text(key@) is None,
            },
    {
        match self.get(key) {
            Some(Json::Text(t)) => Some(t.as_str()),
            _ => None,
        }
    }

    /// The text that a member holds, or the default.
    pub fn text_or<'a>(&'a self, key: &str, default: &'a str) -> (r: &'a str)
        ensures
            r@ == self@.text_or(key@, default@),
    {
        match self.get_text(key) {
            Some(t) => t,
            None => default,
        }
    }

    /// The value of a member, or the empty object.
    pub fn member_or_object(&self, key: &str) -> (r: Json)
        ensures
            r@ == self@.member_or_object(key@),
    {
        match self.get(key) {
            Some(v) => v.clone(),
            None => Json::object(),
        }
    }

    /// The value of a member, or null.
    pub fn member_or_null(&self, key: &str) -> (r: Json)
        ensures
            r@ == self@.member_or_null(key@),
    {
        match self.get(key) {
            Some(v) => v.clone(),
            None => Json::Null,
        }
    }

    /// The elements of the array that a member holds.
    pub fn get_array(&self, key: &str) -> (r: Option<&Vec<Json>>)
        ensures
            match r {
                Some(items) => self@.get_array(key@) == Some(items_view(items@)),
                None => self@.get_array(key@) is None,
            },
    {
        match self.get(key) {
            Some(Json::Array(items)) => Some(items),
            _ => None,
        }
    }
}

/// Where `key` stands among the members, if it does.
pub fn position_of(members: &Vec<(String, Json)>, key: &str) -> (r: Option<usize>)
    ensures
        match r {
            Some(i) => i < members@.len() && index_of_key(members_view(members@), key@) == i,
            None => index_of_key(members_view(members@), key@) == -1,
        },
{
    let ghost written = members_view(members@);
    proof {
        lemma_members_view(members@);
        lemma_index_of_key(written, key@);
    }
    let mut i: usize = members.len();
    while i > 0
        invariant
            i <= members@.len(),
            written == members_view(members@),
            written.len() == members@.len(),
            forall|k: int|
                0 <= k < written.len() ==> #[trigger] written[k] == (
                    members@[k].0@,
                    members@[k].1@,
                ),
            -1 <= index_of_key(written, key@) < i,
            index_of_key(written, key@) >= 0 ==> written[index_of_key(written, key@)].0 == key@,
            forall|k: int|
                index_of_key(written, key@) < k < written.len() ==> (#[trigger] written[k]).0
                    != key@,
        decreases i,
    {
        i -= 1;
        proof {
            assert(written[i as int] == (members@[i as int].0@, members@[i as int].1@));
        }
        if text::same(members[i].0.as_str(), key) {
            return Some(i);
        }
    }
    None
}

/// The members with each key once, in order.
pub fn distinct_members(members: Vec<(String, Json)>) -> (r: Vec<(String, Json)>)
    ensures
        members_view(r@) == members_of(members_view(members@)),
        keys_distinct(members_view(r@)),
{
    let ghost all = members@;
    let ghost written = members_view(all);
    let mut out: Vec<(String, Json)> = Vec::new();
    proof {
        lemma_members_view(all);
    }
    for (key, value) in it: members
        invariant
            it.seq() == all,
            written == members_view(all),
            written.len() == all.len(),
            forall|k: int| 0 <= k < all.len() ==> #[trigger] written[k] == (all[k].0@, all[k].1@),
            members_view(out@) == members_of(written.take(it.index())),
    {
        let ghost n = it.index();
        let ghost before = out@;
        proof {
            assert(written.take(n + 1).drop_last() =~= written.take(n));
            assert(written.take(n + 1).last() == (key@, value@));
            lemma_members_view(before);
        }
        match position_of(&out, key.as_str()) {
            Some(i) => {
                out[i] = (key, value);
                proof {
                    lemma_members_view(out@);
                    assert(members_view(out@) =~= members_view(before).update(
                        i as int,
                        (key@, value@),
                    ));
                }
            },
            None => {
                proof {
                    lemma_members_push(before, (key, value));
                }
                out.push((key, value));
            },
        }
    }
    proof {
        assert(written.take(all.len() as int) =~= written);
        lemma_members_of(written, Seq::empty());
    }
    out
}

/// A field of a record.
pub fn read_field<'a>(v: &'a Json, key: &str, place: usize) -> (r: Option<&'a Json>)
    ensures
        match r {
            Some(j) => field_of(v@, key@, place as int) == Some(j@),
            None => field_of(v@, key@, place as int) is None,
        },
{
    match v {
        Json::Array(_) => v.at(place),
        _ => v.get(key),
    }
}

/// Whether a value is a record.
pub fn reads_as_record(v: &Json, fields: usize) -> (r: bool)
    ensures
        r == is_record(v@, fields as nat),
{
    match v {
        Json::Object(_) => true,
        Json::Array(items) => {
            proof {
                lemma_items_view(items@);
            }
            items.len() <= fields
        },
        _ => false,
    }
}

/// A text that may be left out or null.
pub fn read_optional_text(v: Option<&Json>) -> (r: Result<Option<String>, ()>)
    ensures
        ({
            let given = match v {
                Some(j) => Some(j@),
                None => None,
            };
            match r {
                Ok(t) => optional_text(given) == Ok::<Option<Seq<char>>, ()>(text::option_view(t)),
                Err(_) => optional_text(given) is Err,
            }
        }),
{
    match v {
        None => Ok(None),
        Some(Json::Null) => Ok(None),
        Some(Json::Text(t)) => Ok(Some(t.clone())),
        Some(_) => Err(()),
    }
}

// ---------------------------------------------------------------------------
// What is read of a value
// ---------------------------------------------------------------------------


/// A member is found wherever it stands, and one that is not there is not
/// found.
pub proof fn law_a_member_is_found(members: Seq<(Seq<char>, JsonView)>, i: int, key: Seq<char>)
    requires
        keys_distinct(members),
        0 <= i < members.len(),
    ensures
        JsonView::Object(members).get(members[i].0) == Some(members[i].1),
        (forall|k: int| 0 <= k < members.len() ==> (#[trigger] members[k]).0 != key)
            ==> JsonView::Object(members).get(key) is None,
        JsonView::object().get(key) is None,
{
    lemma_index_of_key(members, members[i].0);
    lemma_index_of_key(members, key);
    let j = index_of_key(members, members[i].0);
    if j != i && j >= 0 {
        if i < j {
            assert(members[i].0 != members[j].0);
        } else {
            assert(members[j].0 != members[i].0);
        }
    }
}

/// What is asked of a member in one of the short forms is what the member
/// holds, and the default only where it holds nothing of the kind.
pub proof fn law_short_forms_read_the_member(v: JsonView, key: Seq<char>, default: Seq<char>)
    ensures
        v.get(key) is None ==> {
            &&& v.get_text(key) is None
            &&& v.text_or(key, default) == default
            &&& v.get_array(key) is None
            &&& v.member_or_null(key) == JsonView::Null
            &&& v.member_or_object(key) == JsonView::Object(Seq::empty())
        },
        v.get(key) matches Some(m) ==> {
            &&& v.member_or_null(key) == m
            &&& v.member_or_object(key) == m
            &&& m matches JsonView::Text(t) ==> v.get_text(key) == Some(t) && v.text_or(
                key,
                default,
            ) == t
            &&& !(m is Text) ==> v.get_text(key) is None && v.text_or(key, default) == default
            &&& m matches JsonView::Array(items) ==> v.get_array(key) == Some(items)
            &&& !(m is Array) ==> v.get_array(key) is None
        },
{
}

/// An element of an array is found at its place, and nowhere else.
pub proof fn law_an_element_is_found(items: Seq<JsonView>, i: int)
    ensures
        0 <= i < items.len() ==> JsonView::Array(items).at(i) == Some(items[i]),
        !(0 <= i < items.len()) ==> JsonView::Array(items).at(i) is None,
{
}

/// What is written into an object stands there under its key, a new key last,
/// and nothing else changes.
pub proof fn law_written_members_stand_in_order(
    members: Seq<(Seq<char>, JsonView)>,
    key: Seq<char>,
    value: JsonView,
)
    requires
        forall|k: int| 0 <= k < members.len() ==> (#[trigger] members[k]).0 != key,
    ensures
        JsonView::Object(members).with(key, value) == JsonView::Object(members.push((key, value))),
{
    lemma_index_of_key(members, key);
}

/// The members of an object of one member.
pub proof fn lemma_object_of_1(
    k1: Seq<char>,
    v1: JsonView,
)
    ensures
        ({
            let o = JsonView::object().with(k1, v1);
            &&& is_object(o)
            &&& o.get(k1) == Some(v1)
        }),
{
    lemma_with(JsonView::object(), k1, v1, k1);
}

/// The members of an object of two members.
pub proof fn lemma_object_of_2(
    k1: Seq<char>,
    v1: JsonView,
    k2: Seq<char>,
    v2: JsonView,
)
    requires
        k1 != k2,
    ensures
        ({
            let o = JsonView::object().with(k1, v1).with(k2, v2);
            &&& is_object(o)
            &&& o.get(k1) == Some(v1)
            &&& o.get(k2) == Some(v2)
        }),
{
    lemma_with(JsonView::object(), k1, v1, k1);
    lemma_with(JsonView::object().with(k1, v1), k2, v2, k1);
}

/// The members of an object of three members.
pub proof fn lemma_object_of_3(
    k1: Seq<char>,
    v1: JsonView,
    k2: Seq<char>,
    v2: JsonView,
    k3: Seq<char>,
    v3: JsonView,
)
    requires
        k1 != k2,
        k1 != k3,
        k2 != k3,
    ensures
        ({
            let o = JsonView::object().with(k1, v1).with(k2, v2).with(k3, v3);
            &&& is_object(o)
            &&& o.get(k1) == Some(v1)
            &&& o.get(k2) == Some(v2)
            &&& o.get(k3) == Some(v3)
        }),
{
    lemma_with(JsonView::object(), k1, v1, k1);
    lemma_with(JsonView::object().with(k1, v1), k2, v2, k1);
    lemma_with(JsonView::object().with(k1, v1).with(k2, v2), k3, v3, k1);
    lemma_with(JsonView::object().with(k1, v1).with(k2, v2), k3, v3, k2);
}

/// The members of an object of four members.
pub proof fn lemma_object_of_4(
    k1: Seq<char>,
    v1: JsonView,
    k2: Seq<char>,
    v2: JsonView,
    k3: Seq<char>,
    v3: JsonView,
    k4: Seq<char>,
    v4: JsonView,
)
    requires
        k1 != k2,
        k1 != k3,
        k1 != k4,
        k2 != k3,
        k2 != k4,
        k3 != k4,
    ensures
        ({
            let o = JsonView::object().with(k1, v1).with(k2, v2).with(k3, v3).with(k4, v4);
            &&& is_object(o)
            &&& o.get(k1) == Some(v1)
            &&& o.get(k2) == Some(v2)
            &&& o.get(k3) == Some(v3)
            &&& o.get(k4) == Some(v4)
        }),
{
    lemma_with(JsonView::object(), k1, v1, k1);
    lemma_with(JsonView::object().with(k1, v1), k2, v2, k1);
    lemma_with(JsonView::object().with(k1, v1).with(k2, v2), k3, v3, k1);
    lemma_with(JsonView::object().with(k1, v1).with(k2, v2), k3, v3, k2);
    lemma_with(JsonView::object().with(k1, v1).with(k2, v2).with(k3, v3), k4, v4, k1);
    lemma_with(JsonView::object().with(k1, v1).with(k2, v2).with(k3, v3), k4, v4, k2);
    lemma_with(JsonView::object().with(k1, v1).with(k2, v2).with(k3, v3), k4, v4, k3);
}

/// The members of an object of five members.
pub proof fn lemma_object_of_5(
    k1: Seq<char>,
    v1: JsonView,
    k2: Seq<char>,
    v2: JsonView,
    k3: Seq<char>,
    v3: JsonView,
    k4: Seq<char>,
    v4: JsonView,
    k5: Seq<char>,
    v5: JsonView,
)
    requires
        k1 != k2,
        k1 != k3,
        k1 != k4,
        k1 != k5,
        k2 != k3,
        k2 != k4,
        k2 != k5,
        k3 != k4,
        k3 != k5,
        k4 != k5,
    ensures
        ({
            let o = JsonView::object().with(k1, v1).with(k2, v2).with(k3, v3).with(k4, v4).with(k5, v5);
            &&& is_object(o)
            &&& o.get(k1) == Some(v1)
            &&& o.get(k2) == Some(v2)
            &&& o.get(k3) == Some(v3)
            &&& o.get(k4) == Some(v4)
            &&& o.get(k5) == Some(v5)
        }),
{
    lemma_with(JsonView::object(), k1, v1, k1);
    lemma_with(JsonView::object().with(k1, v1), k2, v2, k1);
    lemma_with(JsonView::object().with(k1, v1).with(k2, v2), k3, v3, k1);
    lemma_with(JsonView::object().with(k1, v1).with(k2, v2), k3, v3, k2);
    lemma_with(JsonView::object().with(k1, v1).with(k2, v2).with(k3, v3), k4, v4, k1);
    lemma_with(JsonView::object().with(k1, v1).with(k2, v2).with(k3, v3), k4, v4, k2);
    lemma_with(JsonView::object().with(k1, v1).with(k2, v2).with(k3, v3), k4, v4, k3);
    lemma_with(JsonView::object().with(k1, v1).with(k2, v2).with(k3, v3).with(k4, v4), k5, v5, k1);
    lemma_with(JsonView::object().with(k1, v1).with(k2, v2).with(k3, v3).with(k4, v4), k5, v5, k2);
    lemma_with(JsonView::object().with(k1, v1).with(k2, v2).with(k3, v3).with(k4, v4), k5, v5, k3);
    lemma_with(JsonView::object().with(k1, v1).with(k2, v2).with(k3, v3).with(k4, v4), k5, v5, k4);
}

/// The members of an object of six members.
pub proof fn lemma_object_of_6(
    k1: Seq<char>,
    v1: JsonView,
    k2: Seq<char>,
    v2: JsonView,
    k3: Seq<char>,
    v3: JsonView,
    k4: Seq<char>,
    v4: JsonView,
    k5: Seq<char>,
    v5: JsonView,
    k6: Seq<char>,
    v6: JsonView,
)
    requires
        k1 != k2,
        k1 != k3,
        k1 != k4,
        k1 != k5,
        k1 != k6,
        k2 != k3,
        k2 != k4,
        k2 != k5,
        k2 != k6,
        k3 != k4,
        k3 != k5,
        k3 != k6,
        k4 != k5,
        k4 != k6,
        k5 != k6,
    ensures
        ({
            let o = JsonView::object().with(k1, v1).with(k2, v2).with(k3, v3).with(k4, v4).with(k5, v5).with(k6, v6);
            &&& is_object(o)
            &&& o.get(k1) == Some(v1)
            &&& o.get(k2) == Some(v2)
            &&& o.get(k3) == Some(v3)
            &&& o.get(k4) == Some(v4)
            &&& o.get(k5) == Some(v5)
            &&& o.get(k6) == Some(v6)
        }),
{
    lemma_with(JsonView::object(), k1, v1, k1);
    lemma_with(JsonView::object().with(k1, v1), k2, v2, k1);
    lemma_with(JsonView::object().with(k1, v1).with(k2, v2), k3, v3, k1);
    lemma_with(JsonView::object().with(k1, v1).with(k2, v2), k3, v3, k2);
    lemma_with(JsonView::object().with(k1, v1).with(k2, v2).with(k3, v3), k4, v4, k1);
    lemma_with(JsonView::object().with(k1, v1).with(k2, v2).with(k3, v3), k4, v4, k2);
    lemma_with(JsonView::object().with(k1, v1).with(k2, v2).with(k3, v3), k4, v4, k3);
    lemma_with(JsonView::object().with(k1, v1).with(k2, v2).with(k3, v3).with(k4, v4), k5, v5, k1);
    lemma_with(JsonView::object().with(k1, v1).with(k2, v2).with(k3, v3).with(k4, v4), k5, v5, k2);
    lemma_with(JsonView::object().with(k1, v1).with(k2, v2).with(k3, v3).with(k4, v4), k5, v5, k3);
    lemma_with(JsonView::object().with(k1, v1).with(k2, v2).with(k3, v3).with(k4, v4), k5, v5, k4);
    lemma_with(JsonView::object().with(k1, v1).with(k2, v2).with(k3, v3).with(k4, v4).with(k5, v5), k6, v6, k1);
    lemma_with(JsonView::object().with(k1, v1).with(k2, v2).with(k3, v3).with(k4, v4).with(k5, v5), k6, v6, k2);
    lemma_with(JsonView::object().with(k1, v1).with(k2, v2).with(k3, v3).with(k4, v4).with(k5, v5), k6, v6, k3);
    lemma_with(JsonView::object().with(k1, v1).with(k2, v2).with(k3, v3).with(k4, v4).with(k5, v5), k6, v6, k4);
    lemma_with(JsonView::object().with(k1, v1).with(k2, v2).with(k3, v3).with(k4, v4).with(k5, v5), k6, v6, k5);
}

/// The members of an object of seven members.
pub proof fn lemma_object_of_7(
    k1: Seq<char>,
    v1: JsonView,
    k2: Seq<char>,
    v2: JsonView,
    k3: Seq<char>,
    v3: JsonView,
    k4: Seq<char>,
    v4: JsonView,
    k5: Seq<char>,
    v5: JsonView,
    k6: Seq<char>,
    v6: JsonView,
    k7: Seq<char>,
    v7: JsonView,
)
    requires
        k1 != k2,
        k1 != k3,
        k1 != k4,
        k1 != k5,
        k1 != k6,
        k1 != k7,
        k2 != k3,
        k2 != k4,
        k2 != k5,
        k2 != k6,
        k2 != k7,
        k3 != k4,
        k3 != k5,
        k3 != k6,
        k3 != k7,
        k4 != k5,
        k4 != k6,
        k4 != k7,
        k5 != k6,
        k5 != k7,
        k6 != k7,
    ensures
        ({
            let o = JsonView::object().with(k1, v1).with(k2, v2).with(k3, v3).with(k4, v4).with(k5, v5).with(k6, v6).with(k7, v7);
            &&& is_object(o)
            &&& o.get(k1) == Some(v1)
            &&& o.get(k2) == Some(v2)
            &&& o.get(k3) == Some(v3)
            &&& o.get(k4) == Some(v4)
            &&& o.get(k5) == Some(v5)
            &&& o.get(k6) == Some(v6)
            &&& o.get(k7) == Some(v7)
        }),
{
    lemma_with(JsonView::object(), k1, v1, k1);
    lemma_with(JsonView::object().with(k1, v1), k2, v2, k1);
    lemma_with(JsonView::object().with(k1, v1).with(k2, v2), k3, v3, k1);
    lemma_with(JsonView::object().with(k1, v1).with(k2, v2), k3, v3, k2);
    lemma_with(JsonView::object().with(k1, v1).with(k2, v2).with(k3, v3), k4, v4, k1);
    lemma_with(JsonView::object().with(k1, v1).with(k2, v2).with(k3, v3), k4, v4, k2);
    lemma_with(JsonView::object().with(k1, v1).with(k2, v2).with(k3, v3), k4, v4, k3);
    lemma_with(JsonView::object().with(k1, v1).with(k2, v2).with(k3, v3).with(k4, v4), k5, v5, k1);
    lemma_with(JsonView::object().with(k1, v1).with(k2, v2).with(k3, v3).with(k4, v4), k5, v5, k2);
    lemma_with(JsonView::object().with(k1, v1).with(k2, v2).with(k3, v3).with(k4, v4), k5, v5, k3);
    lemma_with(JsonView::object().with(k1, v1).with(k2, v2).with(k3, v3).with(k4, v4), k5, v5, k4);
    lemma_with(JsonView::object().with(k1, v1).with(k2, v2).with(k3, v3).with(k4, v4).with(k5, v5), k6, v6, k1);
    lemma_with(JsonView::object().with(k1, v1).with(k2, v2).with(k3, v3).with(k4, v4).with(k5, v5), k6, v6, k2);
    lemma_with(JsonView::object().with(k1, v1).with(k2, v2).with(k3, v3).with(k4, v4).with(k5, v5), k6, v6, k3);
    lemma_with(JsonView::object().with(k1, v1).with(k2, v2).with(k3, v3).with(k4, v4).with(k5, v5), k6, v6, k4);
    lemma_with(JsonView::object().with(k1, v1).with(k2, v2).with(k3, v3).with(k4, v4).with(k5, v5), k6, v6, k5);
    lemma_with(JsonView::object().with(k1, v1).with(k2, v2).with(k3, v3).with(k4, v4).with(k5, v5).with(k6, v6), k7, v7, k1);
    lemma_with(JsonView::object().with(k1, v1).with(k2, v2).with(k3, v3).with(k4, v4).with(k5, v5).with(k6, v6), k7, v7, k2);
    lemma_with(JsonView::object().with(k1, v1).with(k2, v2).with(k3, v3).with(k4, v4).with(k5, v5).with(k6, v6), k7, v7, k3);
    lemma_with(JsonView::object().with(k1, v1).with(k2, v2).with(k3, v3).with(k4, v4).with(k5, v5).with(k6, v6), k7, v7, k4);
    lemma_with(JsonView::object().with(k1, v1).with(k2, v2).with(k3, v3).with(k4, v4).with(k5, v5).with(k6, v6), k7, v7, k5);
    lemma_with(JsonView::object().with(k1, v1).with(k2, v2).with(k3, v3).with(k4, v4).with(k5, v5).with(k6, v6), k7, v7, k6);
}

/// A record is read by the names of its fields where it is an object, and by
/// their places where it is a list, which has no more places than fields.
pub proof fn law_records_by_name_or_place(
    members: Seq<(Seq<char>, JsonView)>,
    items: Seq<JsonView>,
    key: Seq<char>,
    place: int,
    fields: nat,
    t: Seq<char>,
)
    ensures
        field_of(JsonView::Object(members), key, place) == JsonView::Object(members).get(key),
        0 <= place < items.len() ==> field_of(JsonView::Array(items), key, place) == Some(
            items[place],
        ),
        place >= items.len() ==> field_of(JsonView::Array(items), key, place) is None,
        is_record(JsonView::Object(members), fields),
        is_record(JsonView::Array(items), fields) <==> items.len() <= fields,
        !is_record(JsonView::Text(t), fields),
        optional_text(None) == Ok::<Option<Seq<char>>, ()>(None),
        optional_text(Some(JsonView::Null)) == Ok::<Option<Seq<char>>, ()>(None),
        optional_text(Some(JsonView::Text(t))) == Ok::<Option<Seq<char>>, ()>(Some(t)),
        optional_text(Some(JsonView::Array(items))) is Err,
{
}

} // verus!
