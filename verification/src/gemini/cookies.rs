//! The cookies of a Google session, read from one of three formats: an export
//! of EditThisCookie (an array of JSON), an object `{"cookie", "sapisid"}`, or
//! the bare text `k=v; k2=v2`.

use crate::gemini::clock;
use crate::json;
use crate::json::{Json, JsonView};
use crate::record;
use crate::text;
use vstd::prelude::*;
use vstd::string::*;

verus! {

/// A cookie, whatever format it came in.
#[derive(Debug, Clone, PartialEq, Eq)]
pub struct Cookie {
    pub name: String,
    pub value: String,
    /// `.google.com`, `gemini.google.com`, …; none in the bare format.
    pub domain: Option<String>,
    /// The Unix second in which it expires; none for a session cookie.
    pub expires_at: Option<i64>,
}

pub struct CookieView {
    pub name: Seq<char>,
    pub value: Seq<char>,
    pub domain: Option<Seq<char>>,
    pub expires_at: Option<i64>,
}

impl View for Cookie {
    type V = CookieView;

    open spec fn view(&self) -> CookieView {
        CookieView {
            name: self.name@,
            value: self.value@,
            domain: text::option_view(self.domain),
            expires_at: self.expires_at,
        }
    }
}

pub open spec fn cookies_view(cookies: Seq<Cookie>) -> Seq<CookieView> {
    Seq::new(cookies.len(), |i: int| cookies[i]@)
}

/// `google.com` or a domain below it.
pub open spec fn google_domain(domain: Seq<char>) -> bool {
    domain == "google.com"@ || text::ends_with_spec(domain, ".google.com"@)
}

/// A cookie that is sent: named, not empty, not expired, and not of another
/// domain.
pub open spec fn is_sent(c: CookieView, now: i64) -> bool {
    &&& c.name.len() > 0
    &&& c.value.len() > 0
    &&& match c.expires_at {
        Some(exp) => exp > now,
        None => true,
    }
    &&& match c.domain {
        Some(d) => google_domain(d),
        None => true,
    }
}

/// The pairs `name=value` of the cookies that are sent, in order.
pub open spec fn sent_pairs(cookies: Seq<CookieView>, now: i64) -> Seq<Seq<char>>
    decreases cookies.len(),
{
    if cookies.len() == 0 {
        Seq::empty()
    } else {
        let before = sent_pairs(cookies.drop_last(), now);
        let c = cookies.last();
        if is_sent(c, now) {
            before.push(c.name + "="@ + c.value)
        } else {
            before
        }
    }
}

/// Only the cookies that are sent make the header: a cookie that is empty, has
/// expired or is of another domain adds nothing, and the order is kept.
pub proof fn law_only_valid_cookies_are_sent(cookies: Seq<CookieView>, now: i64)
    ensures
        sent_pairs(cookies, now) == cookies.filter(|c: CookieView| is_sent(c, now)).map_values(
            |c: CookieView| c.name + "="@ + c.value,
        ),
    decreases cookies.len(),
{
    reveal(Seq::filter);
    let sent = |c: CookieView| is_sent(c, now);
    let pair = |c: CookieView| c.name + "="@ + c.value;
    if cookies.len() > 0 {
        law_only_valid_cookies_are_sent(cookies.drop_last(), now);
    }
    assert(sent_pairs(cookies, now) =~= cookies.filter(sent).map_values(pair));
}

/// The cookies and the explicit `SAPISID`.
pub struct JarView {
    pub cookies: Seq<CookieView>,
    pub sapisid: Option<Seq<char>>,
}

/// The header `Cookie`, if there is anything to send.
pub open spec fn header_of(jar: JarView, now: i64) -> Option<Seq<char>> {
    let pairs = text::joined(sent_pairs(jar.cookies, now), "; "@);
    if pairs.len() == 0 {
        None
    } else {
        Some(pairs)
    }
}

/// The value of the first cookie of that name.
pub open spec fn value_of(cookies: Seq<CookieView>, name: Seq<char>) -> Option<Seq<char>>
    decreases cookies.len(),
{
    if cookies.len() == 0 {
        None
    } else {
        match value_of(cookies.drop_last(), name) {
            Some(v) => Some(v),
            None => if cookies.last().name == name {
                Some(cookies.last().value)
            } else {
                None
            },
        }
    }
}

/// The `SAPISID`: the explicit one, else that of the cookie of this name.
pub open spec fn sapisid_of(jar: JarView) -> Option<Seq<char>> {
    match jar.sapisid {
        Some(s) => Some(s),
        None => value_of(jar.cookies, "SAPISID"@),
    }
}

// ---------------------------------------------------------------------------
// The three formats
// ---------------------------------------------------------------------------

/// The cookie that a piece `name=value` of the bare format gives.
pub open spec fn cookie_in_pair(pair: Seq<char>) -> Option<CookieView> {
    let p = text::trimmed(pair);
    match text::first_match(p, "="@) {
        Some(i) => Some(
            CookieView {
                name: text::trimmed(p.take(i)),
                value: text::trimmed(p.skip(i + "="@.len())),
                domain: None,
                expires_at: None,
            },
        ),
        None => None,
    }
}

pub open spec fn cookies_in_pairs(pairs: Seq<Seq<char>>) -> Seq<CookieView>
    decreases pairs.len(),
{
    if pairs.len() == 0 {
        Seq::empty()
    } else {
        let before = cookies_in_pairs(pairs.drop_last());
        match cookie_in_pair(pairs.last()) {
            Some(c) => before.push(c),
            None => before,
        }
    }
}

/// The cookies of the bare format.
pub open spec fn bare_cookies(input: Seq<char>) -> Seq<CookieView> {
    cookies_in_pairs(text::split_at_char(input, ';'))
}

/// What the value of a field is as JSON, if it is JSON.
pub type Field = Option<JsonView>;

/// An entry of an export: an object, or a list of the fields in their order.
pub enum EntryView {
    Record(Seq<(Seq<char>, Field)>),
    List(Seq<Field>),
}

/// What an entry gives for a field, if anything; an error where it gives it
/// twice.
pub open spec fn given_once(members: Seq<(Seq<char>, Field)>, key: Seq<char>) -> Result<
    Option<Field>,
    (),
>
    decreases members.len(),
{
    if members.len() == 0 {
        Ok(None)
    } else {
        match given_once(members.drop_last(), key) {
            Ok(before) => if members.last().0 != key {
                Ok(before)
            } else if before is Some {
                Err(())
            } else {
                Ok(Some(members.last().1))
            },
            Err(_) => Err(()),
        }
    }
}

/// What an entry gives for the field of that name or at that place.
pub open spec fn given_in(entry: EntryView, key: Seq<char>, place: int) -> Result<
    Option<Field>,
    (),
> {
    match entry {
        EntryView::Record(members) => given_once(members, key),
        EntryView::List(fields) => Ok(
            if place < fields.len() {
                Some(fields[place])
            } else {
                None
            },
        ),
    }
}

/// A text that must be there.
pub open spec fn needed_text(given: Result<Option<Field>, ()>) -> Option<Seq<char>> {
    match given {
        Ok(Some(Some(JsonView::Text(t)))) => Some(t),
        _ => None,
    }
}

/// A text that may be left out or null.
pub open spec fn optional_text(given: Result<Option<Field>, ()>) -> Result<Option<Seq<char>>, ()> {
    match given {
        Ok(None) => Ok(None),
        Ok(Some(Some(JsonView::Null))) => Ok(None),
        Ok(Some(Some(JsonView::Text(t)))) => Ok(Some(t)),
        _ => Err(()),
    }
}

/// A number that may be left out or null, without its fraction.
pub open spec fn optional_seconds(given: Result<Option<Field>, ()>) -> Result<Option<i64>, ()> {
    match given {
        Ok(None) => Ok(None),
        Ok(Some(Some(JsonView::Null))) => Ok(None),
        Ok(Some(Some(JsonView::Number(n)))) => Ok(json::whole_part(n)),
        _ => Err(()),
    }
}

/// A list has no more places than there are fields.
pub open spec fn fits(entry: EntryView) -> bool {
    match entry {
        EntryView::Record(_) => true,
        EntryView::List(fields) => fields.len() <= 4,
    }
}

/// The cookie that an entry of the export gives, if it is one.
pub open spec fn exported_cookie(entry: EntryView) -> Option<CookieView> {
    match (
        needed_text(given_in(entry, "name"@, 0)),
        needed_text(given_in(entry, "value"@, 1)),
        optional_text(given_in(entry, "domain"@, 2)),
        optional_seconds(given_in(entry, "expirationDate"@, 3)),
    ) {
        (Some(name), Some(value), Ok(domain), Ok(expires_at)) => if fits(entry) {
            Some(CookieView { name, value, domain, expires_at })
        } else {
            None
        },
        _ => None,
    }
}

/// The cookies of an export, if each of its entries is one.
pub open spec fn exported_cookies(entries: Seq<EntryView>) -> Option<Seq<CookieView>>
    decreases entries.len(),
{
    if entries.len() == 0 {
        Some(Seq::empty())
    } else {
        match (exported_cookies(entries.drop_last()), exported_cookie(entries.last())) {
            (Some(before), Some(c)) => Some(before.push(c)),
            _ => None,
        }
    }
}

/// The jar that the entries of an export give.
pub open spec fn jar_of_export(entries: Option<Seq<EntryView>>) -> Result<JarView, Seq<char>> {
    let refused = Err("cookie.json n'est pas un export EditThisCookie valide"@);
    match entries {
        Some(all) => match exported_cookies(all) {
            Some(cookies) => Ok(JarView { cookies, sapisid: None }),
            None => refused,
        },
        None => refused,
    }
}

/// The jar that the members of an object give.
pub open spec fn jar_of_object(members: Option<Seq<(Seq<char>, Field)>>) -> Result<
    JarView,
    Seq<char>,
> {
    let refused = Err("format objet cookie invalide (attendu {\"cookie\", \"sapisid\"})"@);
    match members {
        Some(all) => match (
            given_once(all, "cookie"@),
            optional_text(given_once(all, "sapisid"@)),
        ) {
            (Ok(None), Ok(sapisid)) => Ok(JarView { cookies: bare_cookies(""@), sapisid }),
            (Ok(Some(Some(JsonView::Text(t)))), Ok(sapisid)) => Ok(
                JarView { cookies: bare_cookies(t), sapisid },
            ),
            _ => refused,
        },
        None => refused,
    }
}

/// The members of the object that a text is, with what their values are.
pub open spec fn members_of(source: Seq<char>) -> Option<Seq<(Seq<char>, Field)>> {
    match record::members_in(source) {
        Some(members) => Some(
            Seq::new(
                members.len(),
                |i: int| (members[i].0, json::json_parsed(members[i].1)),
            ),
        ),
        None => None,
    }
}

/// The entry that a text is, if it is an object or a list.
pub open spec fn entry_of(source: Seq<char>) -> Option<EntryView> {
    match members_of(source) {
        Some(members) => Some(EntryView::Record(members)),
        None => match record::items_in(source) {
            Some(items) => Some(
                EntryView::List(Seq::new(items.len(), |i: int| json::json_parsed(items[i]))),
            ),
            None => None,
        },
    }
}

pub open spec fn entries_of(items: Seq<Seq<char>>) -> Option<Seq<EntryView>>
    decreases items.len(),
{
    if items.len() == 0 {
        Some(Seq::empty())
    } else {
        match (entries_of(items.drop_last()), entry_of(items.last())) {
            (Some(before), Some(entry)) => Some(before.push(entry)),
            _ => None,
        }
    }
}

/// The entries of the list that a text is.
pub open spec fn entries_in(source: Seq<char>) -> Option<Seq<EntryView>> {
    match record::items_in(source) {
        Some(items) => entries_of(items),
        None => None,
    }
}

/// The first character that is not white space.
pub open spec fn first_mark(input: Seq<char>) -> Option<char> {
    let s = text::trimmed_start(input);
    if s.len() == 0 {
        None
    } else {
        Some(s[0])
    }
}

/// The jar that a text gives, in the format that its first mark tells.
pub open spec fn jar_of(input: Seq<char>) -> Result<JarView, Seq<char>> {
    match first_mark(input) {
        Some('[') => jar_of_export(entries_in(input)),
        Some('{') => jar_of_object(members_of(input)),
        _ => Ok(JarView { cookies: bare_cookies(input), sapisid: None }),
    }
}

/// An object that gives a field twice is no cookie and no jar, whatever the
/// values are.
pub proof fn law_no_field_twice(
    members: Seq<(Seq<char>, Field)>,
    key: Seq<char>,
    i: int,
    j: int,
)
    requires
        0 <= i < j < members.len(),
        members[i].0 == key,
        members[j].0 == key,
    ensures
        given_once(members, key) is Err,
        key == "name"@ || key == "value"@ || key == "domain"@ || key == "expirationDate"@
            ==> exported_cookie(EntryView::Record(members)) is None,
        key == "cookie"@ || key == "sapisid"@ ==> jar_of_object(Some(members)) is Err,
{
    lemma_given_twice(members, key, i, j);
}

proof fn lemma_given(members: Seq<(Seq<char>, Field)>, key: Seq<char>, i: int)
    requires
        0 <= i < members.len(),
        members[i].0 == key,
    ensures
        given_once(members, key) != Ok::<Option<Field>, ()>(None),
    decreases members.len(),
{
    if i < members.len() - 1 {
        lemma_given(members.drop_last(), key, i);
    }
}

proof fn lemma_given_twice(members: Seq<(Seq<char>, Field)>, key: Seq<char>, i: int, j: int)
    requires
        0 <= i < j < members.len(),
        members[i].0 == key,
        members[j].0 == key,
    ensures
        given_once(members, key) is Err,
    decreases members.len(),
{
    if j < members.len() - 1 {
        lemma_given_twice(members.drop_last(), key, i, j);
    } else {
        lemma_given(members.drop_last(), key, i);
    }
}

// ---------------------------------------------------------------------------
// Functions
// ---------------------------------------------------------------------------

fn is_google_domain(domain: &str) -> (r: bool)
    ensures
        r == google_domain(domain@),
{
    text::same(domain, "google.com") || text::ends_with(domain, ".google.com")
}

impl Cookie {
    /// Whether the cookie is sent.
    pub fn valid(&self, now: i64) -> (r: bool)
        ensures
            r == is_sent(self@, now),
    {
        let alive: bool = match self.expires_at {
            Some(exp) => exp > now,
            None => true,
        };
        let ours: bool = match &self.domain {
            Some(d) => is_google_domain(d.as_str()),
            None => true,
        };
        !self.name.as_str().is_empty() && !self.value.as_str().is_empty() && alive && ours
    }
}

/// The cookies of a session.
#[derive(Debug, Clone)]
pub struct CookieJar {
    cookies: Vec<Cookie>,
    sapisid: Option<String>,
}

impl View for CookieJar {
    type V = JarView;

    closed spec fn view(&self) -> JarView {
        JarView { cookies: cookies_view(self.cookies@), sapisid: text::option_view(self.sapisid) }
    }
}

impl Default for CookieJar {
    fn default() -> (r: Self)
        ensures
            r@ == (JarView { cookies: Seq::empty(), sapisid: None }),
    {
        let cookies: Vec<Cookie> = Vec::new();
        proof {
            assert(cookies_view(cookies@) =~= Seq::empty());
        }
        CookieJar { cookies, sapisid: None }
    }
}

proof fn lemma_cookies_push(cookies: Seq<Cookie>, c: Cookie)
    ensures
        cookies_view(cookies.push(c)) == cookies_view(cookies).push(c@),
{
    assert(cookies_view(cookies.push(c)) =~= cookies_view(cookies).push(c@));
}

fn parse_pair(pair: &str) -> (r: Option<Cookie>)
    ensures
        match r {
            Some(c) => cookie_in_pair(pair@) == Some(c@),
            None => cookie_in_pair(pair@) is None,
        },
{
    match text::split_once(text::trim(pair), "=") {
        Some((name, value)) => Some(
            Cookie {
                name: text::trim(name).to_owned(),
                value: text::trim(value).to_owned(),
                domain: None,
                expires_at: None,
            },
        ),
        None => None,
    }
}

fn parse_pairs(input: &str) -> (r: Vec<Cookie>)
    ensures
        cookies_view(r@) == bare_cookies(input@),
{
    let pairs = text::split(input, ';');
    let ghost all = text::texts_of(pairs@);
    let mut out: Vec<Cookie> = Vec::new();
    let mut i: usize = 0;
    proof {
        assert(cookies_view(out@) =~= Seq::empty());
    }
    while i < pairs.len()
        invariant
            i <= pairs@.len(),
            all == text::texts_of(pairs@),
            cookies_view(out@) == cookies_in_pairs(all.take(i as int)),
        decreases pairs@.len() - i,
    {
        proof {
            assert(all.take(i + 1).drop_last() =~= all.take(i as int));
            assert(all.take(i + 1).last() == pairs@[i as int]@);
        }
        match parse_pair(pairs[i].as_str()) {
            Some(c) => {
                proof {
                    lemma_cookies_push(out@, c);
                }
                out.push(c);
            },
            None => {},
        }
        i += 1;
    }
    proof {
        assert(all.take(all.len() as int) =~= all);
    }
    out
}

/// What an entry of an export holds: each value as JSON, if it is JSON.
#[derive(Debug)]
pub enum Entry {
    Record(Vec<(String, Option<Json>)>),
    List(Vec<Option<Json>>),
}

pub open spec fn field_view(field: Option<Json>) -> Field {
    match field {
        Some(j) => Some(j@),
        None => None,
    }
}

pub open spec fn members_view(members: Seq<(String, Option<Json>)>) -> Seq<(Seq<char>, Field)> {
    Seq::new(members.len(), |i: int| (members[i].0@, field_view(members[i].1)))
}

pub open spec fn fields_view(fields: Seq<Option<Json>>) -> Seq<Field> {
    Seq::new(fields.len(), |i: int| field_view(fields[i]))
}

impl View for Entry {
    type V = EntryView;

    open spec fn view(&self) -> EntryView {
        match *self {
            Entry::Record(members) => EntryView::Record(members_view(members@)),
            Entry::List(fields) => EntryView::List(fields_view(fields@)),
        }
    }
}

pub open spec fn entries_view(entries: Seq<Entry>) -> Seq<EntryView> {
    Seq::new(entries.len(), |i: int| entries[i]@)
}

/// What was given, by reference, and what it stands for.
pub open spec fn given_view(given: Result<Option<&Option<Json>>, ()>) -> Result<Option<Field>, ()> {
    match given {
        Ok(Some(field)) => Ok(Some(field_view(*field))),
        Ok(None) => Ok(None),
        Err(_) => Err(()),
    }
}

/// What the members give for a field, if anything; an error where they give it
/// twice.
pub fn find_once<'a>(members: &'a [(String, Option<Json>)], key: &str) -> (r: Result<
    Option<&'a Option<Json>>,
    (),
>)
    ensures
        given_view(r) == given_once(members_view(members@), key@),
{
    let ghost all = members_view(members@);
    let mut found: Option<&'a Option<Json>> = None;
    let mut i: usize = 0;
    while i < members.len()
        invariant
            i <= members@.len(),
            all == members_view(members@),
            given_view(Ok(found)) == given_once(all.take(i as int), key@),
        decreases members@.len() - i,
    {
        proof {
            assert(all.take(i + 1).drop_last() =~= all.take(i as int));
            assert(all.take(i + 1).last() == all[i as int]);
        }
        if text::same(members[i].0.as_str(), key) {
            if found.is_some() {
                proof {
                    lemma_err_stays(all, i + 1, key@);
                }
                return Err(());
            }
            found = Some(&members[i].1);
        }
        i += 1;
    }
    proof {
        assert(all.take(all.len() as int) =~= all);
    }
    Ok(found)
}

/// A field that was given twice stays so.
proof fn lemma_err_stays(all: Seq<(Seq<char>, Field)>, n: int, key: Seq<char>)
    requires
        0 <= n <= all.len(),
        given_once(all.take(n), key) is Err,
    ensures
        given_once(all, key) is Err,
    decreases all.len() - n,
{
    if n < all.len() {
        assert(all.take(n + 1).drop_last() =~= all.take(n));
        lemma_err_stays(all, n + 1, key);
    } else {
        assert(all.take(n) =~= all);
    }
}

fn find_in<'a>(entry: &'a Entry, key: &str, place: usize) -> (r: Result<
    Option<&'a Option<Json>>,
    (),
>)
    ensures
        given_view(r) == given_in(entry@, key@, place as int),
{
    match entry {
        Entry::Record(members) => find_once(members.as_slice(), key),
        Entry::List(fields) => if place < fields.len() {
            Ok(Some(&fields[place]))
        } else {
            Ok(None)
        },
    }
}

fn read_needed_text(given: Result<Option<&Option<Json>>, ()>) -> (r: Option<String>)
    ensures
        text::option_view(r) == needed_text(given_view(given)),
{
    match given {
        Ok(Some(Some(Json::Text(t)))) => Some(t.clone()),
        _ => None,
    }
}

fn read_optional_text(given: Result<Option<&Option<Json>>, ()>) -> (r: Result<Option<String>, ()>)
    ensures
        match r {
            Ok(t) => optional_text(given_view(given)) == Ok::<Option<Seq<char>>, ()>(
                text::option_view(t),
            ),
            Err(_) => optional_text(given_view(given)) is Err,
        },
{
    match given {
        Ok(None) => Ok(None),
        Ok(Some(Some(Json::Null))) => Ok(None),
        Ok(Some(Some(Json::Text(t)))) => Ok(Some(t.clone())),
        _ => Err(()),
    }
}

fn read_optional_seconds(given: Result<Option<&Option<Json>>, ()>) -> (r: Result<Option<i64>, ()>)
    ensures
        match r {
            Ok(t) => optional_seconds(given_view(given)) == Ok::<Option<i64>, ()>(t),
            Err(_) => optional_seconds(given_view(given)) is Err,
        },
{
    match given {
        Ok(None) => Ok(None),
        Ok(Some(Some(Json::Null))) => Ok(None),
        Ok(Some(Some(Json::Number(n)))) => Ok(json::whole_part_of(n)),
        _ => Err(()),
    }
}

/// The cookie that an entry of an export gives, if it is one.
pub fn read_entry(entry: &Entry) -> (r: Option<Cookie>)
    ensures
        match r {
            Some(c) => exported_cookie(entry@) == Some(c@),
            None => exported_cookie(entry@) is None,
        },
{
    let domain = read_optional_text(find_in(entry, "domain", 2));
    let expires_at = read_optional_seconds(find_in(entry, "expirationDate", 3));
    let name = read_needed_text(find_in(entry, "name", 0));
    let value = read_needed_text(find_in(entry, "value", 1));
    let whole: bool = match entry {
        Entry::Record(_) => true,
        Entry::List(fields) => fields.len() <= 4,
    };
    match (name, value, domain, expires_at) {
        (Some(name), Some(value), Ok(domain), Ok(expires_at)) => if whole {
            Some(Cookie { name, value, domain, expires_at })
        } else {
            None
        },
        _ => None,
    }
}

fn read_export(entries: &Vec<Entry>) -> (r: Option<Vec<Cookie>>)
    ensures
        match r {
            Some(cookies) => exported_cookies(entries_view(entries@)) == Some(
                cookies_view(cookies@),
            ),
            None => exported_cookies(entries_view(entries@)) is None,
        },
{
    let ghost all = entries_view(entries@);
    let mut out: Vec<Cookie> = Vec::new();
    let mut i: usize = 0;
    proof {
        assert(cookies_view(out@) =~= Seq::empty());
    }
    while i < entries.len()
        invariant
            i <= entries@.len(),
            all == entries_view(entries@),
            exported_cookies(all.take(i as int)) == Some(cookies_view(out@)),
        decreases entries@.len() - i,
    {
        proof {
            assert(all.take(i + 1).drop_last() =~= all.take(i as int));
            assert(all.take(i + 1).last() == entries@[i as int]@);
        }
        match read_entry(&entries[i]) {
            Some(c) => {
                proof {
                    lemma_cookies_push(out@, c);
                }
                out.push(c);
            },
            None => {
                proof {
                    lemma_one_bad(all, i + 1);
                }
                return None;
            },
        }
        i += 1;
    }
    proof {
        assert(all.take(all.len() as int) =~= all);
    }
    Some(out)
}

/// An export of which a part is not valid is not valid.
proof fn lemma_one_bad(all: Seq<EntryView>, n: int)
    requires
        0 <= n <= all.len(),
        exported_cookies(all.take(n)) is None,
    ensures
        exported_cookies(all) is None,
    decreases all.len() - n,
{
    if n < all.len() {
        assert(all.take(n + 1).drop_last() =~= all.take(n));
        lemma_one_bad(all, n + 1);
    } else {
        assert(all.take(n) =~= all);
    }
}

/// The members of the object that a text is, with what their values are.
fn read_object(source: &str) -> (r: Option<Vec<(String, Option<Json>)>>)
    ensures
        match r {
            Some(members) => members_of(source@) == Some(members_view(members@)),
            None => members_of(source@) is None,
        },
{
    match record::split_object(source) {
        Some(pairs) => {
            let ghost all = record::pairs_view(pairs@);
            let mut out: Vec<(String, Option<Json>)> = Vec::new();
            let mut i: usize = 0;
            while i < pairs.len()
                invariant
                    i <= pairs@.len(),
                    all == record::pairs_view(pairs@),
                    members_view(out@).len() == i,
                    forall|k: int|
                        0 <= k < i ==> #[trigger] members_view(out@)[k] == (
                            all[k].0,
                            json::json_parsed(all[k].1),
                        ),
                decreases pairs@.len() - i,
            {
                let member = (pairs[i].0.clone(), Json::parse(pairs[i].1.as_str()));
                proof {
                    assert(members_view(out@.push(member)) =~= members_view(out@).push(
                        (member.0@, field_view(member.1)),
                    ));
                }
                out.push(member);
                i += 1;
            }
            proof {
                assert(members_view(out@) =~= members_of(source@)->Some_0);
            }
            Some(out)
        },
        None => None,
    }
}

fn read_item(source: &str) -> (r: Option<Entry>)
    ensures
        match r {
            Some(entry) => entry_of(source@) == Some(entry@),
            None => entry_of(source@) is None,
        },
{
    match read_object(source) {
        Some(members) => Some(Entry::Record(members)),
        None => match record::split_list(source) {
            Some(items) => {
                let ghost all = text::texts_of(items@);
                let mut fields: Vec<Option<Json>> = Vec::new();
                let mut i: usize = 0;
                while i < items.len()
                    invariant
                        i <= items@.len(),
                        all == text::texts_of(items@),
                        fields_view(fields@).len() == i,
                        forall|k: int|
                            0 <= k < i ==> #[trigger] fields_view(fields@)[k] == json::json_parsed(
                                all[k],
                            ),
                    decreases items@.len() - i,
                {
                    let field = Json::parse(items[i].as_str());
                    proof {
                        assert(fields_view(fields@.push(field)) =~= fields_view(fields@).push(
                            field_view(field),
                        ));
                    }
                    fields.push(field);
                    i += 1;
                }
                proof {
                    assert(fields_view(fields@) =~= Seq::new(
                        all.len(),
                        |i: int| json::json_parsed(all[i]),
                    ));
                }
                Some(Entry::List(fields))
            },
            None => None,
        },
    }
}

/// The entries of the list that a text is.
fn read_entries(source: &str) -> (r: Option<Vec<Entry>>)
    ensures
        match r {
            Some(entries) => entries_in(source@) == Some(entries_view(entries@)),
            None => entries_in(source@) is None,
        },
{
    match record::split_list(source) {
        Some(items) => {
            let ghost all = text::texts_of(items@);
            let mut out: Vec<Entry> = Vec::new();
            let mut i: usize = 0;
            proof {
                assert(entries_view(out@) =~= Seq::empty());
            }
            while i < items.len()
                invariant
                    i <= items@.len(),
                    all == text::texts_of(items@),
                    entries_in(source@) == entries_of(all),
                    entries_of(all.take(i as int)) == Some(entries_view(out@)),
                decreases items@.len() - i,
            {
                proof {
                    assert(all.take(i + 1).drop_last() =~= all.take(i as int));
                    assert(all.take(i + 1).last() == items@[i as int]@);
                }
                match read_item(items[i].as_str()) {
                    Some(entry) => {
                        proof {
                            assert(entries_view(out@.push(entry)) =~= entries_view(out@).push(
                                entry@,
                            ));
                        }
                        out.push(entry);
                    },
                    None => {
                        proof {
                            lemma_no_entry(all, i + 1);
                        }
                        return None;
                    },
                }
                i += 1;
            }
            proof {
                assert(all.take(all.len() as int) =~= all);
            }
            Some(out)
        },
        None => None,
    }
}

/// A list in which an item is no entry is no list of entries.
proof fn lemma_no_entry(all: Seq<Seq<char>>, n: int)
    requires
        0 <= n <= all.len(),
        entries_of(all.take(n)) is None,
    ensures
        entries_of(all) is None,
    decreases all.len() - n,
{
    if n < all.len() {
        assert(all.take(n + 1).drop_last() =~= all.take(n));
        lemma_no_entry(all, n + 1);
    } else {
        assert(all.take(n) =~= all);
    }
}

pub open spec fn result_view(r: Result<CookieJar, String>) -> Result<JarView, Seq<char>> {
    match r {
        Ok(jar) => Ok(jar@),
        Err(message) => Err(message@),
    }
}

impl CookieJar {
    /// Reads the cookies, in the format that the first mark tells.
    pub fn parse(input: &str) -> (r: Result<Self, String>)
        ensures
            result_view(r) == jar_of(input@),
    {
        let start = text::trim_start(input);
        let mark: char = if start.is_empty() {
            ' '
        } else {
            start.get_char(0)
        };
        if mark == '[' {
            Self::parse_etc(read_entries(input))
        } else if mark == '{' {
            Self::parse_object(read_object(input))
        } else {
            Ok(Self::parse_raw(input))
        }
    }

    /// The jar that the entries of an export give. Nothing stands for a text
    /// that is no list of entries.
    pub fn parse_etc(entries: Option<Vec<Entry>>) -> (r: Result<Self, String>)
        ensures
            result_view(r) == jar_of_export(
                match entries {
                    Some(all) => Some(entries_view(all@)),
                    None => None,
                },
            ),
    {
        match entries {
            Some(all) => match read_export(&all) {
                Some(cookies) => {
                    return Ok(CookieJar { cookies, sapisid: None });
                },
                None => {},
            },
            None => {},
        }
        Err("cookie.json n'est pas un export EditThisCookie valide".to_owned())
    }

    /// The jar that the members of an object give. Nothing stands for a text
    /// that is no object.
    pub fn parse_object(members: Option<Vec<(String, Option<Json>)>>) -> (r: Result<Self, String>)
        ensures
            result_view(r) == jar_of_object(
                match members {
                    Some(all) => Some(members_view(all@)),
                    None => None,
                },
            ),
    {
        match members {
            Some(all) => {
                let sapisid = read_optional_text(find_once(all.as_slice(), "sapisid"));
                match (find_once(all.as_slice(), "cookie"), sapisid) {
                    (Ok(None), Ok(sapisid)) => {
                        return Ok(CookieJar { cookies: parse_pairs(""), sapisid });
                    },
                    (Ok(Some(Some(Json::Text(t)))), Ok(sapisid)) => {
                        return Ok(CookieJar { cookies: parse_pairs(t.as_str()), sapisid });
                    },
                    _ => {},
                }
            },
            None => {},
        }
        Err("format objet cookie invalide (attendu {\"cookie\", \"sapisid\"})".to_owned())
    }

    fn parse_raw(input: &str) -> (r: Self)
        ensures
            r@ == (JarView { cookies: bare_cookies(input@), sapisid: None }),
    {
        CookieJar { cookies: parse_pairs(input), sapisid: None }
    }

    /// The header `Cookie` for the present second, if there is anything to
    /// send.
    pub fn header(&self) -> (r: Option<String>)
        ensures
            exists|now: i64|
                text::option_view(r) == #[trigger] header_of(self@, now),
    {
        self.header_at(clock::now_unix())
    }

    /// The header `Cookie` for the given second, if there is anything to send.
    pub fn header_at(&self, now: i64) -> (r: Option<String>)
        ensures
            text::option_view(r) == header_of(self@, now),
    {
        let ghost all = cookies_view(self.cookies@);
        let mut pairs: Vec<String> = Vec::new();
        let mut i: usize = 0;
        proof {
            assert(text::texts_of(pairs@) =~= Seq::empty());
        }
        while i < self.cookies.len()
            invariant
                i <= self.cookies@.len(),
                all == cookies_view(self.cookies@),
                text::texts_of(pairs@) == sent_pairs(all.take(i as int), now),
            decreases self.cookies@.len() - i,
        {
            proof {
                assert(all.take(i + 1).drop_last() =~= all.take(i as int));
                assert(all.take(i + 1).last() == self.cookies@[i as int]@);
            }
            let c = &self.cookies[i];
            if c.valid(now) {
                let pair = text::cat3(c.name.as_str(), "=", c.value.as_str());
                proof {
                    text::lemma_texts_push(pairs@, pair);
                }
                pairs.push(pair);
            }
            i += 1;
        }
        proof {
            assert(all.take(all.len() as int) =~= all);
        }
        let joined = text::join(pairs.as_slice(), "; ");
        if joined.as_str().is_empty() {
            None
        } else {
            Some(joined)
        }
    }

    /// The `SAPISID`: the explicit one of the object format, else that of the
    /// cookie of this name.
    pub fn sapisid(&self) -> (r: Option<&str>)
        ensures
            match r {
                Some(s) => sapisid_of(self@) == Some(s@),
                None => sapisid_of(self@) is None,
            },
    {
        match &self.sapisid {
            Some(s) => {
                return Some(s.as_str());
            },
            None => {},
        }
        let ghost all = cookies_view(self.cookies@);
        let mut i: usize = 0;
        while i < self.cookies.len()
            invariant
                i <= self.cookies@.len(),
                all == cookies_view(self.cookies@),
                self@.sapisid is None,
                self@.cookies == all,
                value_of(all.take(i as int), "SAPISID"@) is None,
            decreases self.cookies@.len() - i,
        {
            proof {
                assert(all.take(i + 1).drop_last() =~= all.take(i as int));
                assert(all.take(i + 1).last() == self.cookies@[i as int]@);
            }
            if text::same(self.cookies[i].name.as_str(), "SAPISID") {
                proof {
                    lemma_value_of(all, i + 1, "SAPISID"@);
                }
                return Some(self.cookies[i].value.as_str());
            }
            i += 1;
        }
        proof {
            assert(all.take(all.len() as int) =~= all);
        }
        None
    }
}

/// The first cookie of a name is found among the first cookies.
proof fn lemma_value_of(all: Seq<CookieView>, n: int, name: Seq<char>)
    requires
        0 <= n <= all.len(),
        value_of(all.take(n), name) is Some,
    ensures
        value_of(all, name) == value_of(all.take(n), name),
    decreases all.len() - n,
{
    if n < all.len() {
        assert(all.take(n + 1).drop_last() =~= all.take(n));
        lemma_value_of(all, n + 1, name);
    } else {
        assert(all.take(n) =~= all);
    }
}

// ---------------------------------------------------------------------------
// Which cookies are sent
// ---------------------------------------------------------------------------


/// A cookie is sent if and only if it has a name and a value, has not expired,
/// and is of no other domain than `google.com` or one below it.
pub proof fn law_when_a_cookie_is_sent(c: CookieView, now: i64)
    ensures
        c.name.len() == 0 || c.value.len() == 0 ==> !is_sent(c, now),
        c.expires_at matches Some(at) && at <= now ==> !is_sent(c, now),
        c.domain matches Some(d) && !google_domain(d) ==> !is_sent(c, now),
        c.name.len() > 0 && c.value.len() > 0 && (c.expires_at is None || c.expires_at->Some_0
            > now) && (c.domain is None || google_domain(c.domain->Some_0)) ==> is_sent(c, now),
{
}

/// The domains to which cookies belong: `google.com`, and what ends in
/// `.google.com`; a name that only ends like it is another one.
pub proof fn law_domains(sub: Seq<char>, other: Seq<char>)
    ensures
        google_domain("google.com"@),
        google_domain(sub + ".google.com"@),
        other.len() < 10 ==> !google_domain(other),
        other.len() > 10 && other[other.len() - 11] != '.' ==> !google_domain(other),
        other.len() > 0 && other.last() != 'm' ==> !google_domain(other),
{
    reveal_strlit("google.com");
    reveal_strlit(".google.com");
    let d = sub + ".google.com"@;
    let n = d.len() as int;
    assert(d.subrange(n - 11, n) =~= ".google.com"@);
    let m = other.len() as int;
    if m >= 11 {
        assert(other.subrange(m - 11, m)[0] == other[m - 11]);
        assert(other.subrange(m - 11, m)[10] == other[m - 1]);
        assert(".google.com"@[0] == '.');
        assert(".google.com"@[10] == 'm');
    }
    assert("google.com"@[9] == 'm');
}

/// The header is the pairs of the cookies that are sent, in order, with a
/// semicolon and a space between two; without any there is none.
pub proof fn law_header_of_cookies(jar: JarView, now: i64, c: CookieView, rest: Seq<CookieView>)
    ensures
        sent_pairs(jar.cookies, now).len() == 0 ==> header_of(jar, now) is None,
        sent_pairs(jar.cookies, now).len() > 0 && is_sent(c, now) && jar.cookies == rest.push(c)
            ==> (header_of(jar, now) matches Some(h) && h == text::joined(
            sent_pairs(rest, now).push(c.name + "="@ + c.value),
            "; "@,
        )),
        !is_sent(c, now) ==> sent_pairs(rest.push(c), now) == sent_pairs(rest, now),
        is_sent(c, now) ==> sent_pairs(rest.push(c), now) == sent_pairs(rest, now).push(
            c.name + "="@ + c.value,
        ),
{
    assert(rest.push(c).drop_last() =~= rest);
    if is_sent(c, now) {
        let pairs = sent_pairs(rest, now).push(c.name + "="@ + c.value);
        text::lemma_joined_holds(pairs, "; "@, pairs.len() - 1);
        assert(pairs[pairs.len() - 1].len() > 0);
    }
}

/// The value of a cookie is that of the first one of its name; the explicit
/// `SAPISID` goes before the cookie.
pub proof fn law_first_cookie_of_a_name(jar: JarView, name: Seq<char>, i: int)
    requires
        0 <= i < jar.cookies.len(),
        jar.cookies[i].name == name,
        forall|k: int| 0 <= k < i ==> (#[trigger] jar.cookies[k]).name != name,
    ensures
        value_of(jar.cookies, name) == Some(jar.cookies[i].value),
        jar.sapisid is None && name == "SAPISID"@ ==> sapisid_of(jar) == Some(jar.cookies[i].value),
        jar.sapisid matches Some(s) ==> sapisid_of(jar) == Some(s),
{
    lemma_first_of_a_name(jar.cookies, name, i);
}

proof fn lemma_first_of_a_name(cookies: Seq<CookieView>, name: Seq<char>, i: int)
    requires
        0 <= i < cookies.len(),
        cookies[i].name == name,
        forall|k: int| 0 <= k < i ==> (#[trigger] cookies[k]).name != name,
    ensures
        value_of(cookies, name) == Some(cookies[i].value),
    decreases cookies.len(),
{
    let front = cookies.drop_last();
    assert forall|k: int| 0 <= k < i && k < front.len() implies (#[trigger] front[k]).name
        != name by {
        assert(front[k] == cookies[k]);
        assert(cookies[k].name != name);
    }
    if i < cookies.len() - 1 {
        lemma_first_of_a_name(front, name, i);
    } else {
        lemma_none_of_a_name(front, name);
    }
}

proof fn lemma_none_of_a_name(cookies: Seq<CookieView>, name: Seq<char>)
    requires
        forall|k: int| 0 <= k < cookies.len() ==> (#[trigger] cookies[k]).name != name,
    ensures
        value_of(cookies, name) is None,
    decreases cookies.len(),
{
    if cookies.len() > 0 {
        let front = cookies.drop_last();
        assert forall|k: int| 0 <= k < front.len() implies (#[trigger] front[k]).name != name by {
            assert(cookies[k].name != name);
        }
        lemma_none_of_a_name(front, name);
        assert(cookies[cookies.len() - 1].name != name);
    }
}

/// A pair of the bare format is the cookie that it names, with white space
/// around its parts left out; an `=` in the value belongs to the value; a piece
/// without one is no cookie.
pub proof fn law_pair_is_a_cookie(name: Seq<char>, value: Seq<char>)
    requires
        name.len() > 0,
        value.len() > 0,
        !name.contains('='),
        !text::is_white(name[0]),
        !text::is_white(name.last()),
        !text::is_white(value[0]),
        !text::is_white(value.last()),
    ensures
        cookie_in_pair(seq![' '] + name + seq!['='] + value) == Some(
            CookieView { name, value, domain: None, expires_at: None },
        ),
        cookie_in_pair(name) is None,
{
    reveal_strlit("=");
    let nothing = Seq::<char>::empty();
    let space = seq![' '];
    let p = name + seq!['='] + value;
    assert(p[0] == name[0]);
    assert(p.last() == value.last());
    text::law_trimming_takes_white_space_only(space, p, nothing);
    assert(space + p + nothing =~= space + name + seq!['='] + value);
    let n = name.len() as int;
    assert(p.subrange(n, n + 1) =~= "="@);
    assert(text::matches_at(p, "="@, n));
    assert forall|j: int| 0 <= j < n implies !text::matches_at(p, "="@, j) by {
        assert(p.subrange(j, j + 1)[0] == name[j]);
        assert("="@[0] == '=');
        assert(name.contains(name[j]));
    }
    text::lemma_find_from_is(p, "="@, 0, n);
    assert(p.take(n) =~= name);
    assert(p.skip(n + 1) =~= value);
    text::law_trimming_takes_white_space_only(nothing, name, nothing);
    assert(nothing + name + nothing =~= name);
    text::law_trimming_takes_white_space_only(nothing, value, nothing);
    assert(nothing + value + nothing =~= value);
    text::lemma_find_from(name, "="@, 0);
    match text::first_match(name, "="@) {
        Some(i) => {
            assert(name.subrange(i, i + 1)[0] == name[i]);
            assert(name.contains(name[i]));
        },
        None => {},
    }
}

/// The pieces between semicolons are read one by one, in order.
pub proof fn law_pairs_one_by_one(a: Seq<Seq<char>>, b: Seq<Seq<char>>, pair: Seq<char>, input: Seq<char>)
    ensures
        bare_cookies(input) == cookies_in_pairs(text::split_at_char(input, ';')),
        cookies_in_pairs(a + b) == cookies_in_pairs(a) + cookies_in_pairs(b),
        cookie_in_pair(pair) matches Some(c) ==> cookies_in_pairs(seq![pair]) == seq![c],
        cookie_in_pair(pair) is None ==> cookies_in_pairs(seq![pair]).len() == 0,
    decreases b.len(),
{
    reveal_with_fuel(cookies_in_pairs, 2);
    assert(seq![pair].drop_last() =~= Seq::<Seq<char>>::empty());
    if b.len() == 0 {
        assert(a + b =~= a);
        assert(cookies_in_pairs(a) + cookies_in_pairs(b) =~= cookies_in_pairs(a));
    } else {
        law_pairs_one_by_one(a, b.drop_last(), pair, input);
        assert((a + b).drop_last() =~= a + b.drop_last());
        assert((a + b).last() == b.last());
        assert(cookies_in_pairs(a + b) =~= cookies_in_pairs(a) + cookies_in_pairs(b));
    }
}

proof fn lemma_given_is(members: Seq<(Seq<char>, Field)>, key: Seq<char>, i: int)
    requires
        0 <= i < members.len(),
        members[i].0 == key,
        forall|k: int|
            0 <= k < members.len() && k != i ==> (#[trigger] members[k]).0 != key,
    ensures
        given_once(members, key) == Ok::<Option<Field>, ()>(Some(members[i].1)),
    decreases members.len(),
{
    let front = members.drop_last();
    assert forall|k: int| 0 <= k < front.len() && k != i implies (#[trigger] front[k]).0 != key by {
        assert(members[k].0 != key);
    }
    if i < members.len() - 1 {
        lemma_given_is(front, key, i);
        assert(members[members.len() - 1].0 != key);
    } else {
        lemma_not_given(front, key);
    }
}

proof fn lemma_not_given(members: Seq<(Seq<char>, Field)>, key: Seq<char>)
    requires
        forall|k: int| 0 <= k < members.len() ==> (#[trigger] members[k]).0 != key,
    ensures
        given_once(members, key) == Ok::<Option<Field>, ()>(None),
    decreases members.len(),
{
    if members.len() > 0 {
        let front = members.drop_last();
        assert forall|k: int| 0 <= k < front.len() implies (#[trigger] front[k]).0 != key by {
            assert(members[k].0 != key);
        }
        lemma_not_given(front, key);
        assert(members[members.len() - 1].0 != key);
    }
}

/// An entry of an export is the cookie that its fields name, whatever else
/// stands in it and in whatever order: name and value must be there, domain and
/// expiry may be.
pub proof fn law_entry_is_a_cookie(
    members: Seq<(Seq<char>, Field)>,
    n: int,
    v: int,
    name: Seq<char>,
    value: Seq<char>,
)
    requires
        0 <= n < members.len(),
        0 <= v < members.len(),
        members[n] == ("name"@, Some(JsonView::Text(name))),
        members[v] == ("value"@, Some(JsonView::Text(value))),
        forall|k: int|
            0 <= k < members.len() && k != n ==> (#[trigger] members[k]).0 != "name"@,
        forall|k: int|
            0 <= k < members.len() && k != v ==> (#[trigger] members[k]).0 != "value"@,
    ensures
        given_once(members, "domain"@) == Ok::<Option<Field>, ()>(None) && given_once(
            members,
            "expirationDate"@,
        ) == Ok::<Option<Field>, ()>(None) ==> exported_cookie(EntryView::Record(members)) == Some(
            CookieView { name, value, domain: None, expires_at: None },
        ),
        given_once(members, "domain"@) matches Ok(Some(Some(JsonView::Text(d)))) ==> (given_once(
            members,
            "expirationDate"@,
        ) matches Ok(Some(Some(JsonView::Number(at)))) ==> exported_cookie(
            EntryView::Record(members),
        ) == Some(
            CookieView { name, value, domain: Some(d), expires_at: json::whole_part(at) },
        )),
{
    lemma_given_is(members, "name"@, n);
    lemma_given_is(members, "value"@, v);
}

/// All the entries of an export are its cookies, in order; one that is no cookie
/// spoils the whole.
pub proof fn law_export_is_all_or_nothing(entries: Seq<EntryView>, entry: EntryView)
    ensures
        exported_cookies(Seq::empty()) == Some(Seq::<CookieView>::empty()),
        exported_cookie(entry) is None ==> exported_cookies(entries.push(entry)) is None,
        exported_cookies(entries) is None ==> exported_cookies(entries.push(entry)) is None,
        exported_cookies(entries) matches Some(before) ==> (exported_cookie(entry) matches Some(c)
            ==> exported_cookies(entries.push(entry)) == Some(before.push(c))),
        exported_cookies(entries) matches Some(all) ==> jar_of_export(Some(entries)) == Ok::<
            JarView,
            Seq<char>,
        >(JarView { cookies: all, sapisid: None }),
        exported_cookies(entries) is None ==> jar_of_export(Some(entries)) == Err::<
            JarView,
            Seq<char>,
        >("cookie.json n'est pas un export EditThisCookie valide"@),
{
    assert(entries.push(entry).drop_last() =~= entries);
}

/// An object gives its cookies in the bare format and its `SAPISID`.
pub proof fn law_object_gives_cookies_and_sapisid(
    members: Seq<(Seq<char>, Field)>,
    cookie: Seq<char>,
    sapisid: Seq<char>,
)
    requires
        given_once(members, "cookie"@) == Ok::<Option<Field>, ()>(
            Some(Some(JsonView::Text(cookie))),
        ),
    ensures
        given_once(members, "sapisid"@) == Ok::<Option<Field>, ()>(
            Some(Some(JsonView::Text(sapisid))),
        ) ==> jar_of_object(Some(members)) == Ok::<JarView, Seq<char>>(
            JarView { cookies: bare_cookies(cookie), sapisid: Some(sapisid) },
        ),
        given_once(members, "sapisid"@) == Ok::<Option<Field>, ()>(None) ==> jar_of_object(
            Some(members),
        ) == Ok::<JarView, Seq<char>>(
            JarView { cookies: bare_cookies(cookie), sapisid: None },
        ),
{
}

/// The first mark of a text tells its format: a bracket an export, a brace an
/// object, anything else the bare pairs.
pub proof fn law_first_mark_tells_the_format(s: Seq<char>)
    ensures
        s.len() > 0 && s[0] == '[' ==> jar_of(s) == jar_of_export(entries_in(s)),
        s.len() > 0 && s[0] == '{' ==> jar_of(s) == jar_of_object(members_of(s)),
        s.len() > 0 && !text::is_white(s[0]) && s[0] != '[' && s[0] != '{' ==> jar_of(s) == Ok::<
            JarView,
            Seq<char>,
        >(JarView { cookies: bare_cookies(s), sapisid: None }),
{
    assert(!text::is_white('['));
    assert(!text::is_white('{'));
}

/// An entry that is a list gives its fields by their places: name, value, and
/// where they are there domain and expiry.
pub proof fn law_entry_by_places(name: Seq<char>, value: Seq<char>, d: Seq<char>, fields: Seq<Field>)
    ensures
        exported_cookie(
            EntryView::List(
                seq![Some(JsonView::Text(name)), Some(JsonView::Text(value))],
            ),
        ) == Some(CookieView { name, value, domain: None, expires_at: None }),
        exported_cookie(
            EntryView::List(
                seq![
                    Some(JsonView::Text(name)),
                    Some(JsonView::Text(value)),
                    Some(JsonView::Text(d)),
                ],
            ),
        ) == Some(CookieView { name, value, domain: Some(d), expires_at: None }),
        fields.len() > 4 || fields.len() < 2 ==> exported_cookie(EntryView::List(fields)) is None,
{
}

/// The entries of an export are the parts of its list, in order, each an object
/// or a list; an export with any other part is none.
pub proof fn law_entries_of_an_export(items: Seq<Seq<char>>, item: Seq<char>, source: Seq<char>)
    ensures
        record::items_in(source) == Some(items) ==> entries_in(source) == entries_of(items),
        record::items_in(source) is None ==> entries_in(source) is None,
        entries_of(Seq::empty()) == Some(Seq::<EntryView>::empty()),
        entry_of(item) is None ==> entries_of(items.push(item)) is None,
        entries_of(items) matches Some(before) ==> (entry_of(item) matches Some(e) ==> entries_of(
            items.push(item),
        ) == Some(before.push(e))),
        members_of(item) matches Some(members) ==> entry_of(item) == Some(
            EntryView::Record(members),
        ),
        members_of(item) is None && record::items_in(item) is None ==> entry_of(item) is None,
        record::members_in(item) matches Some(members) ==> members_of(item) == Some(
            Seq::new(
                members.len(),
                |i: int| (members[i].0, json::json_parsed(members[i].1)),
            ),
        ),
{
    assert(items.push(item).drop_last() =~= items);
}

} // verus!
