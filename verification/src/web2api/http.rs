//! What every endpoint shares: who is let in, how a body is read, and the
//! replies.

use crate::client::upload;
use crate::json;
use crate::json::{Json, JsonView};
use crate::outside;
use crate::text;
use crate::web2api::config::Config;
use vstd::prelude::*;
use vstd::string::*;

verus! {

/// The largest body that is read, in bytes.
pub const MAX_BODY: usize = 16_777_216;

/// The headers that a page of another origin may send.
pub const CORS_ALLOW_HEADERS: &'static str =
    "Authorization, Content-Type, x-api-key, x-goog-api-key, Accept";

// ---------------------------------------------------------------------------
// Keys
// ---------------------------------------------------------------------------

proof fn lemma_or(acc: u8, x: u8, y: u8)
    ensures
        (acc | (x ^ y)) == 0 <==> acc == 0 && x == y,
{
    assert((acc | (x ^ y)) == 0 <==> acc == 0 && x == y) by (bit_vector);
}

/// Two texts are the same if their bytes are.
proof fn lemma_same_bytes(a: Seq<char>, b: Seq<char>)
    ensures
        vstd::utf8::encode_utf8(a) == vstd::utf8::encode_utf8(b) ==> a == b,
{
    vstd::utf8::encode_utf8_decode_utf8(a);
    vstd::utf8::encode_utf8_decode_utf8(b);
}

/// Whether two texts are the same. All the bytes of both are looked at, whatever
/// the first ones are and whether or not there are as many of them.
pub fn constant_time_eq(a: &str, b: &str) -> (r: bool)
    ensures
        r == (a@ == b@),
{
    let ab = a.as_bytes();
    let bb = b.as_bytes();
    proof {
        lemma_same_bytes(a@, b@);
    }
    let n: usize = ab.len();
    let m: usize = bb.len();
    let longest: usize = if n < m {
        m
    } else {
        n
    };
    let mut acc: u8 = if n == m {
        0
    } else {
        0xff
    };
    let mut i: usize = 0;
    while i < longest
        invariant
            i <= longest,
            n == ab@.len(),
            m == bb@.len(),
            longest == if n < m {
                m
            } else {
                n
            },
            acc == 0 <==> n == m && (forall|k: int|
                0 <= k < i ==> #[trigger] ab@[k] == bb@[k]),
        decreases longest - i,
    {
        let x: u8 = if i < n {
            ab[i]
        } else {
            0
        };
        let y: u8 = if i < m {
            bb[i]
        } else {
            0
        };
        proof {
            lemma_or(acc, x, y);
        }
        acc = acc | (x ^ y);
        i += 1;
    }
    proof {
        if acc == 0 {
            assert(ab@ =~= bb@);
        }
    }
    acc == 0
}

/// What a request shows to be let in: three headers and the query.
#[derive(Debug)]
pub struct Credentials {
    pub authorization: Option<String>,
    pub x_api_key: Option<String>,
    pub x_goog_api_key: Option<String>,
    pub query: Option<String>,
}

/// The key is one of the list.
pub open spec fn is_key(keys: Seq<Seq<char>>, key: Seq<char>) -> bool {
    exists|i: int| 0 <= i < keys.len() && #[trigger] keys[i] == key
}

/// The text begins with the prefix, and what follows is a key.
pub open spec fn prefixed_key(keys: Seq<Seq<char>>, s: Seq<char>, prefix: Seq<char>) -> bool {
    text::starts_with_spec(s, prefix) && is_key(keys, s.skip(prefix.len() as int))
}

/// A key is shown: after `Bearer`, in one of the two headers, or as `key=` in
/// the query.
pub open spec fn shows_key(keys: Seq<Seq<char>>, c: Credentials) -> bool {
    ||| c.authorization matches Some(v) && prefixed_key(keys, v@, "Bearer "@)
    ||| c.x_api_key matches Some(v) && is_key(keys, v@)
    ||| c.x_goog_api_key matches Some(v) && is_key(keys, v@)
    ||| c.query matches Some(q) && query_shows_key(keys, q@)
}

pub open spec fn query_shows_key(keys: Seq<Seq<char>>, query: Seq<char>) -> bool {
    let pairs = text::split_at_char(query, '&');
    exists|i: int| 0 <= i < pairs.len() && prefixed_key(keys, #[trigger] pairs[i], "key="@)
}

fn known_key(keys: &Vec<String>, key: &str) -> (r: bool)
    ensures
        r == is_key(text::texts_of(keys@), key@),
{
    let ghost all = text::texts_of(keys@);
    let mut i: usize = 0;
    while i < keys.len()
        invariant
            i <= keys@.len(),
            all == text::texts_of(keys@),
            forall|k: int| 0 <= k < i ==> #[trigger] all[k] != key@,
        decreases keys@.len() - i,
    {
        if constant_time_eq(keys[i].as_str(), key) {
            proof {
                assert(all[i as int] == key@);
            }
            return true;
        }
        i += 1;
    }
    false
}

fn known_after(keys: &Vec<String>, s: &str, prefix: &str) -> (r: bool)
    ensures
        r == prefixed_key(text::texts_of(keys@), s@, prefix@),
{
    match text::strip_prefix(s, prefix) {
        Some(key) => known_key(keys, key),
        None => false,
    }
}

/// Whether a request shows one of the keys.
pub fn authorized(credentials: &Credentials, api_keys: &Vec<String>) -> (r: bool)
    ensures
        r == shows_key(text::texts_of(api_keys@), *credentials),
{
    match &credentials.authorization {
        Some(v) => if known_after(api_keys, v.as_str(), "Bearer ") {
            return true;
        },
        None => {},
    }
    match &credentials.x_api_key {
        Some(v) => if known_key(api_keys, v.as_str()) {
            return true;
        },
        None => {},
    }
    match &credentials.x_goog_api_key {
        Some(v) => if known_key(api_keys, v.as_str()) {
            return true;
        },
        None => {},
    }
    match &credentials.query {
        Some(q) => {
            let pairs = text::split(q.as_str(), '&');
            let ghost keys = text::texts_of(api_keys@);
            let ghost all = text::split_at_char(q@, '&');
            let mut i: usize = 0;
            while i < pairs.len()
                invariant
                    i <= pairs@.len(),
                    keys == text::texts_of(api_keys@),
                    all == text::split_at_char(q@, '&'),
                    all == text::texts_of(pairs@),
                    credentials.query == Some(*q),
                    forall|k: int|
                        0 <= k < i ==> !prefixed_key(keys, #[trigger] all[k], "key="@),
                decreases pairs@.len() - i,
            {
                if known_after(api_keys, pairs[i].as_str(), "key=") {
                    proof {
                        assert(prefixed_key(keys, all[i as int], "key="@));
                    }
                    return true;
                }
                i += 1;
            }
            false
        },
        None => false,
    }
}

/// What becomes of a request before its endpoint sees it.
#[derive(Debug, Clone, Copy, PartialEq, Eq, Structural)]
pub enum Gate {
    /// The question whether another origin may send it: the answer is yes.
    Preflight,
    /// It showed no key where one is needed.
    Refused,
    /// Its endpoint sees it.
    Admitted,
}

pub open spec fn gate_of(options: bool, path: Seq<char>, c: Credentials, keys: Seq<Seq<char>>) -> Gate {
    if options {
        Gate::Preflight
    } else if keys.len() > 0 && text::starts_with_spec(path, "/v1"@) && !shows_key(keys, c) {
        Gate::Refused
    } else {
        Gate::Admitted
    }
}

/// What becomes of a request: a key is needed under `/v1`, if there are keys.
pub fn cors_auth(options: bool, path: &str, credentials: &Credentials, api_keys: &Vec<String>) -> (r:
    Gate)
    ensures
        r == gate_of(options, path@, *credentials, text::texts_of(api_keys@)),
{
    if options {
        return Gate::Preflight;
    }
    if api_keys.len() > 0 && text::starts_with(path, "/v1") && !authorized(credentials, api_keys) {
        return Gate::Refused;
    }
    Gate::Admitted
}

/// A request that shows nothing is refused wherever a key is needed.
pub proof fn law_nothing_shown_is_refused(path: Seq<char>, c: Credentials, keys: Seq<Seq<char>>)
    requires
        keys.len() > 0,
        text::starts_with_spec(path, "/v1"@),
        c.authorization is None,
        c.x_api_key is None,
        c.x_goog_api_key is None,
        c.query is None,
    ensures
        gate_of(false, path, c, keys) == Gate::Refused,
{
}

/// Each of the keys opens, in the header that carries it alone.
pub proof fn law_every_key_opens(path: Seq<char>, c: Credentials, keys: Seq<Seq<char>>, i: int)
    requires
        0 <= i < keys.len(),
        c.x_api_key matches Some(v) && v@ == keys[i],
    ensures
        gate_of(false, path, c, keys) == Gate::Admitted,
{
}

// ---------------------------------------------------------------------------
// Replies
// ---------------------------------------------------------------------------

/// A reply: its status, its headers by name and value, and its body.
#[derive(Debug, PartialEq, Eq)]
pub struct Reply {
    pub status: u16,
    pub headers: Vec<(String, String)>,
    pub body: String,
}

pub struct ReplyView {
    pub status: u16,
    pub headers: Seq<(Seq<char>, Seq<char>)>,
    pub body: Seq<char>,
}

impl View for Reply {
    type V = ReplyView;

    open spec fn view(&self) -> ReplyView {
        ReplyView {
            status: self.status,
            headers: upload::headers_view(self.headers@),
            body: self.body@,
        }
    }
}

/// The header by which any origin may read an answer.
pub open spec fn any_origin() -> (Seq<char>, Seq<char>) {
    ("Access-Control-Allow-Origin"@, "*"@)
}

/// A reply that carries the value: as JSON, for any origin.
pub open spec fn reply_of(status: u16, data: JsonView) -> ReplyView {
    ReplyView {
        status,
        headers: seq![("Content-Type"@, "application/json"@), any_origin()],
        body: json::json_printed(data),
    }
}

/// An error, as the clients expect it.
pub open spec fn error_value(message: Seq<char>) -> JsonView {
    JsonView::object().with(
        "error"@,
        JsonView::object().with("message"@, JsonView::Text(message)),
    )
}

pub open spec fn error_of(status: u16, message: Seq<char>) -> ReplyView {
    reply_of(status, error_value(message))
}

/// A reply that carries the value: as JSON, for any origin.
pub fn json_response(status: u16, data: &Json) -> (r: Reply)
    ensures
        r@ == reply_of(status, data@),
{
    let mut headers: Vec<(String, String)> = Vec::new();
    upload::add_header(&mut headers, "Content-Type", "application/json");
    upload::add_header(&mut headers, "Access-Control-Allow-Origin", "*");
    let r = Reply { status, headers, body: data.print() };
    proof {
        assert(r@.headers =~= reply_of(status, data@).headers);
    }
    r
}

/// A reply that carries the value, when all went well.
pub fn json_ok(data: &Json) -> (r: Reply)
    ensures
        r@ == reply_of(200, data@),
{
    json_response(200, data)
}

/// A reply that says what went wrong.
pub fn error_reply(status: u16, message: &str) -> (r: Reply)
    ensures
        r@ == error_of(status, message@),
{
    json_response(
        status,
        &Json::object().with("error", Json::object().with("message", Json::from_text(message))),
    )
}

/// The reply when the service failed.
pub fn upstream_error(e: &str) -> (r: Reply)
    ensures
        r@ == error_of(502, "upstream error: "@ + e@),
{
    let message = text::cat("upstream error: ", e);
    error_reply(502, message.as_str())
}

/// The reply to a request that was refused.
pub fn unauthorized() -> (r: Reply)
    ensures
        r@ == error_of(401, "invalid api key"@),
{
    error_reply(401, "invalid api key")
}

/// What is done with a request before its endpoint sees it.
#[derive(Debug, PartialEq, Eq)]
pub enum Passage {
    /// It is answered at once; no endpoint sees it.
    Answered(Reply),
    /// Its endpoint answers it, and these headers are set on the answer.
    Onward(Vec<(String, String)>),
}

pub enum PassageView {
    Answered(ReplyView),
    Onward(Seq<(Seq<char>, Seq<char>)>),
}

impl View for Passage {
    type V = PassageView;

    open spec fn view(&self) -> PassageView {
        match *self {
            Passage::Answered(reply) => PassageView::Answered(reply@),
            Passage::Onward(headers) => PassageView::Onward(upload::headers_view(headers@)),
        }
    }
}

/// The answer to the question whether another origin may send a request.
pub open spec fn preflight_of() -> ReplyView {
    ReplyView {
        status: 204,
        headers: seq![
            any_origin(),
            ("Access-Control-Allow-Methods"@, "GET, POST, OPTIONS"@),
            ("Access-Control-Allow-Headers"@, CORS_ALLOW_HEADERS@),
        ],
        body: ""@,
    }
}

/// What is done with a request: the question of another origin is answered with
/// yes, a request without a key is refused, and any other goes on.
pub open spec fn passage_of(gate: Gate) -> PassageView {
    match gate {
        Gate::Preflight => PassageView::Answered(preflight_of()),
        Gate::Refused => PassageView::Answered(error_of(401, "invalid api key"@)),
        Gate::Admitted => PassageView::Onward(seq![any_origin()]),
    }
}

/// The headers that are set on the answer.
pub open spec fn passage_headers(p: PassageView) -> Seq<(Seq<char>, Seq<char>)> {
    match p {
        PassageView::Answered(reply) => reply.headers,
        PassageView::Onward(headers) => headers,
    }
}

/// Whatever becomes of a request, any origin may read the answer.
pub proof fn law_any_origin_reads_the_answer(gate: Gate)
    ensures
        passage_headers(passage_of(gate)).contains(any_origin()),
{
    let headers = passage_headers(passage_of(gate));
    match gate {
        Gate::Refused => {
            assert(headers[1] == any_origin());
        },
        _ => {
            assert(headers[0] == any_origin());
        },
    }
}

/// What is done with a request, given what becomes of it.
pub fn passage(gate: Gate) -> (r: Passage)
    ensures
        r@ == passage_of(gate),
{
    let mut headers: Vec<(String, String)> = Vec::new();
    upload::add_header(&mut headers, "Access-Control-Allow-Origin", "*");
    match gate {
        Gate::Preflight => {
            upload::add_header(&mut headers, "Access-Control-Allow-Methods", "GET, POST, OPTIONS");
            upload::add_header(&mut headers, "Access-Control-Allow-Headers", CORS_ALLOW_HEADERS);
            let reply = Reply { status: 204, headers, body: "".to_owned() };
            proof {
                assert(reply@.headers =~= preflight_of().headers);
            }
            Passage::Answered(reply)
        },
        Gate::Refused => Passage::Answered(unauthorized()),
        Gate::Admitted => {
            proof {
                assert(upload::headers_view(headers@) =~= seq![any_origin()]);
            }
            Passage::Onward(headers)
        },
    }
}

/// The data of an event.
pub fn sse_event(data: &Json) -> (r: String)
    ensures
        r@ == json::json_printed(data@),
{
    data.print()
}

/// What an item of the service's stream gives: events to send, and whether the
/// stream is over.
#[derive(Debug, PartialEq, Eq)]
pub struct StreamStep {
    pub events: Vec<String>,
    pub over: bool,
}

/// The first characters of an identifier that is left to chance.
pub fn short_id(n: usize) -> (r: String)
    requires
        n <= 32,
    ensures
        exists|id: Seq<char>| #[trigger] outside::is_plain_id(id) && r@ == id.take(n as int),
{
    let id = outside::plain_id();
    let chars = text::chars_of(id.as_str());
    let r = text::string_of_range(chars.as_slice(), 0, n);
    proof {
        assert(r@ =~= id@.take(n as int));
    }
    r
}

/// The value in the body of a request. Nothing stands for a body that could
/// not be read or is too large.
pub fn json_body(bytes: Option<&[u8]>) -> (r: Result<Json, Reply>)
    ensures
        match r {
            Ok(v) => bytes is Some && json::json_parsed_bytes(bytes->Some_0@) == Some(v@),
            Err(reply) => match bytes {
                Some(b) => json::json_parsed_bytes(b@) is None && reply@ == error_of(
                    400,
                    "corps JSON invalide"@,
                ),
                None => reply@ == error_of(400, "corps illisible"@),
            },
        },
{
    match bytes {
        Some(b) => match Json::parse_bytes(b) {
            Some(v) => Ok(v),
            None => Err(error_reply(400, "corps JSON invalide")),
        },
        None => Err(error_reply(400, "corps illisible")),
    }
}

/// What the endpoints share: the client is reached through `client`, a handle
/// of the caller's.
pub struct AppState<C> {
    pub client: C,
    pub config: std::sync::Arc<Config>,
}

// ---------------------------------------------------------------------------
// Who is let in, and what is sent
// ---------------------------------------------------------------------------


/// A key opens in each of the four ways: after `Bearer`, in either of the two
/// headers, and in the query, wherever it stands there.
pub proof fn law_key_opens_in_four_ways(
    path: Seq<char>,
    c: Credentials,
    keys: Seq<Seq<char>>,
    i: int,
    k: int,
)
    requires
        0 <= i < keys.len(),
        ({
            ||| c.authorization matches Some(v) && v@ == "Bearer "@ + keys[i]
            ||| c.x_api_key matches Some(v) && v@ == keys[i]
            ||| c.x_goog_api_key matches Some(v) && v@ == keys[i]
            ||| c.query matches Some(q) && 0 <= k < text::split_at_char(q@, '&').len()
                && text::split_at_char(q@, '&')[k] == "key="@ + keys[i]
        }),
    ensures
        gate_of(false, path, c, keys) == Gate::Admitted,
{
    let a = "Bearer "@ + keys[i];
    assert(a.subrange(0, "Bearer "@.len() as int) =~= "Bearer "@);
    assert(a.skip("Bearer "@.len() as int) =~= keys[i]);
    let b = "key="@ + keys[i];
    assert(b.subrange(0, "key="@.len() as int) =~= "key="@);
    assert(b.skip("key="@.len() as int) =~= keys[i]);
    if let Some(q) = c.query {
        if 0 <= k < text::split_at_char(q@, '&').len() && text::split_at_char(q@, '&')[k] == b {
            assert(prefixed_key(keys, text::split_at_char(q@, '&')[k], "key="@));
        }
    }
}

/// Nothing but a key opens: a request that shows none of them in any of the four
/// ways is refused under `/v1`.
pub proof fn law_nothing_else_opens(path: Seq<char>, c: Credentials, keys: Seq<Seq<char>>)
    requires
        keys.len() > 0,
        path.len() >= 3,
        path[0] == '/',
        path[1] == 'v',
        path[2] == '1',
        forall|i: int|
            0 <= i < keys.len() ==> {
                let key = #[trigger] keys[i];
                &&& c.authorization matches Some(v) ==> v@ != "Bearer "@ + key
                &&& c.x_api_key matches Some(v) ==> v@ != key
                &&& c.x_goog_api_key matches Some(v) ==> v@ != key
                &&& c.query matches Some(q) ==> !text::split_at_char(q@, '&').contains(
                    "key="@ + key,
                )
            },
    ensures
        gate_of(false, path, c, keys) == Gate::Refused,
{
    reveal_strlit("/v1");
    assert(path.subrange(0, 3) =~= "/v1"@);
    if let Some(v) = c.authorization {
        if prefixed_key(keys, v@, "Bearer "@) {
            let n = "Bearer "@.len() as int;
            let i = choose|i: int| 0 <= i < keys.len() && #[trigger] keys[i] == v@.skip(n);
            assert(v@ =~= v@.subrange(0, n) + v@.skip(n));
            assert(v@ == "Bearer "@ + keys[i]);
        }
    }
    if let Some(q) = c.query {
        let pairs = text::split_at_char(q@, '&');
        if query_shows_key(keys, q@) {
            let k = choose|k: int|
                0 <= k < pairs.len() && prefixed_key(keys, #[trigger] pairs[k], "key="@);
            let p = pairs[k];
            let n = "key="@.len() as int;
            let i = choose|i: int| 0 <= i < keys.len() && #[trigger] keys[i] == p.skip(n);
            assert(p =~= p.subrange(0, n) + p.skip(n));
            assert(pairs[k] == "key="@ + keys[i]);
            assert(pairs.contains("key="@ + keys[i]));
        }
    }
}

/// Without keys, and outside `/v1`, everyone is let in; the question of another
/// origin is never refused.
pub proof fn law_open_doors(path: Seq<char>, c: Credentials, keys: Seq<Seq<char>>)
    ensures
        gate_of(true, path, c, keys) == Gate::Preflight,
        keys.len() == 0 ==> gate_of(false, path, c, keys) == Gate::Admitted,
        path.len() < 3 || path[1] != 'v' || path[2] != '1' ==> gate_of(false, path, c, keys)
            == Gate::Admitted,
{
    reveal_strlit("/v1");
    if text::starts_with_spec(path, "/v1"@) {
        assert(path.subrange(0, 3)[1] == path[1]);
        assert(path.subrange(0, 3)[2] == path[2]);
    }
}

/// A reply carries its status and its value, as JSON, for any origin; an error
/// carries its message.
pub proof fn law_reply_carries_the_value(status: u16, data: JsonView, message: Seq<char>)
    ensures
        reply_of(status, data).status == status,
        reply_of(status, data).body == json::json_printed(data),
        reply_of(status, data).headers == seq![
            ("Content-Type"@, "application/json"@),
            ("Access-Control-Allow-Origin"@, "*"@),
        ],
        error_of(status, message).status == status,
        error_of(status, message).body == json::json_printed(error_value(message)),
        error_value(message).get("error"@) matches Some(e) && e.get("message"@) == Some(
            JsonView::Text(message),
        ),
{
    json::lemma_object_of_1("message"@, JsonView::Text(message));
    json::lemma_object_of_1(
        "error"@,
        JsonView::object().with("message"@, JsonView::Text(message)),
    );
}

/// Who is refused is told so with the status 401; who asks for another origin
/// gets an empty yes with the methods and the headers; who is let in goes on.
pub proof fn law_everyone_is_answered()
    ensures
        passage_of(Gate::Refused) matches PassageView::Answered(reply) && reply.status == 401
            && reply.body == json::json_printed(error_value("invalid api key"@)),
        passage_of(Gate::Preflight) matches PassageView::Answered(reply) && reply.status == 204
            && reply.body.len() == 0 && reply.headers.contains(
            ("Access-Control-Allow-Methods"@, "GET, POST, OPTIONS"@),
        ) && reply.headers.contains(
            (
                "Access-Control-Allow-Headers"@,
                "Authorization, Content-Type, x-api-key, x-goog-api-key, Accept"@,
            ),
        ),
        passage_of(Gate::Admitted) is Onward,
{
    reveal_strlit("");
    let headers = preflight_of().headers;
    assert(headers[1] == ("Access-Control-Allow-Methods"@, "GET, POST, OPTIONS"@));
    assert(headers[2].1 == "Authorization, Content-Type, x-api-key, x-goog-api-key, Accept"@);
}

} // verus!
