//! The request that carries a prompt, and when a failed one is tried again.

use crate::client::config;
use crate::client::config::Config;
use crate::client::payload;
use crate::client::upload;
use crate::gemini::auth;
use crate::gemini::cookies;
use crate::gemini::cookies::{CookieJar, JarView};
use crate::gemini::models;
use crate::gemini::models::{Resolved, ResolvedView};
use crate::outside;
use crate::text;
use vstd::prelude::*;
use vstd::string::*;

verus! {

/// The origin of the service.
pub const ORIGIN: &'static str = "https://gemini.google.com";

/// A request to send.
#[derive(Debug)]
pub struct Request {
    pub url: String,
    pub headers: Vec<(String, String)>,
    pub body: String,
}

// ---------------------------------------------------------------------------
// The request
// ---------------------------------------------------------------------------

/// The part of an address that names the account.
pub open spec fn account_path(auth_user: Option<u32>) -> Seq<char> {
    match auth_user {
        Some(n) => "/u/"@ + text::decimal(n as nat),
        None => ""@,
    }
}

/// The address of the page.
pub open spec fn page_address(auth_user: Option<u32>) -> Seq<char> {
    ORIGIN@ + account_path(auth_user) + "/app"@
}

/// The address to which prompts are sent.
pub open spec fn prompt_address(auth_user: Option<u32>, bl: Seq<char>, reqid: u64) -> Seq<char> {
    ORIGIN@ + account_path(auth_user) + "/"@ + config::ENDPOINT@ + "?bl="@ + bl
        + "&hl=en&_reqid="@ + text::decimal(reqid as nat) + "&rt=c"@
}

pub open spec fn account_header(auth_user: Option<u32>) -> Option<Seq<char>> {
    match auth_user {
        Some(n) => Some(text::decimal(n as nat)),
        None => None,
    }
}

/// The headers of a request.
pub open spec fn prompt_headers(
    auth_user: Option<u32>,
    cookie: Option<Seq<char>>,
    authorization: Option<Seq<char>>,
) -> Seq<(Seq<char>, Seq<char>)> {
    upload::optional_header("Cookie"@, cookie) + upload::optional_header(
        "Authorization"@,
        authorization,
    ) + seq![
        ("Content-Type"@, "application/x-www-form-urlencoded;charset=utf-8"@),
        ("Origin"@, ORIGIN@),
        ("Referer"@, page_address(auth_user)),
        ("X-Same-Domain"@, "1"@),
    ] + upload::optional_header("X-Goog-AuthUser"@, account_header(auth_user))
}

/// What the jar sends in the given second, if there is a jar.
pub open spec fn cookie_of(jar: Option<JarView>, now: i64) -> Option<Seq<char>> {
    match jar {
        Some(j) => cookies::header_of(j, now),
        None => None,
    }
}

/// The authorization that the jar gives in the given second, if it has one.
pub open spec fn authorization_of(jar: Option<JarView>, ts: u64) -> Option<Seq<char>> {
    match jar {
        Some(j) => match cookies::sapisid_of(j) {
            Some(s) => Some(auth::authorization(s, ORIGIN@, ts)),
            None => None,
        },
        None => None,
    }
}

pub open spec fn jar_view(jar: Option<&CookieJar>) -> Option<JarView> {
    match jar {
        Some(j) => Some(j@),
        None => None,
    }
}

fn account_prefix(auth_user: Option<u32>) -> (r: String)
    ensures
        r@ == account_path(auth_user),
{
    match auth_user {
        Some(n) => {
            let number = text::decimal_text(n as u64);
            text::cat("/u/", number.as_str())
        },
        None => "".to_owned(),
    }
}

/// The address of the page that holds the tokens.
pub fn page_url(auth_user: Option<u32>) -> (r: String)
    ensures
        r@ == page_address(auth_user),
{
    let prefix = account_prefix(auth_user);
    text::cat3(ORIGIN, prefix.as_str(), "/app")
}

/// The header `Cookie` of a jar for the present second, if there is anything to
/// send.
pub fn cookie_header(jar: Option<&CookieJar>) -> (r: Option<String>)
    ensures
        exists|now: i64| text::option_view(r) == #[trigger] cookie_of(jar_view(jar), now),
{
    match jar {
        Some(j) => {
            let header = j.header();
            proof {
                let now = choose|now: i64|
                    text::option_view(header) == #[trigger] cookies::header_of(j@, now);
                assert(text::option_view(header) == cookie_of(jar_view(jar), now));
            }
            header
        },
        None => {
            proof {
                assert(cookie_of(jar_view(jar), 0i64) is None);
            }
            None
        },
    }
}

/// The header `Authorization` of a jar for the present second, if it has a
/// `SAPISID`.
pub fn authorization_header(jar: Option<&CookieJar>) -> (r: Option<String>)
    ensures
        exists|ts: u64| text::option_view(r) == #[trigger] authorization_of(jar_view(jar), ts),
{
    match jar {
        Some(j) => match j.sapisid() {
            Some(s) => {
                let header = auth::sapisid_hash(s, ORIGIN);
                proof {
                    let ts = choose|ts: u64|
                        header@ == #[trigger] auth::authorization(s@, ORIGIN@, ts);
                    assert(Some(header@) == authorization_of(jar_view(jar), ts));
                }
                Some(header)
            },
            None => {
                proof {
                    assert(authorization_of(jar_view(jar), 0u64) is None);
                }
                None
            },
        },
        None => {
            proof {
                assert(authorization_of(jar_view(jar), 0u64) is None);
            }
            None
        },
    }
}

/// The request with the given headers of the session and the given body.
pub fn request_with(
    config: &Config,
    reqid: u64,
    cookie: Option<&str>,
    authorization: Option<&str>,
    body: String,
) -> (r: Request)
    ensures
        r.url@ == prompt_address(config.auth_user, config.bl@, reqid),
        upload::headers_view(r.headers@) == prompt_headers(
            config.auth_user,
            text::option_str_view(cookie),
            text::option_str_view(authorization),
        ),
        r.body@ == body@,
{
    let prefix = account_prefix(config.auth_user);
    let number = text::decimal_text(reqid);
    let mut url: String = ORIGIN.to_owned();
    url.append(prefix.as_str());
    url.append("/");
    url.append(config::ENDPOINT);
    url.append("?bl=");
    url.append(config.bl.as_str());
    url.append("&hl=en&_reqid=");
    url.append(number.as_str());
    url.append("&rt=c");

    let referer = page_url(config.auth_user);
    let account: Option<String> = match config.auth_user {
        Some(n) => Some(text::decimal_text(n as u64)),
        None => None,
    };
    let mut h: Vec<(String, String)> = Vec::new();
    upload::add_optional_header(&mut h, "Cookie", cookie);
    upload::add_optional_header(&mut h, "Authorization", authorization);
    upload::add_header(&mut h, "Content-Type", "application/x-www-form-urlencoded;charset=utf-8");
    upload::add_header(&mut h, "Origin", ORIGIN);
    upload::add_header(&mut h, "Referer", referer.as_str());
    upload::add_header(&mut h, "X-Same-Domain", "1");
    upload::add_optional_header(&mut h, "X-Goog-AuthUser", text::borrowed(&account));
    proof {
        assert(upload::headers_view(h@) =~= prompt_headers(
            config.auth_user,
            text::option_str_view(cookie),
            text::option_str_view(authorization),
        ));
    }
    Request { url, headers: h, body }
}

/// The request that carries a prompt: to the account, with the cookies and the
/// authorization of the present second, and the body under a new identifier.
pub fn build_request(
    config: &Config,
    jar: Option<&CookieJar>,
    at: Option<&str>,
    reqid: u64,
    prompt: &str,
    refs: &[String],
    resolved: &Resolved,
) -> (r: Request)
    ensures
        r.url@ == prompt_address(config.auth_user, config.bl@, reqid),
        exists|now: i64, ts: u64|
            upload::headers_view(r.headers@) == prompt_headers(
                config.auth_user,
                #[trigger] cookie_of(jar_view(jar), now),
                #[trigger] authorization_of(jar_view(jar), ts),
            ),
        exists|id: Seq<char>|
            #[trigger] outside::is_grouped_id(id) && r.body@ == payload::body_of(
                payload::slots_of(prompt@, text::texts_of(refs@), resolved@, id),
                text::option_str_view(at),
            ),
{
    let cookie = cookie_header(jar);
    let authorization = authorization_header(jar);
    let body = payload::payload(prompt, resolved, refs, at);
    let r = request_with(config, reqid, text::borrowed(&cookie), text::borrowed(&authorization), body);
    proof {
        let now = choose|now: i64|
            text::option_view(cookie) == #[trigger] cookie_of(jar_view(jar), now);
        let ts = choose|ts: u64|
            text::option_view(authorization) == #[trigger] authorization_of(jar_view(jar), ts);
        assert(upload::headers_view(r.headers@) == prompt_headers(
            config.auth_user,
            cookie_of(jar_view(jar), now),
            authorization_of(jar_view(jar), ts),
        ));
    }
    r
}

/// The number of a request: the second and the count of requests so far.
pub fn next_reqid(now: u64, count: u64) -> (r: u64)
    ensures
        r == (now + count) % 0x1_0000_0000_0000_0000,
{
    let sum: u128 = now as u128 + count as u128;
    (sum % 0x1_0000_0000_0000_0000) as u64
}

/// A model and its level of thinking, in one name.
pub open spec fn model_name(model: Seq<char>, think: Option<u32>) -> Seq<char> {
    match think {
        Some(t) => model + "@think="@ + text::decimal(t as nat),
        None => model,
    }
}

/// The model that a turn asks for. Where the name is not one of the table, the
/// default must be.
pub fn resolve_for_turn(model: &str, think: Option<u32>, default: &str) -> (r: Result<
    Resolved,
    String,
>)
    requires
        models::suffix_error(model_name(model@, think)) is None && models::model_of(
            models::key_in(model_name(model@, think)),
        ) is None ==> models::model_of(default@) is Some,
    ensures
        match r {
            Ok(m) => models::resolution(model_name(model@, think), default@) == Ok::<
                ResolvedView,
                Seq<char>,
            >(m@),
            Err(message) => models::resolution(model_name(model@, think), default@) == Err::<
                ResolvedView,
                Seq<char>,
            >(message@),
        },
{
    match think {
        Some(t) => {
            let level = text::decimal_text(t as u64);
            let name = text::cat3(model, "@think=", level.as_str());
            models::resolve(name.as_str(), default)
        },
        None => models::resolve(model, default),
    }
}

/// Tokens of that age, in seconds, are still used.
pub open spec fn are_fresh(age: u64) -> bool {
    age < config::TOKEN_TTL
}

/// Whether the tokens of the page are still used, so many seconds after they
/// were read.
pub fn tokens_are_fresh(age: u64) -> (r: bool)
    ensures
        r == are_fresh(age),
{
    age < config::TOKEN_TTL
}

// ---------------------------------------------------------------------------
// Retries
// ---------------------------------------------------------------------------

/// What to do after an attempt that failed.
#[derive(Debug, Clone, Copy, PartialEq, Eq, Structural)]
pub enum Retry {
    GiveUp,
    /// Try again after so many milliseconds.
    After(u64),
}

/// The error cannot be mended by trying again.
pub open spec fn is_fatal(e: Seq<char>) -> bool {
    text::occurs(e, "cookie"@) || text::occurs(e, "Cookie"@) || text::occurs(e, "BardErrorInfo"@)
}

/// The delay doubles with each attempt, from the given one up to half a
/// minute.
pub open spec fn delay_after(base: nat, attempt: nat) -> nat
    decreases attempt,
{
    if attempt <= 1 {
        if base > 30_000 {
            30_000
        } else {
            base
        }
    } else {
        let before = delay_after(base, (attempt - 1) as nat);
        if 2 * before > 30_000 {
            30_000
        } else {
            2 * before
        }
    }
}

/// A delay and at most a quarter more, told by the clock.
pub open spec fn with_jitter(delay: nat, nanos: nat) -> nat {
    let jitter = delay / 4;
    let off = nanos % (2 * jitter + 1);
    delay + if off > jitter {
        (off - jitter) as nat
    } else {
        0
    }
}

fn delay(base: u64, attempt: u32) -> (r: u64)
    ensures
        r == delay_after(base as nat, attempt as nat),
        r <= 30_000,
{
    let mut d: u64 = if base > 30_000 {
        30_000
    } else {
        base
    };
    let mut k: u32 = 1;
    proof {
        if attempt == 0 {
            assert(delay_after(base as nat, 0) == delay_after(base as nat, 1));
        }
    }
    while k < attempt
        invariant
            1 <= k,
            k <= attempt || k == 1,
            d == delay_after(base as nat, k as nat),
            d <= 30_000,
        decreases attempt - k,
    {
        d = if 2 * d > 30_000 {
            30_000
        } else {
            2 * d
        };
        k += 1;
    }
    d
}

/// What is done after an attempt that failed.
pub open spec fn retry_of(
    error: Seq<char>,
    nothing_emitted: bool,
    attempt: u32,
    retry_attempts: u32,
    retry_delay: u64,
    nanos: u64,
) -> Retry {
    if !is_fatal(error) && nothing_emitted && attempt < retry_attempts {
        Retry::After(
            with_jitter(delay_after(retry_delay as nat, attempt as nat), nanos as nat) as u64,
        )
    } else {
        Retry::GiveUp
    }
}

/// What to do after the attempt with that number failed. An error that cannot
/// be mended, an answer that has begun, and the last attempt end it.
pub fn after_failure(
    error: &str,
    nothing_emitted: bool,
    attempt: u32,
    retry_attempts: u32,
    retry_delay: u64,
    nanos: u64,
) -> (r: Retry)
    ensures
        r == retry_of(error@, nothing_emitted, attempt, retry_attempts, retry_delay, nanos),
{
    if text::contains(error, "cookie") || text::contains(error, "Cookie") || text::contains(
        error,
        "BardErrorInfo",
    ) {
        return Retry::GiveUp;
    }
    if nothing_emitted && attempt < retry_attempts {
        let d: u64 = delay(retry_delay, attempt);
        let jitter: u64 = d / 4;
        let off: u64 = nanos % (2 * jitter + 1);
        let more: u64 = if off > jitter {
            off - jitter
        } else {
            0
        };
        return Retry::After(d + more);
    }
    Retry::GiveUp
}

proof fn lemma_delay(base: nat, attempt: nat)
    ensures
        delay_after(base, attempt) <= 30_000,
        attempt >= 1 ==> delay_after(base, attempt) <= delay_after(base, attempt + 1) || delay_after(
            base,
            attempt + 1,
        ) == 30_000,
    decreases attempt,
{
    if attempt > 1 {
        lemma_delay(base, (attempt - 1) as nat);
    }
}

/// A delay is never longer than half a minute and a quarter, never shorter than
/// its base, and no delay is shorter than the one before.
pub proof fn law_delays_are_bounded(base: nat, attempt: nat, nanos: nat)
    requires
        attempt >= 1,
    ensures
        delay_after(base, attempt) <= with_jitter(delay_after(base, attempt), nanos) <= 37_500,
        delay_after(base, attempt) <= delay_after(base, attempt + 1),
{
    lemma_delay(base, attempt);
}

/// The addresses: the page of an account, and the one to which its prompts are
/// sent.
pub proof fn law_addresses(n: u32, bl: Seq<char>, reqid: u64)
    ensures
        page_address(None) == "https://gemini.google.com/app"@,
        page_address(Some(n)) == "https://gemini.google.com/u/"@ + text::decimal(n as nat) + "/app"@,
        prompt_address(None, bl, reqid)
            == "https://gemini.google.com/_/BardChatUi/data/assistant.lamda.BardFrontendService/StreamGenerate?bl="@
            + bl + "&hl=en&_reqid="@ + text::decimal(reqid as nat) + "&rt=c"@,
{
    reveal_strlit("https://gemini.google.com");
    reveal_strlit("https://gemini.google.com/app");
    reveal_strlit("https://gemini.google.com/u/");
    reveal_strlit("/u/");
    reveal_strlit("/app");
    reveal_strlit("");
    reveal_strlit("/");
    reveal_strlit("?bl=");
    reveal_strlit("_/BardChatUi/data/assistant.lamda.BardFrontendService/StreamGenerate");
    reveal_strlit(
        "https://gemini.google.com/_/BardChatUi/data/assistant.lamda.BardFrontendService/StreamGenerate?bl=",
    );
    assert(ORIGIN@ + ""@ + "/app"@ =~= "https://gemini.google.com/app"@);
    assert(ORIGIN@ + "/u/"@ =~= "https://gemini.google.com/u/"@);
    assert(ORIGIN@ + ("/u/"@ + text::decimal(n as nat)) =~= "https://gemini.google.com/u/"@
        + text::decimal(n as nat));
    assert(ORIGIN@ + ""@ + "/"@ + config::ENDPOINT@ + "?bl="@
        =~= "https://gemini.google.com/_/BardChatUi/data/assistant.lamda.BardFrontendService/StreamGenerate?bl="@);
}

/// A request sends the cookies and the authorization that there are, says where
/// it comes from, and names the account where there is one.
pub proof fn law_headers_of_a_request(
    auth_user: Option<u32>,
    cookie: Option<Seq<char>>,
    authorization: Option<Seq<char>>,
)
    ensures
        ({
            let headers = prompt_headers(auth_user, cookie, authorization);
            &&& cookie matches Some(c) ==> headers.contains(("Cookie"@, c))
            &&& authorization matches Some(a) ==> headers.contains(("Authorization"@, a))
            &&& headers.contains(
                ("Content-Type"@, "application/x-www-form-urlencoded;charset=utf-8"@),
            )
            &&& headers.contains(("Origin"@, "https://gemini.google.com"@))
            &&& headers.contains(("Referer"@, page_address(auth_user)))
            &&& headers.contains(("X-Same-Domain"@, "1"@))
            &&& auth_user matches Some(n) ==> headers.contains(
                ("X-Goog-AuthUser"@, text::decimal(n as nat)),
            )
        }),
{
    let headers = prompt_headers(auth_user, cookie, authorization);
    let a = upload::optional_header("Cookie"@, cookie);
    let b = upload::optional_header("Authorization"@, authorization);
    let n = (a.len() + b.len()) as int;
    if cookie is Some {
        assert(headers[0] == a[0]);
    }
    if authorization is Some {
        assert(headers[a.len() as int] == b[0]);
    }
    assert(headers[n] == ("Content-Type"@, "application/x-www-form-urlencoded;charset=utf-8"@));
    assert(headers[n + 1] == ("Origin"@, ORIGIN@));
    assert(headers[n + 2] == ("Referer"@, page_address(auth_user)));
    assert(headers[n + 3] == ("X-Same-Domain"@, "1"@));
    if let Some(k) = auth_user {
        assert(headers[n + 4] == ("X-Goog-AuthUser"@, text::decimal(k as nat)));
    }
}

/// What a jar sends is its cookies and, with its `SAPISID`, the authorization for
/// this origin; without a jar nothing is sent.
pub proof fn law_jar_is_sent(jar: JarView, now: i64, ts: u64)
    ensures
        cookie_of(Some(jar), now) == cookies::header_of(jar, now),
        cookie_of(None, now) is None,
        authorization_of(None, ts) is None,
        cookies::sapisid_of(jar) is None ==> authorization_of(Some(jar), ts) is None,
        cookies::sapisid_of(jar) matches Some(s) ==> authorization_of(Some(jar), ts) == Some(
            auth::authorization(s, "https://gemini.google.com"@, ts),
        ),
{
}

/// A level of thinking that was chosen is the one that is asked for, up to 4.
pub proof fn law_chosen_level_is_asked_for(key: Seq<char>, t: u32, default: Seq<char>)
    requires
        models::model_of(key) is Some,
        !key.contains('@'),
    ensures
        models::resolution(model_name(key, Some(t)), default) matches Ok(m) && m.name == key && m.think
            == if t > 4 {
            4u32
        } else {
            t
        },
        model_name(key, None) == key,
{
    let name = key + "@think="@ + text::decimal(t as nat);
    models::lemma_one_suffix(key, text::decimal(t as nat));
    text::lemma_decimal_value(t as nat);
    assert(!text::decimal(t as nat).contains('@')) by {
        if text::decimal(t as nat).contains('@') {
            let i = choose|i: int|
                0 <= i < text::decimal(t as nat).len() && text::decimal(t as nat)[i] == '@';
            assert(text::is_digit(text::decimal(t as nat)[i]));
        }
    }
    assert(name.take(key.len() as int) =~= key);
    let level = name.skip(key.len() as int + "@think="@.len());
    assert(level =~= text::decimal(t as nat));
    text::law_decimal_read_back(t as nat, u32::MAX as nat);
}

/// An attempt is made again only where that can help: nothing was handed on yet,
/// attempts are left, and the error is none of the cookies. The first delay is
/// the one that was set, each next one is twice as long, up to half a minute.
pub proof fn law_when_to_try_again(
    error: Seq<char>,
    nothing_emitted: bool,
    attempt: u32,
    retry_attempts: u32,
    retry_delay: u64,
    nanos: u64,
)
    ensures
        !nothing_emitted ==> retry_of(
            error,
            nothing_emitted,
            attempt,
            retry_attempts,
            retry_delay,
            nanos,
        ) == Retry::GiveUp,
        attempt >= retry_attempts ==> retry_of(
            error,
            nothing_emitted,
            attempt,
            retry_attempts,
            retry_delay,
            nanos,
        ) == Retry::GiveUp,
        text::occurs(error, "cookie"@) || text::occurs(error, "Cookie"@) || text::occurs(
            error,
            "BardErrorInfo"@,
        ) ==> retry_of(
            error,
            nothing_emitted,
            attempt,
            retry_attempts,
            retry_delay,
            nanos,
        ) == Retry::GiveUp,
        nothing_emitted && attempt < retry_attempts && !text::occurs(error, "cookie"@)
            && !text::occurs(error, "Cookie"@) && !text::occurs(error, "BardErrorInfo"@)
            ==> retry_of(
            error,
            nothing_emitted,
            attempt,
            retry_attempts,
            retry_delay,
            nanos,
        ) is After,
        delay_after(retry_delay as nat, 1) == if retry_delay > 30_000 {
            30_000
        } else {
            retry_delay as nat
        },
        attempt >= 1 ==> delay_after(retry_delay as nat, (attempt + 1) as nat) == if 2
            * delay_after(retry_delay as nat, attempt as nat) > 30_000 {
            30_000
        } else {
            2 * delay_after(retry_delay as nat, attempt as nat)
        },
{
}

/// The time until the next attempt is the delay and at most a quarter of it
/// more.
pub proof fn law_time_until_the_next_attempt(
    error: Seq<char>,
    attempt: u32,
    retry_attempts: u32,
    retry_delay: u64,
    nanos: u64,
)
    ensures
        retry_of(error, true, attempt, retry_attempts, retry_delay, nanos) matches Retry::After(ms)
            ==> {
            let d = delay_after(retry_delay as nat, attempt as nat);
            d <= ms <= d + d / 4
        },
{
    lemma_delay(retry_delay as nat, attempt as nat);
}

/// The tokens of the page are used for ten minutes.
pub proof fn law_tokens_last_ten_minutes(age: u64)
    ensures
        are_fresh(age) <==> age < 600,
{
}

} // verus!
