//! The configuration of the server: a file, then the environment, which has
//! the last word.

use crate::agent_config;
use crate::client::config as client_config;
use crate::gemini::models;
use crate::text;
use vstd::prelude::*;
use vstd::string::*;

verus! {

/// The configuration of the server.
#[derive(Debug)]
pub struct Config {
    pub port: u16,
    pub host: String,
    pub retry_attempts: u32,
    pub retry_delay_sec: u64,
    pub request_timeout_sec: u64,
    pub gemini_bl: String,
    pub auth_user: Option<u32>,
    /// A token that is not used: the client reads its own from the page.
    pub xsrf_token: Option<String>,
    pub default_model: String,
    pub log_requests: bool,
    pub cookie_file: Option<String>,
    pub proxy: Option<String>,
    /// The keys that are let in; without any, everybody is.
    pub api_keys: Vec<String>,
}

pub struct ConfigView {
    pub port: u16,
    pub host: Seq<char>,
    pub retry_attempts: u32,
    pub retry_delay_sec: u64,
    pub request_timeout_sec: u64,
    pub gemini_bl: Seq<char>,
    pub auth_user: Option<u32>,
    pub xsrf_token: Option<Seq<char>>,
    pub default_model: Seq<char>,
    pub log_requests: bool,
    pub cookie_file: Option<Seq<char>>,
    pub proxy: Option<Seq<char>>,
    pub api_keys: Seq<Seq<char>>,
}

impl View for Config {
    type V = ConfigView;

    open spec fn view(&self) -> ConfigView {
        ConfigView {
            port: self.port,
            host: self.host@,
            retry_attempts: self.retry_attempts,
            retry_delay_sec: self.retry_delay_sec,
            request_timeout_sec: self.request_timeout_sec,
            gemini_bl: self.gemini_bl@,
            auth_user: self.auth_user,
            xsrf_token: text::option_view(self.xsrf_token),
            default_model: self.default_model@,
            log_requests: self.log_requests,
            cookie_file: text::option_view(self.cookie_file),
            proxy: text::option_view(self.proxy),
            api_keys: text::texts_of(self.api_keys@),
        }
    }
}

/// The configuration without a file and without an environment: only this
/// machine is served.
pub open spec fn default_config() -> ConfigView {
    ConfigView {
        port: 8081,
        host: "127.0.0.1"@,
        retry_attempts: 3,
        retry_delay_sec: 2,
        request_timeout_sec: 180,
        gemini_bl: client_config::DEFAULT_BL@,
        auth_user: None,
        xsrf_token: None,
        default_model: models::DEFAULT_MODEL@,
        log_requests: true,
        cookie_file: None,
        proxy: None,
        api_keys: Seq::empty(),
    }
}

impl Default for Config {
    fn default() -> (r: Self)
        ensures
            r@ == default_config(),
    {
        let r = Config {
            port: 8081,
            host: "127.0.0.1".to_owned(),
            retry_attempts: 3,
            retry_delay_sec: 2,
            request_timeout_sec: 180,
            gemini_bl: client_config::DEFAULT_BL.to_owned(),
            auth_user: None,
            xsrf_token: None,
            default_model: models::DEFAULT_MODEL.to_owned(),
            log_requests: true,
            cookie_file: None,
            proxy: None,
            api_keys: Vec::new(),
        };
        proof {
            assert(text::texts_of(r.api_keys@) =~= Seq::empty());
        }
        r
    }
}

/// The variables `GEMINI_WEB2API_*`, each where it is set.
#[derive(Debug)]
pub struct Overrides {
    pub port: Option<String>,
    pub host: Option<String>,
    pub retry_attempts: Option<String>,
    pub retry_delay_sec: Option<String>,
    pub request_timeout_sec: Option<String>,
    pub gemini_bl: Option<String>,
    pub auth_user: Option<String>,
    pub xsrf_token: Option<String>,
    pub default_model: Option<String>,
    pub log_requests: Option<String>,
    pub cookie_file: Option<String>,
    pub proxy: Option<String>,
    pub api_keys: Option<String>,
}

/// A number that a variable may set: one that is not a number is passed over.
pub open spec fn number_over(value: Option<String>, max: nat, before: nat) -> nat {
    match value {
        Some(v) => match text::unsigned_of(v@, max) {
            Some(n) => n,
            None => before,
        },
        None => before,
    }
}

pub open spec fn text_over(value: Option<String>, before: Seq<char>) -> Seq<char> {
    match value {
        Some(v) => v@,
        None => before,
    }
}

pub open spec fn option_over(value: Option<String>, before: Option<Seq<char>>) -> Option<
    Seq<char>,
> {
    match value {
        Some(v) => Some(v@),
        None => before,
    }
}

/// A list of keys, written with commas between them.
pub open spec fn keys_in(list: Seq<char>) -> Seq<Seq<char>> {
    let pieces = text::split_at_char(list, ',');
    Seq::new(pieces.len(), |i: int| text::trimmed(pieces[i]))
}

/// A configuration after the environment had its word.
pub open spec fn overridden(c: ConfigView, env: Overrides) -> ConfigView {
    ConfigView {
        port: number_over(env.port, u16::MAX as nat, c.port as nat) as u16,
        host: text_over(env.host, c.host),
        retry_attempts: number_over(
            env.retry_attempts,
            u32::MAX as nat,
            c.retry_attempts as nat,
        ) as u32,
        retry_delay_sec: number_over(
            env.retry_delay_sec,
            u64::MAX as nat,
            c.retry_delay_sec as nat,
        ) as u64,
        request_timeout_sec: number_over(
            env.request_timeout_sec,
            u64::MAX as nat,
            c.request_timeout_sec as nat,
        ) as u64,
        gemini_bl: text_over(env.gemini_bl, c.gemini_bl),
        auth_user: match env.auth_user {
            Some(v) => match text::unsigned_of(v@, u32::MAX as nat) {
                Some(n) => Some(n as u32),
                None => None,
            },
            None => c.auth_user,
        },
        xsrf_token: option_over(env.xsrf_token, c.xsrf_token),
        default_model: text_over(env.default_model, c.default_model),
        log_requests: match env.log_requests {
            Some(v) => v@ != "0"@ && v@ != "false"@,
            None => c.log_requests,
        },
        cookie_file: option_over(env.cookie_file, c.cookie_file),
        proxy: option_over(env.proxy, c.proxy),
        api_keys: match env.api_keys {
            Some(v) => keys_in(v@),
            None => c.api_keys,
        },
    }
}

fn read_number(value: &Option<String>, max: u64, before: u64) -> (r: u64)
    requires
        before <= max,
    ensures
        r == number_over(*value, max as nat, before as nat),
        r <= max,
{
    match value {
        Some(v) => match text::parse_unsigned(v.as_str(), max) {
            Some(n) => n,
            None => before,
        },
        None => before,
    }
}

fn read_keys(list: &str) -> (r: Vec<String>)
    ensures
        text::texts_of(r@) == keys_in(list@),
{
    let pieces = text::split(list, ',');
    let mut keys: Vec<String> = Vec::new();
    let mut i: usize = 0;
    while i < pieces.len()
        invariant
            i <= pieces@.len(),
            keys@.len() == i,
            forall|k: int|
                0 <= k < i ==> (#[trigger] keys@[k])@ == text::trimmed(
                    text::texts_of(pieces@)[k],
                ),
        decreases pieces@.len() - i,
    {
        keys.push(text::trim(pieces[i].as_str()).to_owned());
        i += 1;
    }
    proof {
        assert(text::texts_of(keys@) =~= keys_in(list@));
    }
    keys
}

/// Lets the environment have its word.
pub fn apply_env(config: &mut Config, env: Overrides)
    ensures
        final(config)@ == overridden(old(config)@, env),
{
    config.port = read_number(&env.port, u16::MAX as u64, config.port as u64) as u16;
    match env.host {
        Some(v) => config.host = v,
        None => {},
    }
    config.retry_attempts = read_number(
        &env.retry_attempts,
        u32::MAX as u64,
        config.retry_attempts as u64,
    ) as u32;
    config.retry_delay_sec = read_number(&env.retry_delay_sec, u64::MAX, config.retry_delay_sec);
    config.request_timeout_sec =
        read_number(&env.request_timeout_sec, u64::MAX, config.request_timeout_sec);
    match env.gemini_bl {
        Some(v) => config.gemini_bl = v,
        None => {},
    }
    match env.auth_user {
        Some(v) => {
            config.auth_user = match text::parse_unsigned(v.as_str(), u32::MAX as u64) {
                Some(n) => Some(n as u32),
                None => None,
            };
        },
        None => {},
    }
    match env.xsrf_token {
        Some(v) => config.xsrf_token = Some(v),
        None => {},
    }
    match env.default_model {
        Some(v) => config.default_model = v,
        None => {},
    }
    match env.log_requests {
        Some(v) => {
            config.log_requests = !text::same(v.as_str(), "0") && !text::same(v.as_str(), "false");
        },
        None => {},
    }
    match env.cookie_file {
        Some(v) => config.cookie_file = Some(v),
        None => {},
    }
    match env.proxy {
        Some(v) => config.proxy = Some(v),
        None => {},
    }
    match env.api_keys {
        Some(v) => config.api_keys = read_keys(v.as_str()),
        None => {},
    }
}

/// The configuration: that of the last file that held one, else the default;
/// then the environment.
pub fn load(files: Vec<Config>, env: Overrides) -> (r: Config)
    ensures
        r@ == overridden(
            if files@.len() > 0 {
                files@.last()@
            } else {
                default_config()
            },
            env,
        ),
{
    let mut files = files;
    let mut config = match files.pop() {
        Some(c) => c,
        None => Config::default(),
    };
    apply_env(&mut config, env);
    config
}

/// Where the file is looked for, in this order.
pub fn config_paths(home: Option<&str>) -> (r: Vec<String>)
    ensures
        text::texts_of(r@) == seq![
            "./config.json"@,
            match home {
                Some(h) => agent_config::path_below(
                    agent_config::path_below(h@, ".config"@),
                    "gemini-web2api/config.json"@,
                ),
                None => "./gemini-web2api/config.json"@,
            },
        ],
{
    let second = match home {
        Some(h) => {
            let dir = agent_config::join_path(h, ".config");
            agent_config::join_path(dir.as_str(), "gemini-web2api/config.json")
        },
        None => "./gemini-web2api/config.json".to_owned(),
    };
    let mut r: Vec<String> = Vec::new();
    r.push("./config.json".to_owned());
    r.push(second);
    proof {
        assert(text::texts_of(r@) =~= seq![
            "./config.json"@,
            match home {
                Some(h) => agent_config::path_below(
                    agent_config::path_below(h@, ".config"@),
                    "gemini-web2api/config.json"@,
                ),
                None => "./gemini-web2api/config.json"@,
            },
        ]);
    }
    r
}

/// The configuration of the client that the server talks through.
pub fn client_of(config: &Config) -> (r: client_config::Config)
    ensures
        r.cookie_file@ == match config.cookie_file {
            Some(f) => f@,
            None => "vendor/cookie.json"@,
        },
        r.default_model@ == config.default_model@,
        r.auth_user == config.auth_user,
        text::option_view(r.proxy) == text::option_view(config.proxy),
        r.bl@ == config.gemini_bl@,
        r.request_timeout == config.request_timeout_sec,
        r.retry_attempts == config.retry_attempts,
        r.retry_delay == if config.retry_delay_sec * 1000 > u64::MAX {
            u64::MAX as int
        } else {
            config.retry_delay_sec * 1000
        },
{
    client_config::Config {
        cookie_file: match &config.cookie_file {
            Some(f) => f.clone(),
            None => "vendor/cookie.json".to_owned(),
        },
        default_model: config.default_model.clone(),
        auth_user: config.auth_user,
        proxy: match &config.proxy {
            Some(p) => Some(p.clone()),
            None => None,
        },
        bl: config.gemini_bl.clone(),
        request_timeout: config.request_timeout_sec,
        retry_attempts: config.retry_attempts,
        retry_delay: if config.retry_delay_sec > u64::MAX / 1000 {
            u64::MAX
        } else {
            config.retry_delay_sec * 1000
        },
    }
}

/// A variable that is not set changes nothing.
pub proof fn law_empty_environment_changes_nothing(c: ConfigView, env: Overrides)
    requires
        env.port is None,
        env.host is None,
        env.retry_attempts is None,
        env.retry_delay_sec is None,
        env.request_timeout_sec is None,
        env.gemini_bl is None,
        env.auth_user is None,
        env.xsrf_token is None,
        env.default_model is None,
        env.log_requests is None,
        env.cookie_file is None,
        env.proxy is None,
        env.api_keys is None,
    ensures
        overridden(c, env) == c,
{
}

/// Without a file and without an environment only this machine is served, on
/// port 8081, with three attempts two seconds apart and three minutes for a
/// request, with the default model, and without keys.
pub proof fn law_defaults()
    ensures
        default_config().port == 8081,
        default_config().host == "127.0.0.1"@,
        default_config().retry_attempts == 3,
        default_config().retry_delay_sec == 2,
        default_config().request_timeout_sec == 180,
        default_config().default_model == models::DEFAULT_MODEL@,
        default_config().api_keys.len() == 0,
        default_config().cookie_file is None,
        default_config().proxy is None,
        default_config().log_requests,
{
}

/// The environment has the last word: a number that it gives is taken, one that
/// is no number is passed over; a text is taken as it is.
pub proof fn law_environment_has_the_last_word(c: ConfigView, env: Overrides, n: nat)
    ensures
        env.port matches Some(v) && v@ == text::decimal(n) && n <= 0xffff ==> overridden(c, env).port
            == n,
        env.port matches Some(v) && text::unsigned_of(v@, 0xffff) is None ==> overridden(c, env).port
            == c.port,
        env.retry_attempts matches Some(v) && v@ == text::decimal(n) && n <= 0xffff_ffff
            ==> overridden(c, env).retry_attempts == n,
        env.retry_delay_sec matches Some(v) && v@ == text::decimal(n) && n <= 0xffff_ffff_ffff_ffff
            ==> overridden(c, env).retry_delay_sec == n,
        env.request_timeout_sec matches Some(v) && v@ == text::decimal(n) && n
            <= 0xffff_ffff_ffff_ffff ==> overridden(c, env).request_timeout_sec == n,
        env.auth_user matches Some(v) && v@ == text::decimal(n) && n <= 0xffff_ffff ==> overridden(
            c,
            env,
        ).auth_user == Some(n as u32),
        env.host matches Some(v) ==> overridden(c, env).host == v@,
        env.host is None ==> overridden(c, env).host == c.host,
        env.gemini_bl matches Some(v) ==> overridden(c, env).gemini_bl == v@,
        env.default_model matches Some(v) ==> overridden(c, env).default_model == v@,
        env.default_model is None ==> overridden(c, env).default_model == c.default_model,
        env.xsrf_token matches Some(v) ==> overridden(c, env).xsrf_token == Some(v@),
        env.cookie_file matches Some(v) ==> overridden(c, env).cookie_file == Some(v@),
        env.cookie_file is None ==> overridden(c, env).cookie_file == c.cookie_file,
        env.proxy matches Some(v) ==> overridden(c, env).proxy == Some(v@),
        env.proxy is None ==> overridden(c, env).proxy == c.proxy,
        env.log_requests matches Some(v) ==> overridden(c, env).log_requests == (v@ != "0"@ && v@
            != "false"@),
        env.api_keys matches Some(v) ==> overridden(c, env).api_keys == keys_in(v@),
        env.api_keys is None ==> overridden(c, env).api_keys == c.api_keys,
{
    if n <= 0xffff {
        text::law_decimal_read_back(n, 0xffff);
    }
    if n <= 0xffff_ffff {
        text::law_decimal_read_back(n, 0xffff_ffff);
    }
    if n <= 0xffff_ffff_ffff_ffff {
        text::law_decimal_read_back(n, 0xffff_ffff_ffff_ffff);
    }
}

/// Keys are written with commas between them, and white space around them does
/// not count.
pub proof fn law_keys_between_commas(list: Seq<char>, i: int)
    requires
        0 <= i < text::split_at_char(list, ',').len(),
    ensures
        keys_in(list).len() == text::split_at_char(list, ',').len(),
        keys_in(list)[i] == text::trimmed(text::split_at_char(list, ',')[i]),
{
}

} // verus!
