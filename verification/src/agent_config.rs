//! The configuration of the agent, resolved once from its environment.

use crate::gemini::models;
use crate::text;
use vstd::prelude::*;
use vstd::string::*;

verus! {

/// The configuration of the agent.
#[derive(Debug)]
pub struct AgentConfig {
    pub cookie_file: String,
    pub default_model: String,
    pub data_dir: String,
    pub auth_user: Option<u32>,
    pub proxy: Option<String>,
}

/// Something in the configuration that the user should know of.
#[derive(Debug, PartialEq, Eq)]
pub struct ConfigWarning(pub String);

/// The variables of the environment that the agent reads.
#[derive(Debug)]
pub struct Environment {
    /// `GEMINI_ACP_COOKIES`
    pub cookies: Option<String>,
    /// `GEMINI_ACP_MODEL`
    pub model: Option<String>,
    /// `GEMINI_ACP_DATA_DIR`
    pub data_dir: Option<String>,
    /// `XDG_DATA_HOME`
    pub xdg_data_home: Option<String>,
    /// `HOME`
    pub home: Option<String>,
    /// `GEMINI_ACP_AUTH_USER`
    pub auth_user: Option<String>,
    /// `GEMINI_ACP_PROXY`
    pub proxy: Option<String>,
}

/// A path below a directory.
pub open spec fn path_below(dir: Seq<char>, name: Seq<char>) -> Seq<char> {
    if dir.len() == 0 {
        name
    } else if dir.last() == '/' {
        dir + name
    } else {
        dir + "/"@ + name
    }
}

pub open spec fn value_or(value: Option<Seq<char>>, default: Seq<char>) -> Seq<char> {
    match value {
        Some(v) => v,
        None => default,
    }
}

/// Where the data is kept.
pub open spec fn data_dir_of(
    data_dir: Option<Seq<char>>,
    xdg_data_home: Option<Seq<char>>,
    home: Option<Seq<char>>,
) -> Seq<char> {
    match (data_dir, xdg_data_home, home) {
        (Some(d), _, _) => d,
        (None, Some(x), _) => path_below(x, "gemini-acp"@),
        (None, None, Some(h)) => path_below(h, ".local/share/gemini-acp"@),
        (None, None, None) => "."@,
    }
}

/// The number of a Google account, if the text is one.
pub open spec fn auth_user_of(value: Option<Seq<char>>) -> Option<u32> {
    match value {
        Some(v) => match text::unsigned_of(v, u32::MAX as nat) {
            Some(n) => Some(n as u32),
            None => None,
        },
        None => None,
    }
}

/// A path below a directory.
pub fn join_path(dir: &str, name: &str) -> (r: String)
    ensures
        r@ == path_below(dir@, name@),
{
    let n: usize = dir.unicode_len();
    if n == 0 {
        name.to_owned()
    } else if dir.get_char(n - 1) == '/' {
        text::cat(dir, name)
    } else {
        text::cat3(dir, "/", name)
    }
}

/// The value, or the default where it is missing.
pub fn env_or(value: Option<&str>, default: &str) -> (r: String)
    ensures
        r@ == value_or(text::option_str_view(value), default@),
{
    match value {
        Some(v) => v.to_owned(),
        None => default.to_owned(),
    }
}

/// Where the data is kept: the directory that was named, else one below the
/// data directory of the user, else one below the home directory.
pub fn data_dir_default(
    data_dir: Option<&str>,
    xdg_data_home: Option<&str>,
    home: Option<&str>,
) -> (r: String)
    ensures
        r@ == data_dir_of(
            text::option_str_view(data_dir),
            text::option_str_view(xdg_data_home),
            text::option_str_view(home),
        ),
{
    match data_dir {
        Some(d) => {
            return d.to_owned();
        },
        None => {},
    }
    match xdg_data_home {
        Some(x) => {
            return join_path(x, "gemini-acp");
        },
        None => {},
    }
    match home {
        Some(h) => join_path(h, ".local/share/gemini-acp"),
        None => ".".to_owned(),
    }
}

/// The number of the Google account, if one was given.
pub fn parse_auth_user(value: Option<&str>) -> (r: Option<u32>)
    ensures
        r == auth_user_of(text::option_str_view(value)),
{
    match value {
        Some(v) => match text::parse_unsigned(v, u32::MAX as u64) {
            Some(n) => Some(n as u32),
            None => None,
        },
        None => None,
    }
}

/// The file of the cookies and the model that an environment gives.
pub open spec fn chosen_in(env: Environment) -> (Seq<char>, Seq<char>) {
    (
        value_or(text::option_view(env.cookies), "vendor/cookie.json"@),
        value_or(text::option_view(env.model), models::DEFAULT_MODEL@),
    )
}

impl AgentConfig {
    /// The configuration that an environment gives.
    pub fn from_env(env: Environment) -> (r: Self)
        ensures
            r.cookie_file@ == value_or(text::option_view(env.cookies), "vendor/cookie.json"@),
            r.default_model@ == value_or(text::option_view(env.model), models::DEFAULT_MODEL@),
            r.data_dir@ == data_dir_of(
                text::option_view(env.data_dir),
                text::option_view(env.xdg_data_home),
                text::option_view(env.home),
            ),
            r.auth_user == auth_user_of(text::option_view(env.auth_user)),
            text::option_view(r.proxy) == text::option_view(env.proxy),
            (r.cookie_file@, r.default_model@) == chosen_in(env),
    {
        AgentConfig {
            cookie_file: env_or(text::borrowed(&env.cookies), "vendor/cookie.json"),
            default_model: env_or(text::borrowed(&env.model), models::DEFAULT_MODEL),
            data_dir: data_dir_default(
                text::borrowed(&env.data_dir),
                text::borrowed(&env.xdg_data_home),
                text::borrowed(&env.home),
            ),
            auth_user: parse_auth_user(text::borrowed(&env.auth_user)),
            proxy: env.proxy,
        }
    }

    /// What the user should know of, given whether the file of cookies exists.
    pub fn validate(&self, cookie_file_exists: bool) -> (r: Vec<ConfigWarning>)
        ensures
            cookie_file_exists ==> r@.len() == 0,
            !cookie_file_exists ==> r@.len() == 1 && r@[0].0@
                == "fichier de cookies introuvable: "@ + self.cookie_file@,
    {
        let mut warnings: Vec<ConfigWarning> = Vec::new();
        if !cookie_file_exists {
            warnings.push(
                ConfigWarning(
                    text::cat("fichier de cookies introuvable: ", self.cookie_file.as_str()),
                ),
            );
        }
        warnings
    }
}

impl Clone for AgentConfig {
    fn clone(&self) -> (r: Self)
        ensures
            r.cookie_file@ == self.cookie_file@,
            r.default_model@ == self.default_model@,
            r.data_dir@ == self.data_dir@,
            r.auth_user == self.auth_user,
            text::option_view(r.proxy) == text::option_view(self.proxy),
    {
        AgentConfig {
            cookie_file: self.cookie_file.clone(),
            default_model: self.default_model.clone(),
            data_dir: self.data_dir.clone(),
            auth_user: self.auth_user,
            proxy: match &self.proxy {
                Some(p) => Some(p.clone()),
                None => None,
            },
        }
    }
}

impl ConfigWarning {
    /// What the warning says.
    pub fn message(&self) -> (r: &str)
        ensures
            r@ == self.0@,
    {
        self.0.as_str()
    }
}

// ---------------------------------------------------------------------------
// Laws
// ---------------------------------------------------------------------------


/// A path below a directory has one slash between the two, whether or not the
/// directory ends in one.
pub proof fn law_one_slash_between(dir: Seq<char>, name: Seq<char>)
    requires
        dir.len() > 0,
        dir.last() != '/',
    ensures
        path_below(dir, name) == dir + seq!['/'] + name,
        path_below(dir + seq!['/'], name) == dir + seq!['/'] + name,
        path_below(Seq::empty(), name) == name,
{
    reveal_strlit("/");
    assert("/"@ =~= seq!['/']);
}

/// The data is kept where it was said; else in the directory for data, else
/// below the home.
pub proof fn law_where_the_data_is_kept(d: Seq<char>, x: Seq<char>, h: Seq<char>)
    ensures
        data_dir_of(Some(d), Some(x), Some(h)) == d,
        data_dir_of(Some(d), None, None) == d,
        data_dir_of(None, Some(x), Some(h)) == path_below(x, "gemini-acp"@),
        data_dir_of(None, None, Some(h)) == path_below(h, ".local/share/gemini-acp"@),
        data_dir_of(None, None, None) == "."@,
{
}

/// The number of an account is read; what is no number is none.
pub proof fn law_account_is_read(n: u32, v: Seq<char>)
    ensures
        auth_user_of(Some(text::decimal(n as nat))) == Some(n),
        text::unsigned_of(v, 0xffff_ffff) is None ==> auth_user_of(Some(v)) is None,
        auth_user_of(None) is None,
        value_or(Some(v), text::decimal(n as nat)) == v,
        value_or(None, v) == v,
{
    text::law_decimal_read_back(n as nat, 0xffff_ffff);
}

/// The environment says which cookies and which model are used; what it does not
/// say is `vendor/cookie.json` and the default model.
pub proof fn law_environment_chooses(env: Environment)
    ensures
        env.cookies matches Some(c) ==> chosen_in(env).0 == c@,
        env.cookies is None ==> chosen_in(env).0 == "vendor/cookie.json"@,
        env.model matches Some(m) ==> chosen_in(env).1 == m@,
        env.model is None ==> chosen_in(env).1 == "gemini-3.6-flash"@,
{
}

} // verus!
