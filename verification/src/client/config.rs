//! The configuration of the client, and what the service expects of it.

use crate::gemini::models;
use vstd::prelude::*;
use vstd::string::*;

verus! {

/// The build of the service that requests name.
pub const DEFAULT_BL: &'static str = "boq_assistant-bard-web-server_20260716.08_p0";

pub const USER_AGENT: &'static str =
    "Mozilla/5.0 (Windows NT 10.0; Win64; x64) AppleWebKit/537.36 Chrome/126.0.0.0 Safari/537.36";

/// The path to which prompts are sent.
pub const ENDPOINT: &'static str =
    "_/BardChatUi/data/assistant.lamda.BardFrontendService/StreamGenerate";

/// Where an upload begins.
pub const UPLOAD_ENDPOINT: &'static str = "https://content-push.googleapis.com/upload/";

/// The host that an upload must go to.
pub const UPLOAD_HOST: &'static str = "content-push.googleapis.com";

/// The tokens of an upload, where the page does not give them.
pub const DEFAULT_PUSH_ID: &'static str = "feeds/mcudyrk2a4khkz";

pub const DEFAULT_PCTX: &'static str = "CgcSBWjK7pYx";

/// The largest image, in base64.
pub const MAX_IMAGE_B64: usize = 33_554_432;

/// How long the tokens of the page are used, in seconds.
pub const TOKEN_TTL: u64 = 600;

/// The configuration of the client.
#[derive(Debug)]
pub struct Config {
    /// The file of cookies.
    pub cookie_file: String,
    pub default_model: String,
    /// The number of the Google account; none for the first one.
    pub auth_user: Option<u32>,
    pub proxy: Option<String>,
    /// The build of the service.
    pub bl: String,
    /// How long to wait for the service, in seconds.
    pub request_timeout: u64,
    pub retry_attempts: u32,
    /// The first delay between two attempts, in milliseconds.
    pub retry_delay: u64,
}

impl Default for Config {
    fn default() -> (r: Self)
        ensures
            r.cookie_file@ == "vendor/cookie.json"@,
            r.default_model@ == models::DEFAULT_MODEL@,
            r.auth_user is None,
            r.proxy is None,
            r.bl@ == DEFAULT_BL@,
            r.request_timeout == 180,
            r.retry_attempts == 3,
            r.retry_delay == 2000,
    {
        Config {
            cookie_file: "vendor/cookie.json".to_owned(),
            default_model: models::DEFAULT_MODEL.to_owned(),
            auth_user: None,
            proxy: None,
            bl: DEFAULT_BL.to_owned(),
            request_timeout: 180,
            retry_attempts: 3,
            retry_delay: 2000,
        }
    }
}

} // verus!
