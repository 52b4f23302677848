//! What can go wrong with the service.

use crate::text;
use vstd::prelude::*;
use vstd::string::*;

verus! {

/// An error of the Gemini web service.
#[derive(Debug)]
pub enum GeminiError {
    /// The cookies have expired or are not valid: the answer held
    /// `BardErrorInfo [<code>]`.
    CookiesExpired { code: i64 },
    /// The key is not in the table of models.
    UnknownModel(String),
    /// The network failed: a timeout, a name, a broken connection.
    Network(String),
    /// An HTTP status that is no success.
    Http { status: u16, body: String },
    /// The text that was already sent changed, so the request cannot be tried
    /// again.
    StreamDivergence,
    /// An upload failed.
    UploadFailed(String),
    /// The service refused to answer; the text says why.
    SafetyBlocked(String),
    /// Anything else.
    Other(String),
}

pub type GeminiResult<T> = Result<T, GeminiError>;

/// What an error says.
pub open spec fn error_text(e: GeminiError) -> Seq<char> {
    match e {
        GeminiError::CookiesExpired { code } => "cookies expires ou invalides (BardErrorInfo ["@
            + text::signed_decimal(code as int)
            + "]) — reexportez vendor/cookie.json"@,
        GeminiError::UnknownModel(m) => "modele inconnu: "@ + m@,
        GeminiError::Network(m) => "erreur reseau: "@ + m@,
        GeminiError::Http { status, body } => "erreur HTTP "@ + text::decimal(status as nat)
            + ": "@ + body@,
        GeminiError::StreamDivergence => "divergence de flux en cours de streaming"@,
        GeminiError::UploadFailed(m) => "upload Scotty echec: "@ + m@,
        GeminiError::SafetyBlocked(m) => m@,
        GeminiError::Other(m) => m@,
    }
}

impl GeminiError {
    /// What the error says.
    pub fn message(&self) -> (r: String)
        ensures
            r@ == error_text(*self),
    {
        match self {
            GeminiError::CookiesExpired { code } => {
                let code_text = text::signed_text(*code);
                text::cat3(
                    "cookies expires ou invalides (BardErrorInfo [",
                    code_text.as_str(),
                    "]) — reexportez vendor/cookie.json",
                )
            },
            GeminiError::UnknownModel(m) => text::cat("modele inconnu: ", m.as_str()),
            GeminiError::Network(m) => text::cat("erreur reseau: ", m.as_str()),
            GeminiError::Http { status, body } => {
                let status_text = text::decimal_text(*status as u64);
                let head = text::cat3("erreur HTTP ", status_text.as_str(), ": ");
                text::cat(head.as_str(), body.as_str())
            },
            GeminiError::StreamDivergence => "divergence de flux en cours de streaming".to_owned(),
            GeminiError::UploadFailed(m) => text::cat("upload Scotty echec: ", m.as_str()),
            GeminiError::SafetyBlocked(m) => m.clone(),
            GeminiError::Other(m) => m.clone(),
        }
    }
}

// ---------------------------------------------------------------------------
// Laws
// ---------------------------------------------------------------------------


/// An error says what went wrong, with the words, the code or the status that it
/// carries.
pub proof fn law_error_says_what_it_carries(m: String, code: i64, status: u16)
    ensures
        error_text(GeminiError::CookiesExpired { code })
            == "cookies expires ou invalides (BardErrorInfo ["@ + text::signed_decimal(code as int)
            + "]) — reexportez vendor/cookie.json"@,
        error_text(GeminiError::UnknownModel(m)) == "modele inconnu: "@ + m@,
        error_text(GeminiError::Network(m)) == "erreur reseau: "@ + m@,
        error_text(GeminiError::Http { status, body: m }) == "erreur HTTP "@ + text::decimal(
            status as nat,
        ) + ": "@ + m@,
        error_text(GeminiError::UploadFailed(m)) == "upload Scotty echec: "@ + m@,
        error_text(GeminiError::SafetyBlocked(m)) == m@,
        error_text(GeminiError::Other(m)) == m@,
{
}

} // verus!
