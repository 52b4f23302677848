//! What the library takes from other crates and from parts of the standard
//! library without a specification of their own.
//!
//! Each function here makes one call. Its contract is what the rest of the
//! library relies on; it was read off the called function's documentation and
//! source, not proved.

use crate::text;
use vstd::prelude::*;

verus! {

// ---------------------------------------------------------------------------
// Characters
// ---------------------------------------------------------------------------

/// Whether a character is alphabetic or numeric in the sense of Unicode.
pub uninterp spec fn alphanumeric(c: char) -> bool;

/// Calls `char::is_alphanumeric`.
///
/// The answer is a function of the character alone. Among the ASCII
/// characters it is yes for the letters and the digits and no for the others.
#[verifier::external_body]
pub(crate) fn is_alphanumeric(c: char) -> (r: bool)
    ensures
        r == alphanumeric(c),
        (c as u32) < 128 ==> r == ('0' <= c <= '9' || 'A' <= c <= 'Z' || 'a' <= c <= 'z'),
{
    c.is_alphanumeric()
}

/// A text with every character in lower case, in the sense of Unicode.
pub uninterp spec fn lowercased(s: Seq<char>) -> Seq<char>;

/// Calls `str::to_lowercase`.
///
/// The result is a function of the text alone. In a text of ASCII characters
/// it turns `A`..`Z` into `a`..`z` and keeps the rest.
#[verifier::external_body]
pub(crate) fn to_lowercase(s: &str) -> (r: String)
    ensures
        r@ == lowercased(s@),
        (forall|i: int| 0 <= i < s@.len() ==> (#[trigger] s@[i] as u32) < 128) ==> r@
            == text::ascii_lowered(s@),
{
    s.to_lowercase()
}

// ---------------------------------------------------------------------------
// Digests and encodings
// ---------------------------------------------------------------------------

/// The SHA-1 digest of the bytes.
pub uninterp spec fn sha1_digest(data: Seq<u8>) -> Seq<u8>;

/// Calls `Sha1::digest`: the SHA-1 digest, 20 bytes that are a function of the
/// data alone.
#[verifier::external_body]
pub(crate) fn sha1_of(data: &[u8]) -> (r: Vec<u8>)
    ensures
        r@ == sha1_digest(data@),
        r@.len() == 20,
{
    <sha1::Sha1 as sha1::Digest>::digest(data).to_vec()
}

/// The lower-case hexadecimal digit for a number below sixteen.
pub open spec fn hex_digit(n: int) -> char {
    if n < 10 {
        (('0' as u32) + n) as char
    } else {
        (('a' as u32) + (n - 10)) as char
    }
}

/// The bytes in hexadecimal, two lower-case digits each, the high one first.
pub open spec fn hex_text(data: Seq<u8>) -> Seq<char> {
    Seq::new(
        2 * data.len(),
        |i: int|
            if i % 2 == 0 {
                hex_digit(data[i / 2] as int / 16)
            } else {
                hex_digit(data[i / 2] as int % 16)
            },
    )
}

/// Calls `hex::encode`: two lower-case hexadecimal digits for each byte.
#[verifier::external_body]
pub(crate) fn hex_encode(data: &[u8]) -> (r: String)
    ensures
        r@ == hex_text(data@),
{
    hex::encode(data)
}

/// What bytes in the standard base64 alphabet stand for, or what is wrong with
/// them.
pub uninterp spec fn base64_decoded(s: Seq<char>) -> Result<Seq<u8>, Seq<char>>;

/// Calls `decode` of the engine `STANDARD` of `base64`: the bytes, or the text
/// of the error. The result is a function of the text.
#[verifier::external_body]
pub(crate) fn base64_decode(s: &str) -> (r: Result<Vec<u8>, String>)
    ensures
        match r {
            Ok(bytes) => base64_decoded(s@) == Ok::<Seq<u8>, Seq<char>>(bytes@),
            Err(e) => base64_decoded(s@) == Err::<Seq<u8>, Seq<char>>(e@),
        },
{
    base64::Engine::decode(&base64::engine::general_purpose::STANDARD, s).map_err(|e| e.to_string())
}

/// Bytes as text, with a replacement character for what is not UTF-8.
pub uninterp spec fn lossy_text(bytes: Seq<u8>) -> Seq<char>;

/// Calls `String::from_utf8_lossy`: the text that the bytes encode, where they
/// are UTF-8; a function of the bytes in any case.
#[verifier::external_body]
pub(crate) fn text_of_bytes(bytes: &[u8]) -> (r: String)
    ensures
        r@ == lossy_text(bytes@),
        vstd::utf8::valid_utf8(bytes@) ==> r@ == vstd::utf8::decode_utf8(bytes@),
{
    String::from_utf8_lossy(bytes).into_owned()
}

/// The host that an address names, none where it names none; or what is wrong
/// with the address.
pub uninterp spec fn url_host(url: Seq<char>) -> Result<Option<Seq<char>>, Seq<char>>;

/// Calls `Url::parse` and then `Url::host_str`: the host, or the text of the
/// error. The result is a function of the address.
#[verifier::external_body]
pub(crate) fn host_of_url(url: &str) -> (r: Result<Option<String>, String>)
    ensures
        match r {
            Ok(host) => url_host(url@) == Ok::<Option<Seq<char>>, Seq<char>>(
                text::option_view(host),
            ),
            Err(e) => url_host(url@) == Err::<Option<Seq<char>>, Seq<char>>(e@),
        },
{
    let parsed = reqwest::Url::parse(url).map_err(|e| e.to_string())?;
    Ok(parsed.host_str().map(str::to_owned))
}

// ---------------------------------------------------------------------------
// Regular expressions
// ---------------------------------------------------------------------------

/// A block of code that the service refers to, or its output.
pub const CODE_REFERENCE: &'static str =
    "(?s)```(?:python|javascript|text)\\?code_(?:reference|stdout)&code_event_index=\\d+\\n.*?```\\n?";

/// The address of a card.
pub const CARD_CONTENT: &'static str = "http://googleusercontent\\.com/card_content/\\d+\\n?";

/// An error of the service, with its code.
pub const BARD_ERROR: &'static str = "BardErrorInfo\\s*\\[(\\d+)\\]";

/// A block that calls a tool.
pub const TOOL_CALL_BLOCK: &'static str = "(?s)```tool_call\\s*\\n(.*?)\\n```";

/// A block that calls a function.
pub const FUNCTION_CALL_BLOCK: &'static str = "(?s)```function_call\\s*\\n(.*?)\\n```";

/// A function call on a line of its own, without a block around it.
pub const FUNCTION_CALL_LINE: &'static str =
    "(?m)(?:^|\\n)function_call\\s*\\n(\\{.*\\})(?:\\n|$)";

/// The patterns that the library uses. Each is a valid regular expression.
pub open spec fn known_pattern(pattern: Seq<char>) -> bool {
    ||| pattern == CODE_REFERENCE@
    ||| pattern == CARD_CONTENT@
    ||| has_group(pattern)
}

/// The patterns with one group, which takes part in every match.
pub open spec fn has_group(pattern: Seq<char>) -> bool {
    ||| pattern == BARD_ERROR@
    ||| pattern == TOOL_CALL_BLOCK@
    ||| pattern == FUNCTION_CALL_BLOCK@
    ||| pattern == FUNCTION_CALL_LINE@
}

/// The patterns of a block with an opening and a closing line.
pub open spec fn is_block(pattern: Seq<char>) -> bool {
    pattern == TOOL_CALL_BLOCK@ || pattern == FUNCTION_CALL_BLOCK@
}

/// The block of a pattern with a text in it.
pub open spec fn block(pattern: Seq<char>, inner: Seq<char>) -> Seq<char> {
    if pattern == TOOL_CALL_BLOCK@ {
        "```tool_call\n"@ + inner + "\n```"@
    } else {
        "```function_call\n"@ + inner + "\n```"@
    }
}

/// A text without the matches of a pattern.
pub uninterp spec fn matches_removed(pattern: Seq<char>, s: Seq<char>) -> Seq<char>;

/// What the first group holds in each match of a pattern, from left to right.
pub uninterp spec fn first_groups(pattern: Seq<char>, s: Seq<char>) -> Seq<Seq<char>>;

/// Calls `Regex::replace_all` with an empty replacement: the text without the
/// matches, a function of the pattern and the text. Nothing is left of a text
/// that is one block around a single line, nor of an empty text.
#[verifier::external_body]
pub(crate) fn remove_matches(pattern: &str, s: &str) -> (r: String)
    requires
        known_pattern(pattern@),
    ensures
        r@ == matches_removed(pattern@, s@),
        s@.len() == 0 ==> r@.len() == 0,
        forall|inner: Seq<char>|
            is_block(pattern@) && s@ == #[trigger] block(pattern@, inner) && !inner.contains('\n')
                ==> r@.len() == 0,
{
    regex::Regex::new(pattern).expect("a valid pattern").replace_all(s, "").into_owned()
}

/// Calls `Regex::captures_iter` and takes the first group of each match, in
/// order: a function of the pattern and the text. In a text that is one block
/// around a single line the line is found, and in an empty text nothing.
#[verifier::external_body]
pub(crate) fn groups_of_matches(pattern: &str, s: &str) -> (r: Vec<String>)
    requires
        has_group(pattern@),
    ensures
        text::texts_of(r@) == first_groups(pattern@, s@),
        s@.len() == 0 ==> r@.len() == 0,
        forall|inner: Seq<char>|
            is_block(pattern@) && s@ == #[trigger] block(pattern@, inner) && !inner.contains('\n')
                ==> text::texts_of(r@) == seq![inner],
{
    let re = regex::Regex::new(pattern).expect("a valid pattern");
    re.captures_iter(s).map(|found| found[1].to_owned()).collect()
}

// ---------------------------------------------------------------------------
// Random identifiers
// ---------------------------------------------------------------------------

pub open spec fn is_hex(c: char) -> bool {
    '0' <= c <= '9' || 'a' <= c <= 'f'
}

/// 32 hexadecimal digits.
pub open spec fn is_plain_id(s: Seq<char>) -> bool {
    s.len() == 32 && forall|i: int| 0 <= i < 32 ==> is_hex(#[trigger] s[i])
}

/// 36 characters: hexadecimal digits in groups of 8, 4, 4, 4 and 12.
pub open spec fn is_grouped_id(s: Seq<char>) -> bool {
    s.len() == 36 && forall|i: int|
        0 <= i < 36 ==> if i == 8 || i == 13 || i == 18 || i == 23 {
            #[trigger] s[i] == '-'
        } else {
            is_hex(s[i])
        }
}

/// Calls `Uuid::new_v4` and prints it as `Simple`: 32 lower-case hexadecimal
/// digits. Which ones is left to chance.
#[verifier::external_body]
pub(crate) fn plain_id() -> (r: String)
    ensures
        is_plain_id(r@),
{
    uuid::Uuid::new_v4().simple().to_string()
}

/// Calls `Uuid::new_v4` and prints it as `Hyphenated`: 32 lower-case
/// hexadecimal digits with hyphens between the groups. Which ones is left to
/// chance.
#[verifier::external_body]
pub(crate) fn grouped_id() -> (r: String)
    ensures
        is_grouped_id(r@),
{
    uuid::Uuid::new_v4().hyphenated().to_string()
}

// ---------------------------------------------------------------------------
// The clock
// ---------------------------------------------------------------------------

/// Calls `SystemTime::elapsed` on the Unix epoch: the whole seconds since
/// then, or nothing where the clock stands before it. Nothing is known of the
/// answer.
#[verifier::external_body]
pub(crate) fn seconds_since_epoch() -> (r: Option<u64>) {
    std::time::SystemTime::UNIX_EPOCH.elapsed().ok().map(|d| d.as_secs())
}

// ---------------------------------------------------------------------------
// Laws
// ---------------------------------------------------------------------------


/// A byte is two hexadecimal digits, the high one first.
pub proof fn law_two_digits_a_byte(data: Seq<u8>, i: int)
    requires
        0 <= i < data.len(),
    ensures
        hex_text(data).len() == 2 * data.len(),
        data[i] as int / 16 < 10 ==> hex_text(data)[2 * i] as int == 0x30 + data[i] as int / 16,
        data[i] as int / 16 >= 10 ==> hex_text(data)[2 * i] as int == 0x61 + data[i] as int / 16
            - 10,
        data[i] as int % 16 < 10 ==> hex_text(data)[2 * i + 1] as int == 0x30 + data[i] as int % 16,
        data[i] as int % 16 >= 10 ==> hex_text(data)[2 * i + 1] as int == 0x61 + data[i] as int % 16
            - 10,
{
    assert((2 * i) / 2 == i && (2 * i) % 2 == 0);
    assert((2 * i + 1) / 2 == i && (2 * i + 1) % 2 == 1);
}

} // verus!
