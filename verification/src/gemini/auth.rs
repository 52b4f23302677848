//! The `Authorization` header of the Google web clients.
//!
//! The header is `SAPISIDHASH {ts}_{hash}`, where the hash is the SHA-1 digest
//! of `{ts} {sapisid} {origin}` in lower-case hexadecimal.

use crate::gemini::clock;
use crate::outside;
use crate::text;
use vstd::prelude::*;
use vstd::string::*;
use vstd::utf8::encode_utf8;

verus! {

/// What the hash is taken of.
pub open spec fn signed_text(sapisid: Seq<char>, origin: Seq<char>, ts: u64) -> Seq<char> {
    text::decimal(ts as nat) + " "@ + sapisid + " "@ + origin
}

/// The header.
pub open spec fn authorization(sapisid: Seq<char>, origin: Seq<char>, ts: u64) -> Seq<char> {
    "SAPISIDHASH "@ + text::decimal(ts as nat) + "_"@ + outside::hex_text(
        outside::sha1_digest(encode_utf8(signed_text(sapisid, origin, ts))),
    )
}

/// The header for the given second.
pub fn sapisid_hash_at(sapisid: &str, origin: &str, ts: u64) -> (r: String)
    ensures
        r@ == authorization(sapisid@, origin@, ts),
        outside::sha1_digest(encode_utf8(signed_text(sapisid@, origin@, ts))).len() == 20,
{
    let seconds = text::decimal_text(ts);
    let mut signed: String = seconds.clone();
    signed.append(" ");
    signed.append(sapisid);
    signed.append(" ");
    signed.append(origin);
    let digest = outside::sha1_of(signed.as_str().as_bytes());
    let hash = outside::hex_encode(digest.as_slice());
    let mut out: String = "SAPISIDHASH ".to_owned();
    out.append(seconds.as_str());
    out.append("_");
    out.append(hash.as_str());
    out
}

/// The header for the present second.
pub fn sapisid_hash(sapisid: &str, origin: &str) -> (r: String)
    ensures
        exists|ts: u64| r@ == #[trigger] authorization(sapisid@, origin@, ts),
{
    sapisid_hash_at(sapisid, origin, clock::now_unix_u64())
}

// ---------------------------------------------------------------------------
// Laws
// ---------------------------------------------------------------------------


/// The header names the second and the hash of the second, the secret and the
/// origin, a space between two.
pub proof fn law_header_signs_the_second(sapisid: Seq<char>, origin: Seq<char>, ts: u64)
    ensures
        signed_text(sapisid, origin, ts) == text::decimal(ts as nat) + " "@ + sapisid + " "@
            + origin,
        authorization(sapisid, origin, ts) == "SAPISIDHASH "@ + text::decimal(ts as nat) + "_"@
            + outside::hex_text(
            outside::sha1_digest(
                encode_utf8(text::decimal(ts as nat) + " "@ + sapisid + " "@ + origin),
            ),
        ),
{
}

} // verus!
