//! The upload of an image: an upload is begun, the bytes are sent to the
//! address that comes back, and the reply is the reference of the image.

use crate::client::config;
use crate::outside;
use crate::text;
use vstd::prelude::*;
use vstd::string::*;

verus! {

/// The image without the prefix `data:<type>;base64,` that it may have.
pub open spec fn bare_image(data: Seq<char>) -> Seq<char> {
    if text::starts_with_spec(data, "data:"@) {
        let rest = data.skip("data:"@.len() as int);
        match text::first_match(rest, ","@) {
            Some(i) => rest.skip(i + ","@.len()),
            None => data,
        }
    } else {
        data
    }
}

/// The bytes of an image in base64, given what `base64` makes of it, or why it
/// is refused.
pub open spec fn image_bytes(
    image: Seq<char>,
    decoded: Result<Seq<u8>, Seq<char>>,
) -> Result<Seq<u8>, Seq<char>> {
    if text::utf8_len(image) > config::MAX_IMAGE_B64 {
        Err(
            "image base64 trop volumineuse ("@ + text::decimal(text::utf8_len(image))
                + " octets)"@,
        )
    } else {
        match decoded {
            Ok(bytes) => if bytes.len() == 0 {
                Err("image vide"@)
            } else {
                Ok(bytes)
            },
            Err(e) => Err("décodage base64 de l'image: "@ + e),
        }
    }
}

pub open spec fn bytes_view(r: Result<Vec<u8>, String>) -> Result<Seq<u8>, Seq<char>> {
    match r {
        Ok(bytes) => Ok(bytes@),
        Err(e) => Err(e@),
    }
}

fn strip_data_prefix(data: &str) -> (r: &str)
    ensures
        r@ == bare_image(data@),
{
    match text::strip_prefix(data, "data:") {
        Some(rest) => match text::split_once(rest, ",") {
            Some((_, image)) => image,
            None => data,
        },
        None => data,
    }
}

/// The bytes of an image, given what `base64` makes of it.
pub fn accept_image(image: &str, decoded: Result<Vec<u8>, String>) -> (r: Result<Vec<u8>, String>)
    ensures
        bytes_view(r) == image_bytes(image@, bytes_view(decoded)),
{
    let size: usize = text::byte_len(image);
    if size > config::MAX_IMAGE_B64 {
        let n = text::decimal_text(size as u64);
        return Err(text::cat3("image base64 trop volumineuse (", n.as_str(), " octets)"));
    }
    match decoded {
        Ok(bytes) => if bytes.len() == 0 {
            Err("image vide".to_owned())
        } else {
            Ok(bytes)
        },
        Err(e) => Err(text::cat("décodage base64 de l'image: ", e.as_str())),
    }
}

/// The bytes of an image in base64, with or without the prefix of a data
/// address; or why it is refused.
pub fn decode_image(base64_data: &str) -> (r: Result<Vec<u8>, String>)
    ensures
        bytes_view(r) == image_bytes(
            bare_image(base64_data@),
            outside::base64_decoded(bare_image(base64_data@)),
        ),
{
    let image = strip_data_prefix(base64_data);
    if text::byte_len(image) > config::MAX_IMAGE_B64 {
        return accept_image(image, Ok(Vec::new()));
    }
    accept_image(image, outside::base64_decode(image))
}

// ---------------------------------------------------------------------------
// Headers
// ---------------------------------------------------------------------------

pub open spec fn headers_view(headers: Seq<(String, String)>) -> Seq<(Seq<char>, Seq<char>)> {
    Seq::new(headers.len(), |i: int| (headers[i].0@, headers[i].1@))
}

/// A header that is there only with a value.
pub open spec fn optional_header(name: Seq<char>, value: Option<Seq<char>>) -> Seq<
    (Seq<char>, Seq<char>),
> {
    match value {
        Some(v) => seq![(name, v)],
        None => Seq::empty(),
    }
}

pub open spec fn or_default(value: Option<Seq<char>>, default: Seq<char>) -> Seq<char> {
    match value {
        Some(v) => v,
        None => default,
    }
}

/// The headers with which an upload begins.
pub open spec fn start_headers(
    push_id: Option<Seq<char>>,
    pctx: Option<Seq<char>>,
    length: nat,
    mime_type: Seq<char>,
    cookie: Option<Seq<char>>,
    authorization: Option<Seq<char>>,
) -> Seq<(Seq<char>, Seq<char>)> {
    seq![
        ("Push-ID"@, or_default(push_id, config::DEFAULT_PUSH_ID@)),
        ("X-Tenant-Id"@, "bard-storage"@),
        ("X-Client-Pctx"@, or_default(pctx, config::DEFAULT_PCTX@)),
        ("X-Goog-Upload-Header-Content-Length"@, text::decimal(length)),
        ("X-Goog-Upload-Header-Content-Type"@, mime_type),
        ("X-Goog-Upload-Protocol"@, "resumable"@),
        ("X-Goog-Upload-Command"@, "start"@),
        ("Content-Type"@, "application/x-www-form-urlencoded;charset=utf-8"@),
    ] + optional_header("Cookie"@, cookie) + optional_header("Authorization"@, authorization)
}

/// Adds a header.
pub fn add_header(headers: &mut Vec<(String, String)>, name: &str, value: &str)
    ensures
        headers_view(final(headers)@) == headers_view(old(headers)@).push((name@, value@)),
{
    let header = (name.to_owned(), value.to_owned());
    proof {
        assert(headers_view(headers@.push(header)) =~= headers_view(headers@).push(
            (name@, value@),
        ));
    }
    headers.push(header);
}

/// Adds a header, if it has a value.
pub fn add_optional_header(headers: &mut Vec<(String, String)>, name: &str, value: Option<&str>)
    ensures
        headers_view(final(headers)@) == headers_view(old(headers)@) + optional_header(
            name@,
            text::option_str_view(value),
        ),
{
    let ghost before = headers_view(headers@);
    match value {
        Some(v) => add_header(headers, name, v),
        None => {},
    }
    proof {
        assert(headers_view(headers@) =~= before + optional_header(
            name@,
            text::option_str_view(value),
        ));
    }
}

/// The headers with which an upload begins: the tokens of the page, where it
/// gave them, the size and the type of the image, and the session.
pub fn upload_start_headers(
    push_id: Option<&str>,
    pctx: Option<&str>,
    length: usize,
    mime_type: &str,
    cookie: Option<&str>,
    authorization: Option<&str>,
) -> (r: Vec<(String, String)>)
    ensures
        headers_view(r@) == start_headers(
            text::option_str_view(push_id),
            text::option_str_view(pctx),
            length as nat,
            mime_type@,
            text::option_str_view(cookie),
            text::option_str_view(authorization),
        ),
{
    let push: &str = match push_id {
        Some(v) => v,
        None => config::DEFAULT_PUSH_ID,
    };
    let ctx: &str = match pctx {
        Some(v) => v,
        None => config::DEFAULT_PCTX,
    };
    let size = text::decimal_text(length as u64);
    let mut h: Vec<(String, String)> = Vec::new();
    add_header(&mut h, "Push-ID", push);
    add_header(&mut h, "X-Tenant-Id", "bard-storage");
    add_header(&mut h, "X-Client-Pctx", ctx);
    add_header(&mut h, "X-Goog-Upload-Header-Content-Length", size.as_str());
    add_header(&mut h, "X-Goog-Upload-Header-Content-Type", mime_type);
    add_header(&mut h, "X-Goog-Upload-Protocol", "resumable");
    add_header(&mut h, "X-Goog-Upload-Command", "start");
    add_header(&mut h, "Content-Type", "application/x-www-form-urlencoded;charset=utf-8");
    add_optional_header(&mut h, "Cookie", cookie);
    add_optional_header(&mut h, "Authorization", authorization);
    proof {
        assert(headers_view(h@) =~= start_headers(
            text::option_str_view(push_id),
            text::option_str_view(pctx),
            length as nat,
            mime_type@,
            text::option_str_view(cookie),
            text::option_str_view(authorization),
        ));
    }
    h
}

/// The headers with which the bytes of an image are sent.
pub open spec fn finish_headers() -> Seq<(Seq<char>, Seq<char>)> {
    seq![
        ("X-Goog-Upload-Command"@, "upload, finalize"@),
        ("X-Goog-Upload-Offset"@, "0"@),
        ("Content-Type"@, "application/octet-stream"@),
    ]
}

/// The headers with which the bytes are sent.
pub fn upload_finish_headers() -> (r: Vec<(String, String)>)
    ensures
        headers_view(r@) == finish_headers(),
{
    let mut h: Vec<(String, String)> = Vec::new();
    add_header(&mut h, "X-Goog-Upload-Command", "upload, finalize");
    add_header(&mut h, "X-Goog-Upload-Offset", "0");
    add_header(&mut h, "Content-Type", "application/octet-stream");
    proof {
        assert(headers_view(h@) =~= seq![
            ("X-Goog-Upload-Command"@, "upload, finalize"@),
            ("X-Goog-Upload-Offset"@, "0"@),
            ("Content-Type"@, "application/octet-stream"@),
        ]);
    }
    h
}

// ---------------------------------------------------------------------------
// Replies
// ---------------------------------------------------------------------------

/// Why an address is not one to upload to, given the host that it names.
pub open spec fn host_refusal(host: Result<Option<Seq<char>>, Seq<char>>) -> Option<Seq<char>> {
    match host {
        Err(e) => Some("URL d'upload Scotty invalide: "@ + e),
        Ok(h) => {
            let named = or_default(h, ""@);
            if named == config::UPLOAD_HOST@ {
                None
            } else {
                Some(
                    "hôte d'upload Scotty inattendu: "@ + named
                        + " (attendu: content-push.googleapis.com) — possible MITM"@,
                )
            }
        },
    }
}

/// Why an address is not one to upload to, given the host that it names.
pub fn check_host(host: Result<Option<String>, String>) -> (r: Result<(), String>)
    ensures
        ({
            let given = match host {
                Ok(h) => Ok(text::option_view(h)),
                Err(e) => Err(e@),
            };
            match r {
                Ok(_) => host_refusal(given) is None,
                Err(why) => host_refusal(given) == Some(why@),
            }
        }),
{
    match host {
        Err(e) => Err(text::cat("URL d'upload Scotty invalide: ", e.as_str())),
        Ok(h) => {
            let named: String = match h {
                Some(name) => name,
                None => "".to_owned(),
            };
            if text::same(named.as_str(), config::UPLOAD_HOST) {
                Ok(())
            } else {
                Err(
                    text::cat3(
                        "hôte d'upload Scotty inattendu: ",
                        named.as_str(),
                        " (attendu: content-push.googleapis.com) — possible MITM",
                    ),
                )
            }
        },
    }
}

/// Whether an address is one to upload to: the host must be the expected one.
pub fn check_upload_url(url: &str) -> (r: Result<(), String>)
    ensures
        match r {
            Ok(_) => host_refusal(outside::url_host(url@)) is None,
            Err(why) => host_refusal(outside::url_host(url@)) == Some(why@),
        },
{
    check_host(outside::host_of_url(url))
}

/// The reference of an uploaded image that a reply gives, or why it gives none.
pub open spec fn reference_in(reply: Seq<char>) -> Result<Seq<char>, Seq<char>> {
    let reference = text::trimmed(reply);
    if text::starts_with_spec(reference, "/"@) {
        Ok(reference)
    } else {
        Err("référence de fichier invalide: "@ + reference)
    }
}

/// The reference that the reply to an upload holds: a path.
pub fn read_reference(reply: &str) -> (r: Result<String, String>)
    ensures
        match r {
            Ok(path) => reference_in(reply@) == Ok::<Seq<char>, Seq<char>>(path@),
            Err(why) => reference_in(reply@) == Err::<Seq<char>, Seq<char>>(why@),
        },
{
    let reference = text::trim(reply);
    if text::starts_with(reference, "/") {
        Ok(reference.to_owned())
    } else {
        Err(text::cat("référence de fichier invalide: ", reference))
    }
}

// ---------------------------------------------------------------------------
// Laws
// ---------------------------------------------------------------------------


/// An image is the same with and without the prefix that names its type.
pub proof fn law_prefix_is_dropped(kind: Seq<char>, image: Seq<char>)
    requires
        !kind.contains(','),
    ensures
        bare_image("data:"@ + kind + ","@ + image) == image,
        image.len() == 0 || image[0] != 'd' ==> bare_image(image) == image,
{
    reveal_strlit("data:");
    reveal_strlit(",");
    let data = "data:"@ + kind + ","@ + image;
    assert(data.subrange(0, 5) =~= "data:"@);
    let rest = data.skip(5);
    assert(rest =~= kind + ","@ + image);
    let n = kind.len() as int;
    assert(rest.subrange(n, n + 1) =~= ","@);
    assert(text::matches_at(rest, ","@, n));
    assert forall|j: int| 0 <= j < n implies !text::matches_at(rest, ","@, j) by {
        assert(rest.subrange(j, j + 1)[0] == kind[j]);
        assert(","@[0] == ',');
        assert(kind.contains(kind[j]));
    }
    text::lemma_find_from_is(rest, ","@, 0, n);
    assert(rest.skip(n + 1) =~= image);
    if image.len() >= 5 && image[0] != 'd' {
        assert(image.subrange(0, 5)[0] == image[0]);
        assert("data:"@[0] == 'd');
    }
}

/// An image of up to 32 MiB in base64 is taken as the bytes that it stands for; a
/// larger one, one that is no base64 and an empty one are refused.
pub proof fn law_image_is_taken(image: Seq<char>, bytes: Seq<u8>, e: Seq<char>)
    ensures
        text::utf8_len(image) <= 33_554_432 && bytes.len() > 0 ==> image_bytes(image, Ok(bytes))
            == Ok::<Seq<u8>, Seq<char>>(bytes),
        text::utf8_len(image) <= 33_554_432 ==> image_bytes(image, Err(e)) == Err::<
            Seq<u8>,
            Seq<char>,
        >("décodage base64 de l'image: "@ + e),
        text::utf8_len(image) <= 33_554_432 && bytes.len() == 0 ==> image_bytes(image, Ok(bytes))
            == Err::<Seq<u8>, Seq<char>>("image vide"@),
        text::utf8_len(image) > 33_554_432 ==> image_bytes(image, Ok(bytes)) is Err,
{
}

/// An upload begins with the length and the type of the image, the tokens of the
/// page or those that stand in for them, and the cookies that there are.
pub proof fn law_headers_of_an_upload(
    push_id: Option<Seq<char>>,
    pctx: Option<Seq<char>>,
    length: nat,
    mime_type: Seq<char>,
    cookie: Option<Seq<char>>,
    authorization: Option<Seq<char>>,
)
    ensures
        ({
            let h = start_headers(push_id, pctx, length, mime_type, cookie, authorization);
            &&& push_id matches Some(p) ==> h.contains(("Push-ID"@, p))
            &&& push_id is None ==> h.contains(("Push-ID"@, "feeds/mcudyrk2a4khkz"@))
            &&& pctx matches Some(p) ==> h.contains(("X-Client-Pctx"@, p))
            &&& pctx is None ==> h.contains(("X-Client-Pctx"@, "CgcSBWjK7pYx"@))
            &&& h.contains(("X-Tenant-Id"@, "bard-storage"@))
            &&& h.contains(("X-Goog-Upload-Header-Content-Length"@, text::decimal(length)))
            &&& h.contains(("X-Goog-Upload-Header-Content-Type"@, mime_type))
            &&& h.contains(("X-Goog-Upload-Protocol"@, "resumable"@))
            &&& h.contains(("X-Goog-Upload-Command"@, "start"@))
            &&& cookie matches Some(c) ==> h.contains(("Cookie"@, c))
            &&& authorization matches Some(a) ==> h.contains(("Authorization"@, a))
        }),
{
    let h = start_headers(push_id, pctx, length, mime_type, cookie, authorization);
    assert(h[0] == ("Push-ID"@, or_default(push_id, config::DEFAULT_PUSH_ID@)));
    assert(h[1] == ("X-Tenant-Id"@, "bard-storage"@));
    assert(h[2] == ("X-Client-Pctx"@, or_default(pctx, config::DEFAULT_PCTX@)));
    assert(h[3] == ("X-Goog-Upload-Header-Content-Length"@, text::decimal(length)));
    assert(h[4] == ("X-Goog-Upload-Header-Content-Type"@, mime_type));
    assert(h[5] == ("X-Goog-Upload-Protocol"@, "resumable"@));
    assert(h[6] == ("X-Goog-Upload-Command"@, "start"@));
    let a = optional_header("Cookie"@, cookie);
    let b = optional_header("Authorization"@, authorization);
    if cookie is Some {
        assert(h[8] == a[0]);
    }
    if authorization is Some {
        assert(h[8 + a.len() as int] == b[0]);
    }
}

/// An image goes to one host and to no other.
pub proof fn law_one_host_only(host: Seq<char>, e: Seq<char>)
    ensures
        host_refusal(Ok(Some("content-push.googleapis.com"@))) is None,
        host != "content-push.googleapis.com"@ ==> host_refusal(Ok(Some(host))) is Some,
        host_refusal(Ok(None)) is Some,
        host_refusal(Err(e)) == Some("URL d'upload Scotty invalide: "@ + e),
{
    reveal_strlit("");
    reveal_strlit("content-push.googleapis.com");
    assert("content-push.googleapis.com"@.len() == 27);
}

/// The reference of an uploaded image is the path that the reply is, with or
/// without white space around it; a reply that is no path is refused and told.
pub proof fn law_reference_is_a_path(path: Seq<char>, after: Seq<char>)
    requires
        path.len() > 0,
        !text::is_white(path[0]),
        !text::is_white(path.last()),
        forall|i: int| 0 <= i < after.len() ==> text::is_white(#[trigger] after[i]),
    ensures
        path[0] == '/' ==> reference_in(path + after) == Ok::<Seq<char>, Seq<char>>(path),
        path[0] != '/' ==> reference_in(path + after) == Err::<Seq<char>, Seq<char>>(
            "référence de fichier invalide: "@ + path,
        ),
{
    reveal_strlit("/");
    let nothing = Seq::<char>::empty();
    text::law_trimming_takes_white_space_only(nothing, path, after);
    assert(nothing + path + after =~= path + after);
    assert(path.subrange(0, 1)[0] == path[0]);
    assert("/"@[0] == '/');
    if path[0] == '/' {
        assert(path.subrange(0, 1) =~= "/"@);
    }
}

/// The bytes are sent in one piece, which ends the upload.
pub proof fn law_bytes_are_sent_at_once()
    ensures
        finish_headers().contains(("X-Goog-Upload-Command"@, "upload, finalize"@)),
        finish_headers().contains(("X-Goog-Upload-Offset"@, "0"@)),
{
    assert(finish_headers()[0] == ("X-Goog-Upload-Command"@, "upload, finalize"@));
    assert(finish_headers()[1] == ("X-Goog-Upload-Offset"@, "0"@));
}

} // verus!
