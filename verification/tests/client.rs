//! The client: what is sent to the service, and how its replies are read.

use gemini_acp::client::attempt::{complete, emit_delta, Attempt, ChunkEnd, MAX_RAW_ACCUMULATOR};
use gemini_acp::client::config::{Config, DEFAULT_BL, DEFAULT_PCTX, DEFAULT_PUSH_ID};
use gemini_acp::client::payload::{extract_page_tokens, form_urlencode, payload};
use gemini_acp::client::request::{
    after_failure, authorization_header, build_request, cookie_header, next_reqid, page_url,
    request_with, resolve_for_turn, tokens_are_fresh, Retry,
};
use gemini_acp::client::upload::{
    accept_image, check_host, check_upload_url, decode_image, read_reference,
    upload_finish_headers, upload_start_headers,
};
use gemini_acp::gemini::cookies::CookieJar;
use gemini_acp::gemini::models::{resolve, Resolved, DEFAULT_MODEL};
use gemini_acp::json::Json;

// ---- the payload -----------------------------------------------------------

fn decode_freq(body: &str) -> String {
    let value = body
        .split('&')
        .find_map(|pair| pair.strip_prefix("f.req="))
        .unwrap();
    let mut bytes = Vec::new();
    let mut rest = value.bytes();
    while let Some(b) = rest.next() {
        match b {
            b'+' => bytes.push(b' '),
            b'%' => {
                let hex = [rest.next().unwrap(), rest.next().unwrap()];
                let text = String::from_utf8(hex.to_vec()).unwrap();
                bytes.push(u8::from_str_radix(&text, 16).unwrap());
            }
            other => bytes.push(other),
        }
    }
    String::from_utf8(bytes).unwrap()
}

fn inner_slots(body: &str) -> Json {
    let outer = Json::parse(&decode_freq(body)).unwrap();
    Json::parse(outer.at(1).unwrap().as_text().unwrap()).unwrap()
}

#[test]
fn payload_102_cases() {
    let resolved = Resolved { name: "m".into(), mode: 1, think: 4, extra: Some(vec![(31, 2)]) };
    let body = payload("bonjour", &resolved, &[], Some("tok"));
    assert!(body.contains("f.req="));
    assert!(body.contains("&at=tok"));
    let inner = inner_slots(&body);
    let arr = inner.as_array().unwrap();
    assert_eq!(arr.len(), 102);
    assert_eq!(arr[79], Json::from_integer(1));
    assert_eq!(arr[17].at(0).unwrap().at(0), Some(&Json::from_integer(4)));
    assert_eq!(arr[59].as_text().unwrap().len(), 36);
    assert_eq!(arr[31], Json::from_integer(2));
    assert_eq!(arr[0].at(0).unwrap().as_text(), Some("bonjour"));
    assert_eq!(arr[0].at(3), Some(&Json::Null));
}

#[test]
fn payload_avec_refs_images() {
    let resolved = resolve("gemini-3.6-flash", DEFAULT_MODEL).unwrap();
    let refs = vec!["/generated/image1".to_string(), "/generated/image2".to_string()];
    let body = payload("décris", &resolved, &refs, None);
    let arr = inner_slots(&body);
    assert_eq!(
        arr.at(0).unwrap().at(3).unwrap(),
        &Json::parse(
            r#"[[null, null, "/generated/image1"], [null, null, "/generated/image2"]]"#
        )
        .unwrap()
    );
}

#[test]
fn token_extraction() {
    let body = r#"<script>window.WIZ_global_data = {"SAPISID": "x", "SNlM0e":"AbCdEf123", "qKIAYe":"feeds/abc123", "Ylro7b":"CgcSXYZ"};</script>"#;
    let t = extract_page_tokens(body);
    assert_eq!(t.at.unwrap(), "AbCdEf123");
    assert_eq!(t.push_id.unwrap(), "feeds/abc123");
    assert_eq!(t.pctx.unwrap(), "CgcSXYZ");
    assert!(extract_page_tokens("rien ici").at.is_none());
}

#[test]
fn encodage_form() {
    let params = vec![
        ("a b".to_string(), "x=y".to_string()),
        ("c".to_string(), "é".to_string()),
    ];
    assert_eq!(form_urlencode(&params), "a+b=x%3Dy&c=%C3%A9");
}

// ---- deltas ----------------------------------------------------------------

#[test]
fn emit_delta_sequence() {
    let mut emitted = String::new();
    assert_eq!(emit_delta("Bonj", &mut emitted).unwrap().as_deref(), Some("Bonj"));
    assert_eq!(emit_delta("Bonjour", &mut emitted).unwrap().as_deref(), Some("our"));
    assert_eq!(emit_delta("Bonjour le", &mut emitted).unwrap().as_deref(), Some(" le"));
    assert_eq!(emit_delta("Bonjour le", &mut emitted).unwrap(), None);
    assert_eq!(emitted, "Bonjour le");
}

#[test]
fn emit_delta_divergence() {
    let mut emitted = String::from("Bonjour tout le monde");
    let err = emit_delta("Autre chose", &mut emitted).unwrap_err();
    assert!(err.contains("content changed"));
    assert_eq!(emitted, "Bonjour tout le monde");
}

#[test]
fn a_text_that_falls_back_gives_nothing() {
    let mut emitted = String::from("Bonjour");
    assert_eq!(emit_delta("Bon", &mut emitted).unwrap(), None);
    assert_eq!(emitted, "Bonjour");
}

// ---- an attempt ------------------------------------------------------------

fn line(text: &str) -> String {
    let inner = format!(
        "[null,[\"tok\"],\"{}\",[],[[\"rcid\",[{}]]],[],[],[]]",
        "padding-".repeat(15),
        Json::from_text(text).print()
    );
    let escaped = Json::from_text(&inner).print();
    format!("[[\"wrb.fr\",[62,0],{escaped}],[\"di\",72]]\n")
}

#[test]
fn an_attempt_hands_on_what_is_new() {
    let mut attempt = Attempt::new();
    assert!(attempt.is_silent());
    let (deltas, end) = attempt.read_chunk(line("Bonj").as_bytes());
    assert_eq!(deltas, vec!["Bonj"]);
    assert!(matches!(end, ChunkEnd::Continue));
    let (deltas, _) = attempt.read_text(&format!("{}{}", line("Bonjour"), line("Bonjour à tous")));
    assert_eq!(deltas, vec!["our", " à tous"]);
    assert!(!attempt.is_silent());
    assert_eq!(attempt.finish(), None);
}

#[test]
fn an_attempt_fails_on_an_error_of_the_service() {
    let mut attempt = Attempt::new();
    let (deltas, end) = attempt.read_text("x BardErrorInfo [1060]");
    assert!(deltas.is_empty());
    match end {
        ChunkEnd::Failed(m) => {
            assert_eq!(m, "Gemini upstream rejected request: BardErrorInfo [1060]")
        }
        _ => panic!("the attempt must fail"),
    }
    let mut attempt = Attempt::new();
    match attempt.read_text("BardErrorInfo sans code").1 {
        ChunkEnd::Failed(m) => assert_eq!(m, "Gemini upstream rejected request: BardErrorInfo [0]"),
        _ => panic!("the attempt must fail"),
    }
}

#[test]
fn an_attempt_fails_where_the_text_changes() {
    let mut attempt = Attempt::new();
    let (deltas, end) = attempt.read_text(&format!("{}{}{}", line("un"), line("deux"), line("un!")));
    assert_eq!(deltas, vec!["un"]);
    match end {
        ChunkEnd::Failed(m) => assert_eq!(m, "content changed during streaming"),
        _ => panic!("the attempt must fail"),
    }
}

#[test]
fn an_attempt_sees_a_refusal() {
    let mut attempt = Attempt::new();
    let (_, end) = attempt.read_text(r#"{"blockReason": "SAFETY"}"#);
    assert!(matches!(end, ChunkEnd::Refused(_)));
}

#[test]
fn an_attempt_that_starts_again_keeps_what_was_handed_on() {
    let mut attempt = Attempt::new();
    attempt.read_text(&line("Bonj"));
    attempt.read_text("début de ligne");
    attempt.restart();
    let (deltas, _) = attempt.read_text(&line("Bonjour"));
    assert_eq!(deltas, vec!["our"]);
}

#[test]
fn bytes_that_are_not_text_are_replaced() {
    let mut attempt = Attempt::new();
    let (deltas, end) = attempt.read_chunk(&[0xff, 0xfe, b'\n']);
    assert!(deltas.is_empty());
    assert!(matches!(end, ChunkEnd::Continue));
}

#[test]
fn only_the_beginning_of_a_body_is_searched_at_the_end() {
    let mut attempt = Attempt::new();
    let filler = "é\n".repeat(MAX_RAW_ACCUMULATOR);
    attempt.read_text(&filler);
    assert_eq!(attempt.finish(), None);
}

#[test]
fn the_whole_answer_is_the_deltas_put_together() {
    let items = vec![Ok("Bon".to_string()), Ok("jour".to_string())];
    assert_eq!(complete(&items), Ok("Bonjour".to_string()));
    let items = vec![Ok("Bon".to_string()), Err("coupé".to_string()), Ok("jour".to_string())];
    assert_eq!(complete(&items), Err("coupé".to_string()));
}

// ---- retries ---------------------------------------------------------------

#[test]
fn retries_are_for_what_may_pass() {
    assert_eq!(after_failure("timeout", true, 1, 3, 2_000, 0), Retry::After(2_000));
    assert_eq!(after_failure("timeout", true, 2, 3, 2_000, 0), Retry::After(4_000));
    assert_eq!(after_failure("timeout", true, 3, 3, 2_000, 0), Retry::GiveUp);
    assert_eq!(after_failure("timeout", false, 1, 3, 2_000, 0), Retry::GiveUp);
    assert_eq!(after_failure("header Cookie invalide", true, 1, 3, 2_000, 0), Retry::GiveUp);
    assert_eq!(after_failure("BardErrorInfo [1]", true, 1, 3, 2_000, 0), Retry::GiveUp);
    assert_eq!(after_failure("bad cookie", true, 1, 3, 2_000, 0), Retry::GiveUp);
}

#[test]
fn delays_are_bounded() {
    for nanos in [0, 1, 499, 500, 501, 999, 1_000, 123_456_789] {
        match after_failure("timeout", true, 1, 3, 2_000, nanos) {
            Retry::After(ms) => assert!((2_000..=2_500).contains(&ms)),
            Retry::GiveUp => panic!("a retry is due"),
        }
    }
    assert_eq!(after_failure("timeout", true, 1, 3, 2_000, 1_000), Retry::After(2_500));
    assert_eq!(after_failure("timeout", true, 40, 100, 2_000, 0), Retry::After(30_000));
    assert_eq!(after_failure("timeout", true, 1, 100, u64::MAX, 0), Retry::After(30_000));
}

// ---- the request -----------------------------------------------------------

fn value<'a>(headers: &'a [(String, String)], name: &str) -> Option<&'a str> {
    headers.iter().find(|(n, _)| n == name).map(|(_, v)| v.as_str())
}

#[test]
fn the_request_names_the_account() {
    let mut config = Config::default();
    config.auth_user = Some(2);
    let r = request_with(&config, 42, Some("a=b"), Some("SAPISIDHASH 1_x"), "corps".to_string());
    assert_eq!(
        r.url,
        format!(
            "https://gemini.google.com/u/2/_/BardChatUi/data/assistant.lamda.BardFrontendService/StreamGenerate?bl={DEFAULT_BL}&hl=en&_reqid=42&rt=c"
        )
    );
    assert_eq!(value(&r.headers, "Cookie"), Some("a=b"));
    assert_eq!(value(&r.headers, "Authorization"), Some("SAPISIDHASH 1_x"));
    assert_eq!(value(&r.headers, "Referer"), Some("https://gemini.google.com/u/2/app"));
    assert_eq!(value(&r.headers, "X-Goog-AuthUser"), Some("2"));
    assert_eq!(value(&r.headers, "X-Same-Domain"), Some("1"));
    assert_eq!(r.body, "corps");
    assert_eq!(page_url(None), "https://gemini.google.com/app");
}

#[test]
fn the_request_carries_the_session() {
    let jar = CookieJar::parse("SAPISID=s1; HSID=h2").unwrap();
    let config = Config::default();
    let m = resolve("gemini-3.6-flash", DEFAULT_MODEL).unwrap();
    let r = build_request(&config, Some(&jar), Some("tok"), 7, "bonjour", &[], &m);
    assert_eq!(value(&r.headers, "Cookie"), Some("SAPISID=s1; HSID=h2"));
    assert!(value(&r.headers, "Authorization").unwrap().starts_with("SAPISIDHASH "));
    assert_eq!(value(&r.headers, "X-Goog-AuthUser"), None);
    assert!(r.body.contains("&at=tok"));
    assert!(r.url.contains("_reqid=7&"));
    assert_eq!(cookie_header(None), None);
    assert_eq!(authorization_header(None), None);
    let r = build_request(&config, None, None, 7, "bonjour", &[], &m);
    assert_eq!(value(&r.headers, "Cookie"), None);
    assert_eq!(value(&r.headers, "Authorization"), None);
}

#[test]
fn numbers_of_requests_wrap() {
    assert_eq!(next_reqid(1_700_000_000, 3), 1_700_000_003);
    assert_eq!(next_reqid(u64::MAX, 2), 1);
}

#[test]
fn a_turn_can_set_the_level_of_thinking() {
    let r = resolve_for_turn("gemini-3.6-flash", Some(2), DEFAULT_MODEL).unwrap();
    assert_eq!(r.think, 2);
    let r = resolve_for_turn("gemini-3.6-flash", None, DEFAULT_MODEL).unwrap();
    assert_eq!(r.think, 4);
    assert!(resolve_for_turn("gemini-3.6-flash@think=1", Some(2), DEFAULT_MODEL).is_err());
}

#[test]
fn tokens_are_used_for_ten_minutes() {
    assert!(tokens_are_fresh(599));
    assert!(!tokens_are_fresh(600));
}

// ---- uploads ---------------------------------------------------------------

#[test]
fn images_are_decoded() {
    assert_eq!(decode_image("aGVsbG8=").unwrap(), b"hello".to_vec());
    assert_eq!(decode_image("data:image/png;base64,aGVsbG8=").unwrap(), b"hello".to_vec());
    assert_eq!(decode_image("").unwrap_err(), "image vide");
    assert!(decode_image("***").unwrap_err().starts_with("décodage base64 de l'image: "));
    assert!(decode_image("data:sans virgule").is_err());
}

#[test]
fn large_images_are_refused() {
    let large = "A".repeat(33_554_433);
    assert_eq!(
        decode_image(&large).unwrap_err(),
        "image base64 trop volumineuse (33554433 octets)"
    );
    assert_eq!(accept_image("x", Ok(vec![1])), Ok(vec![1]));
    assert_eq!(
        accept_image("x", Err("non".to_string())),
        Err("décodage base64 de l'image: non".to_string())
    );
}

#[test]
fn uploads_go_to_the_expected_host() {
    assert_eq!(check_upload_url("https://content-push.googleapis.com/upload/?id=1"), Ok(()));
    assert_eq!(
        check_upload_url("https://evil.example/upload").unwrap_err(),
        "hôte d'upload Scotty inattendu: evil.example (attendu: content-push.googleapis.com) — possible MITM"
    );
    assert!(check_upload_url("pas une url")
        .unwrap_err()
        .starts_with("URL d'upload Scotty invalide: "));
    assert!(check_host(Ok(None)).is_err());
}

#[test]
fn references_are_paths() {
    assert_eq!(read_reference(" /generated/1\n"), Ok("/generated/1".to_string()));
    assert_eq!(
        read_reference("erreur"),
        Err("référence de fichier invalide: erreur".to_string())
    );
}

#[test]
fn uploads_say_what_is_sent() {
    let h = upload_start_headers(None, None, 5, "image/png", None, None);
    assert_eq!(value(&h, "Push-ID"), Some(DEFAULT_PUSH_ID));
    assert_eq!(value(&h, "X-Client-Pctx"), Some(DEFAULT_PCTX));
    assert_eq!(value(&h, "X-Goog-Upload-Header-Content-Length"), Some("5"));
    assert_eq!(value(&h, "X-Goog-Upload-Header-Content-Type"), Some("image/png"));
    assert_eq!(value(&h, "Cookie"), None);
    let h = upload_start_headers(Some("p"), Some("c"), 5, "image/png", Some("a=b"), Some("auth"));
    assert_eq!(value(&h, "Push-ID"), Some("p"));
    assert_eq!(value(&h, "Cookie"), Some("a=b"));
    assert_eq!(value(&h, "Authorization"), Some("auth"));
    let h = upload_finish_headers();
    assert_eq!(value(&h, "X-Goog-Upload-Command"), Some("upload, finalize"));
}
