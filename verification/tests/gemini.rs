//! The service: models, cookies, the frames of its replies, the clock.

use gemini_acp::gemini::auth::{sapisid_hash, sapisid_hash_at};
use gemini_acp::gemini::clock::{
    civil_from_days, iso_at, now_iso, now_unix, now_unix_u64, seconds_or_zero,
};
use gemini_acp::gemini::cookies::{read_entry, Cookie, CookieJar, Entry};
use gemini_acp::gemini::errors::GeminiError;
use gemini_acp::gemini::frames::{
    bard_error, candidate_texts, clean_text, detect_safety_block, final_text, is_empty_stream,
    longest_text, StreamDecoder, MAX_BUFFER_BYTES,
};
use gemini_acp::gemini::models::{
    is_known, is_thinking_mode, resolve, Resolved, DEFAULT_MODEL, MODEL_KEYS,
};
use gemini_acp::gemini::tool_prompt::{
    tool_result_line, tool_use_section, BlockKind, INSTRUCTION_FUNCTION_CALL,
    INSTRUCTION_TOOL_CALL,
};
use gemini_acp::json::Json;
use gemini_acp::record::{split_list, split_object};

// ---- authorization ---------------------------------------------------------

#[test]
fn vecteur_connu() {
    assert_eq!(
        sapisid_hash_at("test-sapisid", "https://gemini.google.com", 1_700_000_000),
        "SAPISIDHASH 1700000000_8b5814e54e0d42919ef58b02d65c57aa9e31a041"
    );
}

#[test]
fn format_deux_parties() {
    let h = sapisid_hash("s", "https://gemini.google.com");
    let (head, tail) = h.split_once('_').unwrap();
    assert!(head.starts_with("SAPISIDHASH "));
    assert_eq!(tail.len(), 40);
}

// ---- cookies ---------------------------------------------------------------

const NOW: i64 = 1_800_000_000;

#[test]
fn cookies_edit_this_cookie_filtre_et_sapisid() {
    let json = r#"[
            {"name": "SAPISID", "value": "abc", "domain": ".google.com", "expirationDate": 1900000000},
            {"name": "HSID", "value": "def", "domain": "gemini.google.com"},
            {"name": "expired", "value": "z", "domain": ".google.com", "expirationDate": 1000000000},
            {"name": "wrong", "value": "y", "domain": ".example.com"},
            {"name": "empty", "value": "", "domain": ".google.com"}
        ]"#;
    let jar = CookieJar::parse(json).unwrap();
    assert_eq!(jar.header_at(NOW).unwrap(), "SAPISID=abc; HSID=def");
    assert_eq!(jar.sapisid(), Some("abc"));
    assert!(jar.header_at(NOW).unwrap().contains("HSID=def"));
}

#[test]
fn cookies_format_objet() {
    let json = r#"{"cookie": "SAPISID=abc; HSID=def", "sapisid": "abc"}"#;
    let jar = CookieJar::parse(json).unwrap();
    assert_eq!(jar.header().unwrap(), "SAPISID=abc; HSID=def");
    assert_eq!(jar.sapisid(), Some("abc"));
}

#[test]
fn cookies_format_brut() {
    let jar = CookieJar::parse("SAPISID=s1; HSID=h2; empty=").unwrap();
    assert_eq!(jar.header().unwrap(), "SAPISID=s1; HSID=h2");
    assert_eq!(jar.sapisid(), Some("s1"));
}

#[test]
fn cookies_formats_invalides() {
    assert!(CookieJar::parse("{pas du json").is_err());
    assert!(CookieJar::parse("[pas du json").is_err());
}

#[test]
fn cookies_header_vide_si_tout_expire() {
    let json = r#"[{"name": "SAPISID", "value": "a", "domain": ".google.com", "expirationDate": 1000000000}]"#;
    let jar = CookieJar::parse(json).unwrap();
    assert_eq!(jar.header_at(NOW), None);
}

#[test]
fn edit_this_cookie_filtre_et_sapisid() {
    let json = r#"[{"name":"SAPISID","value":"abc","domain":".google.com","expirationDate":1900000000},{"name":"HSID","value":"def","domain":"gemini.google.com"},{"name":"expired","value":"z","domain":".google.com","expirationDate":1000000000},{"name":"wrong","value":"y","domain":".example.com"},{"name":"empty","value":"","domain":".google.com"}]"#;
    let jar = CookieJar::parse(json).unwrap();
    assert_eq!(jar.header_at(NOW).unwrap(), "SAPISID=abc; HSID=def");
    assert_eq!(jar.sapisid(), Some("abc"));
    assert!(jar.header_at(NOW).unwrap().contains("HSID=def"));
}

#[test]
fn format_objet() {
    let jar = CookieJar::parse(r#"{"cookie":"SAPISID=abc; HSID=def","sapisid":"abc"}"#).unwrap();
    assert_eq!(jar.header().unwrap(), "SAPISID=abc; HSID=def");
    assert_eq!(jar.sapisid(), Some("abc"));
}

#[test]
fn format_brut() {
    let jar = CookieJar::parse("SAPISID=s1; HSID=h2; empty=").unwrap();
    assert_eq!(jar.header().unwrap(), "SAPISID=s1; HSID=h2");
    assert_eq!(jar.sapisid(), Some("s1"));
}

#[test]
fn formats_invalides() {
    assert!(CookieJar::parse("{pas du json").is_err());
    assert!(CookieJar::parse("[pas du json").is_err());
}

#[test]
fn header_vide_si_tout_expire() {
    let jar = CookieJar::parse(r#"[{"name":"SAPISID","value":"a","domain":".google.com","expirationDate":1000000000}]"#).unwrap();
    assert_eq!(jar.header_at(NOW), None);
}

#[test]
fn a_fraction_of_a_second_does_not_count() {
    let json = r#"[{"name": "a", "value": "b", "domain": ".google.com", "expirationDate": 1800000000.9}]"#;
    let jar = CookieJar::parse(json).unwrap();
    assert_eq!(jar.header_at(NOW - 1).as_deref(), Some("a=b"));
    assert_eq!(jar.header_at(NOW + 1), None);
}

#[test]
fn a_cookie_without_an_end_is_valid() {
    let cookie = Cookie {
        name: "a".to_string(),
        value: "b".to_string(),
        domain: None,
        expires_at: None,
    };
    assert!(cookie.valid(NOW));
}

// ---- models ----------------------------------------------------------------

#[test]
fn models_resolution_normale() {
    let r = resolve("gemini-3.6-flash", DEFAULT_MODEL).unwrap();
    assert_eq!(
        r,
        Resolved { name: "gemini-3.6-flash".into(), mode: 1, think: 4, extra: None }
    );
}

#[test]
fn models_extra_pro_enhanced() {
    let r = resolve("gemini-3.1-pro-enhanced", DEFAULT_MODEL).unwrap();
    assert_eq!(r.mode, 3);
    assert_eq!(r.extra, Some(vec![(31, 2), (80, 3)]));
}

#[test]
fn models_override_think() {
    let r = resolve("gemini-3.6-flash@think=0", DEFAULT_MODEL).unwrap();
    assert_eq!(r.think, 0);
    let r = resolve("gemini-3.5-flash-thinking-lite@think=2", DEFAULT_MODEL).unwrap();
    assert_eq!(r.think, 2);
    assert_eq!(r.mode, 5);
}

#[test]
fn models_refuse_multiple_think_suffixes() {
    let err = resolve("gemini-3.6-flash@think=2@think=3", DEFAULT_MODEL).unwrap_err();
    assert!(err.contains("Multiple @think="), "got: {err}");
}

#[test]
fn models_is_thinking_mode_justesse() {
    assert!(!is_thinking_mode(1));
    assert!(is_thinking_mode(2));
    assert!(!is_thinking_mode(3));
    assert!(!is_thinking_mode(4));
    assert!(is_thinking_mode(5));
    assert!(!is_thinking_mode(6));
}

#[test]
fn models_repli_cle_inconnue() {
    let r = resolve("gpt-4o", DEFAULT_MODEL).unwrap();
    assert_eq!(r.name, DEFAULT_MODEL);
    assert_eq!(r.mode, 1);
}

#[test]
fn models_think_invalide() {
    let err = resolve("gemini-3.6-flash@think=abc", DEFAULT_MODEL).unwrap_err();
    assert!(err.contains("Invalid think level: abc"));
}

#[test]
fn resolution_normale() {
    let r = resolve("gemini-3.6-flash", DEFAULT_MODEL).unwrap();
    assert_eq!(
        r,
        Resolved { name: "gemini-3.6-flash".into(), mode: 1, think: 4, extra: None }
    );
}

#[test]
fn extra_pro_enhanced() {
    let r = resolve("gemini-3.1-pro-enhanced", DEFAULT_MODEL).unwrap();
    assert_eq!(r.mode, 3);
    assert_eq!(r.extra, Some(vec![(31, 2), (80, 3)]));
}

#[test]
fn override_think() {
    let r = resolve("gemini-3.6-flash@think=0", DEFAULT_MODEL).unwrap();
    assert_eq!(r.think, 0);
    let r = resolve("gemini-3.5-flash-thinking-lite@think=2", DEFAULT_MODEL).unwrap();
    assert_eq!(r.think, 2);
    assert_eq!(r.mode, 5);
}

#[test]
fn refuse_multiple_think_suffixes() {
    let err = resolve("gemini-3.6-flash@think=2@think=3", DEFAULT_MODEL).unwrap_err();
    assert!(err.contains("Multiple @think="), "got: {err}");
}

#[test]
fn is_thinking_mode_justesse() {
    assert!(!is_thinking_mode(1));
    assert!(is_thinking_mode(2));
    assert!(!is_thinking_mode(3));
    assert!(!is_thinking_mode(4));
    assert!(is_thinking_mode(5));
    assert!(!is_thinking_mode(6));
}

#[test]
fn repli_cle_inconnue() {
    let r = resolve("gpt-4o", DEFAULT_MODEL).unwrap();
    assert_eq!(r.name, DEFAULT_MODEL);
    assert_eq!(r.mode, 1);
}

#[test]
fn think_invalide() {
    let err = resolve("gemini-3.6-flash@think=abc", DEFAULT_MODEL).unwrap_err();
    assert!(err.contains("Invalid think level: abc"));
}

#[test]
fn every_key_is_known_and_levels_are_bounded() {
    for key in MODEL_KEYS {
        assert!(is_known(key));
        let r = resolve(&format!("{key}@think=9"), DEFAULT_MODEL).unwrap();
        assert_eq!(r.name, key);
        assert_eq!(r.think, 4);
    }
    assert!(!is_known("gpt-4o"));
}

// ---- the clock -------------------------------------------------------------

#[test]
fn iso_epoch() {
    let (y, m, d) = civil_from_days(0);
    assert_eq!((y, m, d), (1970, 1, 1));
}

#[test]
fn iso_date_recente() {
    let secs = 1_786_320_000u64;
    let (y, m, d) = civil_from_days((secs / 86_400) as i64);
    assert_eq!((y, m, d), (2026, 8, 10));
}

#[test]
fn now_iso_format_valide() {
    let s = now_iso();
    assert_eq!(s.len(), 20, "format YYYY-MM-DDTHH:MM:SSZ");
    assert!(s.ends_with('Z'));
    assert_eq!(s.as_bytes()[4], b'-');
    assert_eq!(s.as_bytes()[10], b'T');
    assert_eq!(s.as_bytes()[19], b'Z');
}

#[test]
fn now_unix_croissant() {
    let a = now_unix();
    let b = now_unix();
    assert!(b >= a, "now_unix doit être monotone");
    assert!(now_unix_u64() > 1_700_000_000);
}

#[test]
fn days_around_a_leap_day() {
    assert_eq!(civil_from_days(19_781), (2024, 2, 28));
    assert_eq!(civil_from_days(19_782), (2024, 2, 29));
    assert_eq!(civil_from_days(19_783), (2024, 3, 1));
    assert_eq!(civil_from_days(-1), (1969, 12, 31));
    assert_eq!(civil_from_days(11_016), (2000, 2, 29));
    assert_eq!(civil_from_days(-25_509), (1900, 2, 28));
    assert_eq!(civil_from_days(-25_508), (1900, 3, 1));
    assert_eq!(iso_at(1_709_210_096), "2024-02-29T12:34:56Z");
}

// ---- frames ----------------------------------------------------------------

#[test]
fn clean_text_enleve_references_et_cards() {
    let input = "avant\n```python?code_reference&code_event_index=12\nligne 1\nligne 2\n```\n"
        .to_string()
        + "milieu\nhttp://googleusercontent.com/card_content/7\nfin\n";
    assert_eq!(clean_text(&input, true), "avant\nmilieu\nfin");
}

fn wire_line(inner: &str) -> String {
    let escaped = Json::from_text(inner).print();
    format!("[[\"wrb.fr\",[62,0],{escaped}],[\"di\",72]]")
}

fn line_with_candidates(candidates: &str) -> String {
    let inner = format!(
        "[null,[\"tok\"],\"padding-padding-padding-padding-padding-padding-padding-padding-padding-padding-padding-padding-padding-padding-padding\",[],{candidates},[],[],[]]"
    );
    wire_line(&Json::parse(&inner).unwrap().print())
}

#[test]
fn candidate_texts_ligne_capturee() {
    let line = line_with_candidates(
        r#"[["rcid-court", ["Bonjour"]], ["rcid-long", ["Bonjour, ", "le monde", " final"]]]"#,
    );
    assert!(line.len() >= 200, "ligne trop courte pour être examinée");
    assert_eq!(candidate_texts(&line), vec!["Bonjour", "Bonjour, le monde final"]);
}

#[test]
fn extract_ignore_lignes_inutiles() {
    assert!(candidate_texts(")]}'").is_empty());
    assert!(candidate_texts(&"x".repeat(250)).is_empty());
    assert!(candidate_texts(&format!("\"wrb.fr\"{}", "x".repeat(250))).is_empty());
}

#[test]
fn final_text_longest_et_nettoye() {
    let raw = format!(
        ")]}}'\n{}\n\n",
        line_with_candidates(
            r#"[["rcid", ["court", "```text?code_reference&code_event_index=3\ncode\n```"]]]"#
        )
    );
    assert_eq!(final_text(&raw).unwrap(), "court");
}

#[test]
fn final_text_bard_error() {
    let raw = ")]}' foo\nBardErrorInfo [123] bar";
    assert!(final_text(raw).unwrap_err().contains("BardErrorInfo [123]"));
}

#[test]
fn stream_decoder_lignes_partiellepuis_complete() {
    let line = line_with_candidates(r#"[["rcid", ["abc"]]]"#);
    let mut dec = StreamDecoder::new();
    let (a, b) = line.split_at(line.len() / 2);
    assert!(dec.feed(a).is_empty());
    let texts = dec.feed(&format!("{b}\n)]}}'"));
    assert_eq!(texts, vec!["abc"]);
}

#[test]
fn lines_are_found_wherever_the_body_is_cut() {
    let body = format!(
        ")]}}'\n{}\n{}\n",
        line_with_candidates(r#"[["rcid", ["Bonj"]]]"#),
        line_with_candidates(r#"[["rcid", ["Bonjour"]]]"#)
    );
    for split in 0..=body.len() {
        let (a, b) = body.split_at(split);
        let mut dec = StreamDecoder::new();
        let mut texts = dec.feed(a);
        texts.extend(dec.feed(b));
        assert_eq!(texts, vec!["Bonj", "Bonjour"]);
    }
    let mut dec = StreamDecoder::new();
    dec.feed("début");
    assert_eq!(dec.pending(), "début");
    dec.clear();
    assert_eq!(dec.pending(), "");
}

#[test]
fn codes_of_errors_are_read() {
    assert_eq!(bard_error("x BardErrorInfo [1060] y"), Some(1060));
    assert_eq!(bard_error("BardErrorInfo\n[7]"), Some(7));
    assert_eq!(bard_error("rien"), None);
}

#[test]
fn refusals_are_seen() {
    let safety = "Gemini a refusé de répondre (blockReason: SAFETY). Reformulez votre prompt en évitant le contenu sensible.";
    let general = "Gemini a refusé de répondre (politique de sécurité). Reformulez votre prompt.";
    assert_eq!(detect_safety_block(r#"{"blockReason":"SAFETY"}"#).as_deref(), Some(safety));
    assert_eq!(detect_safety_block(r#"{"blockReason": "SAFETY"}"#).as_deref(), Some(safety));
    assert_eq!(detect_safety_block(r#"{"blockReason":""}"#).as_deref(), Some(general));
    assert_eq!(detect_safety_block(r#"{"blockReason":"SAF"#).as_deref(), Some(general));
    assert_eq!(detect_safety_block("blockReason").as_deref(), Some(general));
    assert!(detect_safety_block("bonjour").is_none());
    assert!(!is_empty_stream("bonjour"));
    assert_eq!(
        longest_text(&["a".to_string(), "ccc".to_string(), "bb".to_string()]).as_deref(),
        Some("ccc")
    );
    assert_eq!(longest_text(&[]), None);
}

#[test]
fn errors_say_what_went_wrong() {
    let cases = [
        (
            GeminiError::CookiesExpired { code: 401 },
            "cookies expires ou invalides (BardErrorInfo [401]) — reexportez vendor/cookie.json",
        ),
        (GeminiError::UnknownModel("m".to_string()), "modele inconnu: m"),
        (GeminiError::Network("n".to_string()), "erreur reseau: n"),
        (
            GeminiError::Http { status: 503, body: "b".to_string() },
            "erreur HTTP 503: b",
        ),
        (GeminiError::StreamDivergence, "divergence de flux en cours de streaming"),
        (GeminiError::UploadFailed("u".to_string()), "upload Scotty echec: u"),
        (GeminiError::SafetyBlocked("s".to_string()), "s"),
        (GeminiError::Other("o".to_string()), "o"),
    ];
    for (error, text) in cases {
        assert_eq!(error.message(), text);
    }
}

// ---- tools -----------------------------------------------------------------

fn defs(json: &str) -> Vec<Json> {
    vec![Json::parse(json).unwrap()]
}

#[test]
fn tool_use_section_fence_selon_block_kind() {
    let defs = defs(r#"{"name": "lire", "description": "lit un fichier", "parameters": {}}"#);
    let tool_call = tool_use_section(BlockKind::ToolCall, INSTRUCTION_TOOL_CALL, &defs, "");
    assert!(tool_call.contains("# Tool Use"));
    assert!(tool_call.contains("```tool_call"));
    assert!(tool_call.contains("\"lire\""));
    let function_call =
        tool_use_section(BlockKind::FunctionCall, INSTRUCTION_FUNCTION_CALL, &defs, "");
    assert!(function_call.contains("```function_call"));
    assert!(function_call.contains("\"lire\""));
}

#[test]
fn tool_use_section_inclut_instruction_defs_et_contrainte() {
    let defs = defs(r#"{"name": "lire", "description": "lit"}"#);
    let s = tool_use_section(
        BlockKind::ToolCall,
        INSTRUCTION_TOOL_CALL,
        &defs,
        "\n\nIMPORTANT: contrainte",
    );
    assert!(s.starts_with("# Tool Use"));
    assert!(s.contains("You have access to tools"));
    assert!(s.contains("\"name\": \"lire\""));
    assert!(s.ends_with("IMPORTANT: contrainte"));
}

#[test]
fn tool_result_line_formatage_exact() {
    assert_eq!(
        tool_result_line("file_read", "contenu du fichier"),
        "[Tool result for file_read]: contenu du fichier"
    );
}

#[test]
fn a_clock_before_the_epoch_reads_zero() {
    assert_eq!(seconds_or_zero(Some(1_786_320_000)), 1_786_320_000);
    assert_eq!(seconds_or_zero(Some(0)), 0);
    assert_eq!(seconds_or_zero(None), 0);
}

#[test]
fn a_body_with_a_text_is_no_silent_refusal() {
    let line = line_with_candidates(r#"[["rcid", ["abc"]]]"#);
    let empty = line_with_candidates("[]");
    assert!(!is_empty_stream(&format!(")]}}'\n{empty}\n{line}\n{empty}\n")));
    assert!(is_empty_stream(&format!(")]}}'\n{empty}\n{empty}\n{empty}\n")));
    assert!(!is_empty_stream("\"wrb.fr\""));
}

#[test]
fn a_line_that_does_not_end_is_dropped() {
    let line = line_with_candidates(r#"[["rcid", ["abc"]]]"#);
    let tail = "x".repeat(MAX_BUFFER_BYTES + 1);
    let mut dec = StreamDecoder::new();
    assert_eq!(dec.feed(&format!("{line}\n{tail}")), vec!["abc"]);
    assert_eq!(dec.pending(), "");
    assert!(dec.feed(&tail).is_empty());
    assert_eq!(dec.pending(), "");
}

#[test]
fn a_field_written_twice_is_refused() {
    let twice = [
        r#"[{"name": "a", "name": "b", "value": "v"}]"#,
        r#"[{"name": "a", "value": "v", "value": "v"}]"#,
        r#"[{"name": "a", "value": "v", "domain": null, "domain": null}]"#,
        r#"[{"name": "a", "value": "v", "expirationDate": 1, "expirationDate": 2}]"#,
        r#"{"cookie": "a=b", "cookie": "a=b"}"#,
        r#"{"sapisid": "a", "s\u0061pisid": "b"}"#,
    ];
    for input in twice {
        assert!(CookieJar::parse(input).is_err(), "{input}");
    }
}

#[test]
fn a_field_that_nobody_reads_is_passed_over() {
    let deep = format!("{}{}", "[".repeat(300), "]".repeat(300));
    let input = format!(
        " [ {{\"x\": 1e999, \"x\": \"\\ud800\", \"y\": {deep}, \"name\": \"a\", \"value\": \"v\"}} , [\"b\", \"w\", null] ] "
    );
    let jar = CookieJar::parse(&input).unwrap();
    assert_eq!(jar.header_at(NOW).unwrap(), "a=v; b=w");
    let object = CookieJar::parse(r#"{"x": 1e999, "cookie": "a=b"}"#).unwrap();
    assert_eq!(object.header_at(NOW).unwrap(), "a=b");
    assert!(CookieJar::parse("{}").unwrap().header_at(NOW).is_none());
    assert!(CookieJar::parse("[]").unwrap().header_at(NOW).is_none());
}

#[test]
fn what_is_no_export_is_refused() {
    let wrong = [
        r#"[{"name": "a"}]"#,
        r#"[{"name": "a", "value": 1}]"#,
        r#"[{"name": "a", "value": "v", "domain": 1}]"#,
        r#"[{"name": "a", "value": "v", "expirationDate": "1"}]"#,
        r#"[{"name": "a", "value": "v", "expirationDate": 1e999}]"#,
        r#"[{"name": "a", "value": "v",}]"#,
        r#"[{"name": "a", "value": "v"},]"#,
        r#"[{"name": "a", "value": "v"}] x"#,
        r#"[{"name" "a"}]"#,
        r#"[{1: "a"}]"#,
        r#"[["a", "v", null, 1, 2]]"#,
        r#"[["a"]]"#,
        r#"["a"]"#,
        "[1x]",
        r#"{"cookie": null}"#,
        r#"{"cookie": "a=b"} x"#,
        r#"{"cookie": "a=b",}"#,
    ];
    for input in wrong {
        assert!(CookieJar::parse(input).is_err(), "{input}");
    }
}

#[test]
fn entries_are_read_field_by_field() {
    let text = |t: &str| Some(Json::from_text(t));
    let entry = Entry::Record(vec![
        ("name".to_string(), text("a")),
        ("other".to_string(), None),
        ("value".to_string(), text("v")),
        ("expirationDate".to_string(), Json::parse("12.9")),
    ]);
    let cookie = read_entry(&entry).unwrap();
    assert_eq!((cookie.name.as_str(), cookie.value.as_str()), ("a", "v"));
    assert_eq!(cookie.expires_at, Some(12));
    let twice = Entry::Record(vec![
        ("name".to_string(), text("a")),
        ("name".to_string(), None),
        ("value".to_string(), text("v")),
    ]);
    assert!(read_entry(&twice).is_none());
    assert!(read_entry(&Entry::List(vec![text("a"), text("v")])).is_some());
    assert!(CookieJar::parse_etc(None).is_err());
    assert!(CookieJar::parse_object(None).is_err());
}

#[test]
fn json_texts_are_split_into_their_parts() {
    assert_eq!(
        split_list(" [1, \"a,]\" ,[2,3]] "),
        Some(vec!["1".to_string(), " \"a,]\"".to_string(), "[2,3]".to_string()])
    );
    assert_eq!(split_list("[]"), Some(Vec::new()));
    assert_eq!(split_list("[1,]"), None);
    assert_eq!(split_list("{}"), None);
    assert_eq!(
        split_object(r#"{"a": 1, "a":{"b":2}}"#),
        Some(vec![
            ("a".to_string(), " 1".to_string()),
            ("a".to_string(), r#"{"b":2}"#.to_string()),
        ])
    );
    assert_eq!(split_object("{\"a\"}"), None);
}
