//! The server.

use gemini_acp::client::config::DEFAULT_BL;
use gemini_acp::gemini::models::DEFAULT_MODEL;
use gemini_acp::json::Json;
use gemini_acp::web2api::chat;
use gemini_acp::web2api::config::{apply_env, client_of, config_paths, load, Config, Overrides};
use gemini_acp::web2api::convert::codex::{
    normalize_responses_tools, responses_input_to_messages,
};
use gemini_acp::web2api::convert::common::{
    parse_answer, parse_tool_calls, resolve_model_strict, tool_call_block, usage, warn_xsrf_ignored, ToolChoice,
};
use gemini_acp::web2api::convert::google::{
    function_call_block, google_contents_to_prompt, parse_google_function_calls,
};
use gemini_acp::web2api::convert::openai::{content_text, messages_to_prompt, tools_section};
use gemini_acp::web2api::google;
use gemini_acp::web2api::http::{
    authorized, constant_time_eq, cors_auth, json_body, json_ok, passage, unauthorized, upstream_error,
    Credentials, Gate, Passage, Reply,
};
use gemini_acp::web2api::listing::{not_found, openai_models, root};
use gemini_acp::web2api::responses;

fn json(text: &str) -> Json {
    Json::parse(text).unwrap()
}

fn list(text: &str) -> Vec<Json> {
    match json(text) {
        Json::Array(items) => items,
        _ => panic!("a list is expected"),
    }
}

// ---- keys ------------------------------------------------------------------

#[test]
fn constant_time_eq_egalite() {
    assert!(constant_time_eq("sk-abc", "sk-abc"));
    assert!(constant_time_eq("", ""));
    assert!(constant_time_eq("a", "a"));
}

#[test]
fn constant_time_eq_difference() {
    assert!(!constant_time_eq("sk-abc", "sk-abd"));
    assert!(!constant_time_eq("sk-abc", "sk-abcX"));
    assert!(!constant_time_eq("sk-abc", ""));
    assert!(!constant_time_eq("", "sk-abc"));
    assert!(!constant_time_eq("sk-abc", "sk-ABC"));
}

fn no_credentials() -> Credentials {
    Credentials { authorization: None, x_api_key: None, x_goog_api_key: None, query: None }
}

#[test]
fn keys_are_shown_in_four_ways() {
    let keys = vec!["k1".to_string(), "k2".to_string()];
    assert!(!authorized(&no_credentials(), &keys));
    let mut c = no_credentials();
    c.authorization = Some("Bearer k2".to_string());
    assert!(authorized(&c, &keys));
    c.authorization = Some("bearer k2".to_string());
    assert!(!authorized(&c, &keys));
    let mut c = no_credentials();
    c.x_api_key = Some("k1".to_string());
    assert!(authorized(&c, &keys));
    let mut c = no_credentials();
    c.x_goog_api_key = Some("k3".to_string());
    assert!(!authorized(&c, &keys));
    let mut c = no_credentials();
    c.query = Some("alt=sse&key=k1".to_string());
    assert!(authorized(&c, &keys));
    c.query = Some("alt=sse&keys=k1".to_string());
    assert!(!authorized(&c, &keys));
}

#[test]
fn requests_pass_the_gate() {
    let keys = vec!["k".to_string()];
    let nobody = no_credentials();
    assert_eq!(cors_auth(true, "/v1/models", &nobody, &keys), Gate::Preflight);
    assert_eq!(cors_auth(false, "/v1/models", &nobody, &keys), Gate::Refused);
    assert_eq!(cors_auth(false, "/", &nobody, &keys), Gate::Admitted);
    assert_eq!(cors_auth(false, "/v1/models", &nobody, &Vec::new()), Gate::Admitted);
    assert_eq!(unauthorized().status, 401);
    assert_eq!(unauthorized().body, r#"{"error":{"message":"invalid api key"}}"#);
}

#[test]
fn bodies_are_read() {
    assert_eq!(json_body(Some(br#"{"a":1}"#)).unwrap(), json(r#"{"a":1}"#));
    let bad = json_body(Some(b"{")).unwrap_err();
    assert_eq!(bad.status, 400);
    assert_eq!(bad.body, r#"{"error":{"message":"corps JSON invalide"}}"#);
    assert_eq!(json_body(None).unwrap_err().body, r#"{"error":{"message":"corps illisible"}}"#);
    assert_eq!(json_ok(&json("[1]")).body, "[1]");
    assert_eq!(upstream_error("e").status, 502);
    assert_eq!(upstream_error("e").body, r#"{"error":{"message":"upstream error: e"}}"#);
}

// ---- configuration ---------------------------------------------------------

fn nothing() -> Overrides {
    Overrides {
        port: None,
        host: None,
        retry_attempts: None,
        retry_delay_sec: None,
        request_timeout_sec: None,
        gemini_bl: None,
        auth_user: None,
        xsrf_token: None,
        default_model: None,
        log_requests: None,
        cookie_file: None,
        proxy: None,
        api_keys: None,
    }
}

#[test]
fn only_this_machine_is_served_by_default() {
    let c = load(Vec::new(), nothing());
    assert_eq!(c.host, "127.0.0.1");
    assert_eq!(c.port, 8081);
    assert_eq!(c.gemini_bl, DEFAULT_BL);
    assert_eq!(c.default_model, DEFAULT_MODEL);
    assert!(c.log_requests);
    assert!(c.api_keys.is_empty());
}

#[test]
fn the_environment_has_the_last_word() {
    let mut file = Config::default();
    file.port = 1;
    file.auth_user = Some(1);
    let mut env = nothing();
    env.port = Some("9090".to_string());
    env.retry_attempts = Some("beaucoup".to_string());
    env.auth_user = Some("x".to_string());
    env.log_requests = Some("false".to_string());
    env.api_keys = Some("a, b ,c".to_string());
    env.host = Some("0.0.0.0".to_string());
    let c = load(vec![Config::default(), file], env);
    assert_eq!(c.port, 9090);
    assert_eq!(c.retry_attempts, 3);
    assert_eq!(c.auth_user, None);
    assert!(!c.log_requests);
    assert_eq!(c.api_keys, vec!["a", "b", "c"]);
    assert_eq!(c.host, "0.0.0.0");
    let mut c = Config::default();
    let mut env = nothing();
    env.port = Some("65536".to_string());
    apply_env(&mut c, env);
    assert_eq!(c.port, 8081);
}

#[test]
fn the_client_is_configured_by_the_server() {
    let mut c = Config::default();
    c.retry_delay_sec = u64::MAX;
    let client = client_of(&c);
    assert_eq!(client.cookie_file, "vendor/cookie.json");
    assert_eq!(client.retry_delay, u64::MAX);
    assert_eq!(client_of(&Config::default()).retry_delay, 2_000);
    assert_eq!(
        config_paths(Some("/h")),
        vec!["./config.json", "/h/.config/gemini-web2api/config.json"]
    );
    assert_eq!(config_paths(None)[1], "./gemini-web2api/config.json");
}

// ---- what the protocols share ----------------------------------------------

#[test]
fn tool_choice_parse_et_instruction() {
    assert_eq!(ToolChoice::parse(None), ToolChoice::Auto);
    assert_eq!(ToolChoice::parse(Some(&json("\"none\""))), ToolChoice::Never);
    assert_eq!(ToolChoice::parse(Some(&json("\"required\""))), ToolChoice::Required);
    assert_eq!(ToolChoice::parse(Some(&json("\"auto\""))), ToolChoice::Auto);
    assert_eq!(
        ToolChoice::parse(Some(&json(
            r#"{"type": "function", "function": {"name": "lire"}}"#
        ))),
        ToolChoice::Named("lire".into())
    );
    assert!(ToolChoice::Auto.instruction().is_empty());
    assert!(ToolChoice::Required.instruction().contains("at least one tool"));
    assert!(ToolChoice::Named("lire".into()).instruction().contains("lire"));
    assert!(ToolChoice::Never.is_none());
    assert!(!ToolChoice::Auto.is_none());
}

#[test]
fn models_must_be_known() {
    assert_eq!(resolve_model_strict("gemini-auto@think=1", DEFAULT_MODEL).unwrap().think, 1);
    assert_eq!(
        resolve_model_strict("gpt-4o@think=1", DEFAULT_MODEL).unwrap_err(),
        "Unknown model: gpt-4o@think=1"
    );
    assert!(resolve_model_strict("gemini-auto@think=x", DEFAULT_MODEL).is_err());
}

#[test]
fn tokens_are_estimated() {
    assert_eq!(
        usage("éééééééé", "abcdefg"),
        json(r#"{"prompt_tokens":2,"completion_tokens":1,"total_tokens":3}"#)
    );
}

#[test]
fn calls_of_tools_are_read_back() {
    let block = tool_call_block("lire", &json(r#"{"p":"/etc/hosts"}"#));
    assert_eq!(
        block,
        "```tool_call\n{\"name\":\"lire\",\"arguments\":{\"p\":\"/etc/hosts\"}}\n```"
    );
    let (clean, calls) = parse_tool_calls(&format!(
        "je lis\n{block}\n```tool_call\npas du json\n```\n```tool_call\n{{\"sans\":\"nom\"}}\n```"
    ));
    assert_eq!(clean, "je lis");
    assert_eq!(calls.len(), 1);
    let id = calls[0].get_text("id").unwrap();
    assert!(id.starts_with("call_"));
    assert_eq!(id.len(), 37);
    assert_eq!(calls[0].get("function").unwrap().get_text("name"), Some("lire"));
    assert_eq!(
        calls[0].get("function").unwrap().get_text("arguments"),
        Some(r#"{"p":"/etc/hosts"}"#)
    );
}

#[test]
fn an_unused_token_is_warned_of() {
    assert_eq!(warn_xsrf_ignored(None), None);
    assert!(warn_xsrf_ignored(Some("t")).unwrap().contains("ignoré"));
}

// ---- /v1/chat/completions --------------------------------------------------

#[test]
fn tool_choice_none_occulte_la_section_tools() {
    let tools = list(
        r#"[{"type": "function", "function": {"name": "lire", "description": "d", "parameters": {}}}]"#,
    );
    let prompt = messages_to_prompt(&Vec::new(), Some(&tools), &ToolChoice::Never);
    assert!(!prompt.contains("You have access to tools"));
    let prompt = messages_to_prompt(&Vec::new(), Some(&tools), &ToolChoice::Required);
    assert!(prompt.contains("You have access to tools"));
    assert!(prompt.contains("MUST call at least one tool"));
}

#[test]
fn messages_make_a_prompt() {
    let messages = list(
        r#"[{"role":"system","content":"sois bref"},
            {"role":"user","content":[{"type":"text","text":"a"},{"type":"image_url"},{"type":"input_text","text":"b"},{"type":"x"}]},
            {"role":"assistant","content":"voici","tool_calls":[{"function":{"name":"lire","arguments":"{\"p\":1}"}},{}]},
            {"role":"tool","name":"lire","content":"ok"},
            {"role":"assistant","content":"fini","tool_calls":[]},
            {"content":""},
            {"content":"merci"}]"#,
    );
    assert_eq!(
        messages_to_prompt(&messages, None, &ToolChoice::Auto),
        "[System instruction]: sois bref\n\n\
         a [Note: Image input not supported by this server; describe the image in text].  b\n\n\
         [Assistant]: voici\n```tool_call\n{\"name\":\"lire\",\"arguments\":{\"p\":1}}\n```\n```tool_call\n{\"name\":\"\",\"arguments\":{}}\n```\n\n\
         [Tool result for lire]: ok\n\n\
         [Assistant]: fini\n\n\
         merci"
    );
    assert_eq!(content_text(&Json::Null), "");
    assert_eq!(tools_section(&list(r#"[{"type":"function"}]"#), &ToolChoice::Auto), None);
}

#[test]
fn chat_requests_are_planned() {
    let body = json(
        r#"{"model":"gemini-auto","messages":[{"role":"user","content":"salut"}],"tools":[],"stream":true}"#,
    );
    let plan = chat::read_request(&body, DEFAULT_MODEL).unwrap();
    assert_eq!(plan.model_name, "gemini-auto");
    assert_eq!(plan.resolved.mode, 4);
    assert_eq!(plan.prompt, "salut");
    assert!(plan.has_tools);
    assert!(plan.stream);
    assert!(!plan.streams());
    let body = json(r#"{"messages":[{"role":"user","content":"salut"}],"stream":true}"#);
    assert!(chat::read_request(&body, DEFAULT_MODEL).unwrap().streams());
    let body = json(r#"{"messages":[{"role":"user","content":"salut"}]}"#);
    assert!(!chat::read_request(&body, DEFAULT_MODEL).unwrap().streams());
    let reply = chat::read_request(&json(r#"{"messages":[]}"#), DEFAULT_MODEL).unwrap_err();
    assert_eq!(reply.status, 400);
    assert_eq!(reply.body, r#"{"error":{"message":"empty prompt"}}"#);
    let reply = chat::read_request(&json(r#"{"model":"x"}"#), DEFAULT_MODEL).unwrap_err();
    assert_eq!(reply.body, r#"{"error":{"message":"Unknown model: x"}}"#);
}

#[test]
fn chat_answers_in_events() {
    let ctx = chat::Ctx {
        model_name: "m".to_string(),
        cid: "chatcmpl-1".to_string(),
        created: 7,
    };
    assert_eq!(
        chat::stream_start(&ctx),
        r#"{"id":"chatcmpl-1","object":"chat.completion.chunk","created":7,"model":"m","choices":[{"index":0,"delta":{},"finish_reason":null}]}"#
    );
    let step = chat::stream_deltas(&ctx, Some(Ok("bon".to_string())));
    assert!(!step.over);
    assert_eq!(
        step.events,
        vec![r#"{"id":"chatcmpl-1","object":"chat.completion.chunk","created":7,"model":"m","choices":[{"index":0,"delta":{"content":"bon"},"finish_reason":null}]}"#]
    );
    for item in [None, Some(Err("coupé".to_string()))] {
        let step = chat::stream_deltas(&ctx, item);
        assert!(step.over);
        assert_eq!(step.events.len(), 2);
        assert!(step.events[0].contains(r#""finish_reason":"stop""#));
        assert_eq!(step.events[1], "[DONE]");
    }
}

#[test]
fn chat_answers_at_once() {
    let ctx = chat::Ctx {
        model_name: "m".to_string(),
        cid: "chatcmpl-1".to_string(),
        created: 7,
    };
    let (clean, calls) = chat::split_answer("bonjour", true);
    let reply = chat::complete(&ctx, "prompt..", &clean, &calls);
    assert_eq!(reply.status, 200);
    assert_eq!(
        reply.body,
        r#"{"id":"chatcmpl-1","object":"chat.completion","created":7,"model":"m","choices":[{"index":0,"message":{"role":"assistant","content":"bonjour"},"finish_reason":"stop"}],"usage":{"prompt_tokens":2,"completion_tokens":1,"total_tokens":3}}"#
    );
    let (clean, calls) = chat::split_answer("```tool_call\n{\"name\":\"lire\"}\n```", true);
    assert_eq!(clean, "");
    let events = chat::complete_events(&ctx, &clean, &calls);
    assert_eq!(events.len(), 2);
    assert!(events[0].contains(r#""content":null"#));
    assert!(events[0].contains(r#""finish_reason":"tool_calls""#));
    let (clean, calls) = chat::split_answer("```tool_call\n{\"name\":\"lire\"}\n```", false);
    assert!(clean.contains("lire"));
    assert!(calls.is_empty());
    let new = chat::new_context("m");
    assert_eq!(new.cid.len(), "chatcmpl-".len() + 12);
    assert!(new.created > 1_700_000_000);
}

// ---- /v1/responses ---------------------------------------------------------

#[test]
fn tools_are_normalized() {
    let tools = json(
        r#"[{"type":"function","name":"lire","description":"d"},{"type":"function","function":{"name":"x"}},{"type":"web"}]"#,
    );
    assert_eq!(
        normalize_responses_tools(Some(&tools)),
        list(
            r#"[{"type":"function","function":{"name":"lire","description":"d","parameters":{}}},{"type":"function","function":{"name":"x"}},{"type":"web"}]"#
        )
    );
    assert!(normalize_responses_tools(None).is_empty());
    assert!(normalize_responses_tools(Some(&json("3"))).is_empty());
}

#[test]
fn input_becomes_messages() {
    let req = json(
        r#"{"instructions":"sois bref","input":["salut",
            {"type":"function_call_output","name":"lire","output":"ok"},
            {"role":"assistant","content":[{"type":"output_text","text":"je "},{"type":"output_text","text":"lis"},
                {"type":"function_call","name":"lire","arguments":"{}"},{"type":"function_call","call_id":"c9","name":"b"}]},
            {"role":"assistant","content":"fini"},
            {"role":"user","content":[{"type":"input_text","text":"merci"}]},
            3]}"#,
    );
    assert_eq!(
        responses_input_to_messages(&req),
        list(
            r#"[{"role":"system","content":"sois bref"},
                {"role":"user","content":"salut"},
                {"role":"tool","name":"lire","content":"ok"},
                {"role":"assistant","content":"je lis","tool_calls":[
                    {"id":"call_0","type":"function","function":{"name":"lire","arguments":"{}"}},
                    {"id":"c9","type":"function","function":{"name":"b","arguments":"{}"}}]},
                {"role":"assistant","content":"fini"},
                {"role":"user","content":"merci"}]"#
        )
    );
    assert_eq!(
        responses_input_to_messages(&json(r#"{"input":"salut"}"#)),
        responses_input_to_messages(&json(r#"{"input":["salut"]}"#))
    );
    assert!(responses_input_to_messages(&json("{}")).is_empty());
}

fn response_context() -> responses::Ctx {
    responses::Ctx {
        rid: "resp_1".to_string(),
        mid: "msg_1".to_string(),
        created: 7,
        model_name: "m".to_string(),
    }
}

#[test]
fn responses_are_planned() {
    let body = json(r#"{"input":"salut","tools":[{"type":"function","name":"lire"}]}"#);
    let plan = responses::read_request(&body, DEFAULT_MODEL).unwrap();
    assert!(plan.has_tools);
    assert!(plan.prompt.ends_with("salut"));
    let body = json(r#"{"input":"salut","tools":[{"type":"function","name":"lire"}],"tool_choice":"none"}"#);
    let plan = responses::read_request(&body, DEFAULT_MODEL).unwrap();
    assert!(!plan.has_tools);
    assert_eq!(plan.prompt, "salut");
    let reply = responses::read_request(&json("{}"), DEFAULT_MODEL).unwrap_err();
    assert_eq!(reply.body, r#"{"error":{"message":"empty input"}}"#);
}

#[test]
fn responses_come_at_once() {
    let base = responses::base_of(&response_context());
    let output = responses::output_items("msg_1", "bonjour", &Vec::new());
    let usage = responses::usage("prompt..", "bonjour!");
    let reply = responses::complete(&base, &output, &usage);
    assert_eq!(
        reply.body,
        r#"{"id":"resp_1","object":"response","created_at":7,"model":"m","status":"completed","output":[{"type":"message","id":"msg_1","role":"assistant","status":"completed","content":[{"type":"output_text","text":"bonjour","annotations":[]}]}],"usage":{"input_tokens":2,"output_tokens":2,"total_tokens":4}}"#
    );
    let new = responses::new_context("m");
    assert_eq!(new.rid.len(), "resp_".len() + 16);
    assert_eq!(new.mid.len(), "msg_".len() + 12);
}

#[test]
fn responses_come_in_numbered_events() {
    let base = responses::base_of(&response_context());
    let calls = list(
        r#"[{"id":"call_1","type":"function","function":{"name":"lire","arguments":"{}"}}]"#,
    );
    let output = responses::output_items("msg_1", "bonjour", &calls);
    let usage = responses::usage("p", "bonjour");
    let events = responses::emit_stream(&base, &output, &usage);
    let kinds: Vec<&str> = events.iter().map(|e| e.get_text("type").unwrap()).collect();
    assert_eq!(
        kinds,
        vec![
            "response.created",
            "response.in_progress",
            "response.output_item.added",
            "response.function_call_arguments.delta",
            "response.function_call_arguments.done",
            "response.output_item.done",
            "response.output_item.added",
            "response.content_part.added",
            "response.output_text.delta",
            "response.output_text.done",
            "response.content_part.done",
            "response.output_item.done",
            "response.completed",
        ]
    );
    for (i, event) in events.iter().enumerate() {
        assert_eq!(event.get("sequence_number"), Some(&Json::from_integer(i as u64 + 1)));
        assert_eq!(event.get_text("id"), Some("resp_1"));
    }
    assert_eq!(events[3].get_text("item_id"), Some("call_1"));
    assert_eq!(events[8].get_text("delta"), Some("bonjour"));
    assert_eq!(
        events[12].get("response").unwrap().print(),
        responses::complete(&base, &output, &usage).body
    );
}

// ---- /v1beta/models --------------------------------------------------------

#[test]
fn google_contents_extrait_les_images_inline() {
    let req = json(
        r#"{"contents": [{"role": "user", "parts": [
                {"text": "que vois-tu ?"},
                {"inlineData": {"mimeType": "image/jpeg", "data": "aGVsbG8="}}
            ]}]}"#,
    );
    let (prompt, images) = google_contents_to_prompt(&req);
    assert!(prompt.contains("que vois-tu ?"));
    assert_eq!(images, vec![("aGVsbG8=".to_string(), "image/jpeg".to_string())]);
}

#[test]
fn google_tools_section_function_call() {
    let req = json(
        r#"{"systemInstruction": {"parts": [{"text": "sois utile"}]},
            "tools": [{"functionDeclarations": [{
                "name": "lire", "description": "lit un fichier",
                "parameters": {"type": "object"}
            }]}],
            "toolConfig": {"functionCallingConfig": {"mode": "ANY", "allowedFunctionNames": ["lire"]}},
            "contents": [{"role": "user", "parts": [{"text": "lis /etc/hosts"}]}]}"#,
    );
    let (prompt, images) = google_contents_to_prompt(&req);
    assert!(images.is_empty());
    assert!(prompt.contains("```function_call"));
    assert!(prompt.contains("\"lire\""));
    assert!(prompt.contains("MUST call one of these tools: \"lire\""));
}

#[test]
fn parse_google_function_calls_trois_formats() {
    let t = "texte\n```function_call\n{\"name\": \"a\", \"args\": {\"x\": 1}}\n```";
    let (clean, calls) = parse_google_function_calls(t);
    assert!(clean.contains("texte"));
    assert_eq!(calls.len(), 1);
    assert_eq!(calls[0].get_text("name"), Some("a"));
    assert_eq!(calls[0].get("args").unwrap().get("x"), Some(&Json::from_integer(1)));
    let t2 = "function_call\n{\"name\": \"b\", \"args\": {}}";
    let (_, calls2) = parse_google_function_calls(t2);
    assert_eq!(calls2.len(), 1);
    assert_eq!(calls2[0].get_text("name"), Some("b"));
    let t3 = "{\"name\": \"c\", \"arguments\": {\"y\": 2}}";
    let (clean3, calls3) = parse_google_function_calls(t3);
    assert!(clean3.is_empty());
    assert_eq!(calls3.len(), 1);
    assert_eq!(calls3[0].get("args").unwrap().get("y"), Some(&Json::from_integer(2)));
    let (clean4, calls4) = parse_google_function_calls("réponse simple");
    assert_eq!(clean4, "réponse simple");
    assert!(calls4.is_empty());
}

#[test]
fn google_histories_keep_calls_and_results() {
    let req = json(
        r#"{"contents": [
            {"role": "model", "parts": [{"functionCall": {"name": "lire", "args": {"p": 1}}}]},
            {"role": "user", "parts": [{"functionResponse": {"name": "lire", "response": {"ok": true}}}]},
            {"role": "user", "parts": [{"functionResponse": {"name": "vide"}}]},
            {"parts": [{"text": ""}]}]}"#,
    );
    assert_eq!(
        google_contents_to_prompt(&req).0,
        "[Assistant]: ```function_call\n{\"name\":\"lire\",\"args\":{\"p\":1}}\n```\n\n\
         [Tool result for lire]: {\"ok\":true}\n\n\
         [Tool result for vide]: null"
    );
}

#[test]
fn google_requests_are_planned() {
    let body = json(
        r#"{"contents": [{"parts": [{"text": "salut"}]}], "tools": [],
            "toolConfig": {"functionCallingConfig": {"mode": "NONE"}}}"#,
    );
    let (plan, images) =
        google::generate("gemini-auto:streamGenerateContent", &body, DEFAULT_MODEL).unwrap();
    assert_eq!(plan.model_name, "gemini-auto");
    assert!(plan.stream);
    assert!(!plan.has_tools);
    assert!(images.is_empty());
    assert!(google::generate("gemini-auto:streamGenerate", &body, DEFAULT_MODEL).unwrap().0.stream);
    assert!(!google::generate("gemini-auto:generateContent", &body, DEFAULT_MODEL).unwrap().0.stream);
    let reply = google::generate("gemini-auto", &body, DEFAULT_MODEL).unwrap_err();
    assert_eq!(reply.body, r#"{"error":{"message":"model not specified in path"}}"#);
    let reply = google::generate("gemini-auto:generateContent", &json("{}"), DEFAULT_MODEL).unwrap_err();
    assert_eq!(reply.body, r#"{"error":{"message":"empty content"}}"#);
}

#[test]
fn google_answers_at_once() {
    assert_eq!(
        google::response_object("bonjour!", "m", 8, false).print(),
        r#"{"candidates":[{"content":{"parts":[{"text":"bonjour!"}],"role":"model"},"finishReason":"STOP","index":0}],"usageMetadata":{"promptTokenCount":2,"candidatesTokenCount":2,"totalTokenCount":4},"modelVersion":"m"}"#
    );
    let r = google::response_object("oui\n```function_call\n{\"name\":\"a\"}\n```", "m", 0, true);
    let candidate = r.get("candidates").unwrap().at(0).unwrap();
    assert_eq!(
        candidate.get("content").unwrap().get("parts").unwrap().print(),
        r#"[{"text":"oui"},{"functionCall":{"name":"a","args":{}}}]"#
    );
    let r = google::response_object("", "m", 0, true);
    let candidate = r.get("candidates").unwrap().at(0).unwrap();
    assert_eq!(candidate.get("content").unwrap().get("parts").unwrap().print(), r#"[{"text":""}]"#);
}

#[test]
fn google_answers_in_events() {
    let mut stream = google::GenerateStream::new("m", "prompt..");
    let step = stream.stream_chunks(Some(Ok("éé".to_string())));
    assert!(!step.over);
    assert_eq!(
        step.events,
        vec![r#"{"candidates":[{"content":{"parts":[{"text":"éé"}],"role":"model"},"index":0}]}"#]
    );
    stream.stream_chunks(Some(Ok("éé".to_string())));
    let step = stream.stream_chunks(None);
    assert!(step.over);
    assert_eq!(
        step.events,
        vec![r#"{"candidates":[{"content":{"parts":[{"text":""}],"role":"model"},"finishReason":"STOP","index":0}],"usageMetadata":{"promptTokenCount":2,"candidatesTokenCount":1,"totalTokenCount":4},"modelVersion":"m"}"#]
    );
}

// ---- listings --------------------------------------------------------------

#[test]
fn models_are_listed() {
    let reply = json(&google::models_list().body);
    let models = reply.get("models").unwrap().as_array().unwrap();
    assert_eq!(models.len(), 8);
    assert_eq!(models[0].get_text("name"), Some("models/gemini-3.6-flash"));
    let reply = json(&openai_models().body);
    assert_eq!(reply.get_text("object"), Some("list"));
    assert_eq!(
        reply.get("data").unwrap().at(5).unwrap().print(),
        r#"{"id":"gemini-auto","object":"model","created":1700000000,"owned_by":"google","description":"gemini-auto"}"#
    );
    let reply = json(&root("1.0", "gemini-auto").body);
    assert_eq!(reply.get_text("status"), Some("ok"));
    assert_eq!(reply.get_text("defaultModel"), Some("gemini-auto"));
    assert_eq!(reply.get("models").unwrap().at(7).unwrap().as_text(), Some("gemini-flash-lite"));
    assert_eq!(not_found().status, 404);
    assert_eq!(not_found().body, r#"{"error":"not found"}"#);
}

fn header<'a>(headers: &'a [(String, String)], name: &str) -> Option<&'a str> {
    headers.iter().find(|(n, _)| n == name).map(|(_, v)| v.as_str())
}

#[test]
fn replies_are_json_for_any_origin() {
    for reply in [json_ok(&json("[1]")), unauthorized(), not_found()] {
        let Reply { headers, .. } = reply;
        assert_eq!(header(&headers, "Content-Type"), Some("application/json"));
        assert_eq!(header(&headers, "Access-Control-Allow-Origin"), Some("*"));
        assert_eq!(headers.len(), 2);
    }
}

#[test]
fn the_gate_answers_or_lets_through() {
    match passage(Gate::Preflight) {
        Passage::Answered(reply) => {
            assert_eq!(reply.status, 204);
            assert_eq!(reply.body, "");
            assert_eq!(header(&reply.headers, "Access-Control-Allow-Origin"), Some("*"));
            assert_eq!(
                header(&reply.headers, "Access-Control-Allow-Methods"),
                Some("GET, POST, OPTIONS")
            );
            assert_eq!(
                header(&reply.headers, "Access-Control-Allow-Headers"),
                Some("Authorization, Content-Type, x-api-key, x-goog-api-key, Accept")
            );
        }
        Passage::Onward(_) => panic!("a preflight is answered"),
    }
    assert_eq!(passage(Gate::Refused), Passage::Answered(unauthorized()));
    assert_eq!(
        passage(Gate::Admitted),
        Passage::Onward(vec![("Access-Control-Allow-Origin".to_string(), "*".to_string())])
    );
}

#[test]
fn a_written_call_is_read_back() {
    let calls = [
        r#"{"name":"a","args":{"x":1,"y":[-2,"l1\nl2 ```",null,true]}}"#,
        r#"{"name":"b"}"#,
        r#"{"name":"c","args":[]}"#,
        r#"{"name":"d","args":{"x":1,"$serde_json::private::RawValue":2}}"#,
    ];
    for call in calls {
        let fc = json(call);
        let (text, read) = parse_google_function_calls(&function_call_block(&fc));
        assert_eq!(text, "");
        assert_eq!(read.len(), 1);
        assert_eq!(read[0].get_text("name"), fc.get_text("name"));
        let args = fc.get("args").cloned().unwrap_or_else(Json::object);
        assert_eq!(read[0].get("args"), Some(&args));
    }
    let args = json(r#"{"x":1,"y":"``` \u0001"}"#);
    let (text, requests) = parse_answer(&tool_call_block("lire", &args));
    assert_eq!(text, "");
    assert_eq!(requests.len(), 1);
    assert_eq!(requests[0].name, "lire");
    assert_eq!(requests[0].arguments, args);
    assert_eq!(requests[0].history_block, tool_call_block("lire", &args));
}

#[test]
fn the_text_of_an_answer_stands_beside_its_calls() {
    let block = tool_call_block("a", &json("{}"));
    let (text, requests) = parse_answer(&format!("avant\n{block}\naprès"));
    assert_eq!(text, "avant\n\naprès");
    assert_eq!(requests.len(), 1);
    let (text, requests) = parse_answer("rien");
    assert_eq!(text, "rien");
    assert!(requests.is_empty());
}

#[test]
fn events_without_a_heading_are_objects() {
    let events = responses::emit_stream(&Json::Null, &Vec::new(), &Json::Null);
    assert_eq!(events.len(), 3);
    for (i, event) in events.iter().enumerate() {
        assert_eq!(event.get("sequence_number"), Some(&Json::from_integer(i as u64 + 1)));
    }
    assert_eq!(
        events[2].get("response").map(|r| r.print()).as_deref(),
        Some(r#"{"status":"completed","output":[],"usage":null}"#)
    );
}
