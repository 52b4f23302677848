//! Sessions: their life, their options, what is asked of the user, and the
//! configuration of the agent.

use gemini_acp::agent_config::{data_dir_default, env_or, AgentConfig, Environment};
use gemini_acp::elicitation::{
    apply_ask_user_response, capture_gemini_elicitation, clarification, custom_answer_key,
    extract_ask_user_questions, is_vague_prompt, question_key, response_to_outcome,
    AskUserOption, AskUserQuestion, AskUserQuestionOutcome, ElicitationAction,
    ElicitationContentValue, ElicitationOutcome, ElicitationRequestSpec,
};
use gemini_acp::gemini::models::DEFAULT_MODEL;
use gemini_acp::json::Json;
use gemini_acp::lifecycle::{
    build_available_modes, build_mode_state, handle_close, handle_delete, handle_fork,
    handle_list, handle_load, handle_new, handle_resume, handle_set_mode, is_valid_session_id,
    mode_of_id, new_session_id, refuse_turn, replay, send_restored_title, session_mode_id, ParsedAnswer,
    ReplayItem, Reply, TurnError,
};
use gemini_acp::options::{
    build_agent_capabilities, build_config_options, handle, set_option, OptionCategory,
};
use gemini_acp::prompt::notify::{SessionUpdate, ToolStatus};
use gemini_acp::prompt::turn::ToolRequest;
use gemini_acp::queue::{Next, Pushable};
use gemini_acp::session::{Role, Session, SessionMode};
use gemini_acp::settings::{
    load_settings, merge_json, watched_files, SettingsFile, SettingsManager,
};

fn json(text: &str) -> Json {
    Json::parse(text).unwrap()
}

// ---- identifiers and modes -------------------------------------------------

#[test]
fn session_id_accepts_only_expected_format() {
    assert!(is_valid_session_id("sess_0123456789abcdef0123456789abcdef"));
    assert!(is_valid_session_id("sess_aabbccddeeff00112233445566778899"));
    assert!(!is_valid_session_id(""));
    assert!(!is_valid_session_id("sess_short"));
    assert!(!is_valid_session_id("sess_0123456789abcdef0123456789ABCDEF"));
    assert!(!is_valid_session_id("../sess_0123456789abcdef0123456789abcdef"));
    assert!(!is_valid_session_id("sess_/etc/passwd"));
}

#[test]
fn all_modes_have_stable_acp_ids() {
    let modes = build_available_modes();
    let ids: Vec<&str> = modes.iter().map(|mode| mode.id.as_str()).collect();
    assert_eq!(ids, vec!["default", "accept_edits", "bypass_permissions"]);
}

#[test]
fn mode_state_uses_current_mode() {
    let state = build_mode_state(SessionMode::AcceptEdits);
    assert_eq!(state.current_mode_id, "accept_edits");
    assert_eq!(state.available_modes.len(), 3);
}

#[test]
fn modes_are_found_by_their_identifiers() {
    for mode in [SessionMode::Default, SessionMode::AcceptEdits, SessionMode::BypassPermissions] {
        assert_eq!(mode_of_id(session_mode_id(mode)), Some(mode));
    }
    assert_eq!(mode_of_id("autre"), None);
}

// ---- replies ---------------------------------------------------------------

const ID: &str = "sess_0123456789abcdef0123456789abcdef";

fn refusal(reply: Reply) -> Json {
    match reply {
        Reply::InvalidParams(data) => data,
        _ => panic!("the request must be refused"),
    }
}

#[test]
fn requests_are_answered_as_the_store_did() {
    assert!(matches!(handle_new(Ok(())), Reply::Done));
    assert!(matches!(handle_new(Err("e".into())), Reply::Internal(m) if m == "création de session: e"));
    assert!(matches!(handle_list(Err("e".into())), Reply::Internal(m) if m == "liste des sessions: e"));
    assert!(matches!(handle_load(ID, Ok(())), Reply::Done));
    assert_eq!(
        refusal(handle_load(ID, Err("e".into()))).get_text("error"),
        Some("session introuvable ou workspace incompatible: e")
    );
    assert_eq!(
        refusal(handle_resume("non", Ok(()))).get_text("error"),
        Some("identifiant de session invalide")
    );
    assert_eq!(
        refusal(handle_fork(ID, Err("e".into()))).get_text("error"),
        Some("fork impossible: e")
    );
    assert!(matches!(handle_delete(ID, Ok(true)), Reply::Done));
    assert_eq!(
        refusal(handle_delete(ID, Ok(false))).get_text("error"),
        Some("session introuvable")
    );
    assert!(matches!(handle_close(ID, Err("e".into())), Reply::Internal(m) if m == "fermeture de session: e"));
    assert!(matches!(handle_set_mode(ID, "default", Ok(())), Reply::Done));
    assert_eq!(refusal(handle_set_mode(ID, "autre", Ok(()))).get_text("mode_id"), Some("autre"));
    assert_eq!(
        refusal(handle_set_mode(ID, "default", Err("e".into()))).get_text("error"),
        Some("impossible de changer le mode: e")
    );
}

#[test]
fn turns_are_refused() {
    assert_eq!(
        refusal(refuse_turn(ID, TurnError::AlreadyRunning)).get_text("error"),
        Some("a turn is already running; send session/cancel first")
    );
    let data = refusal(refuse_turn(ID, TurnError::NotFound));
    assert_eq!(data.get_text("session_id"), Some(ID));
    assert_eq!(data.get("error"), None);
}

#[test]
fn a_title_is_restored() {
    assert_eq!(send_restored_title(None), None);
    assert_eq!(
        send_restored_title(Some("Titre")),
        Some(SessionUpdate::SessionInfo { title: "Titre".to_string() })
    );
}

#[test]
fn a_history_is_shown_again() {
    let messages = vec![
        (Role::User, "lis le fichier".to_string()),
        (Role::Assistant, "brut".to_string()),
        (Role::Tool, "contenu".to_string()),
        (Role::User, "merci".to_string()),
    ];
    let none = || ParsedAnswer { text: String::new(), calls: Vec::new() };
    let parsed = vec![
        none(),
        ParsedAnswer {
            text: "je lis".to_string(),
            calls: vec![ToolRequest {
                name: "file_read".to_string(),
                arguments: Json::object(),
                history_block: String::new(),
            }],
        },
        none(),
        none(),
    ];
    let items = replay(&messages, &parsed);
    assert_eq!(items.len(), 4);
    assert!(matches!(&items[0], ReplayItem::User { text, .. } if text == "lis le fichier"));
    assert!(matches!(&items[1], ReplayItem::Agent { text, .. } if text == "je lis"));
    assert!(matches!(
        &items[2],
        ReplayItem::Tool { name, status: ToolStatus::Completed, result: Some(r), .. }
            if name == "file_read" && r == "contenu"
    ));
    assert!(matches!(&items[3], ReplayItem::User { text, .. } if text == "merci"));
}

// ---- options ---------------------------------------------------------------

#[test]
fn build_config_options_retourne_3_options() {
    let options = build_config_options("gemini-3.6-flash", Some(2), true);
    assert_eq!(options.len(), 3);
}

#[test]
fn build_agent_capabilities_inclut_fork() {
    let caps = build_agent_capabilities();
    assert!(caps.fork);
}

#[test]
fn options_show_what_is_in_force() {
    let options = build_config_options("gemini-3.5-flash-thinking", None, false);
    assert_eq!(options[0].current, "gemini-3.5-flash-thinking");
    assert_eq!(options[0].choices.len(), 8);
    assert_eq!(options[1].current, "0");
    assert_eq!(options[1].category, OptionCategory::ThoughtLevel);
    assert_eq!(options[1].choices[3].name, "Réflexion 3");
    assert_eq!(options[2].current, "false");
}

#[test]
fn options_are_set() {
    let mut s = Session::new("gemini-3.6-flash");
    set_option(&mut s, "model", Some("gemini-auto"));
    set_option(&mut s, "think", Some("9"));
    set_option(&mut s, "tools_enabled", Some("OFF"));
    assert_eq!(s.model, "gemini-auto");
    assert_eq!(s.think, Some(4));
    assert!(!s.tools_enabled);
    set_option(&mut s, "tools_enabled", Some("peut-être"));
    set_option(&mut s, "think", Some("x"));
    set_option(&mut s, "autre", Some("y"));
    set_option(&mut s, "model", None);
    assert!(!s.tools_enabled);
    assert_eq!(s.think, Some(4));
    assert_eq!(s.model, "gemini-auto");
}

#[test]
fn options_are_answered() {
    let s = Session::new("gemini-3.6-flash");
    assert_eq!(handle(ID, true, Ok(()), Some(&s)).unwrap().len(), 3);
    assert_eq!(
        refusal(handle(ID, false, Ok(()), Some(&s)).unwrap_err()).get_text("session_id"),
        Some(ID)
    );
    assert!(matches!(
        handle(ID, true, Err("e".to_string()), None).unwrap_err(),
        Reply::Internal(m) if m == "e"
    ));
    assert!(matches!(handle(ID, true, Ok(()), None).unwrap_err(), Reply::InvalidParams(_)));
}

// ---- elicitation -----------------------------------------------------------

fn question() -> AskUserQuestion {
    AskUserQuestion {
        question: "Quel langage ?".into(),
        header: Some("Langage".into()),
        multi_select: false,
        options: vec![
            AskUserOption {
                label: "Rust".into(),
                description: Some("Sûr et rapide".into()),
                preview: Some("fn main() {}".into()),
            },
            AskUserOption {
                label: "Python".into(),
                description: Some("Simple pour prototyper".into()),
                preview: None,
            },
        ],
    }
}

fn questions_input() -> Json {
    json(
        r#"{"questions":[{"question":"Quel langage ?","header":"Langage","multi_select":false,"options":[
            {"label":"Rust","description":"Sûr et rapide","preview":"fn main() {}"},
            {"label":"Python","description":"Simple pour prototyper","preview":null}]}]}"#,
    )
}

#[test]
fn captures_gemini_ask_user_question() {
    let result = capture_gemini_elicitation("AskUserQuestion", &questions_input()).unwrap();
    assert_eq!(result.questions.len(), 1);
    assert_eq!(result.message(), "Quel langage ?");
    assert_eq!(result.questions[0], question());
}

#[test]
fn captures_snake_case_variant() {
    assert!(capture_gemini_elicitation("ask_user_question", &questions_input()).is_some());
}

#[test]
fn ignores_regular_tool() {
    assert!(capture_gemini_elicitation("file_read", &json(r#"{"questions":[]}"#)).is_none());
}

#[test]
fn custom_answer_has_priority() {
    let input = json(r#"{"questions": []}"#);
    let response = ElicitationAction::Accept(Some(vec![(
        custom_answer_key(0),
        ElicitationContentValue::Text("  Go  ".into()),
    )]));
    match apply_ask_user_response(&response, &input, &[question()]) {
        AskUserQuestionOutcome::Answered(updated) => {
            assert_eq!(updated.get("answers").unwrap().get_text("Quel langage ?"), Some("Go"))
        }
        AskUserQuestionOutcome::Cancelled => panic!("expected answer"),
    }
}

#[test]
fn decline_produces_empty_answers() {
    let input = json(r#"{"questions": []}"#);
    match apply_ask_user_response(&ElicitationAction::Decline, &input, &[question()]) {
        AskUserQuestionOutcome::Answered(updated) => {
            assert_eq!(updated.get("answers"), Some(&Json::object()))
        }
        AskUserQuestionOutcome::Cancelled => panic!("expected decline to be handled"),
    }
}

#[test]
fn a_chosen_answer_is_taken() {
    let input = json(r#"{"questions": []}"#);
    let response = ElicitationAction::Accept(Some(vec![(
        question_key(0),
        ElicitationContentValue::Text("Rust".into()),
    )]));
    match apply_ask_user_response(&response, &input, &[question()]) {
        AskUserQuestionOutcome::Answered(updated) => {
            assert_eq!(updated.get("answers").unwrap().get_text("Quel langage ?"), Some("Rust"))
        }
        AskUserQuestionOutcome::Cancelled => panic!("expected answer"),
    }
    assert_eq!(
        apply_ask_user_response(&ElicitationAction::Cancel, &input, &[question()]),
        AskUserQuestionOutcome::Cancelled
    );
}

#[test]
fn questions_that_are_not_well_formed_are_none() {
    assert_eq!(extract_ask_user_questions(&json(r#"{"questions": 3}"#)), None);
    assert_eq!(extract_ask_user_questions(&json("{}")), None);
}

#[test]
fn outcomes_follow_the_reply() {
    assert_eq!(response_to_outcome(ElicitationAction::Decline), ElicitationOutcome::Declined);
    assert_eq!(response_to_outcome(ElicitationAction::Cancel), ElicitationOutcome::Cancelled);
    assert_eq!(clarification(ElicitationOutcome::Declined), None);
    let pairs = || vec![("a".to_string(), ElicitationContentValue::Boolean(true))];
    assert_eq!(
        response_to_outcome(ElicitationAction::Accept(Some(pairs()))),
        ElicitationOutcome::Accepted(pairs())
    );
    assert_eq!(clarification(ElicitationOutcome::Accepted(pairs())), Some(pairs()));
}

#[test]
fn a_form_has_the_properties_that_were_added() {
    let spec = ElicitationRequestSpec::new("s", "m")
        .property("a", Json::object(), true)
        .property("b", Json::object(), false);
    assert!(spec.is_required("a"));
    assert!(!spec.is_required("b"));
    assert_eq!(spec.properties.get("b"), Some(&Json::object()));
}

#[test]
fn vague_prompts_are_noticed() {
    assert!(is_vague_prompt("OPTIMISE tout"));
    assert!(is_vague_prompt("Améliore le code"));
    assert!(!is_vague_prompt("bonjour"));
    assert!(!is_vague_prompt(&format!("refactor {}", "x".repeat(80))));
}

// ---- configuration ---------------------------------------------------------

fn empty_environment() -> Environment {
    Environment {
        cookies: None,
        model: None,
        data_dir: None,
        xdg_data_home: None,
        home: None,
        auth_user: None,
        proxy: None,
    }
}

#[test]
fn env_or_retourne_default_si_absent() {
    assert_eq!(env_or(None, "défaut"), "défaut");
    assert_eq!(env_or(Some("v"), "défaut"), "v");
}

#[test]
fn data_dir_default_avec_env_var() {
    assert_eq!(
        data_dir_default(Some("/tmp/test-data-dir-q14"), Some("/x"), Some("/h")),
        "/tmp/test-data-dir-q14"
    );
    assert_eq!(data_dir_default(None, Some("/x"), Some("/h")), "/x/gemini-acp");
    assert_eq!(data_dir_default(None, None, Some("/h")), "/h/.local/share/gemini-acp");
    assert_eq!(data_dir_default(None, None, None), ".");
}

#[test]
fn config_is_cloneable_and_preserves_values() {
    let config = AgentConfig {
        cookie_file: "cookies.json".into(),
        default_model: "model".into(),
        data_dir: "/tmp/gemini-acp".into(),
        auth_user: Some(2),
        proxy: Some("http://proxy".into()),
    };
    let cloned = config.clone();
    assert_eq!(cloned.cookie_file, config.cookie_file);
    assert_eq!(cloned.default_model, config.default_model);
    assert_eq!(cloned.data_dir, config.data_dir);
    assert_eq!(cloned.auth_user, config.auth_user);
    assert_eq!(cloned.proxy, config.proxy);
}

#[test]
fn from_env_defaults_sans_variables() {
    let config = AgentConfig::from_env(empty_environment());
    assert_eq!(config.cookie_file, "vendor/cookie.json");
    assert_eq!(config.default_model, DEFAULT_MODEL);
    assert_eq!(config.auth_user, None);
    assert_eq!(config.proxy, None);
}

#[test]
fn from_env_lit_les_variables() {
    let mut env = empty_environment();
    env.cookies = Some("/tmp/cookies.json".into());
    env.model = Some("gemini-3.6-flash".into());
    env.auth_user = Some("3".into());
    env.proxy = Some("http://proxy.local".into());
    let config = AgentConfig::from_env(env);
    assert_eq!(config.cookie_file, "/tmp/cookies.json");
    assert_eq!(config.default_model, "gemini-3.6-flash");
    assert_eq!(config.auth_user, Some(3));
    assert_eq!(config.proxy.as_deref(), Some("http://proxy.local"));
}

#[test]
fn validate_warns_missing_cookies() {
    let config = AgentConfig {
        cookie_file: "/nonexistent/path/cookies.json".into(),
        default_model: "model".into(),
        data_dir: "/tmp/gemini-acp".into(),
        auth_user: None,
        proxy: None,
    };
    let warnings = config.validate(false);
    assert_eq!(warnings.len(), 1);
    assert!(warnings[0].0.contains("cookies"));
    assert!(config.validate(true).is_empty());
}

// ---- settings --------------------------------------------------------------

#[test]
fn merge_is_recursive_and_overlay_wins() {
    let mut base = json(r#"{"model":"flash","permissions":{"read":true,"write":false}}"#);
    merge_json(&mut base, json(r#"{"permissions":{"write":true},"tools":true}"#));
    assert_eq!(base.get_text("model"), Some("flash"));
    assert_eq!(base.get("permissions").unwrap().get("read"), Some(&Json::Bool(true)));
    assert_eq!(base.get("permissions").unwrap().get("write"), Some(&Json::Bool(true)));
    assert_eq!(base.get("tools"), Some(&Json::Bool(true)));
}

fn file(path: &str, content: Option<&str>) -> SettingsFile {
    SettingsFile { path: path.to_string(), content: content.map(str::to_string) }
}

#[test]
fn manager_can_initialize_without_config_files() {
    let mut manager = SettingsManager::new();
    assert_eq!(manager.load(&[file("a", None), file("b", None)]), Ok(false));
    assert_eq!(manager.settings(), Json::object());
}

#[test]
fn settings_are_layered() {
    let files = [
        file("a", Some(r#"{"x": 1, "y": {"z": 1}}"#)),
        file("b", None),
        file("c", Some(r#"{"y": {"w": 2}}"#)),
    ];
    assert_eq!(load_settings(&files), Ok(json(r#"{"x": 1, "y": {"z": 1, "w": 2}}"#)));
    assert_eq!(
        load_settings(&[file("bad", Some("{"))]),
        Err("settings JSON invalide: bad".to_string())
    );
    let mut manager = SettingsManager::new();
    assert_eq!(manager.load(&files), Ok(true));
    assert_eq!(manager.load(&files), Ok(false));
    assert!(manager.load(&[file("bad", Some("{"))]).is_err());
    assert_eq!(manager.load(&[file("o", Some(r#"{"y": {"w": 2, "z": 1}, "x": 1}"#))]), Ok(false));
    assert_eq!(manager.settings(), json(r#"{"x": 1, "y": {"z": 1, "w": 2}}"#));
}

#[test]
fn files_of_settings_are_in_order() {
    assert_eq!(
        watched_files("/p", None, Some("/h")),
        vec![
            "/h/.config/gemini-acp/settings.json",
            "/p/.gemini/settings.json",
            "/p/.gemini/settings.local.json",
            "/etc/gemini-acp/managed-settings.json",
        ]
    );
    assert_eq!(watched_files("/p", Some("/x"), Some("/h"))[0], "/x/gemini-acp/settings.json");
    assert_eq!(watched_files("/p", None, None).len(), 3);
}

// ---- the queue -------------------------------------------------------------

#[test]
fn pushable_preserves_order_and_closes_cleanly() {
    let mut queue = Pushable::new();
    queue.push(1);
    queue.push(2);
    queue.close();
    assert!(matches!(queue.next(), Next::Item(1)));
    assert!(matches!(queue.next(), Next::Item(2)));
    assert!(matches!(queue.next(), Next::End));
}

#[test]
fn push_after_close_is_rejected() {
    let mut queue = Pushable::<u8>::new();
    queue.close();
    assert!(!queue.push(1));
    assert!(queue.is_closed());
}

#[test]
fn consumer_waits_until_producer_pushes() {
    let mut queue = Pushable::new();
    assert!(matches!(queue.next(), Next::Wait));
    assert!(queue.push("ready"));
    assert!(matches!(queue.next(), Next::Item("ready")));
}

#[test]
fn new_identifiers_are_valid() {
    let id = new_session_id();
    assert!(is_valid_session_id(&id));
    assert_ne!(id, new_session_id());
}
