//! Whole turns, step by step.

use gemini_acp::json::Json;
use gemini_acp::prompt::content::ContentBlock;
use gemini_acp::prompt::notify::{SessionUpdate, ToolStatus};
use gemini_acp::prompt::turn::{
    stop_reason_of, StopReason, ToolRequest, Turn, TurnAction, TurnEvent, TurnSetting, MAX_TURNS,
};
use gemini_acp::session::{Role, Session};

fn setting(has_tools: bool) -> TurnSetting {
    TurnSetting {
        message_id: "msg".to_string(),
        upload_id: "up".to_string(),
        system: "[System instruction]: test".to_string(),
        tools_section: None,
        has_tools,
    }
}

fn text(t: &str) -> Vec<ContentBlock> {
    vec![ContentBlock::Text(t.to_string())]
}

fn begin(has_tools: bool) -> (Turn, Vec<TurnAction>) {
    Turn::begin(Session::new("gemini-3.6-flash"), setting(has_tools), &text("bonjour"), false)
}

fn said(actions: &[TurnAction]) -> String {
    let mut out = String::new();
    for action in actions {
        if let TurnAction::Send(SessionUpdate::AgentMessageChunk { text, .. }) = action {
            out.push_str(text);
        }
    }
    out
}

fn last_reason(actions: &[TurnAction]) -> Option<StopReason> {
    match actions.last() {
        Some(TurnAction::Respond(reason)) => Some(*reason),
        _ => None,
    }
}

fn call(name: &str, arguments: &str) -> ToolRequest {
    ToolRequest {
        name: name.to_string(),
        arguments: Json::parse(arguments).unwrap(),
        history_block: format!("<{name}>"),
    }
}

#[test]
fn a_plain_turn() {
    let (mut turn, actions) = begin(true);
    assert!(matches!(
        &actions[0],
        TurnAction::Send(SessionUpdate::SessionInfo { title }) if title == "bonjour"
    ));
    assert!(matches!(&actions[1], TurnAction::Start { prompt, .. } if prompt.contains("bonjour")));
    turn.step(TurnEvent::StreamStarted, false);
    let mut shown = String::new();
    for delta in ["salut ", "<Follow", "Up label=\"x\" query=\"y\" />", "!"] {
        shown.push_str(&said(&turn.step(TurnEvent::Delta(delta.to_string()), false)));
    }
    let actions = turn.step(TurnEvent::StreamEnded, false);
    shown.push_str(&said(&actions));
    assert_eq!(shown, "salut !");
    let answer = match actions.last() {
        Some(TurnAction::Parse(a)) => a.clone(),
        _ => panic!("the answer must be parsed"),
    };
    assert!(answer.contains("<FollowUp"));
    let actions =
        turn.step(TurnEvent::Answer { text: "salut !".to_string(), calls: Vec::new() }, false);
    assert_eq!(last_reason(&actions), Some(StopReason::EndTurn));
    let session = turn.into_session();
    assert_eq!(session.title.as_deref(), Some("bonjour"));
    assert_eq!(
        session.messages,
        vec![
            (Role::User, "bonjour".to_string()),
            (Role::Assistant, "salut !".to_string()),
        ]
    );
}

#[test]
fn a_turn_that_runs_a_tool() {
    let (mut turn, _) = begin(true);
    turn.step(TurnEvent::StreamStarted, false);
    turn.step(TurnEvent::StreamEnded, false);
    let actions = turn.step(
        TurnEvent::Answer {
            text: "je lis".to_string(),
            calls: vec![call("file_read", r#"{"path":"/etc/hosts"}"#)],
        },
        false,
    );
    assert!(matches!(
        actions.last(),
        Some(TurnAction::Execute { name, arguments })
            if name == "file_read" && arguments.get_text("path") == Some("/etc/hosts")
    ));
    let actions = turn.step(TurnEvent::ToolFinished("[résultat]".to_string()), false);
    assert!(matches!(
        actions.last(),
        Some(TurnAction::Start { prompt, .. }) if prompt.contains("[résultat]")
    ));
    assert_eq!(turn.session().messages.len(), 3);
    assert_eq!(turn.session().messages[1].1, "je lis\n<file_read>");
}

#[test]
fn a_turn_does_not_run_tools_forever() {
    let (mut turn, mut actions) = begin(true);
    let mut rounds = 0;
    while last_reason(&actions).is_none() {
        rounds += 1;
        assert!(rounds <= MAX_TURNS);
        turn.step(TurnEvent::StreamStarted, false);
        turn.step(TurnEvent::StreamEnded, false);
        turn.step(
            TurnEvent::Answer { text: String::new(), calls: vec![call("t", "{}")] },
            false,
        );
        actions = turn.step(TurnEvent::ToolFinished("r".to_string()), false);
    }
    assert_eq!(rounds, MAX_TURNS);
    assert_eq!(last_reason(&actions), Some(StopReason::EndTurn));
}

#[test]
fn images_are_uploaded_first() {
    let blocks = vec![
        ContentBlock::Text("décris".to_string()),
        ContentBlock::Image { data: "AA==".to_string(), mime_type: "image/png".to_string() },
        ContentBlock::Image { data: "BB==".to_string(), mime_type: "image/jpeg".to_string() },
    ];
    let session = || Session::new("gemini-3.6-flash");
    let (mut turn, actions) = Turn::begin(session(), setting(false), &blocks, false);
    assert!(matches!(actions.last(), Some(TurnAction::Upload { data, .. }) if data == "AA=="));
    let actions = turn.step(TurnEvent::Uploaded("/ref/1".to_string()), false);
    assert!(matches!(
        actions.last(),
        Some(TurnAction::Upload { mime_type, .. }) if mime_type == "image/jpeg"
    ));
    let actions = turn.step(TurnEvent::Uploaded("/ref/2".to_string()), false);
    assert!(matches!(
        actions.last(),
        Some(TurnAction::Start { refs, .. }) if refs == &["/ref/1", "/ref/2"]
    ));

    let (mut turn, _) = Turn::begin(session(), setting(false), &blocks, false);
    let actions = turn.step(TurnEvent::UploadFailed("image vide".to_string()), false);
    assert!(matches!(
        &actions[0],
        TurnAction::Send(SessionUpdate::ToolCallUpdate { status: ToolStatus::Failed, content, .. })
            if content == "Upload image 1/2 échoué: image vide"
    ));
    assert_eq!(last_reason(&actions), Some(StopReason::Refusal));
}

#[test]
fn a_cancelled_turn_starts_nothing() {
    let (_, actions) =
        Turn::begin(Session::new("gemini-3.6-flash"), setting(true), &text("bonjour"), true);
    assert_eq!(last_reason(&actions), Some(StopReason::Cancelled));
    let (mut turn, _) = begin(true);
    turn.step(TurnEvent::StreamStarted, false);
    turn.step(TurnEvent::Delta("début".to_string()), false);
    let actions = turn.step(TurnEvent::StreamCancelled, true);
    assert_eq!(last_reason(&actions), Some(StopReason::Cancelled));
}

#[test]
fn a_prompt_that_is_too_long_is_tried_once_more() {
    let fail = || TurnEvent::StartFailed {
        error: "context too long".to_string(),
        chain: "context too long: cause".to_string(),
    };
    let (mut turn, _) = begin(true);
    let actions = turn.step(fail(), false);
    assert!(matches!(actions.last(), Some(TurnAction::Start { .. })));
    let actions = turn.step(fail(), false);
    assert!(matches!(&actions[0], TurnAction::EmitError(m)
        if m == "Context overflow persisted after emergency compaction: context too long: cause"));
    assert_eq!(last_reason(&actions), Some(StopReason::MaxTokens));
}

#[test]
fn a_failed_stream_ends_the_turn() {
    let (mut turn, _) = begin(true);
    turn.step(TurnEvent::StreamStarted, false);
    let actions = turn.step(TurnEvent::StreamFailed("SAFETY block".to_string()), false);
    assert!(actions.iter().any(|a| matches!(a, TurnAction::EmitError(_))));
    assert_eq!(last_reason(&actions), Some(StopReason::Refusal));
    assert_eq!(stop_reason_of("safety"), StopReason::Refusal);
    assert_eq!(stop_reason_of("timeout"), StopReason::EndTurn);
    assert!(turn.step(TurnEvent::StreamEnded, false).is_empty());
}

#[test]
fn the_next_step_is_offered() {
    let (mut turn, _) = begin(true);
    turn.step(TurnEvent::StreamStarted, false);
    turn.step(TurnEvent::StreamEnded, false);
    let actions = turn.step(
        TurnEvent::Answer {
            text: "fini".to_string(),
            calls: vec![call("FollowUp", r#"{"label":" Tests ","query":"cargo test"}"#)],
        },
        false,
    );
    assert!(matches!(
        actions.last(),
        Some(TurnAction::AskFollowUp { label, query }) if label == "Tests" && query == "cargo test"
    ));
    let actions = turn.step(TurnEvent::FollowUpChosen(None), false);
    assert_eq!(last_reason(&actions), Some(StopReason::EndTurn));
}

#[test]
fn a_model_that_thinks_shows_its_thoughts() {
    let (mut turn, _) = Turn::begin(
        Session::new("gemini-3.5-flash-thinking"),
        setting(false),
        &text("bonjour"),
        false,
    );
    turn.step(TurnEvent::StreamStarted, false);
    let actions =
        turn.step(TurnEvent::Delta("je pense</thinking>je réponds".to_string()), false);
    assert!(actions.iter().any(|a| matches!(
        a,
        TurnAction::Send(SessionUpdate::AgentThoughtChunk { text, .. }) if text == "je pense"
    )));
    assert_eq!(said(&actions), "je réponds");
}

#[test]
fn a_new_setting_has_identifiers_of_its_own() {
    let setting = TurnSetting::new("système".to_string(), Some("outils".to_string()), true);
    assert!(setting.message_id.starts_with("msg_"));
    assert_eq!(setting.message_id.len(), 36);
    assert!(setting.upload_id.starts_with("call_"));
    assert_eq!(setting.upload_id.len(), 37);
    assert_eq!(setting.system, "système");
    assert_eq!(setting.tools_section.as_deref(), Some("outils"));
    assert!(setting.has_tools);
}
