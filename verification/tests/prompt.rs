//! The parts of a turn: what is sent, and what is shown.

use gemini_acp::json::Json;
use gemini_acp::prompt::assemble::{build_prompt, MAX_PROMPT_CHARS};
use gemini_acp::prompt::compaction::{compact_messages, history_size, PRESERVE_TURNS};
use gemini_acp::prompt::content::{blocks_to_parts, ContentBlock, ResourceContents};
use gemini_acp::prompt::error::{actionable_error_message, actionable_stream_error};
use gemini_acp::prompt::follow_up::{
    action_meta, emit_action, replace_components, StreamNormalizer,
};
use gemini_acp::prompt::notify::{
    notify_text, notify_usage, usage_update, SessionUpdate, ToolKind, ToolStatus, CONTEXT_TOKENS,
};
use gemini_acp::prompt::title::{derive_title, MAX_TITLE_CHARS};
use gemini_acp::session::Role;

fn path<'a>(value: &'a Json, keys: &[&str]) -> &'a Json {
    let mut at = value;
    for key in keys {
        at = at.get(key).unwrap();
    }
    at
}

// ---- follow-ups ------------------------------------------------------------

#[test]
fn follow_up_removes_complete_follow_up_from_stream() {
    let mut normalizer = StreamNormalizer::default();
    assert_eq!(
        normalizer.push("hello <FollowUp label=\"Run tests\" query=\"cargo test\" />"),
        "hello "
    );
    assert_eq!(normalizer.finish(), "");
}

#[test]
fn removes_complete_follow_up_from_stream() {
    let mut normalizer = StreamNormalizer::default();
    assert_eq!(
        normalizer.push("hello <FollowUp label=\"Run tests\" query=\"cargo test\" />"),
        "hello "
    );
    assert_eq!(normalizer.finish(), "");
}

#[test]
fn handles_split_marker_at_every_prefix_length() {
    for split in 1.."<FollowUp".len() {
        let mut normalizer = StreamNormalizer::default();
        let (left, right) = "<FollowUp label=\"Run\" query=\"cargo test\" />".split_at(split);
        assert_eq!(normalizer.push(&format!("before{left}")), "before");
        assert_eq!(normalizer.push(right), "");
        assert_eq!(normalizer.finish(), "");
    }
}

#[test]
fn incomplete_follow_up_is_discarded_on_finish() {
    let mut normalizer = StreamNormalizer::default();
    assert_eq!(normalizer.push("hello <FollowUp label=\"Run"), "hello ");
    assert_eq!(normalizer.finish(), "");
}

#[test]
fn handles_split_follow_up() {
    let mut normalizer = StreamNormalizer::default();
    assert_eq!(normalizer.push("hello <Follow"), "hello ");
    assert_eq!(normalizer.push("Up label=\"Run"), "");
    assert_eq!(normalizer.push(" tests\" query=\"cargo test\" />"), "");
    assert_eq!(normalizer.finish(), "");
}

#[test]
fn follow_up_handles_split_marker_at_every_prefix_length() {
    for split in 1.."<FollowUp".len() {
        let mut normalizer = StreamNormalizer::default();
        let (left, right) = "<FollowUp label=\"Run\" query=\"cargo test\" />".split_at(split);
        assert_eq!(normalizer.push(&format!("before{left}")), "before");
        assert_eq!(normalizer.push(right), "");
        assert_eq!(normalizer.finish(), "");
    }
}

#[test]
fn does_not_drop_unrelated_gt_inside_quotes() {
    let mut normalizer = StreamNormalizer::default();
    assert_eq!(
        normalizer.push("hello <FollowUp label=\"A > B\" query=\"cargo test\" /> world"),
        "hello  world"
    );
}

#[test]
fn does_not_stop_at_gt_inside_quotes() {
    let mut normalizer = StreamNormalizer::default();
    assert_eq!(
        normalizer.push("hello <FollowUp label=\"A > B\" query=\"cargo test\" /> world"),
        "hello  world"
    );
}

#[test]
fn follow_up_incomplete_follow_up_is_discarded_on_finish() {
    let mut normalizer = StreamNormalizer::default();
    assert_eq!(normalizer.push("hello <FollowUp label=\"Run"), "hello ");
    assert_eq!(normalizer.finish(), "");
}

#[test]
fn compatibility_replace_is_noop() {
    let input = "text <FollowUp label=\"Run\" query=\"cargo test\" />";
    assert_eq!(replace_components(input), input);
}

#[test]
fn components_are_removed_however_the_text_is_cut() {
    let input = "a <FollowUp label=\"x > y\" query='q' /> b <FollowUp/> c < d <Fol";
    let mut whole = StreamNormalizer::default();
    let mut expected = whole.push(input);
    expected.push_str(&whole.finish());
    assert_eq!(expected, "a  b  c < d <Fol");
    for split in 0..=input.len() {
        let (left, right) = input.split_at(split);
        let mut normalizer = StreamNormalizer::default();
        let mut out = normalizer.push(left);
        out.push_str(&normalizer.push(right));
        out.push_str(&normalizer.finish());
        assert_eq!(out, expected);
    }
}

#[test]
fn action_meta_is_non_executing_and_clickable() {
    let meta = action_meta("Run tests", "cargo test");
    let ui = ["geminiAcp", "ui"];
    assert_eq!(path(&meta, &["geminiAcp", "nonExecutionKind"]).as_text(), Some("action"));
    assert_eq!(path(&meta, &ui).get_text("component"), Some("action"));
    assert_eq!(path(&meta, &ui).get_text("action"), Some("follow_up"));
    assert_eq!(path(&meta, &ui).get_text("query"), Some("cargo test"));
    assert_eq!(path(&meta, &ui).get("singleUse"), Some(&Json::Bool(true)));
    let dispatch = path(&meta, &["geminiAcp", "ui", "dispatch"]);
    assert_eq!(dispatch.get_text("method"), Some("session/prompt"));
    assert_eq!(dispatch.get_text("prompt"), Some("cargo test"));
}

#[test]
fn action_card_waits_for_the_user() {
    let card = emit_action("Run tests", "cargo test");
    assert_eq!(card.status, ToolStatus::Pending);
    assert_eq!(card.meta, Some(action_meta("Run tests", "cargo test")));
    assert!(card.title.contains("Run tests"));
    assert_eq!(card.kind, ToolKind::Other);
}

// ---- errors ----------------------------------------------------------------

#[test]
fn actionable_error_message_cookies_expired() {
    let msg = actionable_error_message("Gemini upstream rejected request: BardErrorInfo [401]");
    assert!(msg.contains("Authentification Gemini expirée"));
    assert!(msg.contains("cookie.json"));
}

#[test]
fn actionable_error_message_unknown_model() {
    let msg = actionable_error_message("Unknown model: gpt-4o");
    assert!(msg.contains("modèle Gemini"));
    assert!(msg.contains("config options"));
}

#[test]
fn actionable_error_message_transport() {
    let msg = actionable_error_message("network timeout");
    assert!(msg.contains("connexion avec Gemini"));
    assert!(msg.contains("réessayez"));
}

#[test]
fn actionable_error_message_context_overflow() {
    let msg = actionable_error_message("context window exceeded: maximum context length");
    assert!(msg.contains("contexte"));
    assert!(msg.contains("nouvelle session"));
}

#[test]
fn actionable_error_message_safety_blocked() {
    let msg = actionable_error_message(
        "SafetyBlocked: Gemini a refusé de répondre (blockReason: SAFETY).",
    );
    assert!(msg.contains("Gemini a refusé ce contenu"));
    assert!(msg.contains("blockReason: SAFETY"));
}

#[test]
fn actionable_stream_error_safety_blocked() {
    assert!(
        actionable_stream_error("SafetyBlocked: Gemini n'a produit aucune réponse")
            .contains("Gemini a refusé ce contenu")
    );
}

#[test]
fn actionable_stream_error_silent_refusal() {
    assert!(actionable_stream_error("refus silencieux").contains("Gemini a refusé ce contenu"));
}

#[test]
fn actionable_stream_error_divergence_is_explicit() {
    let msg = actionable_stream_error("content changed during streaming");
    assert!(msg.contains("divergé"));
    assert!(msg.contains("réessayez"));
}

#[test]
fn errors_are_told_apart_in_any_case() {
    let lower = actionable_error_message("bardErrorInfo");
    let upper = actionable_error_message("NETWORK TIMEOUT");
    assert!(upper.contains("connexion avec Gemini"));
    assert!(!lower.is_empty());
}

// ---- titles ----------------------------------------------------------------

#[test]
fn derive_title_court_reste_telquel() {
    assert_eq!(derive_title("Bonjour"), "Bonjour");
    assert_eq!(derive_title("Refactor la fonction main"), "Refactor la fonction main");
}

#[test]
fn derive_title_long_est_tronque() {
    let title = derive_title("Ceci est un message utilisateur tres long qui depasse la limite de cinquante caracteres et doit etre tronque proprement");
    assert!(title.ends_with('…'));
    assert!(title.chars().count() <= MAX_TITLE_CHARS + 1);
}

#[test]
fn derive_title_multiligne_prend_premiere_ligne() {
    assert_eq!(derive_title("Première ligne\nDeuxième ligne"), "Première ligne");
}

#[test]
fn derive_title_vide_renvoie_defaut() {
    assert_eq!(derive_title(""), "Nouvelle session");
    assert_eq!(derive_title("   \n   "), "Nouvelle session");
}

#[test]
fn derive_title_unicode_compte_chars_pas_octets() {
    let title = derive_title(&"🚀".repeat(60));
    assert!(title.chars().count() <= MAX_TITLE_CHARS + 1);
}

#[test]
fn title_of_exactly_fifty_characters_is_whole() {
    let fifty = "a".repeat(50);
    assert_eq!(derive_title(&fifty), fifty);
    let more = "a".repeat(51);
    assert_eq!(derive_title(&more), format!("{}…", "a".repeat(49)));
}

// ---- content ---------------------------------------------------------------

#[test]
fn content_blocs_vers_texte_et_images() {
    let blocks = vec![
        ContentBlock::Text("bonjour".to_string()),
        ContentBlock::ResourceLink {
            name: "fichier".to_string(),
            uri: "file:///etc/hosts".to_string(),
        },
        ContentBlock::Image { data: "aGVsbG8=".to_string(), mime_type: "image/png".to_string() },
    ];
    let (text, images) = blocks_to_parts(&blocks);
    assert!(text.contains("bonjour"));
    assert!(text.contains("file:///etc/hosts"));
    assert!(text.contains("image jointe"));
    assert_eq!(images, vec![("aGVsbG8=".to_string(), "image/png".to_string())]);
}

#[test]
fn blocs_vers_texte_et_images() {
    let blocks = vec![
        ContentBlock::Text("bonjour".to_string()),
        ContentBlock::ResourceLink {
            name: "fichier".to_string(),
            uri: "file:///etc/hosts".to_string(),
        },
        ContentBlock::Image { data: "aGVsbG8=".to_string(), mime_type: "image/png".to_string() },
    ];
    let (text, images) = blocks_to_parts(&blocks);
    assert!(text.contains("bonjour"));
    assert!(text.contains("file:///etc/hosts"));
    assert!(text.contains("image jointe"));
    assert_eq!(images, vec![("aGVsbG8=".to_string(), "image/png".to_string())]);
}

#[test]
fn embedded_resources_are_taken_as_text() {
    let blocks = vec![ContentBlock::Resource(ResourceContents::Text("contenu".to_string()))];
    let (text, images) = blocks_to_parts(&blocks);
    assert!(text.contains("contenu"));
    assert!(images.is_empty());
}

// ---- notifications ---------------------------------------------------------

#[test]
fn notify_usage_estime_tokens_en_contexte() {
    let u = usage_update("question 🚀", "réponse");
    assert_eq!(u.used, (10 + 8) / 4);
    assert_eq!(u.size, CONTEXT_TOKENS);
    assert!(u.cost.is_none());
}

#[test]
fn usage_estime_tokens_en_contexte() {
    let u = usage_update("question 🚀", "réponse");
    assert_eq!(u.used, (10 + 8) / 4);
    assert_eq!(u.size, CONTEXT_TOKENS);
    assert!(u.cost.is_none());
}

#[test]
fn notifications_carry_what_they_are_given() {
    assert_eq!(
        notify_text("m1", "bonjour".to_string()),
        SessionUpdate::AgentMessageChunk {
            message_id: "m1".to_string(),
            text: "bonjour".to_string(),
        }
    );
    assert_eq!(notify_usage("abcd", "efgh"), SessionUpdate::Usage(usage_update("abcd", "efgh")));
    assert_eq!(usage_update("abcd", "efgh").used, 2);
}

// ---- the prompt ------------------------------------------------------------

const SYSTEM: &str = "[System instruction]: CWD: /home/dev/projet";

fn messages(list: &[(&str, &str)]) -> Vec<(Role, String)> {
    list.iter()
        .map(|(role, text)| {
            (if *role == "u" { Role::User } else { Role::Assistant }, (*text).to_string())
        })
        .collect()
}

#[test]
fn prompt_contient_systeme_et_tour_courant() {
    let m = messages(&[("u", "Question 1"), ("a", "Réponse 1"), ("u", "Question 2")]);
    let p = build_prompt(&m, SYSTEM, true, None);
    assert!(p.contains("[System instruction]"));
    assert!(p.contains("CWD: /home/dev/projet"));
    assert!(p.contains("[User]: Question 2"));
    assert!(p.contains("[Assistant]: Réponse 1"));
}

#[test]
fn fenetre_glissante_12_max() {
    let mut m = Vec::new();
    for i in 0..40 {
        m.push((Role::User, format!("Question {i}")));
    }
    let p = build_prompt(&m, SYSTEM, true, None);
    assert!(p.contains("Question 39"), "le tour courant doit être présent");
    assert!(!p.contains("Question 0"), "le préfixe doit être tronqué");
    assert!(p.matches("[User]").count() <= 12);
}

#[test]
fn troncature_32k_garde_le_tour_courant() {
    let mut msgs = vec![(Role::User, "🚀 premier message très long ".repeat(3_000))];
    for i in 0..4 {
        msgs.push((Role::Assistant, format!("réponse {i} ") + &"x".repeat(9_000)));
        msgs.push((Role::User, format!("question {i} ") + &"y".repeat(9_000)));
    }
    let p = build_prompt(&msgs, SYSTEM, true, None);
    assert!(p.chars().count() <= 32_000 + 500, "budget dépassé: {}", p.chars().count());
    assert!(p.contains("question 3"), "le tour courant ne doit pas être tronqué");
}

#[test]
fn build_prompt_vide_renvoie_juste_systeme() {
    let p = build_prompt(&Vec::new(), "[System instruction]: CWD: /tmp", true, None);
    assert!(p.contains("[System instruction]"));
    assert!(!p.contains("[User]"));
}

#[test]
fn build_prompt_avec_tools_injecte_section() {
    let p = build_prompt(&Vec::new(), SYSTEM, true, None);
    assert!(!p.contains("# Tool Use"));

    let section = "# Tool Use\n\nfile_read\nfile_write\nshell_exec\nsearch";
    let p = build_prompt(&Vec::new(), SYSTEM, true, Some(section));
    assert!(p.contains("# Tool Use"));
    assert!(p.contains("file_read"));
    assert!(p.contains("shell_exec"));
}

#[test]
fn build_prompt_tools_disabled_pas_de_section() {
    let section = "# Tool Use\n\nfile_read";
    let p = build_prompt(&Vec::new(), SYSTEM, false, Some(section));
    assert!(!p.contains("# Tool Use"));
}

#[test]
fn prompt_keeps_the_last_message_whole_beyond_the_budget() {
    let long = "z".repeat(MAX_PROMPT_CHARS + 10);
    let m = messages(&[("u", "avant"), ("u", &long)]);
    let p = build_prompt(&m, SYSTEM, true, None);
    assert!(p.contains(&long));
    assert!(!p.contains("avant"));
}

// ---- compaction ------------------------------------------------------------

fn long_history() -> Vec<(Role, String)> {
    let mut m = Vec::new();
    for i in 0..30 {
        m.push((Role::User, format!("question {i} {}", "q".repeat(100))));
        m.push((Role::Assistant, format!("réponse {i} {}", "r".repeat(100))));
    }
    m
}

#[test]
fn short_history_is_left_alone() {
    let mut m = long_history();
    let before = m.clone();
    let size = history_size(&m);
    compact_messages(&mut m, size as usize);
    assert_eq!(m, before);
}

#[test]
fn compaction_keeps_the_last_turns_and_shrinks() {
    let mut m = long_history();
    let size = history_size(&m);
    let tail: Vec<(Role, String)> = m[m.len() - 2 * PRESERVE_TURNS..].to_vec();
    compact_messages(&mut m, 3_000);
    assert!(history_size(&m) <= size);
    assert_eq!(&m[m.len() - tail.len()..], &tail[..]);
    assert!(m.len() < 60);
}
