//! The thoughts of a model, told apart from its answer.

use gemini_acp::prompt::notify::SessionUpdate;
use gemini_acp::thought::{
    notify_thought, ThoughtEvent, ThoughtPhase, ThoughtSplitter, ThoughtStream,
};

#[test]
fn non_thinking_model_emit_tout_en_message() {
    let mut s = ThoughtSplitter::new(false);
    let (thought, msg) = s.feed("Bonjour");
    assert_eq!(thought, "");
    assert_eq!(msg, "Bonjour");
    let (thought, msg) = s.feed(" le monde");
    assert_eq!(thought, "");
    assert_eq!(msg, " le monde");
    let (t, m) = s.flush();
    assert_eq!(t, "");
    assert_eq!(m, "");
    assert!(!s.has_emitted_thought());
}

#[test]
fn thinking_model_emet_la_pensee_progressivement() {
    let mut s = ThoughtSplitter::new(true);
    let (t, m) = s.feed("Voici une pensée suffisamment longue pour dépasser la ");
    assert_eq!(m, "");
    assert!(!t.is_empty());
    assert!(s.has_emitted_thought());

    let (t2, m2) = s.feed("fenêtre de garde\n\n## Réponse\nVoici");
    assert!(!t2.is_empty());
    assert_eq!(m2, "\n\n## Réponse\nVoici");
    assert!(s.has_emitted_thought());

    let (t3, m3) = s.feed(" le résultat");
    assert_eq!(t3, "");
    assert_eq!(m3, " le résultat");
}

#[test]
fn thinking_model_detecte_les_marqueurs_xml_coupes_entre_deltas() {
    let mut s = ThoughtSplitter::new(true);
    let (t1, m1) = s.feed("Réflexion puis </thi");
    assert_eq!(t1, "");
    assert_eq!(m1, "");

    let (t2, m2) = s.feed("nking>Réponse");
    assert_eq!(t2, "Réflexion puis ");
    assert_eq!(m2, "Réponse");

    let (t3, m3) = s.feed(" finale");
    assert_eq!(t3, "");
    assert_eq!(m3, " finale");
}

#[test]
fn thinking_model_consomme_le_marqueur_d_ouverture() {
    let mut s = ThoughtSplitter::new(true);
    let (thought, msg) = s.feed("<thinking>raisonnement");
    assert_eq!(msg, "");
    let (tail, _) = s.flush();
    assert_eq!(format!("{thought}{tail}"), "raisonnement");
}

#[test]
fn thinking_model_flush_emet_reliquat() {
    let mut s = ThoughtSplitter::new(true);
    let (thought, msg) = s.feed("Réflexion courte");
    assert_eq!(thought, "");
    assert_eq!(msg, "");
    let (thought, msg) = s.flush();
    assert_eq!(thought, "Réflexion courte");
    assert_eq!(msg, "");
    assert!(s.has_emitted_thought());
}

#[test]
fn marqueurs_markdown_restent_compatibles() {
    for marker in &["\n\n# Titre", "\n\n### Sous-titre", "\n\n#### Section"] {
        let mut s = ThoughtSplitter::new(true);
        s.feed("Pensée suffisamment longue pour être conservée");
        let (_, msg) = s.feed(marker);
        assert_eq!(msg, *marker);
    }
}

#[test]
fn marqueur_bold_label_detecte() {
    let mut s = ThoughtSplitter::new(true);
    s.feed("Réflexion suffisamment longue pour remplir la fenêtre");
    let (_, msg) = s.feed("\n\n**Réponse**\nVoici");
    assert_eq!(msg, "\n\n**Réponse**\nVoici");
}

#[test]
fn double_newline_seule_ne_termina_pas_la_pensee() {
    let mut s = ThoughtSplitter::new(true);
    s.feed("Pensée suffisamment longue pour dépasser la fenêtre");
    let (thought, msg) = s.feed("\n\nSuite de la pensée");
    assert!(msg.is_empty());
    assert!(!thought.is_empty());
    let (tail, _) = s.flush();
    assert!(tail.contains("Suite de la pensée"));
}

#[test]
fn marqueur_en_plein_milieu_du_flux() {
    let mut s = ThoughtSplitter::new(true);
    s.feed("Pensée partie 1 suffisamment longue pour être émise");
    s.feed(" suite");
    let (_, m0) = s.feed("\n\n");
    assert!(m0.is_empty());
    let (thought, msg) = s.feed("## Réponse\nVoici");
    assert!(thought.is_empty() || thought.len() < 32);
    assert_eq!(msg, "\n\n## Réponse\nVoici");
    assert_eq!(s.feed(" le résultat"), ("".into(), " le résultat".into()));
}

#[test]
fn no_text_is_lost_wherever_it_is_cut() {
    let input = "je réfléchis longuement à la question posée</thinking>la réponse";
    for (split, _) in input.char_indices() {
        let (left, right) = input.split_at(split);
        let mut s = ThoughtSplitter::new(true);
        let mut thought = String::new();
        let mut said = String::new();
        for (t, m) in [s.feed(left), s.feed(right), s.flush()] {
            thought.push_str(&t);
            said.push_str(&m);
        }
        assert_eq!(thought, "je réfléchis longuement à la question posée");
        assert_eq!(said, "la réponse");
    }
}

#[test]
fn the_end_of_the_thoughts_is_told_once() {
    let mut s = ThoughtStream::new(true);
    assert_eq!(s.phase(), ThoughtPhase::Thinking);
    let events = s.feed("pensée</thinking>réponse");
    assert_eq!(
        events,
        vec![
            ThoughtEvent::ThoughtChunk("pensée".to_string()),
            ThoughtEvent::ThoughtEnd,
            ThoughtEvent::ResponseChunk("réponse".to_string()),
        ]
    );
    assert!(s.has_emitted_thought());
    assert_eq!(s.feed("!"), vec![ThoughtEvent::ResponseChunk("!".to_string())]);
    s.finish();
    assert_eq!(s.phase(), ThoughtPhase::Completed);
    assert!(s.feed("trop tard").is_empty());
}

#[test]
fn an_empty_thought_is_not_told() {
    assert_eq!(notify_thought("m", ""), None);
    assert_eq!(
        notify_thought("m", "hmm"),
        Some(SessionUpdate::AgentThoughtChunk {
            message_id: "m".to_string(),
            text: "hmm".to_string(),
        })
    );
}

#[test]
fn the_last_characters_are_held_back_whatever_their_size() {
    let mut s = ThoughtStream::new(true);
    let events = s.feed(&"é".repeat(40));
    assert_eq!(events, vec![ThoughtEvent::ThoughtChunk("é".repeat(8))]);
    assert_eq!(s.phase(), ThoughtPhase::Thinking);
    assert!(s.has_emitted_thought());
}

#[test]
fn little_reasoning_comes_with_a_section() {
    let mut s = ThoughtStream::new(true);
    assert_eq!(
        s.feed(&format!("{}\n\n", "é".repeat(40))),
        vec![ThoughtEvent::ThoughtChunk("é".repeat(25))]
    );
    assert_eq!(
        s.feed("## Réponse"),
        vec![
            ThoughtEvent::ThoughtChunk("é".repeat(15)),
            ThoughtEvent::ThoughtEnd,
            ThoughtEvent::ResponseChunk("\n\n## Réponse".to_string()),
        ]
    );
    let mut s = ThoughtStream::new(true);
    assert_eq!(
        s.feed(&format!("{}\n\n", "e".repeat(40))),
        vec![ThoughtEvent::ThoughtChunk("e".repeat(10))]
    );
}
