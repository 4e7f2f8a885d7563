use ltapiserv_rs::api::{Language, Match, Payload, Request, Rule};

#[test]
fn language() {
    let l = Language::from_code("EN_US");
    assert_eq!(l, Language::default());
}

#[test]
fn language_code_is_dashed() {
    let l = Language::from_code("pt_BR");
    assert_eq!(l.code, "pt-BR");
    assert_eq!(l.name, "");
    assert_eq!(l.to_string(), "pt-BR");
}

#[test]
fn language_equality_ignores_case() {
    assert!(Language::from_code("EN-us") == Language::from_code("en-US"));
    assert!(Language::from_code("de-DE") != Language::from_code("en-US"));
}

#[test]
fn request_language_auto_is_default() {
    let r = Request::new("x".to_string(), "auto");
    let l = r.language();
    assert_eq!(l.code, "en-US");
    assert_eq!(l.name, "English");
    let r = Request::new("x".to_string(), "fr-FR");
    assert_eq!(r.language().code, "fr-FR");
}

#[test]
fn request_payload_prefers_text() {
    let r = Request::new("hello".to_string(), "en-US");
    assert!(matches!(r.payload(), Some(Payload::Text(t)) if t == "hello"));
    let r = Request { text: None, data: Some("{}".to_string()), language: "en-US".to_string() };
    assert!(matches!(r.payload(), Some(Payload::Data(d)) if d == "{}"));
    let r = Request { text: None, data: None, language: "en-US".to_string() };
    assert!(r.payload().is_none());
}

#[test]
fn rule_constructors() {
    assert!(Rule::spelling().is_spelling());
    assert_eq!(Rule::spelling().id, "MORFOLOGIK_RULE");
    assert!(!Rule::style().is_spelling());
    assert_eq!(Rule::style().issue_type, "style");
    assert_eq!(Rule::duplication().issue_type, "duplication");
    assert_eq!(Rule::from_id("X".to_string()).id, "X");
    assert!(!Rule::from_id("MORFOLOGIK_RULE_X".to_string()).is_spelling());
}

#[test]
fn filter_drops_known_false_positives() {
    let m = |id: &str| Match::new(0, 1, String::new(), vec![], Rule::from_id(id.to_string()));
    assert!(!m("TYPOGRAPHY/EN_QUOTES").filter());
    assert!(!m("TYPOGRAPHY/EN_QUOTES/1").filter());
    assert!(!m("PUNCTUATION/DASH_RULE").filter());
    assert!(m("TYPOGRAPHY").filter());
    assert!(m("GRAMMAR/HE_VERB_AGR").filter());
    assert!(m("").filter());
}
