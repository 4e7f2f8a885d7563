use ltapiserv_rs::annotations::Annotations;
use ltapiserv_rs::api::Language;
use ltapiserv_rs::checkers::Checkers;

fn empty_checkers() -> Checkers {
    Checkers::new(nlprule::Tokenizer::default(), nlprule::Rules::default(), Language::default())
}

#[test]
fn checkers_dictionaries() {
    let mut c = empty_checkers();
    assert!(c.language == Language::default());
    assert!(c.load_frequency_line("hello 100"));
    assert!(!c.load_frequency_line("hello"));
    assert!(!c.add_frequency("two words", 3));
    c.add_dictionary_words("Zyzzyva\nquux");
    assert_eq!(c.dictionary_len(), 2);
    c.clear_dictionary();
    assert_eq!(c.dictionary_len(), 0);
}

#[test]
fn checkers_suggest_on_empty_text() {
    let c = empty_checkers();
    let ms = c.suggest(&Annotations::from_text(String::new()));
    assert!(ms.is_empty());
}

#[test]
fn checkers_suggest_spelling_and_repetition() {
    let mut c = empty_checkers();
    assert!(c.load_frequency_line("hello 100"));
    c.add_dictionary_words("say");
    let ms = c.suggest(&Annotations::from_text("Say helo to them them.".to_string()));
    let got: Vec<(usize, usize, &str, Vec<&str>, &str)> = ms
        .iter()
        .map(|m| {
            (
                m.offset,
                m.length,
                m.message.as_str(),
                m.replacements.iter().map(|r| r.value.as_str()).collect(),
                m.rule.id.as_str(),
            )
        })
        .collect();
    assert_eq!(
        got,
        vec![
            (4, 4, "Possible spelling mistake. Did you mean hello?", vec!["hello"], "MORFOLOGIK_RULE"),
            (12, 9, "Possible typo: you repeated a word", vec!["them"], ""),
            (12, 4, "Possible spelling mistake.", vec![], "MORFOLOGIK_RULE"),
            (17, 4, "Possible spelling mistake.", vec![], "MORFOLOGIK_RULE"),
        ]
    );
}

#[test]
fn checkers_known_word_is_not_flagged() {
    let mut c = empty_checkers();
    assert!(c.load_frequency_line("hello 100"));
    let ms = c.suggest(&Annotations::from_text("hello".to_string()));
    assert!(ms.is_empty());
}

#[test]
fn checkers_reload_replaces_dictionary() {
    let mut c = empty_checkers();
    c.add_dictionary_words("alpha beta");
    c.replace_dictionary("gamma");
    assert_eq!(c.dictionary_len(), 1);
}
