use ltapiserv_rs::annotations::{AnnotationElement, Annotations};
use ltapiserv_rs::dictionary::CustomDictionary;
use ltapiserv_rs::pipeline::{
    assemble, duplication_match, rule_match, spelling_match, spelling_wanted, AnalyzedSentence,
    Candidate, RawSuggestion, TokenSpan,
};

fn tok(start: usize, end: usize, word: &str) -> TokenSpan {
    TokenSpan { start, end, word: word.to_string() }
}

fn cand(term: &str, distance: i64) -> Candidate {
    Candidate { term: term.to_string(), distance }
}

fn known(word: &str) -> Option<Vec<Candidate>> {
    Some(vec![cand(word, 0)])
}

#[test]
fn repeated_word_is_flagged() {
    let a = Annotations::from_text("the the cat".to_string());
    let d = CustomDictionary::new();
    let s = AnalyzedSentence {
        suggestions: vec![],
        tokens: vec![tok(0, 3, "the"), tok(4, 7, "the"), tok(8, 11, "cat")],
        lookups: vec![known("the"), known("the"), known("cat")],
    };
    let ms = assemble(&a, &d, &vec![s]);
    assert_eq!(ms.len(), 1);
    assert_eq!(ms[0].offset, 0);
    assert_eq!(ms[0].length, 7);
    assert_eq!(ms[0].replacements.len(), 1);
    assert_eq!(ms[0].replacements[0].value, "the");
    assert_eq!(ms[0].rule.issue_type, "duplication");
    assert_eq!(ms[0].message, "Possible typo: you repeated a word");
}

#[test]
fn repetition_needs_the_same_case() {
    let a = Annotations::from_text("The the".to_string());
    let toks = vec![tok(0, 3, "The"), tok(4, 7, "the")];
    assert!(duplication_match(&a, &toks, 0).is_none());
    assert!(duplication_match(&a, &toks, 1).is_none());
}

#[test]
fn dictionary_word_is_not_looked_up() {
    let a = Annotations::from_text("zyzzyva is rare".to_string());
    let mut d = CustomDictionary::new();
    d.add_words("zyzzyva\n");
    let toks = vec![tok(0, 7, "zyzzyva"), tok(8, 10, "is"), tok(11, 15, "rare")];
    assert!(!spelling_wanted(&d, &toks, 0));
    assert!(!spelling_wanted(&d, &toks, 1));
    assert!(spelling_wanted(&d, &toks, 2));
    let s = AnalyzedSentence { suggestions: vec![], tokens: toks, lookups: vec![Some(vec![]), None, known("rare")] };
    let ms = assemble(&a, &d, &vec![s]);
    assert!(ms.is_empty());
}

#[test]
fn plural_of_dictionary_word_is_accepted() {
    let mut d = CustomDictionary::new();
    d.add_words("kubelet");
    let toks = vec![tok(0, 8, "kubelets"), tok(9, 13, "Kubelet")];
    assert!(!spelling_wanted(&d, &toks, 0));
    assert!(!spelling_wanted(&d, &toks, 1));
}

#[test]
fn only_one_plural_s_is_removed() {
    let mut d = CustomDictionary::new();
    d.add_words("bos");
    let toks = vec![tok(0, 4, "boss"), tok(5, 8, "bos")];
    assert!(spelling_wanted(&d, &toks, 0) == false);
    let mut d2 = CustomDictionary::new();
    d2.add_words("bo");
    let toks = vec![tok(0, 4, "boss")];
    assert!(spelling_wanted(&d2, &toks, 0));
}

#[test]
fn spelling_exclusions() {
    let d = CustomDictionary::new();
    let toks = vec![
        tok(0, 4, "NASA"),
        tok(5, 7, "ox"),
        tok(8, 12, "abc1"),
        tok(13, 17, "John"),
        tok(17, 18, "'"),
        tok(18, 19, "s"),
        tok(20, 23, "東京都"),
    ];
    assert!(!spelling_wanted(&d, &toks, 0));
    assert!(!spelling_wanted(&d, &toks, 1));
    assert!(!spelling_wanted(&d, &toks, 2));
    assert!(!spelling_wanted(&d, &toks, 3));
    assert!(!spelling_wanted(&d, &toks, 6));
    let toks = vec![tok(0, 4, "John"), tok(4, 5, "\u{2019}")];
    assert!(!spelling_wanted(&d, &toks, 0));
    let toks = vec![tok(0, 4, "Jonh"), tok(5, 7, "is")];
    assert!(spelling_wanted(&d, &toks, 0));
}

#[test]
fn transliterated_word_is_checked() {
    let d = CustomDictionary::new();
    let toks = vec![tok(0, 4, "café")];
    assert!(spelling_wanted(&d, &toks, 0));
}

#[test]
fn exact_match_is_not_a_mistake() {
    let a = Annotations::from_text("word".to_string());
    let t = tok(0, 4, "word");
    assert!(spelling_match(&a, &t, &vec![cand("word", 0)]).is_none());
    assert!(spelling_match(&a, &t, &vec![cand("ward", 1)]).is_some());
}

#[test]
fn spelling_candidates_farthest_first() {
    let a = Annotations::from_text("xx helo".to_string());
    let t = tok(3, 7, "helo");
    let cs: Vec<Candidate> =
        ["a", "b", "c", "d", "e", "f", "g"].iter().map(|s| cand(s, 1)).collect();
    let m = spelling_match(&a, &t, &cs).unwrap();
    let values: Vec<&str> = m.replacements.iter().map(|r| r.value.as_str()).collect();
    assert_eq!(values, vec!["g", "f", "e", "d", "c"]);
    assert_eq!(m.message, "Possible spelling mistake. Did you mean g?");
    assert_eq!(m.offset, 3);
    assert_eq!(m.length, 4);
    assert!(m.rule.is_spelling());
}

#[test]
fn spelling_without_candidates() {
    let a = Annotations::from_text("qqqq".to_string());
    let m = spelling_match(&a, &tok(0, 4, "qqqq"), &vec![]).unwrap();
    assert_eq!(m.message, "Possible spelling mistake.");
    assert!(m.replacements.is_empty());
}

#[test]
fn denied_rule_is_dropped() {
    let a = Annotations::from_text("He said \"hi\" - ok".to_string());
    let d = CustomDictionary::new();
    let raw = |id: &str| RawSuggestion {
        start: 8,
        end: 12,
        message: "m".to_string(),
        replacements: vec!["“hi”".to_string()],
        rule_id: id.to_string(),
    };
    let s = AnalyzedSentence {
        suggestions: vec![raw("TYPOGRAPHY/EN_QUOTES"), raw("PUNCTUATION/DASH_RULE"), raw("OTHER_RULE")],
        tokens: vec![],
        lookups: vec![],
    };
    let ms = assemble(&a, &d, &vec![s]);
    assert_eq!(ms.len(), 1);
    assert_eq!(ms[0].rule.id, "OTHER_RULE");
    assert_eq!(ms[0].replacements[0].value, "“hi”");
}

#[test]
fn rule_matches_come_first_and_are_translated() {
    let a = Annotations {
        annotation: vec![
            AnnotationElement::Markup { markup: "<b>".to_string(), interpret_as: None },
            AnnotationElement::Text { text: "I has a a error".to_string() },
        ],
    };
    let d = CustomDictionary::new();
    let s = AnalyzedSentence {
        suggestions: vec![RawSuggestion {
            start: 2,
            end: 5,
            message: "agreement".to_string(),
            replacements: vec!["have".to_string()],
            rule_id: "GRAMMAR/AGREEMENT".to_string(),
        }],
        tokens: vec![tok(0, 1, "I"), tok(2, 5, "has"), tok(6, 7, "a"), tok(8, 9, "a"), tok(10, 15, "error")],
        lookups: vec![None, known("has"), None, None, known("error")],
    };
    let ms = assemble(&a, &d, &vec![s]);
    assert_eq!(ms.len(), 2);
    assert_eq!(ms[0].rule.id, "GRAMMAR/AGREEMENT");
    assert_eq!((ms[0].offset, ms[0].length), (5, 3));
    assert_eq!(ms[1].rule.issue_type, "duplication");
    assert_eq!((ms[1].offset, ms[1].length), (9, 3));
}

#[test]
fn single_rule_match() {
    let a = Annotations::from_text("abc".to_string());
    let m = rule_match(
        &a,
        &RawSuggestion { start: 1, end: 0, message: "x".to_string(), replacements: vec![], rule_id: "R".to_string() },
    );
    assert_eq!((m.offset, m.length), (1, 0));
}
