use ltapiserv_rs::dictionary::{parse_words, CustomDictionary};
use ltapiserv_rs::model::{
    check_resources, language_code, parse_frequency_line, select_language_folder, snapshot_name,
    ModelError,
};
use ltapiserv_rs::service::{check_language, check_size, Error};
use ltapiserv_rs::annotations::Annotations;
use ltapiserv_rs::api::{Language, Request};

#[test]
fn language_codes() {
    assert!(language_code("en_US"));
    assert!(language_code("de_DE"));
    assert!(!language_code("en-US"));
    assert!(!language_code("EN_us"));
    assert!(!language_code("_US"));
    assert!(!language_code("en_"));
    assert!(!language_code("en_US_x"));
    assert!(!language_code(""));
}

#[test]
fn one_language_folder() {
    let names = vec!["README".to_string(), "en_US".to_string(), "misc".to_string()];
    assert!(matches!(select_language_folder(&names), Ok(1)));
    assert!(matches!(select_language_folder(&vec![]), Err(ModelError::NoLanguageFolder)));
    let names = vec!["en_US".to_string(), "de_DE".to_string()];
    match select_language_folder(&names) {
        Err(ModelError::SeveralLanguageFolders(found)) => assert_eq!(found, names),
        _ => panic!("two language folders were accepted"),
    }
}

#[test]
fn resources_checked_in_order() {
    assert!(check_resources(true, true, true).is_ok());
    assert!(matches!(check_resources(false, false, true), Err(ModelError::MissingResource(n)) if n == "rules.bin"));
    assert!(matches!(check_resources(true, false, false), Err(ModelError::MissingResource(n)) if n == "tokenizer.bin"));
    assert!(matches!(check_resources(true, true, false), Err(ModelError::MissingResource(n)) if n == "frequency_dict.txt"));
}

#[test]
fn snapshot_name_is_digest() {
    assert_eq!(
        snapshot_name(b""),
        "af1349b9f5f9a1a6a0404dea36dcc9499bcb25c9adc112b7cc9a93cae41f3262"
    );
    assert_ne!(snapshot_name(b"a"), snapshot_name(b"b"));
}

#[test]
fn frequency_lines() {
    assert_eq!(parse_frequency_line("the 23135851162"), Some(("the".to_string(), 23135851162)));
    assert_eq!(parse_frequency_line("of 13151942776 extra"), Some(("of".to_string(), 13151942776)));
    assert_eq!(parse_frequency_line("word"), None);
    assert_eq!(parse_frequency_line("word "), None);
    assert_eq!(parse_frequency_line("word 12x"), None);
    assert_eq!(parse_frequency_line("word 99999999999999999999"), None);
    assert_eq!(parse_frequency_line("word 9223372036854775807"), Some(("word".to_string(), i64::MAX)));
}

#[test]
fn dictionary_file_words() {
    assert_eq!(parse_words("Hello  WORLD\n\tfoo\r\nbar "), vec!["hello", "world", "foo", "bar"]);
    assert!(parse_words(" \n ").is_empty());
    assert_eq!(parse_words("Ünïcode"), vec!["Ünïcode"]);
}

#[test]
fn dictionary_reload_replaces() {
    let mut d = CustomDictionary::new();
    d.add_words("alpha beta\nalpha");
    assert_eq!(d.len(), 2);
    assert!(d.contains("alpha"));
    d.clear();
    d.add_words("gamma");
    assert_eq!(d.len(), 1);
    assert!(!d.contains("alpha"));
    assert!(d.accepts("gammas"));
    assert!(!d.accepts("gammass"));
    assert!(!d.accepts("gamm"));
}

#[test]
fn language_check() {
    let served = Language::default();
    assert!(check_language(&Request::new("x".to_string(), "EN-us"), &served).is_ok());
    assert!(check_language(&Request::new("x".to_string(), "auto"), &served).is_ok());
    match check_language(&Request::new("x".to_string(), "de-DE"), &served) {
        Err(Error::UnsupportedLanguage { supports, request }) => {
            assert_eq!(supports, "en-US");
            assert_eq!(request, "de-DE");
        }
        _ => panic!("another language was accepted"),
    }
}

#[test]
fn size_check() {
    let a = Annotations::from_text("hello".to_string());
    assert!(matches!(check_size(&a, 5), Ok(5)));
    assert!(matches!(check_size(&a, 4), Err(Error::QueryTooLarge(5, 4))));
}
