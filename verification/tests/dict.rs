use avro_core::dict::{extract_json, DictError, SuffixDict, WordDict};

const WORDS: &str = r#"var dict = {"w_k": ["কলম", "কথা"], "w_a": ["আমার"], "w_e": []};"#;
const SUFFIXES: &str = r#"window.suffixDict = {"e": "ে", "er": "ের", "ra": "রা"}"#;

#[test]
fn missing_json_error() {
    assert!(matches!(
        WordDict::from_js("no json here"),
        Err(DictError::MissingJson)
    ));
}

#[test]
fn invalid_json_error() {
    assert!(matches!(
        WordDict::from_js("{not: valid}"),
        Err(DictError::Json(_))
    ));
}

#[test]
fn extract_json_takes_first_open_to_last_close() {
    assert_eq!(extract_json("var x = {\"a\": {\"b\": 1}};"), Some("{\"a\": {\"b\": 1}}"));
    assert_eq!(extract_json("no braces"), None);
    assert_eq!(extract_json("only { open"), None);
    assert_eq!(extract_json("only } close"), None);
    assert_eq!(extract_json("}{"), Some(""));
}

#[test]
fn word_dict_small_parses() {
    let dict = WordDict::from_js(WORDS).unwrap();
    let mut keys = dict.keys();
    keys.sort();
    assert_eq!(keys, vec!["w_a", "w_e", "w_k"]);
    assert_eq!(dict.words_for("w_k"), ["কলম", "কথা"]);
    assert_eq!(dict.words_for("w_a"), ["আমার"]);
    assert!(dict.words_for("w_e").is_empty());
    assert!(dict.words_for("w_x").is_empty());
    assert_eq!(dict.total_words(), 3);
}

#[test]
fn word_dict_rejects_wrong_shape() {
    assert!(matches!(
        WordDict::from_js(r#"{"w_k": "not a list"}"#),
        Err(DictError::Json(_))
    ));
}

#[test]
fn suffix_dict_small_parses() {
    let dict = SuffixDict::from_js(SUFFIXES).unwrap();
    assert_eq!(dict.bangla_for("e"), Some("ে"));
    assert_eq!(dict.bangla_for("er"), Some("ের"));
    assert_eq!(dict.bangla_for("ra"), Some("রা"));
    assert_eq!(dict.bangla_for("x"), None);
    assert_eq!(dict.len(), 3);
    assert!(!dict.is_empty());
    let mut values = dict.bangla_values();
    values.sort();
    let mut expected = vec!["ে".to_string(), "ের".to_string(), "রা".to_string()];
    expected.sort();
    assert_eq!(values, expected);
}

#[test]
fn suffix_dict_empty_object() {
    let dict = SuffixDict::from_js("{}").unwrap();
    assert!(dict.is_empty());
    assert_eq!(dict.len(), 0);
    assert!(matches!(SuffixDict::from_js("none"), Err(DictError::MissingJson)));
}

#[test]
fn dict_error_from_json_error() {
    let e = serde_json::from_str::<u8>("x").unwrap_err();
    assert!(matches!(DictError::from(e), DictError::Json(_)));
}
