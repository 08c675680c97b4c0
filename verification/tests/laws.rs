use avro_core::dict::{SuffixDict, WordDict};
use avro_core::types::{OutputContext, EngineState};
use avro_core::trie::TrieNode;
use avro_core::rules::next_context;
use avro_core::{AvroEngine, BanglaOutput};

const WORDS: &str = r#"{"w_k": ["কলম", "কথা", "কাজ", "কি"], "w_b": ["বাংলাদেশ", "বাংলা", "বই", "বাইক"], "w_a": ["আমার", "আমি"]}"#;
const SUFFIXES: &str = r#"{"e": "ে", "er": "ের", "ra": "রা", "Er": "ের"}"#;

fn type_str(engine: &mut AvroEngine, s: &str) -> String {
    let mut preedit = String::new();
    for c in s.chars() {
        preedit = engine.handle_input(c);
    }
    preedit
}

fn engine_with_dicts() -> AvroEngine {
    let mut e = AvroEngine::new();
    e.load_dict(WordDict::from_js(WORDS).unwrap());
    e.load_suffix_dict(SuffixDict::from_js(SUFFIXES).unwrap());
    e
}

#[test]
fn backspace_undoes_each_keystroke() {
    let mut e = AvroEngine::new();
    let mut shown = vec![e.preedit()];
    for c in "kh,tOmay".chars() {
        shown.push(e.handle_input(c));
    }
    shown.pop();
    while let Some(expected) = shown.pop() {
        assert_eq!(e.handle_backspace(), expected);
    }
    assert_eq!(e.handle_backspace(), "");
}

#[test]
fn commit_gives_what_was_shown() {
    let mut e = AvroEngine::new();
    let shown = type_str(&mut e, "valObasi");
    assert_eq!(e.commit(), shown);
    assert_eq!(e.preedit(), "");
    assert_eq!(e.handle_backspace(), "");
}

#[test]
fn preedit_matches_last_input() {
    let mut e = AvroEngine::new();
    let shown = type_str(&mut e, "sonar");
    assert_eq!(e.preedit(), shown);
}

#[test]
fn pending_key_resolved_by_next_key() {
    let mut e = AvroEngine::new();
    assert_eq!(type_str(&mut e, "n"), "ন");
    assert_eq!(type_str(&mut e, "g"), "ং");
    assert_eq!(type_str(&mut e, "a"), "ঙ");
}

#[test]
fn comma_after_consonant_writes_hasanta() {
    let mut e = AvroEngine::new();
    assert_eq!(type_str(&mut e, "k,"), "ক\u{09CD}");
    let mut e = AvroEngine::new();
    assert_eq!(type_str(&mut e, ","), ",");
}

#[test]
fn insert_adds_rule() {
    let mut e = AvroEngine::new();
    e.insert("x", BanglaOutput::Static("ক্স".to_string()));
    assert_eq!(type_str(&mut e, "x"), "ক্স");
    let mut e = AvroEngine::new();
    e.insert("k", BanglaOutput::Static("K".to_string()));
    assert_eq!(type_str(&mut e, "k"), "K");
    assert_eq!(type_str(&mut e, "h"), "খ");
}

#[test]
fn default_is_new() {
    let mut e = AvroEngine::default();
    assert_eq!(type_str(&mut e, "ami"), "আমি");
}

#[test]
fn suggestions_start_with_preedit_and_respect_max() {
    let mut e = engine_with_dicts();
    let preedit = type_str(&mut e, "k");
    assert_eq!(preedit, "ক");
    assert_eq!(e.suggest(10), vec!["কলম", "কথা", "কাজ", "কি"]);
    assert_eq!(e.suggest(2), vec!["কলম", "কথা"]);
    assert!(e.suggest(0).is_empty());
    let preedit = type_str(&mut e, "a");
    assert_eq!(preedit, "কা");
    assert_eq!(e.suggest(10), vec!["কাজ"]);
}

#[test]
fn suggestions_empty_without_match() {
    let mut e = engine_with_dicts();
    type_str(&mut e, "z");
    assert!(e.suggest(5).is_empty());
    let e = engine_with_dicts();
    assert!(e.suggest(5).is_empty());
    assert!(e.suggest_extended(5).is_empty());
}

#[test]
fn suggest_extended_reattaches_suffix() {
    let mut e = engine_with_dicts();
    let preedit = type_str(&mut e, "bangladesher");
    assert_eq!(preedit, "বাংলাদেশের");
    assert!(e.suggest(5).is_empty());
    assert_eq!(e.suggest_extended(5), vec!["বাংলাদেশের"]);
}

#[test]
fn suggest_extended_strips_suffix_stem() {
    let mut e = engine_with_dicts();
    type_str(&mut e, "banglar");
    // "র" is no suffix here; the stem is the whole preedit
    assert_eq!(e.suggest_extended(5), e.suggest(5));
    let mut e = engine_with_dicts();
    assert_eq!(type_str(&mut e, "baira"), "বাইরা");
    assert_eq!(e.suggest_extended(5), vec!["বাইকরা"]);
}

#[test]
fn suggest_extended_without_suffixes_is_suggest() {
    let mut e = AvroEngine::new();
    e.load_dict(WordDict::from_js(WORDS).unwrap());
    type_str(&mut e, "ba");
    assert_eq!(e.suggest_extended(10), e.suggest(10));
    assert_eq!(e.suggest(10), vec!["বাংলাদেশ", "বাংলা", "বাইক"]);
}

#[test]
fn trie_node_starts_empty() {
    let n = TrieNode::new();
    assert!(n.output.is_none());
    assert!(n.children.is_empty());
}

#[test]
fn engine_state_holds_snapshot() {
    let s = EngineState {
        prefix: vec!['k'],
        word_buffer: vec![],
        context: OutputContext::Neutral,
        last_roman: None,
    };
    assert_eq!(s.prefix, vec!['k']);
    assert_eq!(s.context, OutputContext::Neutral);
}

#[test]
fn suggest_extended_tries_longest_suffix_first() {
    let mut e = AvroEngine::new();
    e.load_dict(WordDict::from_js(r#"{"w_b": ["বাংলাদেশ", "বাংলাদেশেই"]}"#).unwrap());
    e.load_suffix_dict(SuffixDict::from_js(r#"{"r": "র", "er": "ের"}"#).unwrap());
    assert_eq!(type_str(&mut e, "bangladesher"), "বাংলাদেশের");
    assert_eq!(e.suggest_extended(5), vec!["বাংলাদেশের", "বাংলাদেশেইের"]);
}

#[test]
fn unknown_key_after_pending_keys_is_literal() {
    let mut e = AvroEngine::new();
    assert_eq!(type_str(&mut e, "k1"), "ক1");
    assert_eq!(type_str(&mut e, "a"), "ক1আ");
}

#[test]
fn words_for_gives_json_lists() {
    let d = WordDict::from_js(WORDS).unwrap();
    assert_eq!(d.words_for("w_a"), ["আমার", "আমি"]);
    assert!(d.words_for("missing").is_empty());
}

#[test]
fn nukta_letters_count_as_consonants() {
    assert_eq!(next_context(&vec!['\u{9AF}', '\u{9BC}']), OutputContext::AfterConsonant);
    assert_eq!(next_context(&vec!['\u{9A1}', '\u{9BC}']), OutputContext::AfterConsonant);
    assert_eq!(next_context(&vec!['\u{9A2}', '\u{9BC}']), OutputContext::AfterConsonant);
    assert_eq!(next_context(&vec!['\u{9AC}', '\u{9BC}']), OutputContext::Neutral);
    assert_eq!(next_context(&vec!['\u{9BC}']), OutputContext::Neutral);
    assert_eq!(next_context(&vec!['\u{9AF}']), OutputContext::AfterConsonant);
}

#[test]
fn vowel_after_nukta_letter_takes_sign_form() {
    let mut e = AvroEngine::new();
    assert_eq!(type_str(&mut e, "ya"), "\u{9AF}\u{9BC}\u{9BE}");
    let mut e = AvroEngine::new();
    assert_eq!(type_str(&mut e, "rra"), "\u{9A1}\u{9BC}\u{9BE}");
    let mut e = AvroEngine::new();
    assert_eq!(type_str(&mut e, "rrhi"), "\u{9A2}\u{9BC}\u{9BF}");
}

#[test]
fn joiner_after_nukta_letter_writes_hasanta() {
    let mut e = AvroEngine::new();
    assert_eq!(type_str(&mut e, "y,"), "\u{9AF}\u{9BC}\u{9CD}");
    let mut e = AvroEngine::new();
    assert_eq!(type_str(&mut e, "a,"), "\u{986},");
}

#[test]
fn unknown_key_extends_shown_preedit() {
    let mut e = AvroEngine::new();
    for (typed, key) in [("kh", 'x'), ("t", '1'), ("O", ' '), ("", '.')] {
        type_str(&mut e, typed);
        let before = e.preedit();
        let after = e.handle_input(key);
        assert_eq!(after, format!("{}{}", before, key));
    }
}

#[test]
fn joiner_extends_shown_preedit() {
    let mut e = AvroEngine::new();
    let before = type_str(&mut e, "k");
    assert_eq!(e.handle_input(','), format!("{}\u{9CD}", before));
    let mut e = AvroEngine::new();
    let before = type_str(&mut e, "ki");
    assert_eq!(e.handle_input(','), format!("{},", before));
}

#[test]
fn suggestions_are_dictionary_words() {
    let d = WordDict::from_js(WORDS).unwrap();
    let all: Vec<String> = d.keys().iter().flat_map(|k| d.words_for(k).to_vec()).collect();
    let mut e = engine_with_dicts();
    for c in "ba".chars() {
        e.handle_input(c);
        let s = e.suggest(usize::MAX);
        assert!(!s.is_empty());
        assert!(s.iter().all(|w| all.contains(w)));
    }
}

#[test]
fn suggestions_refine_as_typing_goes_on() {
    let mut e = engine_with_dicts();
    type_str(&mut e, "b");
    let earlier = e.suggest(usize::MAX);
    assert_eq!(earlier, vec!["বাংলাদেশ", "বাংলা", "বই", "বাইক"]);
    type_str(&mut e, "a");
    let later = e.suggest(usize::MAX);
    assert_eq!(later, vec!["বাংলাদেশ", "বাংলা", "বাইক"]);
    let preedit = e.preedit();
    let filtered: Vec<String> =
        earlier.into_iter().filter(|w| w.starts_with(&preedit)).collect();
    assert_eq!(later, filtered);
}

#[test]
fn suggestions_cut_short_need_not_refine() {
    let mut e = AvroEngine::new();
    e.load_dict(WordDict::from_js(r#"{"w_k": ["কলম", "কি"]}"#).unwrap());
    type_str(&mut e, "k");
    assert_eq!(e.suggest(1), vec!["কলম"]);
    type_str(&mut e, "i");
    assert_eq!(e.suggest(1), vec!["কি"]);
}

#[test]
fn extended_suggestions_use_longest_yielding_suffix() {
    let mut e = AvroEngine::new();
    e.load_dict(WordDict::from_js(r#"{"w_b": ["বাংলাদে", "বাংলাদেশ"]}"#).unwrap());
    e.load_suffix_dict(SuffixDict::from_js(r#"{"r": "র", "er": "ের", "sher": "শের"}"#).unwrap());
    assert_eq!(type_str(&mut e, "bangladesher"), "বাংলাদেশের");
    // "শের" is the longest suffix and yields words; shorter ones are not tried
    assert_eq!(e.suggest_extended(5), vec!["বাংলাদেশের", "বাংলাদেশশের"]);
    let mut e = AvroEngine::new();
    e.load_dict(WordDict::from_js(r#"{"w_b": ["বাংলাদেশ"]}"#).unwrap());
    e.load_suffix_dict(SuffixDict::from_js(r#"{"r": "র", "xyz": "ঔঔঔ"}"#).unwrap());
    type_str(&mut e, "bangladesh");
    // no suffix ends the preedit: the prefix suggestions
    assert_eq!(e.suggest_extended(5), e.suggest(5));
}

#[test]
fn total_words_sums_lists_over_keys() {
    let d = WordDict::from_js(WORDS).unwrap();
    let sum: usize = d.keys().iter().map(|k| d.words_for(k).len()).sum();
    assert_eq!(d.total_words(), sum);
    assert_eq!(d.total_words(), 10);
}
