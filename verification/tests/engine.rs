use avro_core::dict::{SuffixDict, WordDict};
use avro_core::AvroEngine;

fn type_str(engine: &mut AvroEngine, s: &str) -> String {
    let mut preedit = String::new();
    for c in s.chars() {
        preedit = engine.handle_input(c);
    }
    preedit
}

// ── Hardcoded-rules tests ─────────────────────────────────────────────────

#[test]
fn single_consonant() {
    assert_eq!(type_str(&mut AvroEngine::new(), "k"), "ক");
}
#[test]
fn digraph_consonant() {
    assert_eq!(type_str(&mut AvroEngine::new(), "kh"), "খ");
}
#[test]
fn consonant_then_vowel() {
    assert_eq!(type_str(&mut AvroEngine::new(), "ka"), "কা");
}
#[test]
fn vowel_independent_at_start() {
    assert_eq!(type_str(&mut AvroEngine::new(), "a"), "আ");
}
#[test]
fn vowel_dependent_after_consonant() {
    assert_eq!(type_str(&mut AvroEngine::new(), "ka"), "কা");
}
#[test]
fn multiple_chars() {
    assert_eq!(type_str(&mut AvroEngine::new(), "kha"), "খা");
}
#[test]
fn non_trie_char_is_literal() {
    assert_eq!(type_str(&mut AvroEngine::new(), "1"), "1");
}
#[test]
fn word_eka() {
    assert_eq!(type_str(&mut AvroEngine::new(), "eka"), "একা");
}
#[test]
fn ng_is_anusvara() {
    assert_eq!(type_str(&mut AvroEngine::new(), "ng"), "ং");
}
#[test]
fn nga_is_nga_letter() {
    assert_eq!(type_str(&mut AvroEngine::new(), "nga"), "ঙ");
}
#[test]
fn y_is_yo() {
    assert_eq!(type_str(&mut AvroEngine::new(), "y"), "য়");
}
#[test]
fn z_is_jo() {
    assert_eq!(type_str(&mut AvroEngine::new(), "z"), "য");
}
#[test]
fn capital_o_is_o_vowel() {
    assert_eq!(type_str(&mut AvroEngine::new(), "kO"), "কো");
}
#[test]
fn rr_is_rra() {
    assert_eq!(type_str(&mut AvroEngine::new(), "rr"), "ড়");
}
#[test]
fn word_bangla() {
    assert_eq!(type_str(&mut AvroEngine::new(), "bangla"), "বাংলা");
}
#[test]
fn word_tomay() {
    assert_eq!(type_str(&mut AvroEngine::new(), "tOmay"), "তোমায়");
}
#[test]
fn kha_not_broken_by_khandatta() {
    assert_eq!(type_str(&mut AvroEngine::new(), "kha"), "খা");
}
#[test]
fn khandatta_gives_khanda_ta() {
    assert_eq!(type_str(&mut AvroEngine::new(), "khandatta"), "ৎ");
}
#[test]
fn nya_gives_nyo() {
    assert_eq!(type_str(&mut AvroEngine::new(), "nya"), "ঞ");
}
#[test]
fn ny_before_consonant() {
    assert_eq!(type_str(&mut AvroEngine::new(), "nyk"), "নয়ক");
}

#[test]
fn anthem_phrase() {
    for (phonetic, expected) in [
        ("amar", "আমার"),
        ("sonar", "সোনার"),
        ("bangla", "বাংলা"),
        ("ami", "আমি"),
        ("tOmay", "তোমায়"),
        ("valObasi", "ভালোবাসি"),
    ] {
        assert_eq!(
            type_str(&mut AvroEngine::new(), phonetic),
            expected,
            "failed on '{phonetic}'"
        );
    }
}

#[test]
fn backspace_reverts_last_char() {
    let mut e = AvroEngine::new();
    type_str(&mut e, "kh");
    assert_eq!(e.handle_backspace(), "ক");
}

#[test]
fn backspace_to_empty() {
    let mut e = AvroEngine::new();
    type_str(&mut e, "k");
    assert_eq!(e.handle_backspace(), "");
}

#[test]
fn commit_returns_bangla() {
    let mut e = AvroEngine::new();
    type_str(&mut e, "kha");
    assert_eq!(e.commit(), "খা");
}

#[test]
fn commit_clears_state() {
    let mut e = AvroEngine::new();
    type_str(&mut e, "k");
    e.commit();
    assert_eq!(e.preedit(), "");
}

// ── Hasanta / conjunct tests ──────────────────────────────────────────────

#[test]
fn joiner_between_consonants_emits_hasanta() {
    let mut e = AvroEngine::new();
    // k + joiner + t → ক + ্ + ত = ক্ত
    assert_eq!(type_str(&mut e, "k,t"), "ক্ত");
}

#[test]
fn joiner_after_vowel_is_literal_comma() {
    let mut e = AvroEngine::new();
    // a + joiner → আ + , (not after consonant)
    assert_eq!(type_str(&mut e, "a,"), "আ,");
}

#[test]
fn backspace_reverts_joiner() {
    let mut e = AvroEngine::new();
    type_str(&mut e, "k,");
    let preedit = e.handle_backspace();
    assert_eq!(preedit, "ক");
}

// ── Suggest / autosuggest tests ───────────────────────────────────────────

#[test]
fn suggest_empty_without_dict() {
    let mut e = AvroEngine::new();
    type_str(&mut e, "k");
    assert!(e.suggest(5).is_empty());
}

// The full dictionaries are not shipped with the crate; these tests use a
// small dictionary in the same JavaScript form.
const WORD_DICT_JS: &str = r#"var avroDict = {"w_k": ["কলম", "কথা", "কাজ", "কি"], "w_a": ["আমার", "আমি"], "w_b": ["বাংলাদেশ", "বাংলা", "বই"]};"#;
const SUFFIX_DICT_JS: &str = r#"var suffixDict = {"e": "ে", "er": "ের", "ra": "রা"};"#;

fn load_word_dict() -> Option<WordDict> {
    WordDict::from_js(WORD_DICT_JS).ok()
}

fn load_suffix_dict() -> Option<SuffixDict> {
    SuffixDict::from_js(SUFFIX_DICT_JS).ok()
}

#[test]
fn suggest_all_start_with_preedit() {
    let Some(dict) = load_word_dict() else { return };
    let mut e = AvroEngine::new();
    e.load_dict(dict);
    let preedit = type_str(&mut e, "k");
    let s = e.suggest(20);
    assert!(!s.is_empty());
    assert!(s.iter().all(|w| w.starts_with(&preedit)));
}

#[test]
fn suggest_narrows_with_more_input() {
    let Some(dict) = load_word_dict() else { return };
    let mut e = AvroEngine::new();
    e.load_dict(dict);
    type_str(&mut e, "k");
    let broad = e.suggest(usize::MAX).len();
    type_str(&mut e, "a");
    let narrow = e.suggest(usize::MAX).len();
    assert!(narrow <= broad);
}

#[test]
fn suggest_respects_max() {
    let Some(dict) = load_word_dict() else { return };
    let mut e = AvroEngine::new();
    e.load_dict(dict);
    type_str(&mut e, "k");
    assert!(e.suggest(3).len() <= 3);
}

#[test]
fn suggest_extended_strips_suffix() {
    let Some(wdict) = load_word_dict() else { return };
    let Some(sdict) = load_suffix_dict() else { return };
    let mut e = AvroEngine::new();
    e.load_dict(wdict);
    e.load_suffix_dict(sdict);
    type_str(&mut e, "bangladEsh");
    let s = e.suggest_extended(5);
    assert!(s.iter().all(|w| w.starts_with("বাংলাদেশ")));
}

#[test]
fn suggest_extended_falls_back_without_suffix_dict() {
    let Some(wdict) = load_word_dict() else { return };
    let mut e = AvroEngine::new();
    e.load_dict(wdict);
    type_str(&mut e, "k");
    let basic = e.suggest(10);
    let extended = e.suggest_extended(10);
    assert_eq!(basic, extended);
}
