use avro_core::grammar::{
    parse_scope, AvroGrammar, GrammarLayout, GrammarMatch, GrammarMatchType, GrammarPattern,
    GrammarRule,
};
use avro_core::types::{CharClass, MatchCond, ScopeCheck};
use avro_core::{AvroEngine, BanglaOutput};

fn pattern(find: &str, replace: &str, rules: Vec<GrammarRule>) -> GrammarPattern {
    GrammarPattern { find: find.to_string(), replace: replace.to_string(), rules }
}

fn rule(match_type: GrammarMatchType, scope: &str, value: Option<&str>, replace: &str) -> GrammarRule {
    GrammarRule {
        matches: vec![GrammarMatch {
            match_type,
            scope: scope.to_string(),
            value: value.map(|v| v.to_string()),
        }],
        replace: replace.to_string(),
    }
}

/// A small grammar in the shape of avro.json.
fn mini_grammar() -> AvroGrammar {
    AvroGrammar {
        layout: GrammarLayout {
            vowel: "aeiou".to_string(),
            consonant: "bcdfghjklmnpqrstvwxyz".to_string(),
            number: "1234567890".to_string(),
            casesensitive: "oiudgjnrstyz".to_string(),
            patterns: vec![
                pattern("kh", "খ", vec![]),
                pattern("k", "ক", vec![]),
                pattern("b", "ব", vec![]),
                pattern("ng", "ং", vec![]),
                pattern("l", "ল", vec![]),
                pattern("a", "া", vec![rule(GrammarMatchType::Prefix, "!consonant", None, "আ")]),
                pattern("O", "ো", vec![rule(GrammarMatchType::Prefix, "punctuation", None, "ও")]),
                pattern(".", ".", vec![rule(GrammarMatchType::Suffix, "number", None, "।")]),
            ],
        },
    }
}

fn type_str(engine: &mut AvroEngine, s: &str) -> String {
    let mut preedit = String::new();
    for c in s.chars() {
        preedit = engine.handle_input(c);
    }
    preedit
}

#[test]
fn grammar_engine_produces_kha() {
    let mut e = AvroEngine::from_grammar(&mini_grammar());
    assert_eq!(type_str(&mut e, "kh"), "খ");
}

#[test]
fn grammar_engine_independent_vowel_at_start() {
    let mut e = AvroEngine::from_grammar(&mini_grammar());
    assert_eq!(type_str(&mut e, "a"), "আ");
}

#[test]
fn grammar_engine_dependent_vowel_after_consonant() {
    let mut e = AvroEngine::from_grammar(&mini_grammar());
    assert_eq!(type_str(&mut e, "ka"), "কা");
}

#[test]
fn grammar_engine_o_capital_after_consonant() {
    let mut e = AvroEngine::from_grammar(&mini_grammar());
    assert_eq!(type_str(&mut e, "kO"), "কো");
}

#[test]
fn grammar_engine_o_capital_at_start() {
    let mut e = AvroEngine::from_grammar(&mini_grammar());
    assert_eq!(type_str(&mut e, "O"), "ও");
}

#[test]
fn grammar_engine_anthem() {
    let g = mini_grammar();
    let mut e = AvroEngine::from_grammar(&g);
    assert_eq!(type_str(&mut e, "kh"), "খ");
    let mut e = AvroEngine::from_grammar(&g);
    assert_eq!(type_str(&mut e, "bangla"), "বাংলা");
}

#[test]
fn suffix_number_condition_sees_next_key() {
    let mut e = AvroEngine::from_grammar(&mini_grammar());
    // "." before a digit becomes the dari, elsewhere it stays literal
    assert_eq!(type_str(&mut e, ".1"), "।1");
    let mut e = AvroEngine::from_grammar(&mini_grammar());
    assert_eq!(type_str(&mut e, "."), ".");
}

#[test]
fn patterns_without_rules_are_static() {
    let g = mini_grammar();
    let outputs = g.patterns_as_outputs();
    let (find, out) = &outputs[0];
    assert_eq!(find, "kh");
    assert!(matches!(out, BanglaOutput::Static(s) if s == "খ"));
}

#[test]
fn patterns_with_rules_are_conditional() {
    let g = mini_grammar();
    let outputs = g.patterns_as_outputs();
    assert_eq!(outputs.len(), 8);
    let cond_count = outputs
        .iter()
        .filter(|(_, o)| matches!(o, BanglaOutput::Conditional { .. }))
        .count();
    assert_eq!(cond_count, 3);
    match &outputs[5].1 {
        BanglaOutput::Conditional { rules, fallback } => {
            assert_eq!(fallback, "া");
            assert_eq!(rules.len(), 1);
            assert_eq!(rules[0].replace, "আ");
            assert!(matches!(
                rules[0].matches[0],
                MatchCond::Prefix(ScopeCheck::NotClass(CharClass::Consonant))
            ));
        }
        _ => panic!("expected a conditional output"),
    }
}

#[test]
fn later_pattern_replaces_earlier() {
    let g = AvroGrammar {
        layout: GrammarLayout {
            vowel: String::new(),
            consonant: String::new(),
            number: String::new(),
            casesensitive: String::new(),
            patterns: vec![pattern("k", "ক", vec![]), pattern("k", "খ", vec![])],
        },
    };
    let mut e = AvroEngine::from_grammar(&g);
    assert_eq!(type_str(&mut e, "k"), "খ");
}

#[test]
fn parse_scope_names() {
    assert!(matches!(parse_scope("consonant", None), ScopeCheck::IsClass(CharClass::Consonant)));
    assert!(matches!(parse_scope("!consonant", None), ScopeCheck::NotClass(CharClass::Consonant)));
    assert!(matches!(parse_scope("vowel", None), ScopeCheck::IsClass(CharClass::Vowel)));
    assert!(matches!(parse_scope("!vowel", None), ScopeCheck::NotClass(CharClass::Vowel)));
    assert!(matches!(parse_scope("number", None), ScopeCheck::IsClass(CharClass::Number)));
    assert!(matches!(parse_scope("!number", None), ScopeCheck::NotClass(CharClass::Number)));
    assert!(matches!(parse_scope("punctuation", None), ScopeCheck::IsClass(CharClass::Punctuation)));
    assert!(matches!(parse_scope("!punctuation", None), ScopeCheck::NotClass(CharClass::Punctuation)));
    assert!(matches!(parse_scope("exact", Some("ka")), ScopeCheck::IsExact(v) if v == "ka"));
    assert!(matches!(parse_scope("!exact", None), ScopeCheck::NotExact(v) if v.is_empty()));
    assert!(matches!(parse_scope("bogus", None), ScopeCheck::IsClass(CharClass::Punctuation)));
}

#[test]
fn exact_conditions_compare_one_character() {
    let g = AvroGrammar {
        layout: GrammarLayout {
            vowel: String::new(),
            consonant: String::new(),
            number: String::new(),
            casesensitive: String::new(),
            patterns: vec![
                pattern("k", "ক", vec![]),
                pattern("x", "X", vec![rule(GrammarMatchType::Prefix, "exact", Some("k"), "Y")]),
                pattern("q", "Q", vec![rule(GrammarMatchType::Prefix, "!exact", Some("k"), "Z")]),
            ],
        },
    };
    let mut e = AvroEngine::from_grammar(&g);
    assert_eq!(type_str(&mut e, "kx"), "কY");
    let mut e = AvroEngine::from_grammar(&g);
    assert_eq!(type_str(&mut e, "x"), "X");
    let mut e = AvroEngine::from_grammar(&g);
    assert_eq!(type_str(&mut e, "kq"), "কQ");
    let mut e = AvroEngine::from_grammar(&g);
    assert_eq!(type_str(&mut e, "q"), "Z");
}
