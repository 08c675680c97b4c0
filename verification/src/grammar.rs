use vstd::prelude::*;

use crate::text::str_eq;
use crate::types::{
    BanglaOutput, CharClass, CondSpec, ConditionalRule, MatchCond, OutputSpec, RuleSpec,
    ScopeCheck, ScopeSpec,
};

verus! {

/// An Avro phonetic grammar as read from its JSON form.
#[derive(Debug)]
pub struct AvroGrammar {
    pub layout: GrammarLayout,
}

#[derive(Debug)]
pub struct GrammarLayout {
    pub vowel: String,
    pub consonant: String,
    pub number: String,
    pub casesensitive: String,
    pub patterns: Vec<GrammarPattern>,
}

/// A phonetic key, its default replacement and the rules that may override it.
#[derive(Debug)]
pub struct GrammarPattern {
    pub find: String,
    pub replace: String,
    pub rules: Vec<GrammarRule>,
}

#[derive(Debug)]
pub struct GrammarRule {
    pub matches: Vec<GrammarMatch>,
    pub replace: String,
}

#[derive(Debug)]
pub struct GrammarMatch {
    pub match_type: GrammarMatchType,
    pub scope: String,
    pub value: Option<String>,
}

#[derive(Debug)]
pub enum GrammarMatchType {
    Prefix,
    Suffix,
}

/// The check that a scope name stands for; `value` is the text of an exact
/// match (empty when absent). An unknown name checks for punctuation.
pub open spec fn scope_of(scope: Seq<char>, value: Option<Seq<char>>) -> ScopeSpec {
    let v = match value {
        Some(v) => v,
        None => Seq::empty(),
    };
    if scope == "consonant"@ {
        ScopeSpec::IsClass(CharClass::Consonant)
    } else if scope == "!consonant"@ {
        ScopeSpec::NotClass(CharClass::Consonant)
    } else if scope == "vowel"@ {
        ScopeSpec::IsClass(CharClass::Vowel)
    } else if scope == "!vowel"@ {
        ScopeSpec::NotClass(CharClass::Vowel)
    } else if scope == "number"@ {
        ScopeSpec::IsClass(CharClass::Number)
    } else if scope == "!number"@ {
        ScopeSpec::NotClass(CharClass::Number)
    } else if scope == "punctuation"@ {
        ScopeSpec::IsClass(CharClass::Punctuation)
    } else if scope == "!punctuation"@ {
        ScopeSpec::NotClass(CharClass::Punctuation)
    } else if scope == "exact"@ {
        ScopeSpec::IsExact(v)
    } else if scope == "!exact"@ {
        ScopeSpec::NotExact(v)
    } else {
        ScopeSpec::IsClass(CharClass::Punctuation)
    }
}

/// The condition a grammar match stands for.
pub open spec fn match_spec(m: GrammarMatch) -> CondSpec {
    let value = match m.value {
        Some(v) => Some(v@),
        None => None,
    };
    match m.match_type {
        GrammarMatchType::Prefix => CondSpec::Prefix(scope_of(m.scope@, value)),
        GrammarMatchType::Suffix => CondSpec::Suffix(scope_of(m.scope@, value)),
    }
}

/// The rule a grammar rule stands for.
pub open spec fn rule_spec(r: GrammarRule) -> RuleSpec {
    RuleSpec { matches: r.matches@.map_values(|m: GrammarMatch| match_spec(m)), replace: r.replace@ }
}

/// The key and output a pattern stands for: a plain replacement when it has
/// no rules, otherwise its rules with the replacement as fallback.
pub open spec fn pattern_spec(p: GrammarPattern) -> (Seq<char>, OutputSpec) {
    if p.rules@.len() == 0 {
        (p.find@, OutputSpec::Static(p.replace@))
    } else {
        (
            p.find@,
            OutputSpec::Conditional(p.rules@.map_values(|r: GrammarRule| rule_spec(r)), p.replace@),
        )
    }
}

/// The (key, output) pairs of a grammar, in pattern order.
pub open spec fn grammar_pairs(g: AvroGrammar) -> Seq<(Seq<char>, OutputSpec)> {
    g.layout.patterns@.map_values(|p: GrammarPattern| pattern_spec(p))
}

/// The (key, output) pairs of a list of outputs.
pub open spec fn output_pairs(v: Seq<(String, BanglaOutput)>) -> Seq<(Seq<char>, OutputSpec)> {
    v.map_values(|e: (String, BanglaOutput)| (e.0@, e.1@))
}

/// Turns a scope name (and the text of an exact match) into a scope check.
pub fn parse_scope(scope: &str, value: Option<&str>) -> (r: ScopeCheck)
    ensures
        r@ == scope_of(
            scope@,
            match value {
                Some(v) => Some(v@),
                None => None,
            },
        ),
{
    if str_eq(scope, "consonant") {
        ScopeCheck::IsClass(CharClass::Consonant)
    } else if str_eq(scope, "!consonant") {
        ScopeCheck::NotClass(CharClass::Consonant)
    } else if str_eq(scope, "vowel") {
        ScopeCheck::IsClass(CharClass::Vowel)
    } else if str_eq(scope, "!vowel") {
        ScopeCheck::NotClass(CharClass::Vowel)
    } else if str_eq(scope, "number") {
        ScopeCheck::IsClass(CharClass::Number)
    } else if str_eq(scope, "!number") {
        ScopeCheck::NotClass(CharClass::Number)
    } else if str_eq(scope, "punctuation") {
        ScopeCheck::IsClass(CharClass::Punctuation)
    } else if str_eq(scope, "!punctuation") {
        ScopeCheck::NotClass(CharClass::Punctuation)
    } else if str_eq(scope, "exact") {
        ScopeCheck::IsExact(text_or_empty(value))
    } else if str_eq(scope, "!exact") {
        ScopeCheck::NotExact(text_or_empty(value))
    } else {
        ScopeCheck::IsClass(CharClass::Punctuation)
    }
}

/// The text, or the empty string when absent.
fn text_or_empty(value: Option<&str>) -> (r: String)
    ensures
        r@ == match value {
            Some(v) => v@,
            None => Seq::<char>::empty(),
        },
{
    match value {
        Some(v) => v.to_owned(),
        None => String::new(),
    }
}

/// The condition for one grammar match.
fn match_cond(m: &GrammarMatch) -> (r: MatchCond)
    ensures
        r@ == match_spec(*m),
{
    let value = match &m.value {
        Some(v) => Some(v.as_str()),
        None => None,
    };
    let scope = parse_scope(m.scope.as_str(), value);
    match m.match_type {
        GrammarMatchType::Prefix => MatchCond::Prefix(scope),
        GrammarMatchType::Suffix => MatchCond::Suffix(scope),
    }
}

/// The conditional rule for one grammar rule.
fn conditional_rule(r: &GrammarRule) -> (c: ConditionalRule)
    ensures
        c@ == rule_spec(*r),
{
    let mut matches: Vec<MatchCond> = Vec::new();
    let mut i: usize = 0;
    while i < r.matches.len()
        invariant
            i <= r.matches@.len(),
            matches@.len() == i,
            forall|k: int| 0 <= k < i ==> (#[trigger] matches@[k])@ == match_spec(r.matches@[k]),
        decreases r.matches@.len() - i,
    {
        matches.push(match_cond(&r.matches[i]));
        i += 1;
    }
    let c = ConditionalRule { matches, replace: r.replace.clone() };
    assert(c@.matches =~= rule_spec(*r).matches);
    c
}

/// The output for one pattern.
fn pattern_output(p: &GrammarPattern) -> (o: BanglaOutput)
    ensures
        o@ == pattern_spec(*p).1,
{
    if p.rules.len() == 0 {
        BanglaOutput::Static(p.replace.clone())
    } else {
        let mut rules: Vec<ConditionalRule> = Vec::new();
        let mut i: usize = 0;
        while i < p.rules.len()
            invariant
                i <= p.rules@.len(),
                rules@.len() == i,
                forall|k: int| 0 <= k < i ==> (#[trigger] rules@[k])@ == rule_spec(p.rules@[k]),
            decreases p.rules@.len() - i,
        {
            rules.push(conditional_rule(&p.rules[i]));
            i += 1;
        }
        let o = BanglaOutput::Conditional { rules, fallback: p.replace.clone() };
        assert(rules@.map_values(|r: ConditionalRule| r@) =~= p.rules@.map_values(
            |r: GrammarRule| rule_spec(r),
        ));
        o
    }
}

impl AvroGrammar {
    /// The `(find_key, BanglaOutput)` pairs for trie insertion, in pattern order.
    /// Simple patterns become `Static`; conditional ones become `Conditional`.
    pub fn patterns_as_outputs(&self) -> (r: Vec<(String, BanglaOutput)>)
        ensures
            output_pairs(r@) == grammar_pairs(*self),
    {
        let patterns = &self.layout.patterns;
        let mut r: Vec<(String, BanglaOutput)> = Vec::new();
        let mut i: usize = 0;
        while i < patterns.len()
            invariant
                patterns == &self.layout.patterns,
                i <= patterns@.len(),
                r@.len() == i,
                forall|k: int|
                    0 <= k < i ==> ((#[trigger] r@[k]).0@, r@[k].1@) == pattern_spec(patterns@[k]),
            decreases patterns@.len() - i,
        {
            let p = &patterns[i];
            let out = pattern_output(p);
            r.push((p.find.clone(), out));
            i += 1;
        }
        assert(output_pairs(r@) =~= grammar_pairs(*self));
        r
    }
}

} // verus!
