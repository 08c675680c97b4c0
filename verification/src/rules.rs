use vstd::prelude::*;
use vstd::string::StrSliceExecFns;

use crate::trie::{longest_key, lemma_longest_key_upto_bound};
use crate::types::{
    BanglaOutput, CharClass, CondSpec, ConditionalRule, MatchCond, OutputContext, OutputSpec,
    RuleSpec, ScopeCheck, ScopeSpec,
};

verus! {

/// A roman vowel: one of "aeiou".
pub open spec fn is_vowel(c: char) -> bool {
    c == 'a' || c == 'e' || c == 'i' || c == 'o' || c == 'u'
}

/// A roman consonant: one of "bcdfghjklmnpqrstvwxyz".
pub open spec fn is_consonant(c: char) -> bool {
    c == 'b' || c == 'c' || c == 'd' || c == 'f' || c == 'g' || c == 'h' || c == 'j' || c == 'k'
        || c == 'l' || c == 'm' || c == 'n' || c == 'p' || c == 'q' || c == 'r' || c == 's' || c
        == 't' || c == 'v' || c == 'w' || c == 'x' || c == 'y' || c == 'z'
}

/// A digit: one of "1234567890".
pub open spec fn is_number(c: char) -> bool {
    c == '0' || c == '1' || c == '2' || c == '3' || c == '4' || c == '5' || c == '6' || c == '7'
        || c == '8' || c == '9'
}

/// Whether the neighbouring roman character `roman` (none at a word edge)
/// belongs to `cls`; at the start of a word a consonant is seen when the
/// output so far ends in one.
pub open spec fn char_is_spec(roman: Option<char>, cls: CharClass, ctx: OutputContext) -> bool {
    match cls {
        CharClass::Consonant => match roman {
            Some(c) => is_consonant(c),
            None => ctx == OutputContext::AfterConsonant,
        },
        CharClass::Vowel => match roman {
            Some(c) => is_vowel(c),
            None => false,
        },
        CharClass::Number => match roman {
            Some(c) => is_number(c),
            None => false,
        },
        CharClass::Punctuation => match roman {
            Some(c) => !is_consonant(c) && !is_vowel(c) && !is_number(c),
            None => true,
        },
    }
}

pub open spec fn scope_holds(scope: ScopeSpec, roman: Option<char>, ctx: OutputContext) -> bool {
    match scope {
        ScopeSpec::IsClass(cls) => char_is_spec(roman, cls, ctx),
        ScopeSpec::NotClass(cls) => !char_is_spec(roman, cls, ctx),
        ScopeSpec::IsExact(v) => match roman {
            Some(c) => v == seq![c],
            None => false,
        },
        ScopeSpec::NotExact(v) => match roman {
            Some(c) => v != seq![c],
            None => true,
        },
    }
}

/// A prefix condition looks at the roman key consumed before the match, a
/// suffix condition at the one after it.
pub open spec fn cond_holds(
    cond: CondSpec,
    ctx: OutputContext,
    next_roman: Option<char>,
    last_roman: Option<char>,
) -> bool {
    match cond {
        CondSpec::Prefix(s) => scope_holds(s, last_roman, ctx),
        CondSpec::Suffix(s) => scope_holds(s, next_roman, OutputContext::Neutral),
    }
}

pub open spec fn rule_holds(
    rule: RuleSpec,
    ctx: OutputContext,
    next_roman: Option<char>,
    last_roman: Option<char>,
) -> bool {
    forall|i: int|
        0 <= i < rule.matches.len() ==> cond_holds(
            #[trigger] rule.matches[i],
            ctx,
            next_roman,
            last_roman,
        )
}

/// The replacement of the first rule that holds, or `fallback`.
pub open spec fn first_rule(
    rules: Seq<RuleSpec>,
    ctx: OutputContext,
    next_roman: Option<char>,
    last_roman: Option<char>,
    fallback: Seq<char>,
) -> Seq<char>
    decreases rules.len(),
{
    if rules.len() == 0 {
        fallback
    } else if rule_holds(rules[0], ctx, next_roman, last_roman) {
        rules[0].replace
    } else {
        first_rule(rules.drop_first(), ctx, next_roman, last_roman, fallback)
    }
}

/// The Bangla text that an output stands for in a given surrounding.
pub open spec fn resolve_spec(
    out: OutputSpec,
    ctx: OutputContext,
    next_roman: Option<char>,
    last_roman: Option<char>,
) -> Seq<char> {
    match out {
        OutputSpec::Static(s) => s,
        OutputSpec::Contextual(independent, dependent) => match ctx {
            OutputContext::Neutral => independent,
            OutputContext::AfterConsonant => dependent,
        },
        OutputSpec::Conditional(rules, fallback) => first_rule(
            rules,
            ctx,
            next_roman,
            last_roman,
            fallback,
        ),
    }
}

/// A Bangla consonant letter written as one code point: U+0995..U+09B9, and
/// the precomposed ৎ (U+09CE), ড় (U+09DC), ঢ় (U+09DD) and য় (U+09DF).
pub open spec fn is_bangla_consonant(ch: char) -> bool {
    let cp = ch as u32;
    (0x0995 <= cp <= 0x09B9) || cp == 0x09CE || cp == 0x09DC || cp == 0x09DD || cp == 0x09DF
}

/// ড (U+09A1), ঢ (U+09A2) or য (U+09AF): the letters that, followed by the
/// nukta (U+09BC), spell ড়, ঢ় and য় in two code points.
pub open spec fn is_nukta_base(ch: char) -> bool {
    let cp = ch as u32;
    cp == 0x09A1 || cp == 0x09A2 || cp == 0x09AF
}

/// Whether Bangla text ends in a consonant letter: a one-code-point consonant,
/// or ড়, ঢ়, য় spelled as base letter plus nukta.
pub open spec fn ends_in_bangla_consonant(out: Seq<char>) -> bool {
    ||| out.len() > 0 && is_bangla_consonant(out.last())
    ||| out.len() > 1 && out.last() as u32 == 0x09BC && is_nukta_base(out[out.len() - 2])
}

/// The context after writing `out`: after a consonant when its last letter is one.
pub open spec fn next_context_spec(out: Seq<char>) -> OutputContext {
    if ends_in_bangla_consonant(out) {
        OutputContext::AfterConsonant
    } else {
        OutputContext::Neutral
    }
}

/// Converting the pending roman keys `p` from position `i` on: the Bangla text,
/// and the context and last roman key after it. Each step takes the longest
/// key that starts there (or one literal character when none does); the key's
/// suffix conditions see the character after it, or `trigger` at the end.
pub open spec fn flush_from(
    rules: Map<Seq<char>, OutputSpec>,
    p: Seq<char>,
    i: int,
    ctx: OutputContext,
    last_roman: Option<char>,
    trigger: Option<char>,
) -> (Seq<char>, OutputContext, Option<char>)
    decreases p.len() - i,
{
    if i < 0 || i >= p.len() {
        (Seq::empty(), ctx, last_roman)
    } else {
        let t = p.skip(i);
        let ml = longest_key(rules, t);
        proof {
            lemma_longest_key_upto_bound(rules, t, t.len());
        }
        let len: int = if ml > 0 {
            ml as int
        } else {
            1
        };
        let next = if i + len < p.len() {
            Some(p[i + len])
        } else {
            trigger
        };
        let out = if ml > 0 {
            resolve_spec(rules[t.take(ml as int)], ctx, next, last_roman)
        } else {
            seq![p[i]]
        };
        let rest = flush_from(
            rules,
            p,
            i + len,
            next_context_spec(out),
            Some(p[i + len - 1]),
            trigger,
        );
        (out + rest.0, rest.1, rest.2)
    }
}

/// Whether `c` is a roman vowel.
pub fn is_vowel_char(c: char) -> (r: bool)
    ensures
        r == is_vowel(c),
{
    c == 'a' || c == 'e' || c == 'i' || c == 'o' || c == 'u'
}

/// Whether `c` is a roman consonant.
pub fn is_consonant_char(c: char) -> (r: bool)
    ensures
        r == is_consonant(c),
{
    c == 'b' || c == 'c' || c == 'd' || c == 'f' || c == 'g' || c == 'h' || c == 'j' || c == 'k'
        || c == 'l' || c == 'm' || c == 'n' || c == 'p' || c == 'q' || c == 'r' || c == 's' || c
        == 't' || c == 'v' || c == 'w' || c == 'x' || c == 'y' || c == 'z'
}

/// Whether `c` is a digit.
pub fn is_number_char(c: char) -> (r: bool)
    ensures
        r == is_number(c),
{
    c == '0' || c == '1' || c == '2' || c == '3' || c == '4' || c == '5' || c == '6' || c == '7'
        || c == '8' || c == '9'
}

pub fn char_is(roman: Option<char>, cls: CharClass, ctx: OutputContext) -> (r: bool)
    ensures
        r == char_is_spec(roman, cls, ctx),
{
    match cls {
        CharClass::Consonant => match roman {
            Some(c) => is_consonant_char(c),
            None => ctx == OutputContext::AfterConsonant,
        },
        CharClass::Vowel => match roman {
            Some(c) => is_vowel_char(c),
            None => false,
        },
        CharClass::Number => match roman {
            Some(c) => is_number_char(c),
            None => false,
        },
        CharClass::Punctuation => match roman {
            None => true,
            Some(c) => !is_consonant_char(c) && !is_vowel_char(c) && !is_number_char(c),
        },
    }
}

/// Whether the text `v` is exactly the one character `c`.
fn is_single_char(v: &String, c: char) -> (r: bool)
    ensures
        r == (v@ == seq![c]),
{
    let s = v.as_str();
    if s.unicode_len() != 1 {
        return false;
    }
    let first = s.get_char(0);
    assert(first == c ==> s@ =~= seq![c]);
    first == c
}

/// Evaluates a scope check against an optional roman character; `ctx` decides
/// a consonant check when there is no character (start of word).
pub fn check_scope(scope: &ScopeCheck, roman: Option<char>, ctx: OutputContext) -> (r: bool)
    ensures
        r == scope_holds(scope@, roman, ctx),
{
    match scope {
        ScopeCheck::IsClass(cls) => char_is(roman, *cls, ctx),
        ScopeCheck::NotClass(cls) => !char_is(roman, *cls, ctx),
        ScopeCheck::IsExact(val) => match roman {
            Some(c) => is_single_char(val, c),
            None => false,
        },
        ScopeCheck::NotExact(val) => match roman {
            Some(c) => !is_single_char(val, c),
            None => true,
        },
    }
}

pub fn eval_cond(
    cond: &MatchCond,
    ctx: OutputContext,
    next_roman: Option<char>,
    last_roman: Option<char>,
) -> (r: bool)
    ensures
        r == cond_holds(cond@, ctx, next_roman, last_roman),
{
    match cond {
        MatchCond::Prefix(scope) => check_scope(scope, last_roman, ctx),
        MatchCond::Suffix(scope) => check_scope(scope, next_roman, OutputContext::Neutral),
    }
}

/// Whether every condition of `rule` holds.
fn rule_matches(
    rule: &ConditionalRule,
    ctx: OutputContext,
    next_roman: Option<char>,
    last_roman: Option<char>,
) -> (r: bool)
    ensures
        r == rule_holds(rule@, ctx, next_roman, last_roman),
{
    let mut i: usize = 0;
    while i < rule.matches.len()
        invariant
            i <= rule.matches@.len(),
            forall|j: int|
                0 <= j < i ==> cond_holds(
                    #[trigger] rule@.matches[j],
                    ctx,
                    next_roman,
                    last_roman,
                ),
        decreases rule.matches@.len() - i,
    {
        if !eval_cond(&rule.matches[i], ctx, next_roman, last_roman) {
            assert(rule@.matches[i as int] == rule.matches@[i as int]@);
            return false;
        }
        i += 1;
    }
    true
}

/// The replacement of the first rule of `rules` that holds, or `fallback`.
fn first_matching_rule(
    rules: &Vec<ConditionalRule>,
    fallback: &String,
    ctx: OutputContext,
    next_roman: Option<char>,
    last_roman: Option<char>,
) -> (r: String)
    ensures
        r@ == first_rule(
            rules@.map_values(|r: ConditionalRule| r@),
            ctx,
            next_roman,
            last_roman,
            fallback@,
        ),
{
    let ghost specs = rules@.map_values(|r: ConditionalRule| r@);
    let mut i: usize = 0;
    assert(specs.skip(0) =~= specs);
    while i < rules.len()
        invariant
            i <= rules@.len(),
            specs == rules@.map_values(|r: ConditionalRule| r@),
            first_rule(specs, ctx, next_roman, last_roman, fallback@) == first_rule(
                specs.skip(i as int),
                ctx,
                next_roman,
                last_roman,
                fallback@,
            ),
        decreases rules@.len() - i,
    {
        let rule = &rules[i];
        assert(specs.skip(i as int).drop_first() =~= specs.skip(i + 1));
        assert(specs.skip(i as int)[0] == rule@);
        if rule_matches(rule, ctx, next_roman, last_roman) {
            return rule.replace.clone();
        }
        i += 1;
    }
    assert(specs.skip(i as int).len() == 0);
    fallback.clone()
}

/// Resolves a matched output to Bangla text (empty when there is no output).
pub fn resolve(
    output_opt: Option<&BanglaOutput>,
    ctx: OutputContext,
    next_roman: Option<char>,
    last_roman: Option<char>,
) -> (r: String)
    ensures
        match output_opt {
            None => r@ == Seq::<char>::empty(),
            Some(o) => r@ == resolve_spec(o@, ctx, next_roman, last_roman),
        },
{
    match output_opt {
        None => String::new(),
        Some(BanglaOutput::Static(s)) => s.clone(),
        Some(BanglaOutput::Contextual { independent, dependent }) => match ctx {
            OutputContext::Neutral => independent.clone(),
            OutputContext::AfterConsonant => dependent.clone(),
        },
        Some(BanglaOutput::Conditional { rules, fallback }) => first_matching_rule(
            rules,
            fallback,
            ctx,
            next_roman,
            last_roman,
        ),
    }
}

/// The context after writing `output`.
pub fn next_context(output: &Vec<char>) -> (r: OutputContext)
    ensures
        r == next_context_spec(output@),
{
    if output.len() == 0 {
        return OutputContext::Neutral;
    }
    let ch = output[output.len() - 1];
    let cp = ch as u32;
    if (0x0995 <= cp && cp <= 0x09B9) || cp == 0x09CE || cp == 0x09DC || cp == 0x09DD || cp
        == 0x09DF {
        return OutputContext::AfterConsonant;
    }
    if cp == 0x09BC && output.len() > 1 {
        let base = output[output.len() - 2] as u32;
        if base == 0x09A1 || base == 0x09A2 || base == 0x09AF {
            return OutputContext::AfterConsonant;
        }
    }
    OutputContext::Neutral
}

} // verus!
