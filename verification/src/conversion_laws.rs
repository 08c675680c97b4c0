use vstd::prelude::*;

use crate::engine::{builtin_rules, input_step};
use crate::grammar::{match_spec, pattern_spec, scope_of};
use crate::grammar::GrammarPattern;
use crate::rules::{
    char_is_spec, cond_holds, first_rule, flush_from, next_context_spec, resolve_spec, scope_holds,
};
use crate::trie::is_key_prefix;
use crate::types::{CharClass, CondSpec, EditSpec, OutputContext, OutputSpec, RuleSpec, ScopeSpec};

verus! {

/// Some condition of `rule` fails.
pub open spec fn some_condition_fails(
    rule: RuleSpec,
    ctx: OutputContext,
    next_roman: Option<char>,
    last_roman: Option<char>,
) -> bool {
    exists|k: int|
        0 <= k < rule.matches.len() && !cond_holds(
            #[trigger] rule.matches[k],
            ctx,
            next_roman,
            last_roman,
        )
}

proof fn lemma_first_rule_at(
    rs: Seq<RuleSpec>,
    ctx: OutputContext,
    next_roman: Option<char>,
    last_roman: Option<char>,
    fallback: Seq<char>,
    i: int,
)
    requires
        0 <= i < rs.len(),
        forall|k: int|
            0 <= k < rs[i].matches.len() ==> cond_holds(
                #[trigger] rs[i].matches[k],
                ctx,
                next_roman,
                last_roman,
            ),
        forall|j: int|
            0 <= j < i ==> some_condition_fails(#[trigger] rs[j], ctx, next_roman, last_roman),
    ensures
        first_rule(rs, ctx, next_roman, last_roman, fallback) == rs[i].replace,
    decreases i,
{
    if i > 0 {
        let r0 = rs[0];
        assert(some_condition_fails(rs[0], ctx, next_roman, last_roman));
        let k = choose|k: int|
            0 <= k < r0.matches.len() && !cond_holds(r0.matches[k], ctx, next_roman, last_roman);
        assert(!crate::rules::rule_holds(r0, ctx, next_roman, last_roman)) by {
            assert(!cond_holds(r0.matches[k], ctx, next_roman, last_roman));
        }
        let t = rs.drop_first();
        assert(t[i - 1] == rs[i]);
        assert forall|j: int| 0 <= j < i - 1 implies some_condition_fails(
            #[trigger] t[j],
            ctx,
            next_roman,
            last_roman,
        ) by {
            assert(t[j] == rs[j + 1]);
        }
        lemma_first_rule_at(t, ctx, next_roman, last_roman, fallback, i - 1);
    }
}

/// A conditional output gives the replacement of rule `i` when every
/// condition of that rule holds and every earlier rule has a condition that
/// fails: a rule fires only when all of its conditions hold, and the first
/// such rule wins.
pub proof fn law_conditional_first_rule_with_all_conditions(
    rs: Seq<RuleSpec>,
    fallback: Seq<char>,
    ctx: OutputContext,
    next_roman: Option<char>,
    last_roman: Option<char>,
    i: int,
)
    requires
        0 <= i < rs.len(),
        forall|k: int|
            0 <= k < rs[i].matches.len() ==> cond_holds(
                #[trigger] rs[i].matches[k],
                ctx,
                next_roman,
                last_roman,
            ),
        forall|j: int|
            0 <= j < i ==> some_condition_fails(#[trigger] rs[j], ctx, next_roman, last_roman),
    ensures
        resolve_spec(OutputSpec::Conditional(rs, fallback), ctx, next_roman, last_roman)
            == rs[i].replace,
{
    lemma_first_rule_at(rs, ctx, next_roman, last_roman, fallback, i);
}

/// A conditional output in which every rule has some condition that fails
/// gives its fallback, however many of the other conditions hold.
pub proof fn law_conditional_fallback_when_each_rule_fails(
    rs: Seq<RuleSpec>,
    fallback: Seq<char>,
    ctx: OutputContext,
    next_roman: Option<char>,
    last_roman: Option<char>,
)
    requires
        forall|j: int|
            0 <= j < rs.len() ==> some_condition_fails(#[trigger] rs[j], ctx, next_roman, last_roman),
    ensures
        resolve_spec(OutputSpec::Conditional(rs, fallback), ctx, next_roman, last_roman)
            == fallback,
    decreases rs.len(),
{
    if rs.len() > 0 {
        let r0 = rs[0];
        assert(some_condition_fails(rs[0], ctx, next_roman, last_roman));
        let k = choose|k: int|
            0 <= k < r0.matches.len() && !cond_holds(r0.matches[k], ctx, next_roman, last_roman);
        assert(!crate::rules::rule_holds(r0, ctx, next_roman, last_roman)) by {
            assert(!cond_holds(r0.matches[k], ctx, next_roman, last_roman));
        }
        let t = rs.drop_first();
        assert forall|j: int| 0 <= j < t.len() implies some_condition_fails(
            #[trigger] t[j],
            ctx,
            next_roman,
            last_roman,
        ) by {
            assert(t[j] == rs[j + 1]);
        }
        law_conditional_fallback_when_each_rule_fails(t, fallback, ctx, next_roman, last_roman);
    }
}

/// A grammar pattern with rules becomes a conditional output with its
/// replacement as fallback and its rules in the grammar's order: the `i`-th
/// rule has the `i`-th rule's replacement and, one for one and in order, the
/// meanings of its conditions.
pub proof fn law_pattern_keeps_rule_order(p: GrammarPattern)
    requires
        p.rules@.len() > 0,
    ensures
        pattern_spec(p).0 == p.find@,
        pattern_spec(p).1 matches OutputSpec::Conditional(rs, f) && {
            &&& f == p.replace@
            &&& rs.len() == p.rules@.len()
            &&& forall|i: int|
                #![trigger rs[i]]
                0 <= i < rs.len() ==> {
                    &&& rs[i].replace == p.rules@[i].replace@
                    &&& rs[i].matches.len() == p.rules@[i].matches@.len()
                    &&& forall|k: int|
                        0 <= k < rs[i].matches.len() ==> #[trigger] rs[i].matches[k] == match_spec(
                            p.rules@[i].matches@[k],
                        )
                }
        },
{
}

/// A grammar pattern without rules becomes its replacement, whatever the context.
pub proof fn law_pattern_without_rules_is_static(p: GrammarPattern)
    requires
        p.rules@.len() == 0,
    ensures
        pattern_spec(p) == (p.find@, OutputSpec::Static(p.replace@)),
{
}

/// The code point of the only character of `s`, when it has exactly one.
pub open spec fn single_code(s: Seq<char>) -> Option<u32> {
    if s.len() == 1 {
        Some(s[0] as u32)
    } else {
        None
    }
}

/// Every vowel of the built-in rules is one independent vowel letter
/// (U+0985..U+0994) whose form after a consonant is its own vowel sign, the
/// code point 0x38 further on (আ/া, ই/ি, ঈ/ী, উ/ু, ঊ/ূ, ঋ/ৃ, এ/ে, ঐ/ৈ, ও/ো, ঔ/ৌ).
pub proof fn law_builtin_vowel_signs_match_letters(k: Seq<char>)
    requires
        builtin_rules().contains_key(k),
    ensures
        builtin_rules()[k] matches OutputSpec::Contextual(ind, dep) ==> {
            &&& single_code(ind) matches Some(a) && 0x0985 <= a <= 0x0994
            &&& single_code(dep) matches Some(b) && single_code(ind) == Some((b - 0x38) as u32)
        },
{
    reveal_strlit("আ");
    reveal_strlit("া");
    reveal_strlit("ই");
    reveal_strlit("ি");
    reveal_strlit("ঈ");
    reveal_strlit("ী");
    reveal_strlit("উ");
    reveal_strlit("ু");
    reveal_strlit("ঊ");
    reveal_strlit("ূ");
    reveal_strlit("এ");
    reveal_strlit("ে");
    reveal_strlit("ও");
    reveal_strlit("ো");
    reveal_strlit("ঐ");
    reveal_strlit("ৈ");
    reveal_strlit("ঔ");
    reveal_strlit("ৌ");
    reveal_strlit("ঋ");
    reveal_strlit("ৃ");
}

/// In `rules`, the key `c` gives a short vowel and `cc` the long one: the
/// next vowel letter, with a different sign after a consonant.
pub open spec fn doubled_key_is_long_vowel(rules: Map<Seq<char>, OutputSpec>, c: char) -> bool {
    &&& rules.contains_key(seq![c]) && rules.contains_key(seq![c, c])
    &&& rules[seq![c]] matches OutputSpec::Contextual(i1, d1)
    &&& rules[seq![c, c]] matches OutputSpec::Contextual(i2, d2)
    &&& single_code(i1) matches Some(a) && single_code(i2) == Some((a + 1) as u32)
    &&& d1 != d2
}

/// Doubling `i` or `u` gives the long vowel: ই/ঈ and উ/ঊ, with the signs ি/ী and ু/ূ.
pub proof fn law_builtin_doubled_vowels_are_long()
    ensures
        doubled_key_is_long_vowel(builtin_rules(), 'i'),
        doubled_key_is_long_vowel(builtin_rules(), 'u'),
{
    reveal_strlit("i");
    reveal_strlit("ii");
    reveal_strlit("u");
    reveal_strlit("uu");
    reveal_strlit("a");
    reveal_strlit("aa");
    reveal_strlit("e");
    reveal_strlit("o");
    reveal_strlit("O");
    reveal_strlit("oi");
    reveal_strlit("ou");
    reveal_strlit("rri");
    reveal_strlit("k");
    reveal_strlit("kh");
    reveal_strlit("g");
    reveal_strlit("gh");
    reveal_strlit("nga");
    reveal_strlit("c");
    reveal_strlit("ch");
    reveal_strlit("j");
    reveal_strlit("jh");
    reveal_strlit("tt");
    reveal_strlit("T");
    reveal_strlit("tth");
    reveal_strlit("Th");
    reveal_strlit("dd");
    reveal_strlit("D");
    reveal_strlit("ddh");
    reveal_strlit("Dh");
    reveal_strlit("nn");
    reveal_strlit("N");
    reveal_strlit("t");
    reveal_strlit("th");
    reveal_strlit("d");
    reveal_strlit("dh");
    reveal_strlit("n");
    reveal_strlit("p");
    reveal_strlit("ph");
    reveal_strlit("f");
    reveal_strlit("b");
    reveal_strlit("bh");
    reveal_strlit("v");
    reveal_strlit("m");
    reveal_strlit("z");
    reveal_strlit("y");
    reveal_strlit("r");
    reveal_strlit("rr");
    reveal_strlit("rrh");
    reveal_strlit("l");
    reveal_strlit("sh");
    reveal_strlit("ss");
    reveal_strlit("S");
    reveal_strlit("s");
    reveal_strlit("h");
    reveal_strlit("ng");
    reveal_strlit("nya");
    reveal_strlit("khandatta");
    reveal_strlit("ই");
    reveal_strlit("ি");
    reveal_strlit("ঈ");
    reveal_strlit("ী");
    reveal_strlit("উ");
    reveal_strlit("ু");
    reveal_strlit("ঊ");
    reveal_strlit("ূ");
    assert("i"@ =~= seq!['i']);
    assert("ii"@ =~= seq!['i', 'i']);
    assert("u"@ =~= seq!['u']);
    assert("uu"@ =~= seq!['u', 'u']);
    assert("ু"@[0] != "ূ"@[0]);
    assert("ি"@[0] != "ী"@[0]);
    assert("ii"@.len() != "i"@.len());
    assert("u"@[0] != "i"@[0]);
    assert("uu"@.len() != "i"@.len());
    assert("e"@[0] != "i"@[0]);
    assert("o"@[0] != "i"@[0]);
    assert("O"@[0] != "i"@[0]);
    assert("oi"@.len() != "i"@.len());
    assert("ou"@.len() != "i"@.len());
    assert("rri"@.len() != "i"@.len());
    assert("k"@[0] != "i"@[0]);
    assert("kh"@.len() != "i"@.len());
    assert("g"@[0] != "i"@[0]);
    assert("gh"@.len() != "i"@.len());
    assert("nga"@.len() != "i"@.len());
    assert("c"@[0] != "i"@[0]);
    assert("ch"@.len() != "i"@.len());
    assert("j"@[0] != "i"@[0]);
    assert("jh"@.len() != "i"@.len());
    assert("tt"@.len() != "i"@.len());
    assert("T"@[0] != "i"@[0]);
    assert("tth"@.len() != "i"@.len());
    assert("Th"@.len() != "i"@.len());
    assert("dd"@.len() != "i"@.len());
    assert("D"@[0] != "i"@[0]);
    assert("ddh"@.len() != "i"@.len());
    assert("Dh"@.len() != "i"@.len());
    assert("nn"@.len() != "i"@.len());
    assert("N"@[0] != "i"@[0]);
    assert("t"@[0] != "i"@[0]);
    assert("th"@.len() != "i"@.len());
    assert("d"@[0] != "i"@[0]);
    assert("dh"@.len() != "i"@.len());
    assert("n"@[0] != "i"@[0]);
    assert("p"@[0] != "i"@[0]);
    assert("ph"@.len() != "i"@.len());
    assert("f"@[0] != "i"@[0]);
    assert("b"@[0] != "i"@[0]);
    assert("bh"@.len() != "i"@.len());
    assert("v"@[0] != "i"@[0]);
    assert("m"@[0] != "i"@[0]);
    assert("z"@[0] != "i"@[0]);
    assert("y"@[0] != "i"@[0]);
    assert("r"@[0] != "i"@[0]);
    assert("rr"@.len() != "i"@.len());
    assert("rrh"@.len() != "i"@.len());
    assert("l"@[0] != "i"@[0]);
    assert("sh"@.len() != "i"@.len());
    assert("ss"@.len() != "i"@.len());
    assert("S"@[0] != "i"@[0]);
    assert("s"@[0] != "i"@[0]);
    assert("h"@[0] != "i"@[0]);
    assert("ng"@.len() != "i"@.len());
    assert("nya"@.len() != "i"@.len());
    assert("khandatta"@.len() != "i"@.len());
    assert("uu"@.len() != "u"@.len());
    assert("e"@[0] != "u"@[0]);
    assert("o"@[0] != "u"@[0]);
    assert("O"@[0] != "u"@[0]);
    assert("oi"@.len() != "u"@.len());
    assert("ou"@.len() != "u"@.len());
    assert("rri"@.len() != "u"@.len());
    assert("k"@[0] != "u"@[0]);
    assert("kh"@.len() != "u"@.len());
    assert("g"@[0] != "u"@[0]);
    assert("gh"@.len() != "u"@.len());
    assert("nga"@.len() != "u"@.len());
    assert("c"@[0] != "u"@[0]);
    assert("ch"@.len() != "u"@.len());
    assert("j"@[0] != "u"@[0]);
    assert("jh"@.len() != "u"@.len());
    assert("tt"@.len() != "u"@.len());
    assert("T"@[0] != "u"@[0]);
    assert("tth"@.len() != "u"@.len());
    assert("Th"@.len() != "u"@.len());
    assert("dd"@.len() != "u"@.len());
    assert("D"@[0] != "u"@[0]);
    assert("ddh"@.len() != "u"@.len());
    assert("Dh"@.len() != "u"@.len());
    assert("nn"@.len() != "u"@.len());
    assert("N"@[0] != "u"@[0]);
    assert("t"@[0] != "u"@[0]);
    assert("th"@.len() != "u"@.len());
    assert("d"@[0] != "u"@[0]);
    assert("dh"@.len() != "u"@.len());
    assert("n"@[0] != "u"@[0]);
    assert("p"@[0] != "u"@[0]);
    assert("ph"@.len() != "u"@.len());
    assert("f"@[0] != "u"@[0]);
    assert("b"@[0] != "u"@[0]);
    assert("bh"@.len() != "u"@.len());
    assert("v"@[0] != "u"@[0]);
    assert("m"@[0] != "u"@[0]);
    assert("z"@[0] != "u"@[0]);
    assert("y"@[0] != "u"@[0]);
    assert("r"@[0] != "u"@[0]);
    assert("rr"@.len() != "u"@.len());
    assert("rrh"@.len() != "u"@.len());
    assert("l"@[0] != "u"@[0]);
    assert("sh"@.len() != "u"@.len());
    assert("ss"@.len() != "u"@.len());
    assert("S"@[0] != "u"@[0]);
    assert("s"@[0] != "u"@[0]);
    assert("h"@[0] != "u"@[0]);
    assert("ng"@.len() != "u"@.len());
    assert("nya"@.len() != "u"@.len());
    assert("khandatta"@.len() != "u"@.len());
    assert(builtin_rules().contains_key("i"@));
    assert(builtin_rules()["i"@] == OutputSpec::Contextual("ই"@, "ি"@));
    assert(builtin_rules()["ii"@] == OutputSpec::Contextual("ঈ"@, "ী"@));
    assert(builtin_rules()["u"@] == OutputSpec::Contextual("উ"@, "ু"@));
    assert(builtin_rules()["uu"@] == OutputSpec::Contextual("ঊ"@, "ূ"@));
}

/// Text ending in a Bangla consonant letter (U+0995..U+09B9, ৎ, ড়, ঢ়, য়
/// as one code point) leaves the context after a consonant.
pub proof fn law_consonant_letter_sets_consonant_context(out: Seq<char>, ch: char)
    requires
        (0x0995 <= ch as u32 <= 0x09B9) || ch as u32 == 0x09CE || ch as u32 == 0x09DC || ch as u32
            == 0x09DD || ch as u32 == 0x09DF,
    ensures
        next_context_spec(out.push(ch)) == OutputContext::AfterConsonant,
{
}

/// Text ending in য, ড or ঢ followed by the nukta (য়, ড় and ঢ় in two code
/// points) leaves the context after a consonant.
pub proof fn law_nukta_letter_sets_consonant_context(out: Seq<char>, base: char)
    requires
        base as u32 == 0x09AF || base as u32 == 0x09A1 || base as u32 == 0x09A2,
    ensures
        next_context_spec(out.push(base).push('\u{09BC}')) == OutputContext::AfterConsonant,
{
    let t = out.push(base).push('\u{09BC}');
    assert(t[t.len() - 2] == base);
}

/// Text that is empty, or ends in an independent vowel (U+0985..U+0994), a
/// vowel sign (U+09BE..U+09CC), hasanta, anusvara (ং) or an ASCII character,
/// leaves a neutral context.
pub proof fn law_non_consonant_sets_neutral_context(out: Seq<char>, ch: char)
    requires
        (0x0985 <= ch as u32 <= 0x0994) || (0x09BE <= ch as u32 <= 0x09CC) || ch as u32 == 0x09CD
            || ch as u32 == 0x0982 || (ch as u32) < 0x80,
    ensures
        next_context_spec(out.push(ch)) == OutputContext::Neutral,
        next_context_spec(Seq::<char>::empty()) == OutputContext::Neutral,
{
}

/// A key other than `,` that does not continue the pending keys first has the
/// pending keys converted with that key as the one after them (so suffix
/// conditions see it), whether it then starts new pending keys or is written
/// as it is.
pub proof fn law_pending_keys_converted_seeing_next_key(
    rules: Map<Seq<char>, OutputSpec>,
    e: EditSpec,
    c: char,
)
    requires
        c != ',',
        !is_key_prefix(rules, e.prefix.push(c)),
    ensures
        ({
            let f = flush_from(rules, e.prefix, 0, e.context, e.last_roman, Some(c));
            let after = input_step(rules, e, c);
            if is_key_prefix(rules, seq![c]) {
                &&& after.word == e.word + f.0
                &&& after.prefix == seq![c]
                &&& after.context == f.1
                &&& after.last_roman == f.2
            } else {
                &&& after.word == (e.word + f.0).push(c)
                &&& after.prefix == Seq::<char>::empty()
                &&& after.context == OutputContext::Neutral
                &&& after.last_roman == Some(c)
            }
        }),
{
}

/// A prefix condition looks only at the key before the match (and, at the
/// start of a word, the context); a suffix condition looks only at the key
/// after it.
pub proof fn law_condition_sides(
    s: ScopeSpec,
    ctx: OutputContext,
    ctx2: OutputContext,
    next1: Option<char>,
    next2: Option<char>,
    last1: Option<char>,
    last2: Option<char>,
)
    ensures
        cond_holds(CondSpec::Prefix(s), ctx, next1, last1) == cond_holds(
            CondSpec::Prefix(s),
            ctx,
            next2,
            last1,
        ),
        cond_holds(CondSpec::Prefix(s), ctx, next1, last1) == scope_holds(s, last1, ctx),
        cond_holds(CondSpec::Suffix(s), ctx, next1, last1) == cond_holds(
            CondSpec::Suffix(s),
            ctx2,
            next1,
            last2,
        ),
        cond_holds(CondSpec::Suffix(s), ctx, next1, last1) == scope_holds(
            s,
            next1,
            OutputContext::Neutral,
        ),
{
}

/// A negated scope holds exactly where the scope does not.
pub proof fn law_negated_scopes(
    cls: CharClass,
    v: Seq<char>,
    roman: Option<char>,
    ctx: OutputContext,
)
    ensures
        scope_holds(ScopeSpec::NotClass(cls), roman, ctx) == !scope_holds(
            ScopeSpec::IsClass(cls),
            roman,
            ctx,
        ),
        scope_holds(ScopeSpec::NotExact(v), roman, ctx) == !scope_holds(
            ScopeSpec::IsExact(v),
            roman,
            ctx,
        ),
{
}

/// An exact scope with a one-character value holds exactly at that character.
pub proof fn law_exact_scope(c: char, d: char, ctx: OutputContext)
    ensures
        scope_holds(ScopeSpec::IsExact(seq![c]), Some(c), ctx),
        c != d ==> !scope_holds(ScopeSpec::IsExact(seq![c]), Some(d), ctx),
        !scope_holds(ScopeSpec::IsExact(seq![c]), None, ctx),
{
    if c != d {
        assert(seq![c][0] != seq![d][0]);
    }
}

/// Every roman character is in exactly one of the classes consonant, vowel,
/// number and punctuation (digits are not punctuation); at a word edge only
/// punctuation holds, and consonant when the text so far ends in a consonant.
pub proof fn law_character_classes_partition(c: char, ctx: OutputContext)
    ensures
        ({
            let k = char_is_spec(Some(c), CharClass::Consonant, ctx);
            let v = char_is_spec(Some(c), CharClass::Vowel, ctx);
            let n = char_is_spec(Some(c), CharClass::Number, ctx);
            let p = char_is_spec(Some(c), CharClass::Punctuation, ctx);
            (k || v || n || p) && !(k && v) && !(k && n) && !(k && p) && !(v && n) && !(v && p)
                && !(n && p)
        }),
        ('0' <= c <= '9') ==> char_is_spec(Some(c), CharClass::Number, ctx),
        c == 'a' || c == 'e' || c == 'i' || c == 'o' || c == 'u' ==> char_is_spec(
            Some(c),
            CharClass::Vowel,
            ctx,
        ),
        ('a' <= c <= 'z') && !(c == 'a' || c == 'e' || c == 'i' || c == 'o' || c == 'u')
            ==> char_is_spec(Some(c), CharClass::Consonant, ctx),
        char_is_spec(None, CharClass::Punctuation, ctx),
        !char_is_spec(None, CharClass::Vowel, ctx),
        !char_is_spec(None, CharClass::Number, ctx),
        char_is_spec(None, CharClass::Consonant, ctx) == (ctx == OutputContext::AfterConsonant),
{
}

/// In a grammar, a scope name with `!` in front holds exactly where the name
/// without it does not, for every key and context.
pub proof fn law_grammar_negated_scope_names(
    value: Option<Seq<char>>,
    roman: Option<char>,
    ctx: OutputContext,
)
    ensures
        scope_holds(scope_of("!consonant"@, value), roman, ctx) == !scope_holds(
            scope_of("consonant"@, value),
            roman,
            ctx,
        ),
        scope_holds(scope_of("!vowel"@, value), roman, ctx) == !scope_holds(
            scope_of("vowel"@, value),
            roman,
            ctx,
        ),
        scope_holds(scope_of("!number"@, value), roman, ctx) == !scope_holds(
            scope_of("number"@, value),
            roman,
            ctx,
        ),
        scope_holds(scope_of("!punctuation"@, value), roman, ctx) == !scope_holds(
            scope_of("punctuation"@, value),
            roman,
            ctx,
        ),
        scope_holds(scope_of("!exact"@, value), roman, ctx) == !scope_holds(
            scope_of("exact"@, value),
            roman,
            ctx,
        ),
{
    reveal_strlit("consonant");
    reveal_strlit("!consonant");
    reveal_strlit("vowel");
    reveal_strlit("!vowel");
    reveal_strlit("number");
    reveal_strlit("!number");
    reveal_strlit("punctuation");
    reveal_strlit("!punctuation");
    reveal_strlit("exact");
    reveal_strlit("!exact");
    assert("!consonant"@.len() != "consonant"@.len());
    assert("vowel"@.len() != "consonant"@.len());
    assert("vowel"@.len() != "!consonant"@.len());
    assert("!vowel"@.len() != "consonant"@.len());
    assert("!vowel"@.len() != "!consonant"@.len());
    assert("!vowel"@.len() != "vowel"@.len());
    assert("number"@.len() != "consonant"@.len());
    assert("number"@.len() != "!consonant"@.len());
    assert("number"@.len() != "vowel"@.len());
    assert("number"@[0] != "!vowel"@[0]);
    assert("!number"@.len() != "consonant"@.len());
    assert("!number"@.len() != "!consonant"@.len());
    assert("!number"@.len() != "vowel"@.len());
    assert("!number"@.len() != "!vowel"@.len());
    assert("!number"@.len() != "number"@.len());
    assert("punctuation"@.len() != "consonant"@.len());
    assert("punctuation"@.len() != "!consonant"@.len());
    assert("punctuation"@.len() != "vowel"@.len());
    assert("punctuation"@.len() != "!vowel"@.len());
    assert("punctuation"@.len() != "number"@.len());
    assert("punctuation"@.len() != "!number"@.len());
    assert("!punctuation"@.len() != "consonant"@.len());
    assert("!punctuation"@.len() != "!consonant"@.len());
    assert("!punctuation"@.len() != "vowel"@.len());
    assert("!punctuation"@.len() != "!vowel"@.len());
    assert("!punctuation"@.len() != "number"@.len());
    assert("!punctuation"@.len() != "!number"@.len());
    assert("!punctuation"@.len() != "punctuation"@.len());
    assert("exact"@.len() != "consonant"@.len());
    assert("exact"@.len() != "!consonant"@.len());
    assert("exact"@[0] != "vowel"@[0]);
    assert("exact"@.len() != "!vowel"@.len());
    assert("exact"@.len() != "number"@.len());
    assert("exact"@.len() != "!number"@.len());
    assert("exact"@.len() != "punctuation"@.len());
    assert("exact"@.len() != "!punctuation"@.len());
    assert("!exact"@.len() != "consonant"@.len());
    assert("!exact"@.len() != "!consonant"@.len());
    assert("!exact"@.len() != "vowel"@.len());
    assert("!exact"@[1] != "!vowel"@[1]);
    assert("!exact"@[0] != "number"@[0]);
    assert("!exact"@.len() != "!number"@.len());
    assert("!exact"@.len() != "punctuation"@.len());
    assert("!exact"@.len() != "!punctuation"@.len());
    assert("!exact"@.len() != "exact"@.len());
}

} // verus!
