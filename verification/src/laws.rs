use vstd::prelude::*;

use crate::dict::{
    keys_distinct, lemma_lookup_at, lemma_lookup_map, lookup, pairs_to_map, total_words_spec,
    words_of,
};
use crate::engine::{
    append_each, backspace_effect, builtin_rules, commit_effect, dedup, extended_suggestions,
    first_char_key, flush_edit, hasanta, input_effect, input_step, insert_pos, matching_words,
    prefix_suggestions, preedit_spec, sort_by_length, suffix_order, suffix_suggestions,
    suffix_yield, EditModel,
};
use crate::rules::{
    ends_in_bangla_consonant, first_rule, flush_from, next_context_spec, resolve_spec,
};
use crate::trie::{is_key_prefix, lemma_longest_key_upto_bound, longest_key};
use crate::types::{EditSpec, OutputContext, OutputSpec, RuleSpec};

verus! {

/// A backspace right after a keystroke gives back the state before it.
pub proof fn law_backspace_undoes_input(rules: Map<Seq<char>, OutputSpec>, m: EditModel, c: char)
    ensures
        backspace_effect(input_effect(rules, m, c)) == m,
{
    assert(m.history.push(m.edit).drop_last() =~= m.history);
}

/// The joiner key `,` is never kept pending: it converts the pending keys
/// and then writes hasanta after a consonant, a comma elsewhere.
pub proof fn law_joiner_is_never_pending(
    rules: Map<Seq<char>, OutputSpec>,
    e: EditSpec,
)
    ensures
        input_step(rules, e, ',').prefix == Seq::<char>::empty(),
        input_step(rules, e, ',').word.last() == if input_step(rules, e, ',').context
            == OutputContext::AfterConsonant {
            hasanta()
        } else {
            ','
        },
{
}

/// A key that neither continues the pending keys nor starts any rule is
/// written as it is, after the pending keys are converted.
pub proof fn law_unknown_key_is_literal(
    rules: Map<Seq<char>, OutputSpec>,
    e: EditSpec,
    c: char,
)
    requires
        c != ',',
        !is_key_prefix(rules, e.prefix.push(c)),
        !is_key_prefix(rules, seq![c]),
    ensures
        input_step(rules, e, c).prefix == Seq::<char>::empty(),
        input_step(rules, e, c).word.last() == c,
        input_step(rules, e, c).context == OutputContext::Neutral,
        input_step(rules, e, c).last_roman == Some(c),
{
}

/// A key that continues some rule is only kept pending: nothing is written yet.
pub proof fn law_continuing_key_is_pending(
    rules: Map<Seq<char>, OutputSpec>,
    e: EditSpec,
    c: char,
)
    requires
        c != ',',
        is_key_prefix(rules, e.prefix.push(c)),
    ensures
        input_step(rules, e, c) == (EditSpec { prefix: e.prefix.push(c), ..e }),
{
}

/// No rule depends on conditions: every output is static or contextual.
pub open spec fn rules_unconditional(rules: Map<Seq<char>, OutputSpec>) -> bool {
    forall|k: Seq<char>| #[trigger] rules.contains_key(k) ==> !(rules[k] is Conditional)
}

/// Converting pending keys does not depend on the key after them when no
/// rule has conditions.
proof fn lemma_flush_ignores_trigger(
    rules: Map<Seq<char>, OutputSpec>,
    p: Seq<char>,
    i: int,
    ctx: OutputContext,
    last: Option<char>,
    t1: Option<char>,
    t2: Option<char>,
)
    requires
        rules_unconditional(rules),
    ensures
        flush_from(rules, p, i, ctx, last, t1) == flush_from(rules, p, i, ctx, last, t2),
    decreases p.len() - i,
{
    if 0 <= i < p.len() {
        let t = p.skip(i);
        let ml = longest_key(rules, t);
        lemma_longest_key_upto_bound(rules, t, t.len());
        let len: int = if ml > 0 {
            ml as int
        } else {
            1
        };
        let n1 = if i + len < p.len() {
            Some(p[i + len])
        } else {
            t1
        };
        let n2 = if i + len < p.len() {
            Some(p[i + len])
        } else {
            t2
        };
        let out = if ml > 0 {
            resolve_spec(rules[t.take(ml as int)], ctx, n1, last)
        } else {
            seq![p[i]]
        };
        if ml > 0 {
            assert(rules.contains_key(t.take(ml as int)));
            assert(resolve_spec(rules[t.take(ml as int)], ctx, n1, last) == resolve_spec(
                rules[t.take(ml as int)],
                ctx,
                n2,
                last,
            ));
        }
        lemma_flush_ignores_trigger(
            rules,
            p,
            i + len,
            next_context_spec(out),
            Some(p[i + len - 1]),
            t1,
            t2,
        );
    }
}

/// The hard-coded rules have no conditions.
pub proof fn law_builtin_rules_unconditional()
    ensures
        rules_unconditional(builtin_rules()),
{
}

/// Without conditional rules, a key (other than `,`) that neither continues
/// the pending keys nor starts any rule leaves the preedit shown before it,
/// followed by that key.
pub proof fn law_unknown_key_extends_preedit(
    rules: Map<Seq<char>, OutputSpec>,
    e: EditSpec,
    c: char,
)
    requires
        rules_unconditional(rules),
        c != ',',
        !is_key_prefix(rules, e.prefix.push(c)),
        !is_key_prefix(rules, seq![c]),
    ensures
        preedit_spec(rules, input_step(rules, e, c)) == preedit_spec(rules, e).push(c),
{
    lemma_flush_ignores_trigger(rules, e.prefix, 0, e.context, e.last_roman, Some(c), None);
    let after = input_step(rules, e, c);
    assert(after.prefix == Seq::<char>::empty());
    assert(after.word + Seq::<char>::empty() =~= after.word);
}

/// The joiner `,` leaves the preedit shown before it, followed by hasanta
/// when the converted text leaves a consonant context, and by a comma otherwise.
pub proof fn law_joiner_extends_preedit(rules: Map<Seq<char>, OutputSpec>, e: EditSpec)
    ensures
        preedit_spec(rules, input_step(rules, e, ',')) == preedit_spec(rules, e).push(
            if flush_edit(rules, e, None).context == OutputContext::AfterConsonant {
                hasanta()
            } else {
                ','
            },
        ),
{
    let after = input_step(rules, e, ',');
    assert(after.prefix == Seq::<char>::empty());
    assert(after.word + Seq::<char>::empty() =~= after.word);
}

/// A usable rule text: not empty, and not starting with the nukta.
pub open spec fn good_text(s: Seq<char>) -> bool {
    s.len() > 0 && s[0] as u32 != 0x09BC
}

/// Every text an output can give is usable.
pub open spec fn output_texts_good(o: OutputSpec) -> bool {
    match o {
        OutputSpec::Static(s) => good_text(s),
        OutputSpec::Contextual(a, b) => good_text(a) && good_text(b),
        OutputSpec::Conditional(rs, f) => good_text(f) && forall|i: int|
            0 <= i < rs.len() ==> good_text(#[trigger] rs[i].replace),
    }
}

/// Every rule's texts are usable.
pub open spec fn rules_texts_good(rules: Map<Seq<char>, OutputSpec>) -> bool {
    forall|k: Seq<char>| #[trigger] rules.contains_key(k) ==> output_texts_good(rules[k])
}

proof fn lemma_first_rule_good(
    rs: Seq<RuleSpec>,
    ctx: OutputContext,
    next: Option<char>,
    last: Option<char>,
    f: Seq<char>,
)
    requires
        good_text(f),
        forall|i: int| 0 <= i < rs.len() ==> good_text(#[trigger] rs[i].replace),
    ensures
        good_text(first_rule(rs, ctx, next, last, f)),
    decreases rs.len(),
{
    if rs.len() > 0 {
        let t = rs.drop_first();
        assert forall|i: int| 0 <= i < t.len() implies good_text(#[trigger] t[i].replace) by {
            assert(t[i] == rs[i + 1]);
        }
        lemma_first_rule_good(t, ctx, next, last, f);
    }
}

/// Whether the text after the pending keys are converted is in a consonant
/// context, and that text is non-empty and does not start with the nukta.
proof fn lemma_flush_context(
    rules: Map<Seq<char>, OutputSpec>,
    p: Seq<char>,
    i: int,
    ctx: OutputContext,
    last: Option<char>,
    trigger: Option<char>,
)
    requires
        rules_texts_good(rules),
        forall|j: int| 0 <= j < p.len() ==> (#[trigger] p[j]) as u32 != 0x09BC,
        0 <= i < p.len(),
    ensures
        good_text(flush_from(rules, p, i, ctx, last, trigger).0),
        flush_from(rules, p, i, ctx, last, trigger).1 == next_context_spec(
            flush_from(rules, p, i, ctx, last, trigger).0,
        ),
    decreases p.len() - i,
{
    let t = p.skip(i);
    let ml = longest_key(rules, t);
    lemma_longest_key_upto_bound(rules, t, t.len());
    let len: int = if ml > 0 {
        ml as int
    } else {
        1
    };
    let next = if i + len < p.len() {
        Some(p[i + len])
    } else {
        trigger
    };
    let out = if ml > 0 {
        resolve_spec(rules[t.take(ml as int)], ctx, next, last)
    } else {
        seq![p[i]]
    };
    if ml > 0 {
        let o = rules[t.take(ml as int)];
        assert(rules.contains_key(t.take(ml as int)));
        assert(output_texts_good(o));
        match o {
            OutputSpec::Conditional(rs, f) => {
                lemma_first_rule_good(rs, ctx, next, last, f);
            },
            _ => {},
        }
    }
    assert(good_text(out));
    let ctx2 = next_context_spec(out);
    let last2 = Some(p[i + len - 1]);
    let rest = flush_from(rules, p, i + len, ctx2, last2, trigger);
    let whole = flush_from(rules, p, i, ctx, last, trigger);
    assert(whole.0 == out + rest.0);
    if i + len < p.len() {
        lemma_flush_context(rules, p, i + len, ctx2, last2, trigger);
        let w = out + rest.0;
        assert(w.last() == rest.0.last());
        if rest.0.len() > 1 {
            assert(w[w.len() - 2] == rest.0[rest.0.len() - 2]);
        }
        assert(ends_in_bangla_consonant(w) == ends_in_bangla_consonant(rest.0));
    } else {
        assert(out + rest.0 =~= out);
    }
}

/// The hard-coded rules' texts are usable: none is empty, none starts with the nukta.
pub proof fn law_builtin_rules_texts_good()
    ensures
        rules_texts_good(builtin_rules()),
{
    assert forall|k: Seq<char>| #[trigger] builtin_rules().contains_key(k) implies output_texts_good(
        builtin_rules()[k],
    ) by {
        reveal_strlit("আ");
        reveal_strlit("া");
        reveal_strlit("ই");
        reveal_strlit("ি");
        reveal_strlit("ঈ");
        reveal_strlit("ী");
        reveal_strlit("উ");
        reveal_strlit("ু");
        reveal_strlit("ঊ");
        reveal_strlit("ূ");
        reveal_strlit("এ");
        reveal_strlit("ে");
        reveal_strlit("ও");
        reveal_strlit("ো");
        reveal_strlit("ঐ");
        reveal_strlit("ৈ");
        reveal_strlit("ঔ");
        reveal_strlit("ৌ");
        reveal_strlit("ঋ");
        reveal_strlit("ৃ");
        reveal_strlit("ক");
        reveal_strlit("খ");
        reveal_strlit("গ");
        reveal_strlit("ঘ");
        reveal_strlit("ঙ");
        reveal_strlit("চ");
        reveal_strlit("ছ");
        reveal_strlit("জ");
        reveal_strlit("ঝ");
        reveal_strlit("ট");
        reveal_strlit("ঠ");
        reveal_strlit("ড");
        reveal_strlit("ঢ");
        reveal_strlit("ণ");
        reveal_strlit("ত");
        reveal_strlit("থ");
        reveal_strlit("দ");
        reveal_strlit("ধ");
        reveal_strlit("ন");
        reveal_strlit("প");
        reveal_strlit("ফ");
        reveal_strlit("ব");
        reveal_strlit("ভ");
        reveal_strlit("ম");
        reveal_strlit("য");
        reveal_strlit("য়");
        reveal_strlit("র");
        reveal_strlit("ড়");
        reveal_strlit("ঢ়");
        reveal_strlit("ল");
        reveal_strlit("শ");
        reveal_strlit("ষ");
        reveal_strlit("স");
        reveal_strlit("হ");
        reveal_strlit("ং");
        reveal_strlit("ঞ");
        reveal_strlit("ৎ");
    }
}

/// When the rules' texts are usable and no pending key is the nukta, the
/// joiner `,` writes hasanta exactly when the preedit shown before it ends in
/// a Bangla consonant letter, and a comma otherwise. With nothing pending this
/// needs the stored context to agree with the written text (it does not right
/// after a joiner wrote hasanta).
pub proof fn law_joiner_after_consonant_letter(rules: Map<Seq<char>, OutputSpec>, e: EditSpec)
    requires
        rules_texts_good(rules),
        forall|j: int| 0 <= j < e.prefix.len() ==> (#[trigger] e.prefix[j]) as u32 != 0x09BC,
        e.prefix.len() > 0 || (e.context == OutputContext::AfterConsonant)
            == ends_in_bangla_consonant(e.word),
    ensures
        preedit_spec(rules, input_step(rules, e, ',')) == preedit_spec(rules, e).push(
            if ends_in_bangla_consonant(preedit_spec(rules, e)) {
                hasanta()
            } else {
                ','
            },
        ),
{
    law_joiner_extends_preedit(rules, e);
    let f = flush_from(rules, e.prefix, 0, e.context, e.last_roman, None);
    let w = e.word + f.0;
    if e.prefix.len() > 0 {
        lemma_flush_context(rules, e.prefix, 0, e.context, e.last_roman, None);
        assert(w.last() == f.0.last());
        if f.0.len() > 1 {
            assert(w[w.len() - 2] == f.0[f.0.len() - 2]);
        }
        assert(ends_in_bangla_consonant(w) == ends_in_bangla_consonant(f.0));
    } else {
        assert(f.0 == Seq::<char>::empty() && f.1 == e.context);
        assert(w =~= e.word);
    }
}

/// A backspace with nothing typed since the last commit changes nothing.
pub proof fn law_backspace_after_commit()
    ensures
        backspace_effect(commit_effect()) == commit_effect(),
{
}

/// After a commit nothing is shown.
pub proof fn law_commit_clears_preedit(rules: Map<Seq<char>, OutputSpec>)
    ensures
        preedit_spec(rules, commit_effect().edit) == Seq::<char>::empty(),
{
    assert(flush_from(rules, Seq::<char>::empty(), 0, commit_effect().edit.context, None, None).0
        == Seq::<char>::empty());
    assert(Seq::<char>::empty() + Seq::<char>::empty() =~= Seq::<char>::empty());
}

proof fn lemma_matching_words(words: Seq<Seq<char>>, p: Seq<char>, max: nat)
    ensures
        matching_words(words, p, max).len() <= max,
        forall|i: int|
            0 <= i < matching_words(words, p, max).len() ==> p.is_prefix_of(
                #[trigger] matching_words(words, p, max)[i],
            ),
    decreases words.len(),
{
    if words.len() > 0 && max > 0 {
        if p.is_prefix_of(words[0]) {
            lemma_matching_words(words.drop_first(), p, (max - 1) as nat);
            let rest = matching_words(words.drop_first(), p, (max - 1) as nat);
            assert forall|i: int|
                0 <= i < matching_words(words, p, max).len() implies p.is_prefix_of(
                #[trigger] matching_words(words, p, max)[i],
            ) by {
                if i > 0 {
                    assert(matching_words(words, p, max)[i] == rest[i - 1]);
                }
            }
        } else {
            lemma_matching_words(words.drop_first(), p, max);
        }
    }
}

/// Prefix suggestions are at most `max` words, each starting with the preedit.
pub proof fn law_suggestions_start_with_preedit(
    dict: Option<Seq<(Seq<char>, Seq<Seq<char>>)>>,
    p: Seq<char>,
    max: nat,
)
    ensures
        prefix_suggestions(dict, p, max).len() <= max,
        forall|i: int|
            0 <= i < prefix_suggestions(dict, p, max).len() ==> p.is_prefix_of(
                #[trigger] prefix_suggestions(dict, p, max)[i],
            ),
{
    match dict {
        None => {},
        Some(entries) => {
            if p.len() > 0 {
                match crate::engine::first_char_key(entries, p[0]) {
                    None => {},
                    Some(key) => {
                        lemma_matching_words(words_of(entries, key), p, max);
                    },
                }
            }
        },
    }
}

proof fn lemma_matching_words_step(words: Seq<Seq<char>>, p: Seq<char>, max: nat)
    requires
        max > 0,
    ensures
        matching_words(words, p, max).len() <= matching_words(words, p, (max - 1) as nat).len()
            + 1,
    decreases words.len(),
{
    if words.len() > 0 {
        if p.is_prefix_of(words[0]) {
            if max > 1 {
                lemma_matching_words_step(words.drop_first(), p, (max - 1) as nat);
            } else {
                lemma_matching_words(words.drop_first(), p, 0);
            }
        } else {
            lemma_matching_words_step(words.drop_first(), p, max);
        }
    }
}

proof fn lemma_matching_words_narrow(words: Seq<Seq<char>>, p1: Seq<char>, p2: Seq<char>, max: nat)
    requires
        p1.is_prefix_of(p2),
    ensures
        matching_words(words, p2, max).len() <= matching_words(words, p1, max).len(),
    decreases words.len(),
{
    if words.len() > 0 && max > 0 {
        let w = words[0];
        let rest = words.drop_first();
        if p2.is_prefix_of(w) {
            assert(p1.is_prefix_of(w)) by {
                assert(p1 =~= w.subrange(0, p1.len() as int));
            }
            lemma_matching_words_narrow(rest, p1, p2, (max - 1) as nat);
        } else if p1.is_prefix_of(w) {
            lemma_matching_words_narrow(rest, p1, p2, max);
            lemma_matching_words_step(rest, p1, max);
        } else {
            lemma_matching_words_narrow(rest, p1, p2, max);
        }
    }
}

/// Typing on can only narrow the suggestions: when the new preedit extends a
/// non-empty old one, there are no more suggestions than before.
pub proof fn law_suggestions_narrow(
    dict: Option<Seq<(Seq<char>, Seq<Seq<char>>)>>,
    p1: Seq<char>,
    p2: Seq<char>,
    max: nat,
)
    requires
        p1.len() > 0,
        p1.is_prefix_of(p2),
    ensures
        prefix_suggestions(dict, p2, max).len() <= prefix_suggestions(dict, p1, max).len(),
{
    assert(p2[0] == p1[0]);
    match dict {
        None => {},
        Some(entries) => {
            match crate::engine::first_char_key(entries, p1[0]) {
                None => {},
                Some(key) => {
                    lemma_matching_words_narrow(words_of(entries, key), p1, p2, max);
                },
            }
        },
    }
}

/// Without word lists there are no suggestions.
pub proof fn law_no_dict_no_suggestions(sufs: Seq<Seq<char>>, p: Seq<char>, max: nat)
    ensures
        prefix_suggestions(None, p, max) == Seq::<Seq<char>>::empty(),
        extended_suggestions(None, sufs, p, max) == Seq::<Seq<char>>::empty(),
{
}

/// Without suffixes, suffix-aware suggestions are the prefix suggestions.
pub proof fn law_extended_without_suffixes(
    dict: Option<Seq<(Seq<char>, Seq<Seq<char>>)>>,
    p: Seq<char>,
    max: nat,
)
    ensures
        extended_suggestions(dict, Seq::<Seq<char>>::empty(), p, max) == prefix_suggestions(
            dict,
            p,
            max,
        ),
{
}

/// `w` starts with a non-empty beginning of `p`.
pub open spec fn starts_with_stem(p: Seq<char>, w: Seq<char>) -> bool {
    exists|k: int| 1 <= k <= p.len() && #[trigger] p.take(k).is_prefix_of(w)
}

proof fn lemma_suffix_suggestions(
    entries: Seq<(Seq<char>, Seq<Seq<char>>)>,
    sufs: Seq<Seq<char>>,
    p: Seq<char>,
    max: nat,
)
    ensures
        suffix_suggestions(entries, sufs, p, max) matches Some(r) ==> {
            &&& r.len() <= max
            &&& forall|i: int| 0 <= i < r.len() ==> starts_with_stem(p, #[trigger] r[i])
        },
    decreases sufs.len(),
{
    if sufs.len() > 0 {
        lemma_suffix_suggestions(entries, sufs.drop_first(), p, max);
        let s = sufs[0];
        if p.len() > s.len() && s.is_suffix_of(p) {
            let base = p.take(p.len() - s.len());
            match crate::engine::first_char_key(entries, base[0]) {
                None => {},
                Some(key) => {
                    let c = matching_words(words_of(entries, key), base, max);
                    lemma_matching_words(words_of(entries, key), base, max);
                    if c.len() > 0 {
                        let r = crate::engine::append_each(c, s);
                        let k = p.len() - s.len();
                        assert forall|i: int| 0 <= i < r.len() implies starts_with_stem(
                            p,
                            #[trigger] r[i],
                        ) by {
                            assert(base.is_prefix_of(c[i]));
                            assert(r[i] == c[i] + s);
                            assert(p.take(k) =~= base);
                            assert(base =~= r[i].subrange(0, base.len() as int));
                            assert(p.take(k).is_prefix_of(r[i]));
                        }
                    }
                },
            }
        }
    }
}

/// Suffix-aware suggestions are at most `max` words, each starting with a
/// non-empty beginning of the preedit (the preedit itself, or the preedit
/// without the suffix that was stripped).
pub proof fn law_extended_suggestions_keep_stem(
    dict: Option<Seq<(Seq<char>, Seq<Seq<char>>)>>,
    sufs: Seq<Seq<char>>,
    p: Seq<char>,
    max: nat,
)
    ensures
        extended_suggestions(dict, sufs, p, max).len() <= max,
        forall|i: int|
            0 <= i < extended_suggestions(dict, sufs, p, max).len() ==> starts_with_stem(
                p,
                #[trigger] extended_suggestions(dict, sufs, p, max)[i],
            ),
{
    match dict {
        None => {},
        Some(entries) => {
            if p.len() > 0 {
                lemma_suffix_suggestions(entries, sufs, p, max);
                law_suggestions_start_with_preedit(dict, p, max);
                if let Some(r) = suffix_suggestions(entries, sufs, p, max) {
                    assert(extended_suggestions(dict, sufs, p, max) == r);
                    assert forall|i: int| 0 <= i < r.len() implies starts_with_stem(
                        p,
                        #[trigger] r[i],
                    ) by {}
                } else {
                    let r = prefix_suggestions(dict, p, max);
                    assert forall|i: int| 0 <= i < r.len() implies starts_with_stem(
                        p,
                        #[trigger] r[i],
                    ) by {
                        assert(p.take(p.len() as int) =~= p);
                        assert(p.is_prefix_of(r[i]));
                        assert(p.take(p.len() as int).is_prefix_of(r[i]));
                    }
                }
            }
        },
    }
}

proof fn lemma_dedup(xs: Seq<Seq<char>>)
    ensures
        dedup(xs).no_duplicates(),
        forall|x: Seq<char>|
            #![trigger dedup(xs).contains(x)]
            #![trigger xs.contains(x)]
            dedup(xs).contains(x) <==> xs.contains(x),
    decreases xs.len(),
{
    if xs.len() > 0 {
        let init = xs.drop_last();
        let d = dedup(init);
        lemma_dedup(init);
        assert forall|x: Seq<char>| #[trigger] xs.contains(x) <==> (init.contains(x) || x == xs.last()) by {
            if xs.contains(x) {
                let i = choose|i: int| 0 <= i < xs.len() && xs[i] == x;
                if i < xs.len() - 1 {
                    assert(init[i] == x);
                }
            }
            if init.contains(x) {
                let i = choose|i: int| 0 <= i < init.len() && init[i] == x;
                assert(xs[i] == x);
            }
            if x == xs.last() {
                assert(xs[xs.len() - 1] == x);
            }
        }
        if d.contains(xs.last()) {
            assert forall|x: Seq<char>| dedup(xs).contains(x) <==> xs.contains(x) by {
                assert(d.contains(x) <==> init.contains(x));
            }
        } else {
            let t = d.push(xs.last());
            assert forall|x: Seq<char>| #[trigger] t.contains(x) <==> (d.contains(x) || x == xs.last()) by {
                if t.contains(x) {
                    let i = choose|i: int| 0 <= i < t.len() && t[i] == x;
                    if i < d.len() {
                        assert(d[i] == x);
                    }
                }
                if d.contains(x) {
                    let i = choose|i: int| 0 <= i < d.len() && d[i] == x;
                    assert(t[i] == x);
                }
                if x == xs.last() {
                    assert(t[d.len() as int] == x);
                }
            }
            assert forall|x: Seq<char>| dedup(xs).contains(x) <==> xs.contains(x) by {
                assert(d.contains(x) <==> init.contains(x));
            }
            assert forall|i: int, j: int| 0 <= i < t.len() && 0 <= j < t.len() && i != j implies t[i]
                != t[j] by {
                if i < d.len() && j < d.len() {
                } else if i == d.len() {
                    assert(d.contains(d[j]));
                } else {
                    assert(d.contains(d[i]));
                }
            }
        }
    }
}

proof fn lemma_insert_pos(s: Seq<Seq<char>>, x: Seq<char>)
    ensures
        insert_pos(s, x) <= s.len(),
        forall|j: int| 0 <= j < insert_pos(s, x) ==> (#[trigger] s[j]).len() >= x.len(),
        insert_pos(s, x) < s.len() ==> s[insert_pos(s, x) as int].len() < x.len(),
    decreases s.len(),
{
    if s.len() > 0 && s[0].len() >= x.len() {
        lemma_insert_pos(s.drop_first(), x);
        assert forall|j: int| 0 <= j < insert_pos(s, x) implies (#[trigger] s[j]).len() >= x.len() by {
            if j > 0 {
                assert(s[j] == s.drop_first()[j - 1]);
            }
        }
    }
}

/// The entries are sorted longest first.
pub open spec fn longest_first(s: Seq<Seq<char>>) -> bool {
    forall|i: int, j: int| 0 <= i < j < s.len() ==> (#[trigger] s[i]).len() >= (#[trigger] s[j]).len()
}

proof fn lemma_sort_by_length(xs: Seq<Seq<char>>)
    ensures
        longest_first(sort_by_length(xs)),
        forall|x: Seq<char>|
            #![trigger sort_by_length(xs).contains(x)]
            #![trigger xs.contains(x)]
            sort_by_length(xs).contains(x) <==> xs.contains(x),
        xs.no_duplicates() ==> sort_by_length(xs).no_duplicates(),
        sort_by_length(xs).len() == xs.len(),
    decreases xs.len(),
{
    if xs.len() > 0 {
        let s = sort_by_length(xs.drop_last());
        let x = xs.last();
        lemma_sort_by_length(xs.drop_last());
        lemma_insert_pos(s, x);
        let pos = insert_pos(s, x) as int;
        let t = s.insert(pos, x);
        assert(t == sort_by_length(xs));
        assert forall|i: int| 0 <= i < t.len() implies #[trigger] t[i] == (if i < pos {
            s[i]
        } else if i == pos {
            x
        } else {
            s[i - 1]
        }) by {}
        assert forall|i: int, j: int| 0 <= i < j < t.len() implies (#[trigger] t[i]).len() >= (
        #[trigger] t[j]).len() by {
            if j < pos {
            } else if j == pos {
            } else if i == pos {
                if pos < s.len() {
                    assert(s[j - 1].len() <= s[pos].len());
                }
            } else if i < pos {
                assert(s[i].len() >= s[j - 1].len());
            } else {
            }
        }
        let init = xs.drop_last();
        assert forall|y: Seq<char>| #[trigger] xs.contains(y) <==> (init.contains(y) || y == x) by {
            if xs.contains(y) {
                let i = choose|i: int| 0 <= i < xs.len() && xs[i] == y;
                if i < xs.len() - 1 {
                    assert(init[i] == y);
                }
            }
            if init.contains(y) {
                let i = choose|i: int| 0 <= i < init.len() && init[i] == y;
                assert(xs[i] == y);
            }
            if y == x {
                assert(xs[xs.len() - 1] == y);
            }
        }
        assert forall|y: Seq<char>| t.contains(y) <==> xs.contains(y) by {
            assert(s.contains(y) <==> init.contains(y));
            if t.contains(y) {
                let i = choose|i: int| 0 <= i < t.len() && t[i] == y;
                if i < pos {
                    assert(s[i] == y);
                } else if i > pos {
                    assert(s[i - 1] == y);
                }
            }
            if s.contains(y) {
                let i = choose|i: int| 0 <= i < s.len() && s[i] == y;
                if i < pos {
                    assert(t[i] == y);
                } else {
                    assert(t[i + 1] == y);
                }
            }
            if y == x {
                assert(t[pos] == y);
            }
        }
        if xs.no_duplicates() {
            assert(xs.drop_last().no_duplicates());
            assert(!xs.drop_last().contains(x)) by {
                if xs.drop_last().contains(x) {
                    let k = choose|k: int| 0 <= k < xs.drop_last().len() && xs.drop_last()[k] == x;
                    assert(xs[k] == xs[xs.len() - 1]);
                }
            }
            assert(s.contains(x) <==> init.contains(x));
            assert(!s.contains(x));
            assert forall|i: int, j: int| 0 <= i < t.len() && 0 <= j < t.len() && i != j implies t[i]
                != t[j] by {
                if i == pos {
                    if j < pos {
                        assert(s.contains(s[j]));
                    } else {
                        assert(s.contains(s[j - 1]));
                    }
                } else if j == pos {
                    if i < pos {
                        assert(s.contains(s[i]));
                    } else {
                        assert(s.contains(s[i - 1]));
                    }
                } else {
                    let a = if i < pos {
                        i
                    } else {
                        i - 1
                    };
                    let b = if j < pos {
                        j
                    } else {
                        j - 1
                    };
                    assert(a != b);
                    assert(s[a] != s[b]);
                }
            }
        }
    }
}

/// The suffixes are tried longest first, each distinct value once, and they
/// are exactly the values of the suffix dictionary.
pub proof fn law_suffix_order(values: Seq<Seq<char>>)
    ensures
        longest_first(suffix_order(values)),
        suffix_order(values).no_duplicates(),
        forall|x: Seq<char>| suffix_order(values).contains(x) <==> values.contains(x),
{
    lemma_dedup(values);
    lemma_sort_by_length(dedup(values));
}

/// The word list of a key is the one the JSON object gives it (none for a
/// key the object lacks).
pub proof fn law_words_for_matches_json(
    entries: Seq<(Seq<char>, Seq<Seq<char>>)>,
    key: Seq<char>,
)
    requires
        keys_distinct(entries),
    ensures
        words_of(entries, key) == if pairs_to_map(entries).contains_key(key) {
            pairs_to_map(entries)[key]
        } else {
            Seq::<Seq<char>>::empty()
        },
{
    lemma_lookup_map(entries, key);
}

/// `w` is one of the words listed under some key.
pub open spec fn is_dict_word(entries: Seq<(Seq<char>, Seq<Seq<char>>)>, w: Seq<char>) -> bool {
    exists|j: int, k: int|
        0 <= j < entries.len() && 0 <= k < entries[j].1.len() && #[trigger] entries[j].1[k] == w
}

proof fn lemma_matching_words_from(words: Seq<Seq<char>>, p: Seq<char>, max: nat)
    ensures
        forall|i: int|
            0 <= i < matching_words(words, p, max).len() ==> words.contains(
                #[trigger] matching_words(words, p, max)[i],
            ),
    decreases words.len(),
{
    if words.len() > 0 && max > 0 {
        let rest = words.drop_first();
        let m = matching_words(words, p, max);
        if p.is_prefix_of(words[0]) {
            let r = matching_words(rest, p, (max - 1) as nat);
            lemma_matching_words_from(rest, p, (max - 1) as nat);
            assert forall|i: int| 0 <= i < m.len() implies words.contains(#[trigger] m[i]) by {
                if i == 0 {
                    assert(words[0] == m[0]);
                } else {
                    assert(m[i] == r[i - 1]);
                    assert(rest.contains(r[i - 1]));
                    let k = choose|k: int| 0 <= k < rest.len() && rest[k] == r[i - 1];
                    assert(words[k + 1] == m[i]);
                }
            }
        } else {
            lemma_matching_words_from(rest, p, max);
            let r = matching_words(rest, p, max);
            assert(m == r);
            assert forall|i: int| 0 <= i < m.len() implies words.contains(#[trigger] m[i]) by {
                assert(m[i] == r[i]);
                assert(rest.contains(r[i]));
                let k = choose|k: int| 0 <= k < rest.len() && rest[k] == m[i];
                assert(words[k + 1] == m[i]);
            }
        }
    }
}

proof fn lemma_lookup_found(entries: Seq<(Seq<char>, Seq<Seq<char>>)>, key: Seq<char>)
    ensures
        lookup(entries, key) matches Some(v) ==> exists|j: int|
            0 <= j < entries.len() && #[trigger] entries[j].1 == v,
    decreases entries.len(),
{
    if entries.len() > 0 && entries[0].0 != key {
        let t = entries.drop_first();
        lemma_lookup_found(t, key);
        if let Some(v) = lookup(t, key) {
            let j = choose|j: int| 0 <= j < t.len() && #[trigger] t[j].1 == v;
            assert(entries[j + 1].1 == v);
        }
    }
}

proof fn lemma_words_of_listed(entries: Seq<(Seq<char>, Seq<Seq<char>>)>, key: Seq<char>)
    ensures
        forall|i: int|
            0 <= i < words_of(entries, key).len() ==> is_dict_word(
                entries,
                #[trigger] words_of(entries, key)[i],
            ),
{
    lemma_lookup_found(entries, key);
    if let Some(v) = lookup(entries, key) {
        let j = choose|j: int| 0 <= j < entries.len() && #[trigger] entries[j].1 == v;
        assert forall|i: int| 0 <= i < words_of(entries, key).len() implies is_dict_word(
            entries,
            #[trigger] words_of(entries, key)[i],
        ) by {
            assert(entries[j].1[i] == words_of(entries, key)[i]);
        }
    }
}

proof fn lemma_matching_listed(
    entries: Seq<(Seq<char>, Seq<Seq<char>>)>,
    key: Seq<char>,
    p: Seq<char>,
    max: nat,
)
    ensures
        forall|i: int|
            0 <= i < matching_words(words_of(entries, key), p, max).len() ==> {
                &&& is_dict_word(entries, #[trigger] matching_words(words_of(entries, key), p, max)[i])
                &&& p.is_prefix_of(matching_words(words_of(entries, key), p, max)[i])
            },
{
    let ws = words_of(entries, key);
    let m = matching_words(ws, p, max);
    lemma_matching_words_from(ws, p, max);
    lemma_words_of_listed(entries, key);
    lemma_matching_words(ws, p, max);
    assert forall|i: int| 0 <= i < m.len() implies is_dict_word(entries, #[trigger] m[i]) by {
        assert(ws.contains(m[i]));
        let k = choose|k: int| 0 <= k < ws.len() && ws[k] == m[i];
        assert(is_dict_word(entries, ws[k]));
    }
}

/// Every prefix suggestion is a word of the loaded dictionary.
pub proof fn law_suggestions_are_dict_words(
    entries: Seq<(Seq<char>, Seq<Seq<char>>)>,
    p: Seq<char>,
    max: nat,
)
    ensures
        forall|i: int|
            0 <= i < prefix_suggestions(Some(entries), p, max).len() ==> is_dict_word(
                entries,
                #[trigger] prefix_suggestions(Some(entries), p, max)[i],
            ),
{
    if p.len() > 0 {
        if let Some(key) = first_char_key(entries, p[0]) {
            lemma_matching_listed(entries, key, p, max);
        }
    }
}

proof fn lemma_matching_words_refine(
    words: Seq<Seq<char>>,
    p1: Seq<char>,
    p2: Seq<char>,
    m1: nat,
    m2: nat,
)
    requires
        p1.is_prefix_of(p2),
        matching_words(words, p1, m1).len() < m1,
    ensures
        matching_words(matching_words(words, p1, m1), p2, m2) == matching_words(words, p2, m2),
    decreases words.len(),
{
    if words.len() > 0 && m2 > 0 {
        let w = words[0];
        let rest = words.drop_first();
        if p1.is_prefix_of(w) {
            let inner = matching_words(rest, p1, (m1 - 1) as nat);
            let m = matching_words(words, p1, m1);
            assert(m == seq![w] + inner);
            assert(m[0] == w);
            assert(m.drop_first() =~= inner);
            if p2.is_prefix_of(w) {
                lemma_matching_words_refine(rest, p1, p2, (m1 - 1) as nat, (m2 - 1) as nat);
            } else {
                lemma_matching_words_refine(rest, p1, p2, (m1 - 1) as nat, m2);
            }
        } else {
            assert(!p2.is_prefix_of(w)) by {
                if p2.is_prefix_of(w) {
                    assert(p1 =~= w.subrange(0, p1.len() as int));
                }
            }
            lemma_matching_words_refine(rest, p1, p2, m1, m2);
        }
    }
}

/// Typing on refines the suggestions: when the new preedit extends a
/// non-empty old one and the old list was not cut short (it held fewer than
/// `max1` words), the new suggestions are the old ones that start with the
/// new preedit, in the same order, at most `max2` of them; so they form a
/// subsequence of the old list.
pub proof fn law_suggestions_refine(
    dict: Option<Seq<(Seq<char>, Seq<Seq<char>>)>>,
    p1: Seq<char>,
    p2: Seq<char>,
    max1: nat,
    max2: nat,
)
    requires
        p1.len() > 0,
        p1.is_prefix_of(p2),
        prefix_suggestions(dict, p1, max1).len() < max1,
    ensures
        prefix_suggestions(dict, p2, max2) == matching_words(
            prefix_suggestions(dict, p1, max1),
            p2,
            max2,
        ),
{
    assert(p2[0] == p1[0]);
    match dict {
        None => {},
        Some(entries) => {
            match first_char_key(entries, p1[0]) {
                None => {},
                Some(key) => {
                    lemma_matching_words_refine(words_of(entries, key), p1, p2, max1, max2);
                },
            }
        },
    }
}

/// `x` is a dictionary word that starts with `base`, followed by `s`.
pub open spec fn suffixed_dict_word(
    entries: Seq<(Seq<char>, Seq<Seq<char>>)>,
    base: Seq<char>,
    s: Seq<char>,
    x: Seq<char>,
) -> bool {
    exists|w: Seq<char>| #[trigger] is_dict_word(entries, w) && base.is_prefix_of(w) && x == w + s
}

/// What a suffix yields are at most `max` words, none if it yields nothing:
/// each a dictionary word that starts with the preedit without the suffix,
/// followed by the suffix, which ends the preedit and leaves a non-empty rest.
pub proof fn law_suffix_yield_words(
    entries: Seq<(Seq<char>, Seq<Seq<char>>)>,
    s: Seq<char>,
    p: Seq<char>,
    max: nat,
)
    ensures
        suffix_yield(entries, s, p, max) matches Some(r) ==> {
            &&& p.len() > s.len()
            &&& s.is_suffix_of(p)
            &&& 0 < r.len() <= max
            &&& forall|i: int|
                0 <= i < r.len() ==> suffixed_dict_word(
                    entries,
                    p.take(p.len() - s.len()),
                    s,
                    #[trigger] r[i],
                )
        },
{
    if p.len() > s.len() && s.is_suffix_of(p) {
        let base = p.take(p.len() - s.len());
        if let Some(key) = first_char_key(entries, base[0]) {
            let c = matching_words(words_of(entries, key), base, max);
            lemma_matching_listed(entries, key, base, max);
            lemma_matching_words(words_of(entries, key), base, max);
            if c.len() > 0 {
                let r = append_each(c, s);
                assert forall|i: int| 0 <= i < r.len() implies suffixed_dict_word(
                    entries,
                    base,
                    s,
                    #[trigger] r[i],
                ) by {
                    assert(is_dict_word(entries, c[i]));
                    assert(base.is_prefix_of(c[i]));
                    assert(r[i] == c[i] + s);
                }
                assert(suffix_yield(entries, s, p, max) == Some(r));
            }
        }
    }
}

proof fn lemma_first_yield(
    entries: Seq<(Seq<char>, Seq<Seq<char>>)>,
    sufs: Seq<Seq<char>>,
    p: Seq<char>,
    max: nat,
)
    ensures
        match suffix_suggestions(entries, sufs, p, max) {
            Some(r) => exists|i: int|
                #![trigger sufs[i]]
                0 <= i < sufs.len() && suffix_yield(entries, sufs[i], p, max) == Some(r) && forall|
                    j: int,
                | 0 <= j < i ==> (#[trigger] suffix_yield(entries, sufs[j], p, max)) is None,
            None => forall|i: int|
                0 <= i < sufs.len() ==> (#[trigger] suffix_yield(entries, sufs[i], p, max)) is None,
        },
    decreases sufs.len(),
{
    if sufs.len() > 0 {
        let t = sufs.drop_first();
        if suffix_yield(entries, sufs[0], p, max) is Some {
            assert(sufs[0] == sufs[0]);
        } else {
            lemma_first_yield(entries, t, p, max);
            match suffix_suggestions(entries, t, p, max) {
                Some(r) => {
                    let i = choose|i: int|
                        #![trigger t[i]]
                        0 <= i < t.len() && suffix_yield(entries, t[i], p, max) == Some(r) && forall|
                            j: int,
                        | 0 <= j < i ==> (#[trigger] suffix_yield(entries, t[j], p, max)) is None;
                    assert(sufs[i + 1] == t[i]);
                    assert forall|j: int| 0 <= j < i + 1 implies (#[trigger] suffix_yield(
                        entries,
                        sufs[j],
                        p,
                        max,
                    )) is None by {
                        if j > 0 {
                            assert(sufs[j] == t[j - 1]);
                        }
                    }
                },
                None => {
                    assert forall|i: int| 0 <= i < sufs.len() implies (#[trigger] suffix_yield(
                        entries,
                        sufs[i],
                        p,
                        max,
                    )) is None by {
                        if i > 0 {
                            assert(sufs[i] == t[i - 1]);
                        }
                    }
                },
            }
        }
    }
}

/// `s` is one of `values`, it yields `r`, and no longer value yields anything.
pub open spec fn longest_yielding(
    entries: Seq<(Seq<char>, Seq<Seq<char>>)>,
    values: Seq<Seq<char>>,
    p: Seq<char>,
    max: nat,
    s: Seq<char>,
    r: Seq<Seq<char>>,
) -> bool {
    &&& values.contains(s)
    &&& suffix_yield(entries, s, p, max) == Some(r)
    &&& forall|t: Seq<char>|
        #[trigger] values.contains(t) && t.len() > s.len() ==> suffix_yield(entries, t, p, max) is None
}

/// With the suffixes of a suffix dictionary loaded, suffix-aware suggestions
/// are what the longest suffix value that yields any words yields; when no
/// value yields any, they are the prefix suggestions.
pub proof fn law_extended_suggestions_choice(
    entries: Seq<(Seq<char>, Seq<Seq<char>>)>,
    values: Seq<Seq<char>>,
    p: Seq<char>,
    max: nat,
)
    ensures
        (exists|s: Seq<char>|
            #[trigger] longest_yielding(
                entries,
                values,
                p,
                max,
                s,
                extended_suggestions(Some(entries), suffix_order(values), p, max),
            )) || ((forall|t: Seq<char>|
            #[trigger] values.contains(t) ==> suffix_yield(entries, t, p, max) is None)
            && extended_suggestions(Some(entries), suffix_order(values), p, max)
            == prefix_suggestions(Some(entries), p, max)),
{
    let sufs = suffix_order(values);
    law_suffix_order(values);
    lemma_first_yield(entries, sufs, p, max);
    if p.len() == 0 {
        assert forall|t: Seq<char>| #[trigger] values.contains(t) implies suffix_yield(
            entries,
            t,
            p,
            max,
        ) is None by {}
    } else {
        match suffix_suggestions(entries, sufs, p, max) {
            Some(r) => {
                let i = choose|i: int|
                    #![trigger sufs[i]]
                    0 <= i < sufs.len() && suffix_yield(entries, sufs[i], p, max) == Some(r) && forall|
                        j: int,
                    | 0 <= j < i ==> (#[trigger] suffix_yield(entries, sufs[j], p, max)) is None;
                let s = sufs[i];
                assert(sufs.contains(s));
                assert forall|t: Seq<char>|
                    #[trigger] values.contains(t) && t.len() > s.len() implies suffix_yield(
                    entries,
                    t,
                    p,
                    max,
                ) is None by {
                    assert(sufs.contains(t));
                    let j = choose|j: int| 0 <= j < sufs.len() && sufs[j] == t;
                    if j > i {
                        assert(sufs[i].len() >= sufs[j].len());
                    }
                    assert(j < i);
                    assert(suffix_yield(entries, sufs[j], p, max) is None);
                }
                assert(extended_suggestions(Some(entries), sufs, p, max) == r);
                assert(longest_yielding(entries, values, p, max, s, r));
            },
            None => {
                assert forall|t: Seq<char>| #[trigger] values.contains(t) implies suffix_yield(
                    entries,
                    t,
                    p,
                    max,
                ) is None by {
                    assert(sufs.contains(t));
                    let j = choose|j: int| 0 <= j < sufs.len() && sufs[j] == t;
                    assert(suffix_yield(entries, sufs[j], p, max) is None);
                }
                assert(extended_suggestions(Some(entries), sufs, p, max) == prefix_suggestions(
                    Some(entries),
                    p,
                    max,
                ));
            },
        }
    }
}

/// The number of words listed under each of `keys`, summed.
pub open spec fn words_over_keys(
    entries: Seq<(Seq<char>, Seq<Seq<char>>)>,
    keys: Seq<Seq<char>>,
) -> nat
    decreases keys.len(),
{
    if keys.len() == 0 {
        0
    } else {
        words_over_keys(entries, keys.drop_last()) + words_of(entries, keys.last()).len()
    }
}

/// The keys of the word lists, in order.
pub open spec fn dict_keys(entries: Seq<(Seq<char>, Seq<Seq<char>>)>) -> Seq<Seq<char>> {
    entries.map_values(|e: (Seq<char>, Seq<Seq<char>>)| e.0)
}

proof fn lemma_total_words_take(entries: Seq<(Seq<char>, Seq<Seq<char>>)>, n: int)
    requires
        keys_distinct(entries),
        0 <= n <= entries.len(),
    ensures
        words_over_keys(entries, dict_keys(entries).take(n)) == total_words_spec(entries.take(n)),
    decreases n,
{
    let keys = dict_keys(entries);
    if n == 0 {
        assert(keys.take(0) =~= Seq::<Seq<char>>::empty());
    } else {
        lemma_total_words_take(entries, n - 1);
        assert(keys.take(n).drop_last() =~= keys.take(n - 1));
        assert(keys.take(n).last() == entries[n - 1].0);
        lemma_lookup_at(entries, n - 1);
        assert(entries.take(n).drop_last() =~= entries.take(n - 1));
        assert(entries.take(n).last() == entries[n - 1]);
    }
}

/// The total word count is the sum, over the keys, of the lengths of their lists.
pub proof fn law_total_words_over_keys(entries: Seq<(Seq<char>, Seq<Seq<char>>)>)
    requires
        keys_distinct(entries),
    ensures
        total_words_spec(entries) == words_over_keys(entries, dict_keys(entries)),
{
    lemma_total_words_take(entries, entries.len() as int);
    assert(dict_keys(entries).take(entries.len() as int) =~= dict_keys(entries));
    assert(entries.take(entries.len() as int) =~= entries);
}

/// The preedit is the text written so far followed by the conversion of the
/// pending keys, which is also what a commit writes.
pub proof fn law_preedit_is_flushed_text(rules: Map<Seq<char>, OutputSpec>, e: EditSpec)
    ensures
        preedit_spec(rules, e) == e.word + flush_from(
            rules,
            e.prefix,
            0,
            e.context,
            e.last_roman,
            None,
        ).0,
        preedit_spec(rules, e) == flush_edit(rules, e, None).word,
{
}

} // verus!
