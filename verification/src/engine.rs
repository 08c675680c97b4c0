use vstd::prelude::*;

use crate::dict::{lemma_lookup_at, pairs_to_map, words_of, SuffixDict, WordDict};
use crate::grammar::{grammar_pairs, output_pairs, AvroGrammar};
use crate::rules::{flush_from, next_context, resolve};
use crate::text::{chars_to_string, has_prefix, str_chars};
use vstd::string::StrSliceExecFns;
use crate::trie::{code, is_key_prefix, lemma_code_injective, longest_key, RuleTrie};
use std::collections::HashMap;
use crate::types::{BanglaOutput, EditSpec, EngineState, OutputContext, OutputSpec};

verus! {

broadcast use vstd::std_specs::hash::group_hash_axioms;

/// Bangla hasanta (U+09CD), written by the joiner key between consonants.
pub open spec fn hasanta() -> char {
    '\u{09CD}'
}

/// The editing state with nothing typed.
pub open spec fn empty_edit() -> EditSpec {
    EditSpec {
        prefix: Seq::empty(),
        word: Seq::empty(),
        context: OutputContext::Neutral,
        last_roman: None,
    }
}

/// Converting the pending keys of `e`, with `trigger` after them.
pub open spec fn flush_edit(
    rules: Map<Seq<char>, OutputSpec>,
    e: EditSpec,
    trigger: Option<char>,
) -> EditSpec {
    let f = flush_from(rules, e.prefix, 0, e.context, e.last_roman, trigger);
    EditSpec { prefix: Seq::empty(), word: e.word + f.0, context: f.1, last_roman: f.2 }
}

/// The Bangla text shown while editing: the text written so far followed by
/// the conversion of the pending keys as if the word ended there.
pub open spec fn preedit_spec(rules: Map<Seq<char>, OutputSpec>, e: EditSpec) -> Seq<char> {
    flush_edit(rules, e, None).word
}

/// One keystroke. `,` joins: after a consonant it writes hasanta, elsewhere
/// a literal comma. A key that extends the pending keys towards some rule is
/// kept pending; any other key converts the pending keys first and then
/// either starts new pending keys or is written literally.
pub open spec fn input_step(rules: Map<Seq<char>, OutputSpec>, e: EditSpec, c: char) -> EditSpec {
    if c == ',' {
        let f = flush_edit(rules, e, None);
        if f.context == OutputContext::AfterConsonant {
            EditSpec { word: f.word.push(hasanta()), ..f }
        } else {
            EditSpec {
                word: f.word.push(','),
                context: OutputContext::Neutral,
                last_roman: Some(','),
                ..f
            }
        }
    } else if is_key_prefix(rules, e.prefix.push(c)) {
        EditSpec { prefix: e.prefix.push(c), ..e }
    } else {
        let f = flush_edit(rules, e, Some(c));
        if is_key_prefix(rules, seq![c]) {
            EditSpec { prefix: seq![c], ..f }
        } else {
            EditSpec {
                word: f.word.push(c),
                context: OutputContext::Neutral,
                last_roman: Some(c),
                ..f
            }
        }
    }
}

/// The pending keys and the state before each keystroke since the last commit.
pub ghost struct EditModel {
    pub edit: EditSpec,
    pub history: Seq<EditSpec>,
}

/// What a keystroke does to the editing model.
pub open spec fn input_effect(
    rules: Map<Seq<char>, OutputSpec>,
    m: EditModel,
    c: char,
) -> EditModel {
    EditModel { edit: input_step(rules, m.edit, c), history: m.history.push(m.edit) }
}

/// What a backspace does: back to the state before the last keystroke, if any.
pub open spec fn backspace_effect(m: EditModel) -> EditModel {
    if m.history.len() > 0 {
        EditModel { edit: m.history.last(), history: m.history.drop_last() }
    } else {
        m
    }
}

/// What a commit leaves behind.
pub open spec fn commit_effect() -> EditModel {
    EditModel { edit: empty_edit(), history: Seq::empty() }
}

/// The key whose first word starts with `c`; when several do, the last one
/// in the dictionary's order.
pub open spec fn first_char_key(entries: Seq<(Seq<char>, Seq<Seq<char>>)>, c: char) -> Option<
    Seq<char>,
>
    decreases entries.len(),
{
    if entries.len() == 0 {
        None
    } else {
        let e = entries.last();
        if e.1.len() > 0 && e.1[0].len() > 0 && e.1[0][0] == c {
            Some(e.0)
        } else {
            first_char_key(entries.drop_last(), c)
        }
    }
}

/// The first `max` words that start with `p`, in order.
pub open spec fn matching_words(words: Seq<Seq<char>>, p: Seq<char>, max: nat) -> Seq<Seq<char>>
    decreases words.len(),
{
    if words.len() == 0 || max == 0 {
        Seq::empty()
    } else if p.is_prefix_of(words[0]) {
        seq![words[0]] + matching_words(words.drop_first(), p, (max - 1) as nat)
    } else {
        matching_words(words.drop_first(), p, max)
    }
}

/// Words of the dictionary that start with `p`: taken from the list of the
/// key that belongs to the first letter of `p`.
pub open spec fn prefix_suggestions(
    dict: Option<Seq<(Seq<char>, Seq<Seq<char>>)>>,
    p: Seq<char>,
    max: nat,
) -> Seq<Seq<char>> {
    match dict {
        None => Seq::empty(),
        Some(entries) => if p.len() == 0 {
            Seq::empty()
        } else {
            match first_char_key(entries, p[0]) {
                None => Seq::empty(),
                Some(key) => matching_words(words_of(entries, key), p, max),
            }
        },
    }
}

/// Each word followed by `s`.
pub open spec fn append_each(ws: Seq<Seq<char>>, s: Seq<char>) -> Seq<Seq<char>> {
    ws.map_values(|w: Seq<char>| w + s)
}

/// What the suffix `s` yields for the preedit `pre`: when `s` ends `pre`
/// and leaves a non-empty base, and some words of the base's first-letter
/// list start with the base, those words (at most `max`) with `s` attached.
pub open spec fn suffix_yield(
    entries: Seq<(Seq<char>, Seq<Seq<char>>)>,
    s: Seq<char>,
    pre: Seq<char>,
    max: nat,
) -> Option<Seq<Seq<char>>> {
    if pre.len() > s.len() && s.is_suffix_of(pre) {
        let base = pre.take(pre.len() - s.len());
        match first_char_key(entries, base[0]) {
            None => None,
            Some(key) => {
                let c = matching_words(words_of(entries, key), base, max);
                if c.len() > 0 {
                    Some(append_each(c, s))
                } else {
                    None
                }
            },
        }
    } else {
        None
    }
}

/// The suggestions from the first suffix in `sufs` that yields any.
pub open spec fn suffix_suggestions(
    entries: Seq<(Seq<char>, Seq<Seq<char>>)>,
    sufs: Seq<Seq<char>>,
    pre: Seq<char>,
    max: nat,
) -> Option<Seq<Seq<char>>>
    decreases sufs.len(),
{
    if sufs.len() == 0 {
        None
    } else if suffix_yield(entries, sufs[0], pre, max) is Some {
        suffix_yield(entries, sufs[0], pre, max)
    } else {
        suffix_suggestions(entries, sufs.drop_first(), pre, max)
    }
}

/// Suffix-aware suggestions, falling back to prefix suggestions.
pub open spec fn extended_suggestions(
    dict: Option<Seq<(Seq<char>, Seq<Seq<char>>)>>,
    sufs: Seq<Seq<char>>,
    pre: Seq<char>,
    max: nat,
) -> Seq<Seq<char>> {
    match dict {
        None => Seq::empty(),
        Some(entries) => if pre.len() == 0 {
            Seq::empty()
        } else {
            match suffix_suggestions(entries, sufs, pre, max) {
                Some(r) => r,
                None => prefix_suggestions(dict, pre, max),
            }
        },
    }
}

/// The values without repetitions, each where it first occurs.
pub open spec fn dedup(xs: Seq<Seq<char>>) -> Seq<Seq<char>>
    decreases xs.len(),
{
    if xs.len() == 0 {
        Seq::empty()
    } else {
        let d = dedup(xs.drop_last());
        if d.contains(xs.last()) {
            d
        } else {
            d.push(xs.last())
        }
    }
}

/// Where `x` goes in a list sorted longest first: after every entry at least as long.
pub open spec fn insert_pos(sorted: Seq<Seq<char>>, x: Seq<char>) -> nat
    decreases sorted.len(),
{
    if sorted.len() == 0 || sorted[0].len() < x.len() {
        0
    } else {
        1 + insert_pos(sorted.drop_first(), x)
    }
}

/// Stable sort, longest first.
pub open spec fn sort_by_length(xs: Seq<Seq<char>>) -> Seq<Seq<char>>
    decreases xs.len(),
{
    if xs.len() == 0 {
        Seq::empty()
    } else {
        let s = sort_by_length(xs.drop_last());
        s.insert(insert_pos(s, xs.last()) as int, xs.last())
    }
}

/// The order in which suffixes are tried: distinct values, longest first.
pub open spec fn suffix_order(values: Seq<Seq<char>>) -> Seq<Seq<char>> {
    sort_by_length(dedup(values))
}

/// The key recorded for a first letter in a table keyed by letter codes.
pub open spec fn table_key(t: Map<u32, String>, c: char) -> Option<Seq<char>> {
    if t.contains_key(code(c)) {
        Some(t[code(c)]@)
    } else {
        None
    }
}

/// The hardcoded fallback rules: independent/dependent vowel forms and consonants.
pub open spec fn builtin_rules() -> Map<Seq<char>, OutputSpec> {
    Map::empty()
        .insert("a"@, OutputSpec::Contextual("আ"@, "া"@))
        .insert("aa"@, OutputSpec::Contextual("আ"@, "া"@))
        .insert("i"@, OutputSpec::Contextual("ই"@, "ি"@))
        .insert("ii"@, OutputSpec::Contextual("ঈ"@, "ী"@))
        .insert("u"@, OutputSpec::Contextual("উ"@, "ু"@))
        .insert("uu"@, OutputSpec::Contextual("ঊ"@, "ূ"@))
        .insert("e"@, OutputSpec::Contextual("এ"@, "ে"@))
        .insert("o"@, OutputSpec::Contextual("ও"@, "ো"@))
        .insert("O"@, OutputSpec::Contextual("ও"@, "ো"@))
        .insert("oi"@, OutputSpec::Contextual("ঐ"@, "ৈ"@))
        .insert("ou"@, OutputSpec::Contextual("ঔ"@, "ৌ"@))
        .insert("rri"@, OutputSpec::Contextual("ঋ"@, "ৃ"@))
        .insert("k"@, OutputSpec::Static("ক"@))
        .insert("kh"@, OutputSpec::Static("খ"@))
        .insert("g"@, OutputSpec::Static("গ"@))
        .insert("gh"@, OutputSpec::Static("ঘ"@))
        .insert("nga"@, OutputSpec::Static("ঙ"@))
        .insert("c"@, OutputSpec::Static("চ"@))
        .insert("ch"@, OutputSpec::Static("ছ"@))
        .insert("j"@, OutputSpec::Static("জ"@))
        .insert("jh"@, OutputSpec::Static("ঝ"@))
        .insert("tt"@, OutputSpec::Static("ট"@))
        .insert("T"@, OutputSpec::Static("ট"@))
        .insert("tth"@, OutputSpec::Static("ঠ"@))
        .insert("Th"@, OutputSpec::Static("ঠ"@))
        .insert("dd"@, OutputSpec::Static("ড"@))
        .insert("D"@, OutputSpec::Static("ড"@))
        .insert("ddh"@, OutputSpec::Static("ঢ"@))
        .insert("Dh"@, OutputSpec::Static("ঢ"@))
        .insert("nn"@, OutputSpec::Static("ণ"@))
        .insert("N"@, OutputSpec::Static("ণ"@))
        .insert("t"@, OutputSpec::Static("ত"@))
        .insert("th"@, OutputSpec::Static("থ"@))
        .insert("d"@, OutputSpec::Static("দ"@))
        .insert("dh"@, OutputSpec::Static("ধ"@))
        .insert("n"@, OutputSpec::Static("ন"@))
        .insert("p"@, OutputSpec::Static("প"@))
        .insert("ph"@, OutputSpec::Static("ফ"@))
        .insert("f"@, OutputSpec::Static("ফ"@))
        .insert("b"@, OutputSpec::Static("ব"@))
        .insert("bh"@, OutputSpec::Static("ভ"@))
        .insert("v"@, OutputSpec::Static("ভ"@))
        .insert("m"@, OutputSpec::Static("ম"@))
        .insert("z"@, OutputSpec::Static("য"@))
        .insert("y"@, OutputSpec::Static("য়"@))
        .insert("r"@, OutputSpec::Static("র"@))
        .insert("rr"@, OutputSpec::Static("ড়"@))
        .insert("rrh"@, OutputSpec::Static("ঢ়"@))
        .insert("l"@, OutputSpec::Static("ল"@))
        .insert("sh"@, OutputSpec::Static("শ"@))
        .insert("ss"@, OutputSpec::Static("ষ"@))
        .insert("S"@, OutputSpec::Static("ষ"@))
        .insert("s"@, OutputSpec::Static("স"@))
        .insert("h"@, OutputSpec::Static("হ"@))
        .insert("ng"@, OutputSpec::Static("ং"@))
        .insert("nya"@, OutputSpec::Static("ঞ"@))
        .insert("khandatta"@, OutputSpec::Static("ৎ"@))
}

/// The first `max` of `words` that start with `p`, in order.
fn matching(words: &[String], p: &Vec<char>, max: usize) -> (r: Vec<String>)
    ensures
        r@.map_values(|w: String| w@) == matching_words(
            words@.map_values(|w: String| w@),
            p@,
            max as nat,
        ),
{
    let ghost ws = words@.map_values(|w: String| w@);
    let mut r: Vec<String> = Vec::new();
    let mut i: usize = 0;
    assert(ws.skip(0) =~= ws);
    assert(r@.map_values(|w: String| w@) + matching_words(ws, p@, max as nat) =~= matching_words(ws, p@, max as nat));
    while i < words.len() && r.len() < max
        invariant
            ws == words@.map_values(|w: String| w@),
            i <= words@.len(),
            r@.len() <= max,
            matching_words(ws, p@, max as nat) == r@.map_values(|w: String| w@) + matching_words(
                ws.skip(i as int),
                p@,
                (max - r@.len()) as nat,
            ),
        decreases words@.len() - i,
    {
        let ghost before = r@.map_values(|w: String| w@);
        let ghost rest = ws.skip(i as int);
        assert(rest.drop_first() =~= ws.skip(i + 1));
        assert(rest[0] == words@[i as int]@);
        if has_prefix(words[i].as_str(), p) {
            r.push(words[i].clone());
            assert(r@.map_values(|w: String| w@) =~= before.push(words@[i as int]@));
            assert(before + (seq![rest[0]] + matching_words(rest.drop_first(), p@, (max - r@.len()) as nat))
                =~= r@.map_values(|w: String| w@) + matching_words(rest.drop_first(), p@, (max - r@.len()) as nat));
        }
        i += 1;
    }
    proof {
        let rest = ws.skip(i as int);
        if r@.len() < max {
            assert(rest.len() == 0);
        }
        assert(matching_words(rest, p@, (max - r@.len()) as nat) == Seq::<Seq<char>>::empty());
        assert(r@.map_values(|w: String| w@) + Seq::<Seq<char>>::empty() =~= r@.map_values(|w: String| w@));
    }
    r
}

/// Whether `s` ends `pre` and leaves a non-empty part before it.
fn ends_with_longer(pre: &Vec<char>, s: &Vec<char>) -> (r: bool)
    ensures
        r == (pre@.len() > s@.len() && s@.is_suffix_of(pre@)),
{
    if pre.len() <= s.len() {
        return false;
    }
    let off = pre.len() - s.len();
    let mut j: usize = 0;
    while j < s.len()
        invariant
            pre@.len() > s@.len(),
            pre.len() == pre@.len(),
            off == pre@.len() - s@.len(),
            j <= s@.len(),
            forall|k: int| 0 <= k < j ==> s@[k] == pre@[off + k],
        decreases s@.len() - j,
    {
        if s[j] != pre[off + j] {
            assert(pre@.subrange(off as int, pre@.len() as int)[j as int] != s@[j as int]);
            return false;
        }
        j += 1;
    }
    assert(s@ =~= pre@.subrange(off as int, pre@.len() as int));
    true
}

/// The first `n` characters.
fn take_chars(v: &Vec<char>, n: usize) -> (r: Vec<char>)
    requires
        n <= v@.len(),
    ensures
        r@ == v@.take(n as int),
{
    let mut r: Vec<char> = Vec::new();
    let mut i: usize = 0;
    while i < n
        invariant
            n <= v@.len(),
            i <= n,
            r@ == v@.take(i as int),
        decreases n - i,
    {
        r.push(v[i]);
        assert(v@.take(i as int).push(v@[i as int]) =~= v@.take(i + 1));
        i += 1;
    }
    r
}

/// Each word followed by `suffix`.
fn attach_suffix(words: &Vec<String>, suffix: &String) -> (r: Vec<String>)
    ensures
        r@.map_values(|w: String| w@) == append_each(words@.map_values(|w: String| w@), suffix@),
{
    let mut r: Vec<String> = Vec::new();
    let mut i: usize = 0;
    while i < words.len()
        invariant
            i <= words@.len(),
            r@.len() == i,
            forall|k: int| 0 <= k < i ==> (#[trigger] r@[k])@ == words@[k]@ + suffix@,
        decreases words@.len() - i,
    {
        let mut w = words[i].clone();
        w.append(suffix.as_str());
        r.push(w);
        i += 1;
    }
    assert(r@.map_values(|w: String| w@) =~= append_each(words@.map_values(|w: String| w@), suffix@));
    r
}

/// Whether `v` occurs among `xs`.
fn contains_string(xs: &Vec<String>, v: &String) -> (r: bool)
    ensures
        r == xs@.map_values(|w: String| w@).contains(v@),
{
    let mut i: usize = 0;
    while i < xs.len()
        invariant
            i <= xs@.len(),
            forall|k: int| 0 <= k < i ==> (#[trigger] xs@[k])@ != v@,
        decreases xs@.len() - i,
    {
        if xs[i] == *v {
            assert(xs@.map_values(|w: String| w@)[i as int] == v@);
            return true;
        }
        i += 1;
    }
    false
}

/// The transliteration engine.
pub struct AvroEngine {
    root: RuleTrie,
    state_stack: Vec<EngineState>,
    prefix: Vec<char>,
    word_buffer: Vec<char>,
    context: OutputContext,
    last_roman: Option<char>,
    dict: Option<WordDict>,
    bangla_to_key: HashMap<u32, String>,
    suffix_bangla_sorted: Vec<String>,
}

impl AvroEngine {
    /// The phonetic rules.
    pub closed spec fn rules(&self) -> Map<Seq<char>, OutputSpec> {
        self.root@
    }

    /// The current editing state.
    pub open spec fn edit(&self) -> EditSpec {
        self.model().edit
    }

    closed spec fn fields_edit(&self) -> EditSpec {
        EditSpec {
            prefix: self.prefix@,
            word: self.word_buffer@,
            context: self.context,
            last_roman: self.last_roman,
        }
    }

    /// The editing state together with the states saved for backspace.
    pub closed spec fn model(&self) -> EditModel {
        EditModel {
            edit: self.fields_edit(),
            history: self.state_stack@.map_values(|s: EngineState| s@),
        }
    }

    /// The word lists, when loaded.
    pub closed spec fn dict_view(&self) -> Option<Seq<(Seq<char>, Seq<Seq<char>>)>> {
        match self.dict {
            Some(d) => Some(d@),
            None => None,
        }
    }

    /// The Bangla suffixes, in the order they are tried.
    pub closed spec fn suffixes(&self) -> Seq<Seq<char>> {
        self.suffix_bangla_sorted@.map_values(|s: String| s@)
    }


    /// The trie is well formed, the word lists have distinct keys, and the
    /// first-letter table agrees with the word lists.
    pub closed spec fn wf(&self) -> bool {
        &&& self.root.wf()
        &&& (self.dict matches Some(d) ==> d.wf())
        &&& forall|c: char|
            #[trigger] table_key(self.bangla_to_key@, c) == match self.dict_view() {
                Some(entries) => first_char_key(entries, c),
                None => None,
            }
    }

    /// Everything but the editing model is as in `other`.
    closed spec fn same_setup(&self, other: &AvroEngine) -> bool {
        &&& self.root == other.root
        &&& self.dict == other.dict
        &&& self.bangla_to_key == other.bangla_to_key
        &&& self.suffix_bangla_sorted == other.suffix_bangla_sorted
    }

    /// The text shown while editing.
    pub open spec fn preedit_view(&self) -> Seq<char> {
        preedit_spec(self.rules(), self.edit())
    }

    /// An engine with the hardcoded fallback rules and no dictionaries.
    pub fn new() -> (e: Self)
        ensures
            e.wf(),
            e.rules() == builtin_rules(),
            e.model() == commit_effect(),
            e.dict_view() is None,
            e.suffixes() == Seq::<Seq<char>>::empty(),
    {
        let mut engine = Self::empty();
        engine.load_rules();
        engine
    }

    /// Builds an engine from an `AvroGrammar` (JSON-parsed rules): its
    /// patterns in order, a later pattern for the same key replacing an earlier one.
    pub fn from_grammar(grammar: &AvroGrammar) -> (e: Self)
        ensures
            e.wf(),
            e.rules() == pairs_to_map(grammar_pairs(*grammar)),
            e.model() == commit_effect(),
            e.dict_view() is None,
            e.suffixes() == Seq::<Seq<char>>::empty(),
    {
        let mut engine = Self::empty();
        let mut outputs = grammar.patterns_as_outputs();
        let ghost pairs = output_pairs(outputs@);
        let ghost mut i: int = 0;
        assert(pairs.take(0) =~= Seq::<(Seq<char>, OutputSpec)>::empty());
        assert(pairs.skip(0) =~= pairs);
        while outputs.len() > 0
            invariant
                engine.wf(),
                0 <= i <= pairs.len(),
                engine.rules() == pairs_to_map(pairs.take(i)),
                output_pairs(outputs@) == pairs.skip(i),
                engine.model() == commit_effect(),
                engine.dict_view() is None,
                engine.suffixes() == Seq::<Seq<char>>::empty(),
            decreases outputs@.len(),
        {
            let ghost before = outputs@;
            assert(output_pairs(before).len() == before.len());
            assert(i < pairs.len());
            let (find, output) = outputs.remove(0);
            assert(output_pairs(before)[0] == (find@, output@));
            assert(pairs.take(i + 1).drop_last() =~= pairs.take(i));
            assert(pairs.take(i + 1).last() == pairs[i]);
            engine.insert(find.as_str(), output);
            assert forall|j: int| 0 <= j < outputs@.len() implies #[trigger] output_pairs(outputs@)[j]
                == pairs.skip(i + 1)[j] by {
                assert(outputs@[j] == before[j + 1]);
                assert(output_pairs(before)[j + 1] == pairs.skip(i)[j + 1]);
            }
            assert(output_pairs(outputs@) =~= pairs.skip(i + 1));
            proof {
                i = i + 1;
            }
        }
        assert(pairs.take(i) =~= pairs);
        engine
    }

    /// An engine without rules, dictionaries or typed text.
    fn empty() -> (e: Self)
        ensures
            e.wf(),
            e.rules() == Map::<Seq<char>, OutputSpec>::empty(),
            e.model() == commit_effect(),
            e.dict_view() is None,
            e.suffixes() == Seq::<Seq<char>>::empty(),
    {
        let e = AvroEngine {
            root: RuleTrie::new(),
            state_stack: Vec::new(),
            prefix: Vec::new(),
            word_buffer: Vec::new(),
            context: OutputContext::Neutral,
            last_roman: None,
            dict: None,
            bangla_to_key: HashMap::new(),
            suffix_bangla_sorted: Vec::new(),
        };
        assert(e.model().history =~= Seq::<EditSpec>::empty());
        assert(e.edit().prefix =~= Seq::<char>::empty());
        assert(e.edit().word =~= Seq::<char>::empty());
        assert(e.suffixes() =~= Seq::<Seq<char>>::empty());
        e
    }

    fn insert_contextual(&mut self, key: &str, independent: &str, dependent: &str)
        requires
            old(self).wf(),
        ensures
            final(self).wf(),
            final(self).rules() == old(self).rules().insert(
                key@,
                OutputSpec::Contextual(independent@, dependent@),
            ),
            final(self).model() == old(self).model(),
            final(self).dict_view() == old(self).dict_view(),
            final(self).suffixes() == old(self).suffixes(),
    {
        self.insert(
            key,
            BanglaOutput::Contextual {
                independent: independent.to_owned(),
                dependent: dependent.to_owned(),
            },
        );
    }

    fn insert_static(&mut self, key: &str, val: &str)
        requires
            old(self).wf(),
        ensures
            final(self).wf(),
            final(self).rules() == old(self).rules().insert(key@, OutputSpec::Static(val@)),
            final(self).model() == old(self).model(),
            final(self).dict_view() == old(self).dict_view(),
            final(self).suffixes() == old(self).suffixes(),
    {
        self.insert(key, BanglaOutput::Static(val.to_owned()));
    }

    /// Loads the hardcoded fallback rules into an engine without rules.
    fn load_rules(&mut self)
        requires
            old(self).wf(),
            old(self).rules() == Map::<Seq<char>, OutputSpec>::empty(),
        ensures
            final(self).wf(),
            final(self).rules() == builtin_rules(),
            final(self).model() == old(self).model(),
            final(self).dict_view() == old(self).dict_view(),
            final(self).suffixes() == old(self).suffixes(),
    {
        let ghost base = self.rules();
        self.insert_contextual("a", "আ", "া");
        self.insert_contextual("aa", "আ", "া");
        self.insert_contextual("i", "ই", "ি");
        self.insert_contextual("ii", "ঈ", "ী");
        self.insert_contextual("u", "উ", "ু");
        self.insert_contextual("uu", "ঊ", "ূ");
        self.insert_contextual("e", "এ", "ে");
        self.insert_contextual("o", "ও", "ো");
        self.insert_contextual("O", "ও", "ো");
        self.insert_contextual("oi", "ঐ", "ৈ");
        self.insert_contextual("ou", "ঔ", "ৌ");
        self.insert_contextual("rri", "ঋ", "ৃ");
        self.insert_static("k", "ক");
        self.insert_static("kh", "খ");
        self.insert_static("g", "গ");
        self.insert_static("gh", "ঘ");
        self.insert_static("nga", "ঙ");
        self.insert_static("c", "চ");
        self.insert_static("ch", "ছ");
        self.insert_static("j", "জ");
        self.insert_static("jh", "ঝ");
        self.insert_static("tt", "ট");
        self.insert_static("T", "ট");
        self.insert_static("tth", "ঠ");
        self.insert_static("Th", "ঠ");
        self.insert_static("dd", "ড");
        self.insert_static("D", "ড");
        self.insert_static("ddh", "ঢ");
        self.insert_static("Dh", "ঢ");
        self.insert_static("nn", "ণ");
        self.insert_static("N", "ণ");
        self.insert_static("t", "ত");
        self.insert_static("th", "থ");
        self.insert_static("d", "দ");
        self.insert_static("dh", "ধ");
        self.insert_static("n", "ন");
        self.insert_static("p", "প");
        self.insert_static("ph", "ফ");
        self.insert_static("f", "ফ");
        self.insert_static("b", "ব");
        self.insert_static("bh", "ভ");
        self.insert_static("v", "ভ");
        self.insert_static("m", "ম");
        self.insert_static("z", "য");
        self.insert_static("y", "য়");
        self.insert_static("r", "র");
        self.insert_static("rr", "ড়");
        self.insert_static("rrh", "ঢ়");
        self.insert_static("l", "ল");
        self.insert_static("sh", "শ");
        self.insert_static("ss", "ষ");
        self.insert_static("S", "ষ");
        self.insert_static("s", "স");
        self.insert_static("h", "হ");
        self.insert_static("ng", "ং");
        self.insert_static("nya", "ঞ");
        self.insert_static("khandatta", "ৎ");
    }

    /// Loads the word lists used for suggestions, and records for each first
    /// letter the key whose list starts with it.
    pub fn load_dict(&mut self, dict: WordDict)
        requires
            old(self).wf(),
            dict.wf(),
        ensures
            final(self).wf(),
            final(self).rules() == old(self).rules(),
            final(self).model() == old(self).model(),
            final(self).dict_view() == Some(dict@),
            final(self).suffixes() == old(self).suffixes(),
    {
        let keys = dict.keys();
        let ghost entries = dict@;
        assert(keys@.len() == keys@.map_values(|k: String| k@).len());
        let mut table: HashMap<u32, String> = HashMap::new();
        let mut i: usize = 0;
        assert(entries.take(0) =~= Seq::<(Seq<char>, Seq<Seq<char>>)>::empty());
        while i < keys.len()
            invariant
                dict.wf(),
                entries == dict@,
                keys@.map_values(|k: String| k@) == entries.map_values(
                    |e: (Seq<char>, Seq<Seq<char>>)| e.0,
                ),
                keys@.len() == entries.len(),
                i <= keys@.len(),
                forall|c: char|
                    #[trigger] table_key(table@, c) == first_char_key(entries.take(i as int), c),
            decreases keys@.len() - i,
        {
            let key = &keys[i];
            assert(keys@.map_values(|k: String| k@)[i as int] == key@);
            assert(entries.map_values(|e: (Seq<char>, Seq<Seq<char>>)| e.0)[i as int] == entries[i as int].0);
            proof {
                lemma_lookup_at(entries, i as int);
            }
            let words = dict.words_for(key.as_str());
            assert(words@.map_values(|w: String| w@) == entries[i as int].1);
            let ghost before = table@;
            let ghost e = entries[i as int];
            assert(entries.take(i + 1).drop_last() =~= entries.take(i as int));
            assert(entries.take(i + 1).last() == e);
            assert(e.1.len() == words@.len());
            if words.len() > 0 {
                let first = words[0].as_str();
                assert(words@.map_values(|w: String| w@)[0] == first@);
                if first.unicode_len() > 0 {
                    let c = first.get_char(0);
                    let code_c: u32 = c as u32;
                    table.insert(code_c, key.clone());
                    assert(e.1[0][0] == c);
                    assert(e.1[0].len() > 0);
                    assert(key@ == e.0);
                    assert forall|d: char|
                        #[trigger] table_key(table@, d) == first_char_key(entries.take(i + 1), d) by {
                        if d != c {
                            if code(d) == code(c) {
                                lemma_code_injective(d, c);
                            }
                            assert(table_key(before, d) == first_char_key(entries.take(i as int), d));
                        }
                    }
                } else {
                    assert forall|d: char|
                        #[trigger] table_key(table@, d) == first_char_key(entries.take(i + 1), d) by {
                        assert(table_key(before, d) == first_char_key(entries.take(i as int), d));
                    }
                }
            } else {
                assert forall|d: char|
                    #[trigger] table_key(table@, d) == first_char_key(entries.take(i + 1), d) by {
                    assert(table_key(before, d) == first_char_key(entries.take(i as int), d));
                }
            }
            i += 1;
        }
        assert(entries.take(i as int) =~= entries);
        self.bangla_to_key = table;
        self.dict = Some(dict);
    }

    /// The dictionary key recorded for a first letter.
    fn key_for(&self, c: char) -> (r: Option<&String>)
        ensures
            match r {
                Some(k) => table_key(self.bangla_to_key@, c) == Some(k@),
                None => table_key(self.bangla_to_key@, c) is None,
            },
    {
        let code_c: u32 = c as u32;
        self.bangla_to_key.get(&code_c)
    }

    /// Prefix-match candidates: up to `max` words of the first letter's list that start with `preedit`.
    fn prefix_candidates(&self, preedit: &Vec<char>, max: usize) -> (r: Vec<String>)
        requires
            self.wf(),
        ensures
            r@.map_values(|w: String| w@) == prefix_suggestions(self.dict_view(), preedit@, max as nat),
    {
        let dict = match &self.dict {
            None => return Vec::new(),
            Some(d) => d,
        };
        if preedit.len() == 0 {
            assert(Seq::<String>::empty().map_values(|w: String| w@) =~= Seq::<Seq<char>>::empty());
            return Vec::new();
        }
        let key = match self.key_for(preedit[0]) {
            None => {
                assert(Seq::<String>::empty().map_values(|w: String| w@) =~= Seq::<Seq<char>>::empty());
                return Vec::new();
            },
            Some(k) => k,
        };
        let words = dict.words_for(key.as_str());
        matching(words, preedit, max)
    }

    /// Loads the Bangla suffixes for suffix-aware suggestions: each distinct
    /// value once, longest (in characters) first, equal lengths in dictionary order.
    pub fn load_suffix_dict(&mut self, dict: SuffixDict)
        requires
            old(self).wf(),
        ensures
            final(self).wf(),
            final(self).rules() == old(self).rules(),
            final(self).model() == old(self).model(),
            final(self).dict_view() == old(self).dict_view(),
            final(self).suffixes() == suffix_order(
                dict@.map_values(|e: (Seq<char>, Seq<char>)| e.1),
            ),
    {
        let values = dict.bangla_values();
        let ghost vs = values@.map_values(|w: String| w@);
        let mut unique: Vec<String> = Vec::new();
        let mut i: usize = 0;
        assert(vs.take(0) =~= Seq::<Seq<char>>::empty());
        assert(unique@.map_values(|w: String| w@) =~= Seq::<Seq<char>>::empty());
        while i < values.len()
            invariant
                vs == values@.map_values(|w: String| w@),
                i <= values@.len(),
                unique@.map_values(|w: String| w@) == dedup(vs.take(i as int)),
            decreases values@.len() - i,
        {
            let ghost before = unique@.map_values(|w: String| w@);
            assert(vs.take(i + 1).drop_last() =~= vs.take(i as int));
            assert(vs.take(i + 1).last() == values@[i as int]@);
            if !contains_string(&unique, &values[i]) {
                unique.push(values[i].clone());
                assert(unique@.map_values(|w: String| w@) =~= before.push(values@[i as int]@));
            }
            i += 1;
        }
        assert(vs.take(i as int) =~= vs);
        let ghost us = unique@.map_values(|w: String| w@);
        let mut sorted: Vec<String> = Vec::new();
        let mut lens: Vec<usize> = Vec::new();
        let mut k: usize = 0;
        assert(us.take(0) =~= Seq::<Seq<char>>::empty());
        assert(sorted@.map_values(|w: String| w@) =~= Seq::<Seq<char>>::empty());
        while k < unique.len()
            invariant
                us == unique@.map_values(|w: String| w@),
                k <= unique@.len(),
                sorted@.map_values(|w: String| w@) == sort_by_length(us.take(k as int)),
                lens@.len() == sorted@.len(),
                forall|j: int| 0 <= j < lens@.len() ==> #[trigger] lens@[j] == sorted@[j]@.len(),
            decreases unique@.len() - k,
        {
            let u = &unique[k];
            let n = u.as_str().unicode_len();
            let ghost sv = sorted@.map_values(|w: String| w@);
            let mut pos: usize = 0;
            assert(sv.skip(0) =~= sv);
            while pos < lens.len() && lens[pos] >= n
                invariant
                    sv == sorted@.map_values(|w: String| w@),
                    lens@.len() == sorted@.len(),
                    forall|j: int| 0 <= j < lens@.len() ==> #[trigger] lens@[j] == sorted@[j]@.len(),
                    n == u@.len(),
                    pos <= lens@.len(),
                    insert_pos(sv, u@) == pos + insert_pos(sv.skip(pos as int), u@),
                decreases lens@.len() - pos,
            {
                assert(sv.skip(pos as int).drop_first() =~= sv.skip(pos + 1));
                assert(sv.skip(pos as int)[0] == sorted@[pos as int]@);
                pos += 1;
            }
            proof {
                if pos < lens@.len() {
                    assert(sv.skip(pos as int)[0] == sorted@[pos as int]@);
                }
            }
            let ghost before = sv;
            let ghost old_lens = lens@;
            let ghost old_sorted = sorted@;
            sorted.insert(pos, u.clone());
            lens.insert(pos, n);
            assert(us.take(k + 1).drop_last() =~= us.take(k as int));
            assert(us.take(k + 1).last() == u@);
            assert(sorted@.map_values(|w: String| w@) =~= before.insert(pos as int, u@));
            assert forall|j: int| 0 <= j < lens@.len() implies #[trigger] lens@[j] == sorted@[j]@.len() by {
                if j < pos {
                    assert(lens@[j] == old_lens[j] && sorted@[j] == old_sorted[j]);
                } else if j == pos {
                } else {
                    assert(lens@[j] == old_lens[j - 1] && sorted@[j] == old_sorted[j - 1]);
                }
            }
            k += 1;
        }
        assert(us.take(k as int) =~= us);
        self.suffix_bangla_sorted = sorted;
    }

    /// Suffix-aware suggest: strips the first (longest) known Bangla suffix
    /// that ends the preedit, looks up words that start with the rest, and
    /// reattaches the suffix; falls back to `suggest` if no suffix gives words.
    pub fn suggest_extended(&self, max: usize) -> (r: Vec<String>)
        requires
            self.wf(),
        ensures
            r@.map_values(|w: String| w@) == extended_suggestions(
                self.dict_view(),
                self.suffixes(),
                self.preedit_view(),
                max as nat,
            ),
    {
        let dict = match &self.dict {
            None => {
                assert(Seq::<String>::empty().map_values(|w: String| w@) =~= Seq::<Seq<char>>::empty());
                return Vec::new();
            },
            Some(d) => d,
        };
        let preedit = self.preedit_chars();
        if preedit.len() == 0 {
            assert(Seq::<String>::empty().map_values(|w: String| w@) =~= Seq::<Seq<char>>::empty());
            return Vec::new();
        }
        let ghost entries = dict@;
        let ghost sufs = self.suffixes();
        let mut i: usize = 0;
        assert(sufs.skip(0) =~= sufs);
        while i < self.suffix_bangla_sorted.len()
            invariant
                self.wf(),
                self.dict == Some(*dict),
                entries == dict@,
                sufs == self.suffixes(),
                preedit@ == self.preedit_view(),
                preedit@.len() > 0,
                i <= self.suffix_bangla_sorted@.len(),
                suffix_suggestions(entries, sufs, preedit@, max as nat) == suffix_suggestions(
                    entries,
                    sufs.skip(i as int),
                    preedit@,
                    max as nat,
                ),
            decreases self.suffix_bangla_sorted@.len() - i,
        {
            let suffix = &self.suffix_bangla_sorted[i];
            let ghost rest = sufs.skip(i as int);
            assert(rest.drop_first() =~= sufs.skip(i + 1));
            assert(rest[0] == suffix@);
            let sc = str_chars(suffix.as_str());
            if ends_with_longer(&preedit, &sc) {
                let base = take_chars(&preedit, preedit.len() - sc.len());
                match self.key_for(base[0]) {
                    None => {},
                    Some(key) => {
                        let words = dict.words_for(key.as_str());
                        let cands = matching(words, &base, max);
                        if cands.len() > 0 {
                            return attach_suffix(&cands, suffix);
                        }
                    },
                }
            }
            i += 1;
        }
        assert(sufs.skip(i as int).len() == 0);
        self.prefix_candidates(&preedit, max)
    }

    /// Prefix-match suggest: returns up to `max` words that start with the current preedit.
    pub fn suggest(&self, max: usize) -> (r: Vec<String>)
        requires
            self.wf(),
        ensures
            r@.map_values(|w: String| w@) == prefix_suggestions(
                self.dict_view(),
                self.preedit_view(),
                max as nat,
            ),
    {
        let preedit = self.preedit_chars();
        self.prefix_candidates(&preedit, max)
    }

    /// Adds (or replaces) the rule for `key`.
    pub fn insert(&mut self, key: &str, value: BanglaOutput)
        requires
            old(self).wf(),
        ensures
            final(self).wf(),
            final(self).rules() == old(self).rules().insert(key@, value@),
            final(self).model() == old(self).model(),
            final(self).dict_view() == old(self).dict_view(),
            final(self).suffixes() == old(self).suffixes(),
    {
        let k = str_chars(key);
        self.root.insert(&k, value);
    }

    /// Whether some rule's key starts with `prefix` followed by `c`.
    fn trie_has_child(&self, prefix: &Vec<char>, c: char) -> (r: bool)
        requires
            self.wf(),
        ensures
            r == is_key_prefix(self.rules(), prefix@.push(c)),
    {
        self.root.has_child(prefix, c)
    }

    /// The longest rule key starting `s` at `start`: its length and output,
    /// or `(1, None)` when none does.
    fn trie_match(&self, s: &Vec<char>, start: usize) -> (r: (usize, Option<&BanglaOutput>))
        requires
            self.wf(),
            start < s@.len(),
        ensures
            1 <= r.0 <= s@.len() - start,
            ({
                let t = s@.skip(start as int);
                let ml = longest_key(self.rules(), t);
                if ml > 0 {
                    &&& r.0 == ml
                    &&& r.1 matches Some(o) && o@ == self.rules()[t.take(ml as int)]
                } else {
                    r.0 == 1 && r.1 is None
                }
            }),
    {
        self.root.longest_match(s, start)
    }

    /// Converts the pending keys into Bangla text. `trigger` is the incoming
    /// key that caused the conversion; the last key's suffix conditions see it.
    fn flush_prefix(&mut self, trigger: Option<char>)
        requires
            old(self).wf(),
        ensures
            final(self).wf(),
            final(self).same_setup(old(self)),
            final(self).state_stack == old(self).state_stack,
            final(self).edit() == flush_edit(old(self).rules(), old(self).edit(), trigger),
    {
        let ghost rules = self.rules();
        let ghost e0 = self.edit();
        if self.prefix.len() == 0 {
            assert(self.word_buffer@ + Seq::<char>::empty() =~= self.word_buffer@);
            assert(self.prefix@ =~= Seq::<char>::empty());
            return ;
        }
        let mut prefix: Vec<char> = Vec::new();
        std::mem::swap(&mut prefix, &mut self.prefix);
        let ghost p = prefix@;
        let ghost whole = flush_from(rules, p, 0, e0.context, e0.last_roman, trigger);
        let mut i: usize = 0;
        while i < prefix.len()
            invariant
                self.wf(),
                self.rules() == rules,
                self.same_setup(old(self)),
                self.state_stack == old(self).state_stack,
                self.prefix@ == Seq::<char>::empty(),
                prefix@ == p,
                i <= p.len(),
                whole == flush_from(rules, p, 0, e0.context, e0.last_roman, trigger),
                ({
                    let rest = flush_from(rules, p, i as int, self.context, self.last_roman, trigger);
                    &&& e0.word + whole.0 == self.word_buffer@ + rest.0
                    &&& whole.1 == rest.1
                    &&& whole.2 == rest.2
                }),
            decreases p.len() - i,
        {
            let ghost rest_before = flush_from(rules, p, i as int, self.context, self.last_roman, trigger);
            let ghost w_before = self.word_buffer@;
            let (len, out) = self.trie_match(&prefix, i);
            let mut bangla: Vec<char> = match out {
                Some(o) => {
                    let next_roman = if i + len < prefix.len() {
                        Some(prefix[i + len])
                    } else {
                        trigger
                    };
                    let s = resolve(Some(o), self.context, next_roman, self.last_roman);
                    str_chars(s.as_str())
                },
                None => {
                    let mut v: Vec<char> = Vec::new();
                    v.push(prefix[i]);
                    v
                },
            };
            let ghost out_seq = bangla@;
            self.context = next_context(&bangla);
            self.last_roman = Some(prefix[i + len - 1]);
            self.word_buffer.append(&mut bangla);
            i += len;
            proof {
                let rest_after = flush_from(rules, p, i as int, self.context, self.last_roman, trigger);
                assert(rest_before.0 == out_seq + rest_after.0);
                assert(self.word_buffer@ == w_before + out_seq);
                assert(w_before + (out_seq + rest_after.0) =~= (w_before + out_seq) + rest_after.0);
            }
        }
        proof {
            assert(self.word_buffer@ + Seq::<char>::empty() =~= self.word_buffer@);
        }
    }

    /// Read-only conversion of `s` for display, threading the context and
    /// last key locally so that no state changes.
    fn simulate_flush(&self, s: &Vec<char>) -> (r: Vec<char>)
        requires
            self.wf(),
        ensures
            r@ == flush_from(self.rules(), s@, 0, self.context, self.last_roman, None).0,
    {
        let ghost rules = self.rules();
        let ghost whole = flush_from(rules, s@, 0, self.context, self.last_roman, None);
        let mut result: Vec<char> = Vec::new();
        let mut ctx = self.context;
        let mut last_roman = self.last_roman;
        let mut i: usize = 0;
        while i < s.len()
            invariant
                self.wf(),
                self.rules() == rules,
                i <= s@.len(),
                whole == flush_from(rules, s@, 0, self.context, self.last_roman, None),
                whole.0 == result@ + flush_from(rules, s@, i as int, ctx, last_roman, None).0,
            decreases s@.len() - i,
        {
            let ghost rest_before = flush_from(rules, s@, i as int, ctx, last_roman, None);
            let ghost r_before = result@;
            let (len, out) = self.trie_match(s, i);
            let mut bangla: Vec<char> = match out {
                Some(o) => {
                    let next_roman = if i + len < s.len() {
                        Some(s[i + len])
                    } else {
                        None
                    };
                    let t = resolve(Some(o), ctx, next_roman, last_roman);
                    str_chars(t.as_str())
                },
                None => {
                    let mut v: Vec<char> = Vec::new();
                    v.push(s[i]);
                    v
                },
            };
            let ghost out_seq = bangla@;
            ctx = next_context(&bangla);
            last_roman = Some(s[i + len - 1]);
            result.append(&mut bangla);
            i += len;
            proof {
                let rest_after = flush_from(rules, s@, i as int, ctx, last_roman, None);
                assert(rest_before.0 == out_seq + rest_after.0);
                assert(r_before + (out_seq + rest_after.0) =~= (r_before + out_seq) + rest_after.0);
            }
        }
        assert(result@ + Seq::<char>::empty() =~= result@);
        result
    }

    /// The text shown while editing, as characters.
    fn preedit_chars(&self) -> (r: Vec<char>)
        requires
            self.wf(),
        ensures
            r@ == self.preedit_view(),
    {
        let mut out = self.word_buffer.clone();
        assert(out@ =~= self.word_buffer@);
        if self.prefix.len() == 0 {
            assert(out@ + Seq::<char>::empty() =~= out@);
            return out;
        }
        let mut tail = self.simulate_flush(&self.prefix);
        out.append(&mut tail);
        out
    }

    /// The text shown while editing.
    pub fn preedit(&self) -> (r: String)
        requires
            self.wf(),
        ensures
            r@ == self.preedit_view(),
    {
        let v = self.preedit_chars();
        chars_to_string(&v)
    }

    /// One keystroke; returns the new preedit.
    pub fn handle_input(&mut self, c: char) -> (r: String)
        requires
            old(self).wf(),
        ensures
            final(self).wf(),
            final(self).rules() == old(self).rules(),
            final(self).dict_view() == old(self).dict_view(),
            final(self).suffixes() == old(self).suffixes(),
            final(self).model() == input_effect(old(self).rules(), old(self).model(), c),
            r@ == final(self).preedit_view(),
    {
        let ghost rules = self.rules();
        let ghost m0 = self.model();
        let saved = EngineState {
            prefix: self.prefix.clone(),
            word_buffer: self.word_buffer.clone(),
            context: self.context,
            last_roman: self.last_roman,
        };
        assert(saved.prefix@ =~= self.prefix@);
        assert(saved.word_buffer@ =~= self.word_buffer@);
        self.state_stack.push(saved);
        assert(self.state_stack@.map_values(|s: EngineState| s@) =~= m0.history.push(m0.edit));
        let ghost e0 = self.edit();
        if c == ',' {
            self.flush_prefix(None);
            if self.context == OutputContext::AfterConsonant {
                self.word_buffer.push('\u{09CD}');
            } else {
                self.word_buffer.push(',');
                self.context = OutputContext::Neutral;
                self.last_roman = Some(',');
            }
        } else if self.trie_has_child(&self.prefix, c) {
            self.prefix.push(c);
        } else {
            self.flush_prefix(Some(c));
            let empty: Vec<char> = Vec::new();
            assert(empty@.push(c) =~= seq![c]);
            if self.trie_has_child(&empty, c) {
                self.prefix.push(c);
                assert(self.prefix@ =~= seq![c]);
            } else {
                self.word_buffer.push(c);
                self.context = OutputContext::Neutral;
                self.last_roman = Some(c);
            }
        }
        assert(self.edit() == input_step(rules, e0, c));
        self.preedit()
    }

    /// Restores the state before the last keystroke; returns the new preedit.
    pub fn handle_backspace(&mut self) -> (r: String)
        requires
            old(self).wf(),
        ensures
            final(self).wf(),
            final(self).rules() == old(self).rules(),
            final(self).dict_view() == old(self).dict_view(),
            final(self).suffixes() == old(self).suffixes(),
            final(self).model() == backspace_effect(old(self).model()),
            r@ == final(self).preedit_view(),
    {
        let ghost m0 = self.model();
        match self.state_stack.pop() {
            Some(state) => {
                self.prefix = state.prefix;
                self.word_buffer = state.word_buffer;
                self.context = state.context;
                self.last_roman = state.last_roman;
                assert(self.state_stack@.map_values(|s: EngineState| s@) =~= m0.history.drop_last());
            },
            None => {},
        }
        self.preedit()
    }

    /// Finishes the word: returns its Bangla text and clears the editing state.
    pub fn commit(&mut self) -> (r: String)
        requires
            old(self).wf(),
        ensures
            final(self).wf(),
            final(self).rules() == old(self).rules(),
            final(self).dict_view() == old(self).dict_view(),
            final(self).suffixes() == old(self).suffixes(),
            r@ == old(self).preedit_view(),
            final(self).model() == commit_effect(),
    {
        self.flush_prefix(None);
        let mut result: Vec<char> = Vec::new();
        std::mem::swap(&mut result, &mut self.word_buffer);
        self.state_stack.clear();
        self.context = OutputContext::Neutral;
        self.last_roman = None;
        assert(self.state_stack@.map_values(|s: EngineState| s@) =~= Seq::<EditSpec>::empty());
        chars_to_string(&result)
    }
}

impl Default for AvroEngine {
    fn default() -> (e: Self)
        ensures
            e.wf(),
            e.rules() == builtin_rules(),
            e.model() == commit_effect(),
            e.dict_view() is None,
            e.suffixes() == Seq::<Seq<char>>::empty(),
    {
        Self::new()
    }
}

} // verus!
