use vstd::prelude::*;
use vstd::string::StrSliceExecFns;

use crate::text::{str_chars, str_eq};

verus! {

/// A JSON error from serde_json.
#[verifier::external_type_specification]
#[verifier::external_body]
pub struct ExJsonError(serde_json::Error);

/// The map that `serde_json::from_str` reads from a JSON object of word
/// lists, or `None` when the text is not such an object.
pub uninterp spec fn json_word_lists(text: Seq<char>) -> Option<Map<Seq<char>, Seq<Seq<char>>>>;

/// The map that `serde_json::from_str` reads from a JSON object of strings,
/// or `None` when the text is not such an object.
pub uninterp spec fn json_string_map(text: Seq<char>) -> Option<Map<Seq<char>, Seq<char>>>;

/// No key occurs twice.
pub open spec fn keys_distinct<V>(s: Seq<(Seq<char>, V)>) -> bool {
    forall|i: int, j: int| 0 <= i < j < s.len() ==> s[i].0 != s[j].0
}

/// The map with the pairs of `s`; a later pair wins over an earlier one.
pub open spec fn pairs_to_map<V>(s: Seq<(Seq<char>, V)>) -> Map<Seq<char>, V>
    decreases s.len(),
{
    if s.len() == 0 {
        Map::empty()
    } else {
        pairs_to_map(s.drop_last()).insert(s.last().0, s.last().1)
    }
}

/// The value of the first pair with key `k`.
pub open spec fn lookup<V>(s: Seq<(Seq<char>, V)>, k: Seq<char>) -> Option<V>
    decreases s.len(),
{
    if s.len() == 0 {
        None
    } else if s[0].0 == k {
        Some(s[0].1)
    } else {
        lookup(s.drop_first(), k)
    }
}

/// With distinct keys, looking a key up in the pairs agrees with their map.
pub proof fn lemma_lookup_map<V>(s: Seq<(Seq<char>, V)>, k: Seq<char>)
    requires
        keys_distinct(s),
    ensures
        match lookup(s, k) {
            Some(v) => pairs_to_map(s).contains_key(k) && pairs_to_map(s)[k] == v,
            None => !pairs_to_map(s).contains_key(k),
        },
    decreases s.len(),
{
    if s.len() > 0 {
        let t = s.drop_first();
        assert(keys_distinct(t));
        lemma_lookup_map(t, k);
        lemma_map_drop_first(s);
        if s[0].0 == k {
            lemma_lookup_absent(t, k);
            lemma_lookup_map(t, k);
        }
    }
}

/// With distinct keys, the key of the pair at `i` finds that pair.
pub proof fn lemma_lookup_at<V>(s: Seq<(Seq<char>, V)>, i: int)
    requires
        keys_distinct(s),
        0 <= i < s.len(),
    ensures
        lookup(s, s[i].0) == Some(s[i].1),
    decreases s.len(),
{
    if i > 0 {
        assert(s[0].0 != s[i].0);
        let t = s.drop_first();
        assert(keys_distinct(t));
        lemma_lookup_at(t, i - 1);
        assert(t[i - 1] == s[i]);
    }
}

/// A key that is not among the pairs is not found.
proof fn lemma_lookup_absent<V>(s: Seq<(Seq<char>, V)>, k: Seq<char>)
    requires
        forall|i: int| 0 <= i < s.len() ==> s[i].0 != k,
    ensures
        lookup(s, k) is None,
    decreases s.len(),
{
    if s.len() > 0 {
        lemma_lookup_absent(s.drop_first(), k);
    }
}

/// The map of pairs with distinct keys is the map of the rest plus the first pair.
proof fn lemma_map_drop_first<V>(s: Seq<(Seq<char>, V)>)
    requires
        s.len() > 0,
        keys_distinct(s),
    ensures
        pairs_to_map(s) == pairs_to_map(s.drop_first()).insert(s[0].0, s[0].1),
    decreases s.len(),
{
    if s.len() == 1 {
        assert(s.drop_first() =~= Seq::<(Seq<char>, V)>::empty());
        assert(s.drop_last() =~= Seq::<(Seq<char>, V)>::empty());
    } else {
        let t = s.drop_last();
        assert(keys_distinct(t));
        lemma_map_drop_first(t);
        assert(t.drop_first() =~= s.drop_first().drop_last());
        assert(s.drop_first().last() == s.last());
        assert(s[0].0 != s.last().0);
        assert(pairs_to_map(s) =~= pairs_to_map(s.drop_first()).insert(s[0].0, s[0].1));
    }
}

/// The position of the first `c` in `s`.
pub open spec fn first_index(s: Seq<char>, c: char) -> Option<int>
    decreases s.len(),
{
    if s.len() == 0 {
        None
    } else if s[0] == c {
        Some(0)
    } else {
        match first_index(s.drop_first(), c) {
            Some(i) => Some(i + 1),
            None => None,
        }
    }
}

/// The position of the last `c` in `s`.
pub open spec fn last_index(s: Seq<char>, c: char) -> Option<int>
    decreases s.len(),
{
    if s.len() == 0 {
        None
    } else if s.last() == c {
        Some(s.len() - 1)
    } else {
        last_index(s.drop_last(), c)
    }
}

/// The text from the first `{` to the last `}`, both included.
pub open spec fn extract_json_spec(s: Seq<char>) -> Option<Seq<char>> {
    match (first_index(s, '{'), last_index(s, '}')) {
        (Some(a), Some(b)) => Some(s.subrange(a, b + 1)),
        _ => None,
    }
}

/// The last `}` does not stand more than one place before the first `{`
/// (otherwise the slice between them does not exist).
pub open spec fn json_braces_ordered(s: Seq<char>) -> bool {
    match (first_index(s, '{'), last_index(s, '}')) {
        (Some(a), Some(b)) => a <= b + 1,
        _ => true,
    }
}

proof fn lemma_first_index_bound(s: Seq<char>, c: char)
    ensures
        first_index(s, c) matches Some(i) ==> 0 <= i < s.len() && s[i] == c,
    decreases s.len(),
{
    if s.len() > 0 {
        lemma_first_index_bound(s.drop_first(), c);
    }
}

proof fn lemma_last_index_bound(s: Seq<char>, c: char)
    ensures
        last_index(s, c) matches Some(i) ==> 0 <= i < s.len() && s[i] == c,
    decreases s.len(),
{
    if s.len() > 0 {
        lemma_last_index_bound(s.drop_last(), c);
    }
}

/// The position of the first `c` in `s`.
fn find_first(s: &Vec<char>, c: char) -> (r: Option<usize>)
    ensures
        r matches Some(i) ==> first_index(s@, c) == Some(i as int),
        r is None ==> first_index(s@, c) is None,
{
    let mut i: usize = 0;
    assert(s@.skip(0) =~= s@);
    while i < s.len()
        invariant
            i <= s@.len(),
            first_index(s@, c) == (match first_index(s@.skip(i as int), c) {
                Some(x) => Some(x + i),
                None => None,
            }),
        decreases s@.len() - i,
    {
        if s[i] == c {
            return Some(i);
        }
        assert(s@.skip(i as int).drop_first() =~= s@.skip(i + 1));
        i += 1;
    }
    None
}

/// The position of the last `c` in `s`.
fn find_last(s: &Vec<char>, c: char) -> (r: Option<usize>)
    ensures
        r matches Some(i) ==> last_index(s@, c) == Some(i as int),
        r is None ==> last_index(s@, c) is None,
{
    let mut i: usize = s.len();
    assert(s@.take(s@.len() as int) =~= s@);
    while i > 0
        invariant
            i <= s@.len(),
            last_index(s@, c) == last_index(s@.take(i as int), c),
        decreases i,
    {
        if s[i - 1] == c {
            return Some(i - 1);
        }
        assert(s@.take(i as int).drop_last() =~= s@.take(i - 1));
        i -= 1;
    }
    None
}

/// The JSON object inside a JavaScript source: from the first `{` to the last `}`.
pub fn extract_json(src: &str) -> (r: Option<&str>)
    requires
        json_braces_ordered(src@),
    ensures
        match r {
            Some(j) => extract_json_spec(src@) == Some(j@),
            None => extract_json_spec(src@) is None,
        },
{
    let chars = str_chars(src);
    let start = match find_first(&chars, '{') {
        Some(i) => i,
        None => return None,
    };
    let end = match find_last(&chars, '}') {
        Some(i) => i,
        None => return None,
    };
    proof {
        lemma_last_index_bound(src@, '}');
    }
    Some(src.substring_char(start, end + 1))
}

/// Reads a JSON object of word lists.
/// Calls `serde_json::from_str` into a `HashMap<String, Vec<String>>`; the
/// contract claims that the pairs handed back are those of the map named by
/// `json_word_lists`, each key once. The order of the pairs (the map's
/// iteration order) is left unsaid.
#[verifier::external_body]
fn parse_word_lists(json: &str) -> (r: Result<Vec<(String, Vec<String>)>, serde_json::Error>)
    ensures
        match r {
            Ok(v) => {
                let pairs = v@.map_values(
                    |e: (String, Vec<String>)| (e.0@, e.1@.map_values(|w: String| w@)),
                );
                &&& keys_distinct(pairs)
                &&& json_word_lists(json@) == Some(pairs_to_map(pairs))
            },
            Err(_) => json_word_lists(json@) is None,
        },
{
    match serde_json::from_str::<std::collections::HashMap<String, Vec<String>>>(json) {
        Ok(map) => Ok(map.into_iter().collect()),
        Err(e) => Err(e),
    }
}

/// Reads a JSON object of strings.
/// Calls `serde_json::from_str` into a `HashMap<String, String>`; the
/// contract claims that the pairs handed back are those of the map named by
/// `json_string_map`, each key once. The order of the pairs is left unsaid.
#[verifier::external_body]
fn parse_string_map(json: &str) -> (r: Result<Vec<(String, String)>, serde_json::Error>)
    ensures
        match r {
            Ok(v) => {
                let pairs = v@.map_values(|e: (String, String)| (e.0@, e.1@));
                &&& keys_distinct(pairs)
                &&& json_string_map(json@) == Some(pairs_to_map(pairs))
            },
            Err(_) => json_string_map(json@) is None,
        },
{
    match serde_json::from_str::<std::collections::HashMap<String, String>>(json) {
        Ok(map) => Ok(map.into_iter().collect()),
        Err(e) => Err(e),
    }
}

/// Why a dictionary source could not be read.
#[derive(Debug)]
pub enum DictError {
    MissingJson,
    Json(serde_json::Error),
}

impl From<serde_json::Error> for DictError {
    fn from(e: serde_json::Error) -> (r: Self) {
        DictError::Json(e)
    }
}

impl vstd::std_specs::convert::FromSpecImpl<serde_json::Error> for DictError {
    open spec fn obeys_from_spec() -> bool {
        true
    }

    open spec fn from_spec(e: serde_json::Error) -> Self {
        DictError::Json(e)
    }
}

/// The words listed under `key`, or none.
pub open spec fn words_of(entries: Seq<(Seq<char>, Seq<Seq<char>>)>, key: Seq<char>) -> Seq<
    Seq<char>,
> {
    match lookup(entries, key) {
        Some(w) => w,
        None => Seq::empty(),
    }
}

/// The number of words over all lists.
pub open spec fn total_words_spec(entries: Seq<(Seq<char>, Seq<Seq<char>>)>) -> nat
    decreases entries.len(),
{
    if entries.len() == 0 {
        0
    } else {
        total_words_spec(entries.drop_last()) + entries.last().1.len()
    }
}

/// Word lists keyed by phonetic prefix (e.g. `"w_k"` → `["কলম", ...]`).
pub struct WordDict {
    entries: Vec<(String, Vec<String>)>,
}

impl View for WordDict {
    type V = Seq<(Seq<char>, Seq<Seq<char>>)>;

    closed spec fn view(&self) -> Seq<(Seq<char>, Seq<Seq<char>>)> {
        self.entries@.map_values(
            |e: (String, Vec<String>)| (e.0@, e.1@.map_values(|w: String| w@)),
        )
    }
}

impl WordDict {
    /// Each key occurs once.
    pub open spec fn wf(&self) -> bool {
        keys_distinct(self@)
    }

    /// Reads the word lists from a JavaScript source holding one JSON object.
    pub fn from_js(src: &str) -> (r: Result<Self, DictError>)
        requires
            json_braces_ordered(src@),
        ensures
            match r {
                Ok(d) => {
                    &&& d.wf()
                    &&& extract_json_spec(src@) matches Some(j)
                    &&& json_word_lists(j) == Some(pairs_to_map(d@))
                },
                Err(DictError::MissingJson) => extract_json_spec(src@) is None,
                Err(DictError::Json(_)) => {
                    &&& extract_json_spec(src@) matches Some(j)
                    &&& json_word_lists(j) is None
                },
            },
    {
        let json = match extract_json(src) {
            Some(j) => j,
            None => return Err(DictError::MissingJson),
        };
        match parse_word_lists(json) {
            Ok(entries) => Ok(WordDict { entries }),
            Err(e) => Err(DictError::Json(e)),
        }
    }

    /// Returns the word list for the given phonetic prefix key (e.g. `"w_kh"`).
    pub fn words_for(&self, key: &str) -> (r: &[String])
        ensures
            r@.map_values(|w: String| w@) == words_of(self@, key@),
    {
        let mut i: usize = 0;
        assert(self@.skip(0) =~= self@);
        while i < self.entries.len()
            invariant
                i <= self.entries@.len(),
                lookup(self@, key@) == lookup(self@.skip(i as int), key@),
            decreases self.entries@.len() - i,
        {
            let e = &self.entries[i];
            assert(self@.skip(i as int).drop_first() =~= self@.skip(i + 1));
            if str_eq(e.0.as_str(), key) {
                return e.1.as_slice();
            }
            i += 1;
        }
        &[]
    }

    /// The keys, in the dictionary's order.
    pub fn keys(&self) -> (r: Vec<String>)
        ensures
            r@.map_values(|k: String| k@) == self@.map_values(
                |e: (Seq<char>, Seq<Seq<char>>)| e.0,
            ),
    {
        let mut r: Vec<String> = Vec::new();
        let mut i: usize = 0;
        while i < self.entries.len()
            invariant
                i <= self.entries@.len(),
                r@.len() == i,
                forall|j: int| 0 <= j < i ==> (#[trigger] r@[j])@ == self.entries@[j].0@,
            decreases self.entries@.len() - i,
        {
            r.push(self.entries[i].0.clone());
            i += 1;
        }
        assert(r@.map_values(|k: String| k@) =~= self@.map_values(
            |e: (Seq<char>, Seq<Seq<char>>)| e.0,
        ));
        r
    }

    /// The number of words over all lists.
    pub fn total_words(&self) -> (r: usize)
        requires
            total_words_spec(self@) <= usize::MAX,
        ensures
            r == total_words_spec(self@),
    {
        let mut total: usize = 0;
        let mut i: usize = 0;
        assert(self@.take(0) =~= Seq::<(Seq<char>, Seq<Seq<char>>)>::empty());
        while i < self.entries.len()
            invariant
                i <= self.entries@.len(),
                total == total_words_spec(self@.take(i as int)),
                total_words_spec(self@) <= usize::MAX,
            decreases self.entries@.len() - i,
        {
            assert(self@.take(i + 1).drop_last() =~= self@.take(i as int));
            proof {
                lemma_total_words_prefix(self@, i + 1);
            }
            total = total + self.entries[i].1.len();
            i += 1;
        }
        assert(self@.take(i as int) =~= self@);
        total
    }
}

/// The words of a prefix of the lists are no more than all the words.
proof fn lemma_total_words_prefix(entries: Seq<(Seq<char>, Seq<Seq<char>>)>, n: int)
    requires
        0 <= n <= entries.len(),
    ensures
        total_words_spec(entries.take(n)) <= total_words_spec(entries),
    decreases entries.len(),
{
    if n < entries.len() {
        assert(entries.drop_last().take(n) =~= entries.take(n));
        lemma_total_words_prefix(entries.drop_last(), n);
    } else {
        assert(entries.take(n) =~= entries);
    }
}

/// Phonetic suffix → Bangla string (e.g. `"er"` → `"ের"`).
pub struct SuffixDict {
    entries: Vec<(String, String)>,
}

impl View for SuffixDict {
    type V = Seq<(Seq<char>, Seq<char>)>;

    closed spec fn view(&self) -> Seq<(Seq<char>, Seq<char>)> {
        self.entries@.map_values(|e: (String, String)| (e.0@, e.1@))
    }
}

impl SuffixDict {
    /// Each phonetic suffix occurs once.
    pub open spec fn wf(&self) -> bool {
        keys_distinct(self@)
    }

    /// Reads the suffixes from a JavaScript source holding one JSON object.
    pub fn from_js(src: &str) -> (r: Result<Self, DictError>)
        requires
            json_braces_ordered(src@),
        ensures
            match r {
                Ok(d) => {
                    &&& d.wf()
                    &&& extract_json_spec(src@) matches Some(j)
                    &&& json_string_map(j) == Some(pairs_to_map(d@))
                },
                Err(DictError::MissingJson) => extract_json_spec(src@) is None,
                Err(DictError::Json(_)) => {
                    &&& extract_json_spec(src@) matches Some(j)
                    &&& json_string_map(j) is None
                },
            },
    {
        let json = match extract_json(src) {
            Some(j) => j,
            None => return Err(DictError::MissingJson),
        };
        match parse_string_map(json) {
            Ok(entries) => Ok(SuffixDict { entries }),
            Err(e) => Err(DictError::Json(e)),
        }
    }

    /// The Bangla text for a phonetic suffix.
    pub fn bangla_for(&self, suffix: &str) -> (r: Option<&str>)
        ensures
            match r {
                Some(s) => lookup(self@, suffix@) == Some(s@),
                None => lookup(self@, suffix@) is None,
            },
    {
        let mut i: usize = 0;
        assert(self@.skip(0) =~= self@);
        while i < self.entries.len()
            invariant
                i <= self.entries@.len(),
                lookup(self@, suffix@) == lookup(self@.skip(i as int), suffix@),
            decreases self.entries@.len() - i,
        {
            let e = &self.entries[i];
            assert(self@.skip(i as int).drop_first() =~= self@.skip(i + 1));
            if str_eq(e.0.as_str(), suffix) {
                return Some(e.1.as_str());
            }
            i += 1;
        }
        None
    }

    /// All Bangla suffix strings (values), without their phonetic keys, in the dictionary's order.
    pub fn bangla_values(&self) -> (r: Vec<String>)
        ensures
            r@.map_values(|v: String| v@) == self@.map_values(|e: (Seq<char>, Seq<char>)| e.1),
    {
        let mut r: Vec<String> = Vec::new();
        let mut i: usize = 0;
        while i < self.entries.len()
            invariant
                i <= self.entries@.len(),
                r@.len() == i,
                forall|j: int| 0 <= j < i ==> (#[trigger] r@[j])@ == self.entries@[j].1@,
            decreases self.entries@.len() - i,
        {
            r.push(self.entries[i].1.clone());
            i += 1;
        }
        assert(r@.map_values(|v: String| v@) =~= self@.map_values(
            |e: (Seq<char>, Seq<char>)| e.1,
        ));
        r
    }

    pub fn len(&self) -> (r: usize)
        ensures
            r == self@.len(),
    {
        self.entries.len()
    }

    pub fn is_empty(&self) -> (r: bool)
        ensures
            r == (self@.len() == 0),
    {
        self.entries.len() == 0
    }
}

} // verus!
