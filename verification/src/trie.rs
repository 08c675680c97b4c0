use std::collections::HashMap;
use vstd::prelude::*;

use crate::types::{BanglaOutput, OutputSpec};

verus! {

broadcast use vstd::std_specs::hash::group_hash_axioms;

/// The key under which a node's children map stores the edge labelled `c`.
pub open spec fn code(c: char) -> u32 {
    c as u32
}

/// Distinct characters have distinct codes.
pub proof fn lemma_code_injective(c: char, d: char)
    requires
        code(c) == code(d),
    ensures
        c == d,
{
}

/// Whether `p` is a prefix of some key of `rules`.
pub open spec fn is_key_prefix(rules: Map<Seq<char>, OutputSpec>, p: Seq<char>) -> bool {
    exists|k: Seq<char>| #[trigger] rules.contains_key(k) && p.is_prefix_of(k)
}

/// The length of the longest key of `rules` that is a non-empty prefix of
/// `s.take(d)`, or 0 when there is none.
pub open spec fn longest_key_upto(rules: Map<Seq<char>, OutputSpec>, s: Seq<char>, d: nat) -> nat
    decreases d,
{
    if d == 0 {
        0
    } else if rules.contains_key(s.take(d as int)) {
        d
    } else {
        longest_key_upto(rules, s, (d - 1) as nat)
    }
}

/// The length of the longest key of `rules` that is a non-empty prefix of `s`, or 0.
pub open spec fn longest_key(rules: Map<Seq<char>, OutputSpec>, s: Seq<char>) -> nat {
    longest_key_upto(rules, s, s.len())
}

pub proof fn lemma_longest_key_upto_bound(rules: Map<Seq<char>, OutputSpec>, s: Seq<char>, d: nat)
    ensures
        longest_key_upto(rules, s, d) <= d,
        longest_key_upto(rules, s, d) > 0 ==> rules.contains_key(
            s.take(longest_key_upto(rules, s, d) as int),
        ),
    decreases d,
{
    if d > 0 {
        lemma_longest_key_upto_bound(rules, s, (d - 1) as nat);
    }
}

/// Extending the search past `d` changes nothing when no longer prefix is a key.
proof fn lemma_longest_key_upto_stable(
    rules: Map<Seq<char>, OutputSpec>,
    s: Seq<char>,
    d: nat,
    e: nat,
)
    requires
        d <= e,
        forall|x: nat| d < x <= e ==> !rules.contains_key(#[trigger] s.take(x as int)),
    ensures
        longest_key_upto(rules, s, e) == longest_key_upto(rules, s, d),
    decreases e,
{
    if e > d {
        assert(!rules.contains_key(s.take(e as int)));
        lemma_longest_key_upto_stable(rules, s, d, (e - 1) as nat);
    }
}

/// A node of the rule trie: the output of the key that ends here, if any,
/// and the edges to the children: the code of the roman character that
/// labels an edge maps to the index of the child.
pub struct TrieNode {
    pub output: Option<BanglaOutput>,
    pub children: HashMap<u32, usize>,
}

impl TrieNode {
    pub fn new() -> (node: Self)
        ensures
            node.output is None,
            node.children@ == Map::<u32, usize>::empty(),
    {
        TrieNode { output: None, children: HashMap::new() }
    }
}

/// The phonetic rules, as a trie over roman characters.
/// Node 0 is the root; `paths[a]` is the key that leads to node `a`.
pub struct RuleTrie {
    nodes: Vec<TrieNode>,
    paths: Ghost<Seq<Seq<char>>>,
    rules: Ghost<Map<Seq<char>, OutputSpec>>,
}

impl View for RuleTrie {
    type V = Map<Seq<char>, OutputSpec>;

    closed spec fn view(&self) -> Map<Seq<char>, OutputSpec> {
        self.rules@
    }
}

impl RuleTrie {
    spec fn has_path(&self, p: Seq<char>) -> bool {
        exists|b: int| 0 <= b < self.nodes@.len() && #[trigger] self.paths@[b] == p
    }

    /// Some edge leads to node `b`.
    spec fn has_parent(&self, b: int) -> bool {
        exists|a: int, c: char|
            0 <= a < self.nodes@.len() && #[trigger] self.nodes@[a].children@.contains_key(code(c))
                && self.nodes@[a].children@[code(c)] == b
    }

    /// The shape of the trie: every edge extends its parent's path by its label,
    /// paths are distinct, every non-root node hangs under an edge and every
    /// prefix of a path is a path.
    spec fn shape_ok(&self) -> bool {
        let n = self.nodes@.len();
        &&& n >= 1
        &&& self.paths@.len() == n
        &&& self.paths@[0] == Seq::<char>::empty()
        &&& forall|a: int, c: char|
            0 <= a < n && #[trigger] self.nodes@[a].children@.contains_key(code(c)) ==> {
                let m = self.nodes@[a].children@[code(c)];
                &&& 0 < m < n
                &&& self.paths@[m as int] == self.paths@[a].push(c)
            }
        &&& forall|a: int, b: int|
            0 <= a < n && 0 <= b < n && a != b ==> #[trigger] self.paths@[a]
                != #[trigger] self.paths@[b]
        &&& forall|b: int| 0 < b < n ==> #[trigger] self.has_parent(b)
        &&& forall|b: int, i: int|
            0 <= b < n && 0 <= i <= self.paths@[b].len() ==> self.has_path(
                #[trigger] self.paths@[b].take(i),
            )
    }

    /// The nodes' outputs are exactly the rules, every key has a node and
    /// every non-root node lies on the way to some key of `dom`.
    spec fn content_ok(&self, dom: Map<Seq<char>, OutputSpec>, extra: Seq<char>) -> bool {
        let n = self.nodes@.len();
        &&& forall|a: int|
            0 <= a < n ==> {
                &&& (#[trigger] self.nodes@[a].output is Some <==> self.rules@.contains_key(
                    self.paths@[a],
                ))
                &&& (self.nodes@[a].output matches Some(o) ==> o@ == self.rules@[self.paths@[a]])
            }
        &&& forall|k: Seq<char>| #[trigger] self.rules@.contains_key(k) ==> self.has_path(k)
        &&& forall|b: int|
            0 < b < n ==> is_key_prefix(dom, #[trigger] self.paths@[b]) || self.paths@[b].is_prefix_of(
                extra,
            )
    }

    pub closed spec fn wf(&self) -> bool {
        &&& self.shape_ok()
        &&& self.content_ok(self.rules@, Seq::<char>::empty())
    }

    /// An empty trie.
    pub fn new() -> (t: Self)
        ensures
            t.wf(),
            t@ == Map::<Seq<char>, OutputSpec>::empty(),
    {
        let mut nodes: Vec<TrieNode> = Vec::new();
        nodes.push(TrieNode::new());
        let ghost root_paths = seq![Seq::<char>::empty()];
        let t = RuleTrie { nodes, paths: Ghost(root_paths), rules: Ghost(Map::empty()) };
        assert forall|b: int, i: int|
            0 <= b < t.nodes@.len() && 0 <= i <= t.paths@[b].len() implies t.has_path(
            #[trigger] t.paths@[b].take(i),
        ) by {
            assert(t.paths@[0].take(i) =~= t.paths@[0]);
        }
        t
    }

    proof fn lemma_path_is_key_prefix(&self, p: Seq<char>)
        requires
            self.wf(),
            p.len() > 0,
        ensures
            self.has_path(p) <==> is_key_prefix(self@, p),
    {
        if self.has_path(p) {
            let b = choose|b: int| 0 <= b < self.nodes@.len() && #[trigger] self.paths@[b] == p;
            assert(b != 0);
            assert(is_key_prefix(self.rules@, self.paths@[b]) || self.paths@[b].is_prefix_of(
                Seq::<char>::empty(),
            ));
        }
        if is_key_prefix(self@, p) {
            let k = choose|k: Seq<char>| #[trigger] self.rules@.contains_key(k) && p.is_prefix_of(k);
            assert(self.has_path(k));
            let b = choose|b: int| 0 <= b < self.nodes@.len() && #[trigger] self.paths@[b] == k;
            assert(self.has_path(self.paths@[b].take(p.len() as int)));
            assert(self.paths@[b].take(p.len() as int) =~= p);
        }
    }

    /// When node `a` has no edge labelled `c`, no node extends its path by `c`.
    proof fn lemma_no_edge(&self, a: int, c: char)
        requires
            self.shape_ok(),
            0 <= a < self.nodes@.len(),
            !self.nodes@[a].children@.contains_key(code(c)),
        ensures
            !self.has_path(self.paths@[a].push(c)),
    {
        if self.has_path(self.paths@[a].push(c)) {
            let b = choose|b: int|
                0 <= b < self.nodes@.len() && #[trigger] self.paths@[b] == self.paths@[a].push(c);
            assert(b != 0) by {
                assert(self.paths@[b].len() > 0);
            }
            assert(self.has_parent(b));
            let (pa, d) = choose|pa: int, d: char|
                0 <= pa < self.nodes@.len() && #[trigger] self.nodes@[pa].children@.contains_key(
                    code(d),
                ) && self.nodes@[pa].children@[code(d)] == b;
            assert(self.paths@[b] == self.paths@[pa].push(d));
            assert(self.paths@[pa] =~= self.paths@[b].drop_last());
            assert(self.paths@[a] =~= self.paths@[b].drop_last());
            assert(pa == a);
            assert(d == self.paths@[b].last());
        }
    }

    /// Whether some key starts with `prefix` followed by `c`.
    pub fn has_child(&self, prefix: &Vec<char>, c: char) -> (r: bool)
        requires
            self.wf(),
        ensures
            r == is_key_prefix(self@, prefix@.push(c)),
    {
        let mut node: usize = 0;
        let mut i: usize = 0;
        while i < prefix.len()
            invariant
                self.wf(),
                i <= prefix@.len(),
                node < self.nodes@.len(),
                self.paths@[node as int] == prefix@.take(i as int),
            decreases prefix@.len() - i,
        {
            match self.find_child(node, prefix[i]) {
                Some(m) => {
                    assert(prefix@.take(i as int).push(prefix@[i as int]) =~= prefix@.take(i + 1));
                    node = m;
                },
                None => {
                    proof {
                        let p = prefix@.push(c);
                        assert(prefix@.take(i as int).push(prefix@[i as int]) =~= p.take(i + 1));
                        if self.has_path(p) {
                            let b = choose|b: int|
                                0 <= b < self.nodes@.len() && #[trigger] self.paths@[b] == p;
                            assert(self.has_path(self.paths@[b].take(i + 1)));
                        }
                        self.lemma_path_is_key_prefix(p);
                    }
                    return false;
                },
            }
            i += 1;
        }
        assert(prefix@.take(prefix@.len() as int) =~= prefix@);
        let r = self.find_child(node, c);
        proof {
            self.lemma_path_is_key_prefix(prefix@.push(c));
        }
        r.is_some()
    }

    /// The longest key that starts `s` at position `start`, as its length and
    /// its output; `(1, None)` when no key does.
    pub fn longest_match(&self, s: &Vec<char>, start: usize) -> (r: (usize, Option<&BanglaOutput>))
        requires
            self.wf(),
            start < s@.len(),
        ensures
            1 <= r.0 <= s@.len() - start,
            ({
                let t = s@.skip(start as int);
                let ml = longest_key(self@, t);
                if ml > 0 {
                    &&& r.0 == ml
                    &&& r.1 matches Some(o) && o@ == self@[t.take(ml as int)]
                } else {
                    r.0 == 1 && r.1 is None
                }
            }),
    {
        let ghost t = s@.skip(start as int);
        proof {
            lemma_longest_key_upto_bound(self@, t, t.len());
        }
        let mut node: usize = 0;
        let mut d: usize = 0;
        let mut best_len: usize = 0;
        let mut best: Option<&BanglaOutput> = None;
        assert(t.take(0) =~= Seq::<char>::empty());
        while d < s.len() - start
            invariant
                self.wf(),
                t == s@.skip(start as int),
                start < s@.len(),
                start + d <= s@.len(),
                node < self.nodes@.len(),
                self.paths@[node as int] == t.take(d as int),
                best_len == longest_key_upto(self@, t, d as nat),
                best_len <= d,
                best_len > 0 ==> (best matches Some(o) && o@ == self@[t.take(best_len as int)]),
                best_len == 0 ==> best is None,
            decreases s@.len() - (start + d),
        {
            match self.find_child(node, s[start + d]) {
                Some(m) => {
                    assert(t.take(d as int).push(s@[start + d]) =~= t.take(d + 1));
                    node = m;
                    d += 1;
                    let out = &self.nodes[m].output;
                    match out {
                        Some(o) => {
                            best = Some(o);
                            best_len = d;
                        },
                        None => {},
                    }
                },
                None => {
                    proof {
                        assert(t.take(d as int).push(s@[start + d]) =~= t.take(d + 1));
                        let p = t.take(d + 1);
                        self.lemma_path_is_key_prefix(p);
                        assert forall|x: nat| d < x <= t.len() implies !self@.contains_key(
                            #[trigger] t.take(x as int),
                        ) by {
                            if self@.contains_key(t.take(x as int)) {
                                assert(p.is_prefix_of(t.take(x as int)));
                            }
                        }
                        lemma_longest_key_upto_stable(self@, t, d as nat, t.len());
                    }
                    return (if best_len > 0 { best_len } else { 1 }, best);
                },
            }
        }
        (if best_len > 0 { best_len } else { 1 }, best)
    }

    /// Adds (or replaces) the rule for `key`.
    pub fn insert(&mut self, key: &Vec<char>, value: BanglaOutput)
        requires
            old(self).wf(),
        ensures
            final(self).wf(),
            final(self)@ == old(self)@.insert(key@, value@),
    {
        let ghost old_rules = self.rules@;
        let mut node: usize = 0;
        let mut i: usize = 0;
        assert(key@.take(0) =~= Seq::<char>::empty());
        while i < key.len()
            invariant
                self.shape_ok(),
                self.rules@ == old_rules,
                self.content_ok(old_rules, key@),
                i <= key@.len(),
                node < self.nodes@.len(),
                self.paths@[node as int] == key@.take(i as int),
            decreases key@.len() - i,
        {
            let c = key[i];
            let ghost p = key@.take(i + 1);
            assert(key@.take(i as int).push(c) =~= p);
            match self.find_child(node, c) {
                Some(m) => {
                    node = m;
                },
                None => {
                    let ghost old_trie = *self;
                    let m = self.nodes.len();
                    self.nodes.push(TrieNode::new());
                    let ghost pushed = self.nodes@;
                    let code_c: u32 = c as u32;
                    self.nodes[node].children.insert(code_c, m);
                    self.paths = Ghost(self.paths@.push(p));
                    proof {
                        self.lemma_grow(old_trie, pushed, node as int, c, m, old_rules, key@);
                    }
                    node = m;
                },
            }
            i += 1;
        }
        assert(key@.take(key@.len() as int) =~= key@);
        let ghost before = *self;
        self.nodes[node].output = Some(value);
        self.rules = Ghost(self.rules@.insert(key@, value@));
        proof {
            self.lemma_set_output(before, node as int, old_rules, key@);
        }
    }

    /// Growing the trie by one fresh child of `a` keeps it well shaped.
    proof fn lemma_grow(
        &self,
        old_trie: RuleTrie,
        pushed: Seq<TrieNode>,
        a: int,
        c: char,
        new_index: usize,
        dom: Map<Seq<char>, OutputSpec>,
        extra: Seq<char>,
    )
        requires
            new_index == old_trie.nodes@.len(),
            old_trie.shape_ok(),
            old_trie.content_ok(dom, extra),
            0 <= a < old_trie.nodes@.len(),
            !old_trie.nodes@[a].children@.contains_key(code(c)),
            !old_trie.has_path(old_trie.paths@[a].push(c)),
            old_trie.paths@[a].push(c).is_prefix_of(extra),
            pushed == old_trie.nodes@.push(TrieNode { output: None, children: pushed.last().children }),
            pushed.last().children@ == Map::<u32, usize>::empty(),
            self.nodes@.len() == pushed.len(),
            self.nodes@[a].output == old_trie.nodes@[a].output,
            self.nodes@[a].children@ == old_trie.nodes@[a].children@.insert(code(c), new_index),
            forall|b: int| 0 <= b < pushed.len() && b != a ==> #[trigger] self.nodes@[b] == pushed[b],
            self.paths@ == old_trie.paths@.push(old_trie.paths@[a].push(c)),
            self.rules@ == old_trie.rules@,
        ensures
            self.shape_ok(),
            self.content_ok(dom, extra),
    {
        let n = old_trie.nodes@.len() as int;
        let m = n;
        let p = old_trie.paths@[a].push(c);
        assert forall|x: int, d: char|
            0 <= x < n + 1 && #[trigger] self.nodes@[x].children@.contains_key(code(d)) implies {
            let y = self.nodes@[x].children@[code(d)];
            &&& 0 < y < n + 1
            &&& self.paths@[y as int] == self.paths@[x].push(d)
        } by {
            if x == a {
                if d == c {
                    assert(self.nodes@[x].children@[code(d)] == new_index);
                    assert(self.paths@[n] == p);
                } else {
                    if code(d) == code(c) {
                        lemma_code_injective(c, d);
                    }
                    assert(old_trie.nodes@[x].children@.contains_key(code(d)));
                    assert(self.nodes@[x].children@[code(d)] == old_trie.nodes@[x].children@[code(d)]);
                }
            } else if x < n {
                assert(pushed[x] == old_trie.nodes@[x]);
                assert(self.nodes@[x] == old_trie.nodes@[x]);
                assert(old_trie.nodes@[x].children@.contains_key(code(d)));
            } else {
                assert(self.nodes@[x] == pushed[x]);
            }
        }
        assert forall|x: int, y: int|
            0 <= x < n + 1 && 0 <= y < n + 1 && x != y implies #[trigger] self.paths@[x]
            != #[trigger] self.paths@[y] by {
            if x == m {
                assert(old_trie.paths@[y] != p);
            } else if y == m {
                assert(old_trie.paths@[x] != p);
            }
        }
        assert forall|b: int| 0 < b < n + 1 implies #[trigger] self.has_parent(b) by {
            if b == m {
                assert(self.nodes@[a].children@.contains_key(code(c)));
                assert(self.nodes@[a].children@[code(c)] == b);
            } else {
                assert(old_trie.has_parent(b));
                let (x, d) = choose|x: int, d: char|
                    0 <= x < n && #[trigger] old_trie.nodes@[x].children@.contains_key(code(d))
                        && old_trie.nodes@[x].children@[code(d)] == b;
                if x == a {
                    assert(code(d) != code(c));
                    assert(self.nodes@[x].children@.contains_key(code(d)));
                    assert(self.nodes@[x].children@[code(d)] == b);
                } else {
                    assert(pushed[x] == old_trie.nodes@[x]);
                    assert(self.nodes@[x] == old_trie.nodes@[x]);
                    assert(self.nodes@[x].children@.contains_key(code(d)));
                }
            }
        }
        assert forall|b: int, i: int|
            0 <= b < n + 1 && 0 <= i <= self.paths@[b].len() implies self.has_path(
            #[trigger] self.paths@[b].take(i),
        ) by {
            if b == m {
                if i == p.len() {
                    assert(p.take(i) =~= p);
                    assert(self.paths@[m] == p);
                } else {
                    assert(p.take(i) =~= old_trie.paths@[a].take(i));
                    assert(old_trie.has_path(old_trie.paths@[a].take(i)));
                    let w = choose|w: int|
                        0 <= w < n && #[trigger] old_trie.paths@[w] == old_trie.paths@[a].take(i);
                    assert(self.paths@[w] == p.take(i));
                }
            } else {
                assert(old_trie.has_path(old_trie.paths@[b].take(i)));
                let w = choose|w: int|
                    0 <= w < n && #[trigger] old_trie.paths@[w] == old_trie.paths@[b].take(i);
                assert(self.paths@[w] == self.paths@[b].take(i));
            }
        }
        assert forall|x: int| 0 <= x < n + 1 implies {
            &&& (#[trigger] self.nodes@[x].output is Some <==> self.rules@.contains_key(
                self.paths@[x],
            ))
            &&& (self.nodes@[x].output matches Some(o) ==> o@ == self.rules@[self.paths@[x]])
        } by {
            if x == m {
                assert(self.nodes@[x] == pushed[x]);
                if self.rules@.contains_key(p) {
                    assert(old_trie.has_path(p));
                }
            } else if x != a {
                assert(pushed[x] == old_trie.nodes@[x]);
                assert(self.nodes@[x] == old_trie.nodes@[x]);
            }
        }
        assert forall|key: Seq<char>| #[trigger] self.rules@.contains_key(key) implies self.has_path(
            key,
        ) by {
            assert(old_trie.has_path(key));
            let w = choose|w: int| 0 <= w < n && #[trigger] old_trie.paths@[w] == key;
            assert(self.paths@[w] == key);
        }
        assert forall|b: int| 0 < b < n + 1 implies is_key_prefix(dom, #[trigger] self.paths@[b])
            || self.paths@[b].is_prefix_of(extra) by {
            if b < n {
                assert(old_trie.paths@[b] == self.paths@[b]);
            }
        }
    }

    /// Setting the output of the node for `key` adds the rule for `key`.
    proof fn lemma_set_output(
        &self,
        before: RuleTrie,
        a: int,
        dom: Map<Seq<char>, OutputSpec>,
        key: Seq<char>,
    )
        requires
            before.shape_ok(),
            before.content_ok(dom, key),
            before.rules@ == dom,
            0 <= a < before.nodes@.len(),
            before.paths@[a] == key,
            self.nodes@.len() == before.nodes@.len(),
            self.nodes@[a].children == before.nodes@[a].children,
            self.nodes@[a].output is Some,
            forall|b: int|
                0 <= b < before.nodes@.len() && b != a ==> #[trigger] self.nodes@[b] == before.nodes@[b],
            self.paths@ == before.paths@,
            self.rules@ == dom.insert(key, self.nodes@[a].output->0@),
        ensures
            self.wf(),
    {
        let n = before.nodes@.len() as int;
        assert forall|x: int, d: char|
            0 <= x < n && #[trigger] self.nodes@[x].children@.contains_key(code(d)) implies {
            let y = self.nodes@[x].children@[code(d)];
            &&& 0 < y < n
            &&& self.paths@[y as int] == self.paths@[x].push(d)
        } by {
            assert(self.nodes@[x].children == before.nodes@[x].children);
            assert(before.nodes@[x].children@.contains_key(code(d)));
        }
        assert forall|b: int| 0 < b < n implies #[trigger] self.has_parent(b) by {
            assert(before.has_parent(b));
            let (x, d) = choose|x: int, d: char|
                0 <= x < n && #[trigger] before.nodes@[x].children@.contains_key(code(d))
                    && before.nodes@[x].children@[code(d)] == b;
            assert(self.nodes@[x].children == before.nodes@[x].children);
            assert(self.nodes@[x].children@.contains_key(code(d)));
        }
        assert forall|b: int, i: int|
            0 <= b < n && 0 <= i <= self.paths@[b].len() implies self.has_path(
            #[trigger] self.paths@[b].take(i),
        ) by {
            assert(before.has_path(before.paths@[b].take(i)));
        }
        assert forall|x: int| 0 <= x < n implies {
            &&& (#[trigger] self.nodes@[x].output is Some <==> self.rules@.contains_key(
                self.paths@[x],
            ))
            &&& (self.nodes@[x].output matches Some(o) ==> o@ == self.rules@[self.paths@[x]])
        } by {
            if x != a {
                assert(self.nodes@[x] == before.nodes@[x]);
                assert(before.paths@[x] != before.paths@[a]);
            }
        }
        assert forall|k: Seq<char>| #[trigger] self.rules@.contains_key(k) implies self.has_path(k) by {
            if k != key {
                assert(before.rules@.contains_key(k));
                assert(before.has_path(k));
            } else {
                assert(self.paths@[a] == k);
            }
        }
        assert forall|b: int| 0 < b < n implies is_key_prefix(self.rules@, #[trigger] self.paths@[b])
            || self.paths@[b].is_prefix_of(Seq::<char>::empty()) by {
            if is_key_prefix(dom, before.paths@[b]) {
                let k = choose|k: Seq<char>| #[trigger] dom.contains_key(k) && before.paths@[b].is_prefix_of(k);
                assert(self.rules@.contains_key(k));
            } else {
                assert(self.rules@.contains_key(key));
            }
        }
    }

    /// The child of node `a` along the edge labelled `c`, if there is one.
    fn find_child(&self, a: usize, c: char) -> (r: Option<usize>)
        requires
            self.shape_ok(),
            a < self.nodes@.len(),
        ensures
            match r {
                Some(m) => {
                    &&& m < self.nodes@.len()
                    &&& self.paths@[m as int] == self.paths@[a as int].push(c)
                },
                None => {
                    &&& !self.nodes@[a as int].children@.contains_key(code(c))
                    &&& !self.has_path(self.paths@[a as int].push(c))
                },
            },
    {
        let key: u32 = c as u32;
        match self.nodes[a].children.get(&key) {
            Some(m) => {
                assert(self.nodes@[a as int].children@.contains_key(code(c)));
                Some(*m)
            },
            None => {
                proof {
                    self.lemma_no_edge(a as int, c);
                }
                None
            },
        }
    }
}

} // verus!
