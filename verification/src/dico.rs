use vstd::prelude::*;

use vstd::string::StrSliceExecFns;

verus! {

/// One node of the dictionary trie: a terminal flag and the labelled
/// edges to its children.  The tree is owned outright, so there are no
/// shared nodes and no cycles.
struct TrieNode {
    terminal: bool,
    edges: Vec<(char, TrieNode)>,
}

impl TrieNode {
    /// Whether the word `w` is stored below this node: follow one edge per
    /// character and read the terminal flag of the node reached.
    spec fn has(self, w: Seq<char>) -> bool
        decreases w.len(),
    {
        if w.len() == 0 {
            self.terminal
        } else {
            exists|j: int|
                0 <= j < self.edges@.len() && (#[trigger] self.edges@[j]).0 == w[0]
                    && self.edges@[j].1.has(w.skip(1))
        }
    }

    /// Edge labels are distinct on every node, so at most one edge matches
    /// a character.
    spec fn wf(self) -> bool
        decreases self,
    {
        &&& forall|j1: int, j2: int|
            0 <= j1 < j2 < self.edges@.len() ==> (#[trigger] self.edges@[j1]).0 != (
            #[trigger] self.edges@[j2]).0
        &&& forall|j: int| 0 <= j < self.edges@.len() ==> (#[trigger] self.edges@[j]).1.wf()
    }

    /// A fresh node: no children, not terminal, so no word is below it.
    fn new() -> (r: TrieNode)
        ensures
            r.wf(),
            forall|w: Seq<char>| !r.has(w),
    {
        let r = TrieNode { terminal: false, edges: Vec::new() };
        proof {
            assert forall|w: Seq<char>| !r.has(w) by {
                if w.len() == 0 {
                } else {
                }
            }
        }
        r
    }
}

/// Index of an edge of `edges` labelled `c`, if one exists.
fn find_edge(edges: &Vec<(char, TrieNode)>, c: char) -> (r: Option<usize>)
    ensures
        match r {
            Some(j) => j < edges@.len() && edges@[j as int].0 == c,
            None => forall|m: int| 0 <= m < edges@.len() ==> (#[trigger] edges@[m]).0 != c,
        },
{
    let n = edges.len();
    let mut j: usize = 0;
    while j < n
        invariant
            j <= n,
            n == edges@.len(),
            forall|m: int| 0 <= m < j ==> (#[trigger] edges@[m]).0 != c,
        decreases n - j,
    {
        if edges[j].0 == c {
            return Some(j);
        }
        j = j + 1;
    }
    None
}

impl TrieNode {
    /// Insert the suffix of `word` starting at `i` below this node,
    /// creating one edge per missing character and marking the final node
    /// terminal.  Exactly the one word is added; everything already stored
    /// stays stored, and nothing else appears.
    fn insert_from(self, word: &str, i: usize) -> (r: TrieNode)
        requires
            self.wf(),
            i <= word@.len(),
        ensures
            r.wf(),
            forall|v: Seq<char>| r.has(v) <==> (self.has(v) || v == word@.skip(i as int)),
        decreases word@.len() - i,
    {
        let mut node = self;
        let n = word.unicode_len();
        let ghost suffix = word@.skip(i as int);
        if i == n {
            node.terminal = true;
            proof {
                assert forall|v: Seq<char>| node.has(v) <==> (self.has(v) || v == suffix) by {
                    if v.len() == 0 {
                        assert(v =~= suffix);
                        assert(node.has(v));
                    } else {
                        assert(v != suffix);
                        if node.has(v) {
                            let m = choose|m: int|
                                0 <= m < node.edges@.len() && (#[trigger] node.edges@[m]).0 == v[0]
                                    && node.edges@[m].1.has(v.skip(1));
                            assert(self.edges@[m].0 == v[0] && self.edges@[m].1.has(v.skip(1)));
                            assert(self.has(v));
                        }
                        if self.has(v) {
                            let m = choose|m: int|
                                0 <= m < self.edges@.len() && (#[trigger] self.edges@[m]).0 == v[0]
                                    && self.edges@[m].1.has(v.skip(1));
                            assert(node.edges@[m].0 == v[0] && node.edges@[m].1.has(v.skip(1)));
                            assert(node.has(v));
                        }
                    }
                }
            }
            return node;
        }
        let c = word.get_char(i);
        proof {
            assert(suffix.len() == word@.len() - i);
            assert(suffix[0] == word@[i as int]);
            assert(suffix.skip(1) =~= word@.skip(i as int + 1));
        }
        match find_edge(&node.edges, c) {
            Some(j) => {
                let ghost e0 = node.edges@;
                let (ec, child) = node.edges.remove(j);
                let child2 = child.insert_from(word, i + 1);
                node.edges.insert(j, (ec, child2));
                proof {
                    e0.remove_ensures(j as int);
                    e0.remove(j as int).insert_ensures(j as int, (ec, child2));
                    assert(node.edges@ =~= e0.update(j as int, (ec, child2)));
                    assert forall|v: Seq<char>| node.has(v) <==> (self.has(v) || v == suffix) by {
                        lemma_update_edge(self, node, j as int, c, child, child2, suffix, v);
                    }
                }
                node
            },
            None => {
                let child2 = TrieNode::new().insert_from(word, i + 1);
                node.edges.push((c, child2));
                proof {
                    assert forall|v: Seq<char>| node.has(v) <==> (self.has(v) || v == suffix) by {
                        lemma_push_edge(self, node, c, child2, suffix, v);
                    }
                }
                node
            },
        }
    }

    /// Whether the suffix of `word` starting at `i` is stored below this
    /// node.
    fn exists_from(&self, word: &str, i: usize) -> (r: bool)
        requires
            self.wf(),
            i <= word@.len(),
        ensures
            r == self.has(word@.skip(i as int)),
        decreases word@.len() - i,
    {
        let n = word.unicode_len();
        let ghost suffix = word@.skip(i as int);
        if i == n {
            proof {
                assert(suffix.len() == 0);
            }
            return self.terminal;
        }
        let c = word.get_char(i);
        proof {
            assert(suffix.len() == word@.len() - i);
            assert(suffix[0] == word@[i as int]);
            assert(suffix.skip(1) =~= word@.skip(i as int + 1));
        }
        match find_edge(&self.edges, c) {
            Some(j) => {
                let r = self.edges[j].1.exists_from(word, i + 1);
                proof {
                    if r {
                        assert(self.has(suffix));
                    } else {
                        if self.has(suffix) {
                            let m = choose|m: int|
                                0 <= m < self.edges@.len() && (#[trigger] self.edges@[m]).0
                                    == suffix[0] && self.edges@[m].1.has(suffix.skip(1));
                            // distinct labels force the witness to be `j`
                            assert(m == j);
                        }
                    }
                }
                r
            },
            None => {
                proof {
                    if self.has(suffix) {
                        let m = choose|m: int|
                            0 <= m < self.edges@.len() && (#[trigger] self.edges@[m]).0
                                == suffix[0] && self.edges@[m].1.has(suffix.skip(1));
                    }
                }
                false
            },
        }
    }
}

/// Two nonempty sequences with the same head and the same tail are equal.
proof fn lemma_eq_by_head_tail(a: Seq<char>, b: Seq<char>)
    requires
        a.len() > 0,
        b.len() > 0,
        a[0] == b[0],
        a.skip(1) == b.skip(1),
    ensures
        a == b,
{
    assert(a.skip(1).len() == a.len() - 1);
    assert(b.skip(1).len() == b.len() - 1);
    assert forall|t: int| 0 <= t < a.len() implies a[t] == b[t] by {
        if t > 0 {
            assert(a.skip(1)[t - 1] == a[t]);
            assert(b.skip(1)[t - 1] == b[t]);
        }
    }
    assert(a =~= b);
}

/// After replacing the child of the matching edge `j` by an inserted
/// child, a node stores exactly the old words plus the new suffix.
proof fn lemma_update_edge(
    old_node: TrieNode,
    new_node: TrieNode,
    j: int,
    c: char,
    child: TrieNode,
    child2: TrieNode,
    suffix: Seq<char>,
    v: Seq<char>,
)
    requires
        0 <= j < old_node.edges@.len(),
        old_node.edges@[j] == (c, child),
        new_node.edges@ == old_node.edges@.update(j, (c, child2)),
        new_node.terminal == old_node.terminal,
        suffix.len() > 0,
        suffix[0] == c,
        forall|v1: Seq<char>| child2.has(v1) <==> (child.has(v1) || v1 == suffix.skip(1)),
    ensures
        new_node.has(v) <==> (old_node.has(v) || v == suffix),
{
    if v.len() == 0 {
        assert(v != suffix);
    } else if v[0] != c {
        assert(v != suffix);
        if new_node.has(v) {
            let m = choose|m: int|
                0 <= m < new_node.edges@.len() && (#[trigger] new_node.edges@[m]).0 == v[0]
                    && new_node.edges@[m].1.has(v.skip(1));
            assert(m != j);
            assert(old_node.edges@[m] == new_node.edges@[m]);
            assert(old_node.has(v));
        }
        if old_node.has(v) {
            let m = choose|m: int|
                0 <= m < old_node.edges@.len() && (#[trigger] old_node.edges@[m]).0 == v[0]
                    && old_node.edges@[m].1.has(v.skip(1));
            assert(m != j);
            assert(new_node.edges@[m] == old_node.edges@[m]);
            assert(new_node.has(v));
        }
    } else {
        // v starts with c
        if new_node.has(v) {
            let m = choose|m: int|
                0 <= m < new_node.edges@.len() && (#[trigger] new_node.edges@[m]).0 == v[0]
                    && new_node.edges@[m].1.has(v.skip(1));
            if m == j {
                if child.has(v.skip(1)) {
                    assert(old_node.edges@[j].1.has(v.skip(1)));
                    assert(old_node.has(v));
                } else {
                    assert(v.skip(1) == suffix.skip(1));
                    lemma_eq_by_head_tail(v, suffix);
                }
            } else {
                assert(old_node.edges@[m] == new_node.edges@[m]);
                assert(old_node.has(v));
            }
        }
        if old_node.has(v) {
            let m = choose|m: int|
                0 <= m < old_node.edges@.len() && (#[trigger] old_node.edges@[m]).0 == v[0]
                    && old_node.edges@[m].1.has(v.skip(1));
            if m == j {
                assert(child.has(v.skip(1)));
                assert(child2.has(v.skip(1)));
                assert(new_node.edges@[j].0 == c && new_node.edges@[j].1.has(v.skip(1)));
                assert(new_node.has(v));
            } else {
                assert(new_node.edges@[m] == old_node.edges@[m]);
                assert(new_node.has(v));
            }
        }
        if v == suffix {
            assert(child2.has(suffix.skip(1)));
            assert(new_node.edges@[j].0 == c && new_node.edges@[j].1.has(v.skip(1)));
            assert(new_node.has(v));
        }
    }
}

/// After adding a fresh edge for a character no edge carried, a node
/// stores exactly the old words plus the new suffix.
proof fn lemma_push_edge(
    old_node: TrieNode,
    new_node: TrieNode,
    c: char,
    child2: TrieNode,
    suffix: Seq<char>,
    v: Seq<char>,
)
    requires
        forall|m: int| 0 <= m < old_node.edges@.len() ==> (#[trigger] old_node.edges@[m]).0 != c,
        new_node.edges@ == old_node.edges@.push((c, child2)),
        new_node.terminal == old_node.terminal,
        suffix.len() > 0,
        suffix[0] == c,
        forall|v1: Seq<char>| child2.has(v1) <==> v1 == suffix.skip(1),
    ensures
        new_node.has(v) <==> (old_node.has(v) || v == suffix),
{
    let last = old_node.edges@.len() as int;
    if v.len() == 0 {
        assert(v != suffix);
    } else {
        if new_node.has(v) {
            let m = choose|m: int|
                0 <= m < new_node.edges@.len() && (#[trigger] new_node.edges@[m]).0 == v[0]
                    && new_node.edges@[m].1.has(v.skip(1));
            if m == last {
                assert(v[0] == c);
                assert(v.skip(1) == suffix.skip(1));
                lemma_eq_by_head_tail(v, suffix);
            } else {
                assert(old_node.edges@[m] == new_node.edges@[m]);
                assert(old_node.has(v));
            }
        }
        if old_node.has(v) {
            let m = choose|m: int|
                0 <= m < old_node.edges@.len() && (#[trigger] old_node.edges@[m]).0 == v[0]
                    && old_node.edges@[m].1.has(v.skip(1));
            assert(new_node.edges@[m] == old_node.edges@[m]);
            assert(new_node.has(v));
        }
        if v == suffix {
            assert(new_node.edges@[last].0 == c && new_node.edges@[last].1.has(v.skip(1)));
            assert(new_node.has(v));
        }
    }
}

/// The dictionary: a trie of words, abstracted as the set of character
/// sequences it stores.
///
/// Membership is answered over exactly the entries inserted.  A plain
/// deployment inserts each word verbatim and queries raw words; a
/// bidirectional deployment inserts the expanded, separator-marked
/// variants instead and queries those.  Pick one mode per dictionary:
/// the two are not interchangeable for membership.
pub struct Dico {
    root: TrieNode,
}

impl View for Dico {
    type V = Set<Seq<char>>;

    closed spec fn view(&self) -> Set<Seq<char>> {
        Set::new(|w: Seq<char>| self.root.has(w))
    }
}

/// Whether `p` is a prefix of `w`.
pub open spec fn is_prefix_of(p: Seq<char>, w: Seq<char>) -> bool {
    p.len() <= w.len() && p == w.subrange(0, p.len() as int)
}

/// The set of words a word list holds.
pub open spec fn word_list_set(words: Seq<String>) -> Set<Seq<char>> {
    Set::new(
        |w: Seq<char>|
            exists|j: int| 0 <= j < words.len() && (#[trigger] words[j])@ == w,
    )
}

impl Dico {
    /// The dictionary's internal trie keeps its edge labels distinct.
    pub closed spec fn wf(self) -> bool {
        self.root.wf()
    }

    /// Create an empty dictionary.
    pub fn new() -> (d: Dico)
        ensures
            d.wf(),
            d@ == Set::<Seq<char>>::empty(),
    {
        let d = Dico { root: TrieNode::new() };
        proof {
            assert(d@ =~= Set::<Seq<char>>::empty());
        }
        d
    }

    /// Add `word` to the dictionary.  Adding a word that is already stored
    /// changes nothing, so insertion is idempotent.
    pub fn add_word(&mut self, word: &str)
        requires
            old(self).wf(),
        ensures
            final(self).wf(),
            final(self)@ == old(self)@.insert(word@),
    {
        let mut tmp = TrieNode::new();
        core::mem::swap(&mut self.root, &mut tmp);
        let newroot = tmp.insert_from(word, 0);
        self.root = newroot;
        proof {
            assert(word@.skip(0) =~= word@);
            assert(self@ =~= old(self)@.insert(word@));
        }
    }

    /// Load a word list into the dictionary, one word per line, each
    /// inserted verbatim: afterwards the dictionary holds exactly what it
    /// held before plus the given words.
    pub fn load(&mut self, words: &Vec<String>)
        requires
            old(self).wf(),
        ensures
            final(self).wf(),
            final(self)@ == old(self)@.union(word_list_set(words@)),
    {
        let n = words.len();
        for i in 0..n
            invariant
                n == words@.len(),
                self.wf(),
                forall|w: Seq<char>|
                    self@.contains(w) <==> old(self)@.contains(w) || exists|j: int|
                        0 <= j < i && (#[trigger] words@[j])@ == w,
        {
            self.add_word(words[i].as_str());
            proof {
                assert forall|w: Seq<char>|
                    self@.contains(w) <==> old(self)@.contains(w) || exists|j: int|
                        0 <= j < i + 1 && (#[trigger] words@[j])@ == w by {
                    if w == words@[i as int]@ {
                        assert(self@.contains(w));
                    }
                }
            }
        }
        proof {
            assert(self@ =~= old(self)@.union(word_list_set(words@)));
        }
    }

    /// Tell whether `word` is present in the dictionary: an internal,
    /// non-terminal node means the word is only a prefix of stored words,
    /// not itself a word.
    pub fn exists_word(&self, word: &str) -> (r: bool)
        requires
            self.wf(),
        ensures
            r == self@.contains(word@),
    {
        let r = self.root.exists_from(word, 0);
        proof {
            assert(word@.skip(0) =~= word@);
        }
        r
    }
}

/// Trie membership: a word just inserted is a member, and a prefix of it
/// that differs from it and was never inserted itself is no member: it
/// only leads to stored words.
pub proof fn lemma_trie_membership(d0: Dico, d1: Dico, w: Seq<char>, p: Seq<char>)
    requires
        d1@ == d0@.insert(w),
        is_prefix_of(p, w),
        p != w,
        !d0@.contains(p),
    ensures
        d1@.contains(w),
        !d1@.contains(p),
{
}

} // verus!
