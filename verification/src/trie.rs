//! Prefix tree over credential and command names, used for completion.
//!
//! A node holds its children sorted by character, so enumeration yields words
//! in code-point order without a separate sort. Removing a word only unmarks
//! its node: subtrees are never pruned, so words that extend a removed word
//! stay reachable.

use vstd::prelude::*;

use crate::text::lex_lt;

verus! {

struct TrieNode {
    children: Vec<(char, TrieNode)>,
    is_word: bool,
}

/// A trie (prefix tree) for efficient string completion.
pub struct Trie {
    root: TrieNode,
    count: usize,
}

/// Whether the word `w` is marked in the subtree rooted at `n`.
spec fn node_has(n: TrieNode, w: Seq<char>) -> bool
    decreases w.len(),
{
    if w.len() == 0 {
        n.is_word
    } else {
        exists|i: int|
            0 <= i < n.children@.len() && (#[trigger] n.children@[i]).0 == w[0] && node_has(
                n.children@[i].1,
                w.skip(1),
            )
    }
}

/// Children are strictly sorted by character, recursively.
spec fn node_wf(n: TrieNode) -> bool
    decreases n,
{
    &&& forall|i: int, j: int|
        0 <= i < j < n.children@.len() ==> (#[trigger] n.children@[i]).0
            < (#[trigger] n.children@[j]).0
    &&& forall|i: int|
        0 <= i < n.children@.len() ==> node_wf((#[trigger] n.children@[i]).1)
}

impl Trie {
    /// The set of complete words stored in the trie.
    pub closed spec fn view(&self) -> Set<Seq<char>> {
        Set::new(|w: Seq<char>| node_has(self.root, w))
    }

    /// Internal invariant: sorted children, the empty word is never stored,
    /// and `count` tracks the number of stored words.
    pub closed spec fn wf(&self) -> bool {
        &&& node_wf(self.root)
        &&& !self.root.is_word
        &&& self.view().finite()
        &&& self.count == self.view().len()
    }

    /// Creates a new empty trie.
    pub fn new() -> (r: Trie)
        ensures
            r.wf(),
            r@ == Set::<Seq<char>>::empty(),
    {
        let r = Trie { root: TrieNode { children: Vec::new(), is_word: false }, count: 0 };
        proof {
            assert(r@ =~= Set::<Seq<char>>::empty());
        }
        r
    }
}

/// At most one child carries a given character.
proof fn lemma_child_unique(n: TrieNode, i: int, j: int)
    requires
        node_wf(n),
        0 <= i < n.children@.len(),
        0 <= j < n.children@.len(),
        n.children@[i].0 == n.children@[j].0,
    ensures
        i == j,
{
    if i < j {
        assert(n.children@[i].0 < n.children@[j].0);
    }
    if j < i {
        assert(n.children@[j].0 < n.children@[i].0);
    }
}

/// Membership of a nonempty word goes through the unique child for its first
/// character.
proof fn lemma_node_has_via_child(n: TrieNode, idx: int, x: Seq<char>)
    requires
        node_wf(n),
        0 <= idx < n.children@.len(),
        x.len() > 0,
        n.children@[idx].0 == x[0],
    ensures
        node_has(n, x) == node_has(n.children@[idx].1, x.skip(1)),
{
    if node_has(n, x) {
        let i = choose|i: int|
            0 <= i < n.children@.len() && (#[trigger] n.children@[i]).0 == x[0] && node_has(
                n.children@[i].1,
                x.skip(1),
            );
        lemma_child_unique(n, i, idx);
    }
}

/// A word whose first character no child carries is absent.
proof fn lemma_node_has_no_child(n: TrieNode, x: Seq<char>)
    requires
        x.len() > 0,
        forall|k: int| 0 <= k < n.children@.len() ==> (#[trigger] n.children@[k]).0 != x[0],
    ensures
        !node_has(n, x),
{
}

/// Finds the child carrying `c`, or the position where one would be inserted
/// to keep the children sorted.
fn find_child(n: &TrieNode, c: char) -> (r: Result<usize, usize>)
    requires
        node_wf(*n),
    ensures
        match r {
            Ok(idx) => idx < n.children@.len() && n.children@[idx as int].0 == c,
            Err(pos) => {
                &&& pos <= n.children@.len()
                &&& forall|k: int| 0 <= k < pos ==> (#[trigger] n.children@[k]).0 < c
                &&& forall|k: int|
                    pos <= k < n.children@.len() ==> c < (#[trigger] n.children@[k]).0
            },
        },
{
    let len = n.children.len();
    let mut k: usize = 0;
    while k < len
        invariant
            k <= len,
            len == n.children@.len(),
            node_wf(*n),
            forall|t: int| 0 <= t < k ==> (#[trigger] n.children@[t]).0 < c,
        decreases len - k,
    {
        let ck = n.children[k].0;
        if ck == c {
            return Ok(k);
        }
        if c < ck {
            proof {
                assert forall|t: int| k <= t < n.children@.len() implies c
                    < (#[trigger] n.children@[t]).0 by {
                    if t > k {
                        assert(n.children@[k as int].0 < n.children@[t].0);
                    }
                }
            }
            return Err(k);
        }
        k = k + 1;
    }
    Err(len)
}

/// Whether `w[i..]` is stored below `n`.
fn node_contains(n: &TrieNode, w: &Vec<char>, i: usize) -> (r: bool)
    requires
        node_wf(*n),
        i <= w@.len(),
    ensures
        r == node_has(*n, w@.skip(i as int)),
    decreases w@.len() - i,
{
    if i == w.len() {
        proof {
            assert(w@.skip(i as int) =~= Seq::<char>::empty());
        }
        n.is_word
    } else {
        let c = w[i];
        proof {
            assert(w@.skip(i as int)[0] == w@[i as int]);
        }
        match find_child(n, c) {
            Ok(idx) => {
                proof {
                    lemma_node_has_via_child(*n, idx as int, w@.skip(i as int));
                    assert(w@.skip(i as int).skip(1) =~= w@.skip(i as int + 1));
                }
                node_contains(&n.children[idx].1, w, i + 1)
            },
            Err(_) => {
                proof {
                    lemma_node_has_no_child(*n, w@.skip(i as int));
                }
                false
            },
        }
    }
}

/// Membership of nonempty words depends only on the children.
proof fn lemma_node_has_same_children(n1: TrieNode, n2: TrieNode, x: Seq<char>)
    requires
        n1.children == n2.children,
        x.len() > 0,
    ensures
        node_has(n1, x) == node_has(n2, x),
{
}

/// Adding a child for a fresh character leaves other words alone.
proof fn lemma_node_has_insert_child(n1: TrieNode, n2: TrieNode, pos: int, x: Seq<char>)
    requires
        0 <= pos <= n1.children@.len(),
        n2.children@ == n1.children@.insert(pos, n2.children@[pos]),
        n2.is_word == n1.is_word,
        x.len() > 0,
        x[0] != n2.children@[pos].0,
    ensures
        node_has(n1, x) == node_has(n2, x),
{
    if node_has(n1, x) {
        let i = choose|i: int|
            0 <= i < n1.children@.len() && (#[trigger] n1.children@[i]).0 == x[0] && node_has(
                n1.children@[i].1,
                x.skip(1),
            );
        let i2 = if i < pos {
            i
        } else {
            i + 1
        };
        assert(n2.children@[i2] == n1.children@[i]);
    }
    if node_has(n2, x) {
        let i = choose|i: int|
            0 <= i < n2.children@.len() && (#[trigger] n2.children@[i]).0 == x[0] && node_has(
                n2.children@[i].1,
                x.skip(1),
            );
        assert(i != pos);
        let i1 = if i < pos {
            i
        } else {
            i - 1
        };
        assert(n1.children@[i1] == n2.children@[i]);
    }
}

/// Replacing the subtree of one child only touches words that start with its
/// character.
proof fn lemma_node_has_update_child(n1: TrieNode, n2: TrieNode, idx: int, x: Seq<char>)
    requires
        0 <= idx < n1.children@.len(),
        n2.children@ == n1.children@.update(idx, n2.children@[idx]),
        n2.children@[idx].0 == n1.children@[idx].0,
        n2.is_word == n1.is_word,
        x.len() > 0,
        x[0] != n1.children@[idx].0,
    ensures
        node_has(n1, x) == node_has(n2, x),
{
    if node_has(n1, x) {
        let i = choose|i: int|
            0 <= i < n1.children@.len() && (#[trigger] n1.children@[i]).0 == x[0] && node_has(
                n1.children@[i].1,
                x.skip(1),
            );
        assert(i != idx);
        assert(n2.children@[i] == n1.children@[i]);
    }
    if node_has(n2, x) {
        let i = choose|i: int|
            0 <= i < n2.children@.len() && (#[trigger] n2.children@[i]).0 == x[0] && node_has(
                n2.children@[i].1,
                x.skip(1),
            );
        assert(i != idx);
        assert(n1.children@[i] == n2.children@[i]);
    }
}

/// A nonempty word equals `s` exactly when head and tail agree with `s`.
proof fn lemma_seq_head_tail(x: Seq<char>, s: Seq<char>)
    requires
        x.len() > 0,
        s.len() > 0,
    ensures
        (x == s) == (x[0] == s[0] && x.skip(1) == s.skip(1)),
{
    if x[0] == s[0] && x.skip(1) == s.skip(1) {
        assert(x.len() == s.len()) by {
            assert(x.skip(1).len() == s.skip(1).len());
        }
        assert(x =~= s) by {
            assert forall|k: int| 0 <= k < x.len() implies x[k] == s[k] by {
                if k > 0 {
                    assert(x.skip(1)[k - 1] == x[k]);
                    assert(s.skip(1)[k - 1] == s[k]);
                }
            }
        }
    }
    if x == s {
        assert(x.skip(1) =~= s.skip(1));
    }
}

/// A fresh path of nodes holding exactly the word `w[i..]`.
fn make_chain(w: &Vec<char>, i: usize) -> (node: TrieNode)
    requires
        i <= w@.len(),
    ensures
        node_wf(node),
        forall|x: Seq<char>| node_has(node, x) == (x == w@.skip(i as int)),
    decreases w@.len() - i,
{
    if i == w.len() {
        let node = TrieNode { children: Vec::new(), is_word: true };
        proof {
            assert(w@.skip(i as int) =~= Seq::<char>::empty());
            assert forall|x: Seq<char>| node_has(node, x) == (x == w@.skip(i as int)) by {
                if x.len() == 0 {
                    assert(x =~= Seq::<char>::empty());
                }
            }
        }
        node
    } else {
        let child = make_chain(w, i + 1);
        let mut children: Vec<(char, TrieNode)> = Vec::new();
        children.push((w[i], child));
        let node = TrieNode { children, is_word: false };
        proof {
            let suffix = w@.skip(i as int);
            assert(suffix[0] == w@[i as int]);
            assert(suffix.skip(1) =~= w@.skip(i as int + 1));
            assert forall|x: Seq<char>| node_has(node, x) == (x == suffix) by {
                if x.len() == 0 {
                    assert(x != suffix);
                    assert(!node_has(node, x));
                } else {
                    lemma_seq_head_tail(x, suffix);
                    if node_has(node, x) {
                        let k = choose|k: int|
                            0 <= k < node.children@.len() && (#[trigger] node.children@[k]).0
                                == x[0] && node_has(node.children@[k].1, x.skip(1));
                        assert(k == 0);
                    }
                    if x == suffix {
                        assert(node.children@[0].0 == x[0] && node_has(
                            node.children@[0].1,
                            x.skip(1),
                        ));
                    }
                }
            }
        }
        node
    }
}

/// Inserts `w[i..]` below `n`; reports whether it was new.
fn node_insert(n: &mut TrieNode, w: &Vec<char>, i: usize) -> (added: bool)
    requires
        node_wf(*old(n)),
        i <= w@.len(),
    ensures
        node_wf(*final(n)),
        final(n).is_word == (old(n).is_word || w@.skip(i as int).len() == 0),
        added == !node_has(*old(n), w@.skip(i as int)),
        forall|x: Seq<char>|
            node_has(*final(n), x) == (node_has(*old(n), x) || x == w@.skip(i as int)),
    decreases w@.len() - i,
{
    let ghost suffix = w@.skip(i as int);
    if i == w.len() {
        proof {
            assert(suffix =~= Seq::<char>::empty());
        }
        let added = !n.is_word;
        n.is_word = true;
        proof {
            assert forall|x: Seq<char>|
                node_has(*final(n), x) == (node_has(*old(n), x) || x == suffix) by {
                if x.len() == 0 {
                    assert(x =~= Seq::<char>::empty());
                } else {
                    lemma_node_has_same_children(*old(n), *final(n), x);
                }
            }
        }
        added
    } else {
        let c = w[i];
        proof {
            assert(suffix[0] == w@[i as int]);
            assert(suffix.skip(1) =~= w@.skip(i as int + 1));
        }
        match find_child(n, c) {
            Ok(idx) => {
                let (cc, mut child) = n.children.remove(idx);
                let ghost mid = *n;
                let added = node_insert(&mut child, w, i + 1);
                n.children.insert(idx, (cc, child));
                proof {
                    let oldc = old(n).children@;
                    let newc = final(n).children@;
                    assert(newc =~= oldc.update(idx as int, (cc, child)));
                    assert(final(n).is_word == old(n).is_word);
                    // sortedness: characters are unchanged
                    assert forall|p: int, q: int|
                        0 <= p < q < newc.len() implies (#[trigger] newc[p]).0
                        < (#[trigger] newc[q]).0 by {
                        assert(oldc[p].0 == newc[p].0 && oldc[q].0 == newc[q].0);
                    }
                    assert(node_wf(*final(n)));
                    lemma_node_has_via_child(*old(n), idx as int, suffix);
                    assert(added == !node_has(*old(n), suffix));
                    assert forall|x: Seq<char>|
                        node_has(*final(n), x) == (node_has(*old(n), x) || x == suffix) by {
                        if x.len() == 0 {
                            assert(x != suffix);
                        } else if x[0] == c {
                            lemma_node_has_via_child(*old(n), idx as int, x);
                            lemma_node_has_via_child(*final(n), idx as int, x);
                            lemma_seq_head_tail(x, suffix);
                        } else {
                            lemma_node_has_update_child(*old(n), *final(n), idx as int, x);
                            assert(x != suffix);
                        }
                    }
                }
                added
            },
            Err(pos) => {
                let chain = make_chain(w, i + 1);
                n.children.insert(pos, (c, chain));
                proof {
                    let oldc = old(n).children@;
                    let newc = final(n).children@;
                    assert(newc == oldc.insert(pos as int, (c, chain)));
                    assert(final(n).is_word == old(n).is_word);
                    assert forall|p: int, q: int|
                        0 <= p < q < newc.len() implies (#[trigger] newc[p]).0
                        < (#[trigger] newc[q]).0 by {
                        if q < pos {
                            assert(newc[p] == oldc[p] && newc[q] == oldc[q]);
                        } else if p > pos {
                            assert(newc[p] == oldc[p - 1] && newc[q] == oldc[q - 1]);
                        } else if p < pos && q == pos {
                            assert(newc[p] == oldc[p]);
                        } else if p == pos && q > pos {
                            assert(newc[q] == oldc[q - 1]);
                        } else {
                            assert(p < pos && q > pos);
                            assert(newc[p] == oldc[p] && newc[q] == oldc[q - 1]);
                        }
                    }
                    assert(node_wf(*final(n)));
                    assert(!node_has(*old(n), suffix)) by {
                        lemma_node_has_no_child(*old(n), suffix);
                    }
                    assert forall|x: Seq<char>|
                        node_has(*final(n), x) == (node_has(*old(n), x) || x == suffix) by {
                        if x.len() == 0 {
                            assert(x != suffix);
                        } else if x[0] == c {
                            lemma_node_has_via_child(*final(n), pos as int, x);
                            lemma_seq_head_tail(x, suffix);
                            lemma_node_has_no_child(*old(n), x);
                        } else {
                            assert(newc[pos as int] == (c, chain));
                            lemma_node_has_insert_child(*old(n), *final(n), pos as int, x);
                            assert(x != suffix);
                        }
                    }
                }
                true
            },
        }
    }
}

/// Unmarks `w[i..]` below `n`; nodes are never pruned.
fn node_remove(n: &mut TrieNode, w: &Vec<char>, i: usize) -> (removed: bool)
    requires
        node_wf(*old(n)),
        i <= w@.len(),
    ensures
        node_wf(*final(n)),
        final(n).is_word == (old(n).is_word && w@.skip(i as int).len() != 0),
        removed == node_has(*old(n), w@.skip(i as int)),
        forall|x: Seq<char>|
            node_has(*final(n), x) == (node_has(*old(n), x) && x != w@.skip(i as int)),
    decreases w@.len() - i,
{
    let ghost suffix = w@.skip(i as int);
    if i == w.len() {
        proof {
            assert(suffix =~= Seq::<char>::empty());
        }
        let removed = n.is_word;
        n.is_word = false;
        proof {
            assert forall|x: Seq<char>|
                node_has(*final(n), x) == (node_has(*old(n), x) && x != suffix) by {
                if x.len() == 0 {
                    assert(x =~= Seq::<char>::empty());
                } else {
                    lemma_node_has_same_children(*old(n), *final(n), x);
                }
            }
        }
        removed
    } else {
        let c = w[i];
        proof {
            assert(suffix[0] == w@[i as int]);
            assert(suffix.skip(1) =~= w@.skip(i as int + 1));
        }
        match find_child(n, c) {
            Ok(idx) => {
                let (cc, mut child) = n.children.remove(idx);
                let removed = node_remove(&mut child, w, i + 1);
                n.children.insert(idx, (cc, child));
                proof {
                    let oldc = old(n).children@;
                    let newc = final(n).children@;
                    assert(newc =~= oldc.update(idx as int, (cc, child)));
                    assert(final(n).is_word == old(n).is_word);
                    assert forall|p: int, q: int|
                        0 <= p < q < newc.len() implies (#[trigger] newc[p]).0
                        < (#[trigger] newc[q]).0 by {
                        assert(oldc[p].0 == newc[p].0 && oldc[q].0 == newc[q].0);
                    }
                    assert(node_wf(*final(n)));
                    lemma_node_has_via_child(*old(n), idx as int, suffix);
                    assert forall|x: Seq<char>|
                        node_has(*final(n), x) == (node_has(*old(n), x) && x != suffix) by {
                        if x.len() == 0 {
                            assert(x != suffix);
                        } else if x[0] == c {
                            lemma_node_has_via_child(*old(n), idx as int, x);
                            lemma_node_has_via_child(*final(n), idx as int, x);
                            lemma_seq_head_tail(x, suffix);
                        } else {
                            lemma_node_has_update_child(*old(n), *final(n), idx as int, x);
                            assert(x != suffix);
                        }
                    }
                }
                removed
            },
            Err(_) => {
                proof {
                    lemma_node_has_no_child(*old(n), suffix);
                    assert forall|x: Seq<char>|
                        node_has(*final(n), x) == (node_has(*old(n), x) && x != suffix) by {
                        if x.len() > 0 && x[0] == suffix[0] {
                            lemma_node_has_no_child(*old(n), x);
                        }
                        if x.len() == 0 {
                            assert(x != suffix);
                        }
                    }
                }
                false
            },
        }
    }
}

/// Like `node_has`, but for nonempty words only the first `ci` children count.
spec fn node_has_upto(n: TrieNode, ci: int, x: Seq<char>) -> bool {
    if x.len() == 0 {
        n.is_word
    } else {
        exists|i: int|
            0 <= i < ci && i < n.children@.len() && (#[trigger] n.children@[i]).0 == x[0]
                && node_has(n.children@[i].1, x.skip(1))
    }
}

proof fn lemma_upto_full(n: TrieNode, x: Seq<char>)
    ensures
        node_has_upto(n, n.children@.len() as int, x) == node_has(n, x),
{
}

/// Walks the prefix `p[i..]` down from `n`, returning the node it reaches.
fn node_find<'a>(n: &'a TrieNode, p: &Vec<char>, i: usize) -> (r: Option<&'a TrieNode>)
    requires
        node_wf(*n),
        i <= p@.len(),
    ensures
        match r {
            Some(m) => node_wf(*m) && forall|x: Seq<char>|
                node_has(*n, p@.skip(i as int) + x) == node_has(*m, x),
            None => forall|x: Seq<char>| !node_has(*n, p@.skip(i as int) + x),
        },
    decreases p@.len() - i,
{
    let ghost suffix = p@.skip(i as int);
    if i == p.len() {
        proof {
            assert(suffix =~= Seq::<char>::empty());
            assert forall|x: Seq<char>| node_has(*n, suffix + x) == node_has(*n, x) by {
                assert(suffix + x =~= x);
            }
        }
        Some(n)
    } else {
        let c = p[i];
        proof {
            assert(suffix[0] == p@[i as int]);
        }
        match find_child(n, c) {
            Ok(idx) => {
                let r = node_find(&n.children[idx].1, p, i + 1);
                proof {
                    let child = n.children@[idx as int].1;
                    assert forall|x: Seq<char>|
                        node_has(*n, suffix + x) == node_has(child, p@.skip(i as int + 1) + x) by {
                        assert((suffix + x).len() > 0);
                        assert((suffix + x)[0] == c);
                        lemma_node_has_via_child(*n, idx as int, suffix + x);
                        assert((suffix + x).skip(1) =~= p@.skip(i as int + 1) + x);
                    }
                }
                r
            },
            Err(_) => {
                proof {
                    assert forall|x: Seq<char>| !node_has(*n, suffix + x) by {
                        assert((suffix + x).len() > 0);
                        assert((suffix + x)[0] == c);
                        lemma_node_has_no_child(*n, suffix + x);
                    }
                }
                None
            },
        }
    }
}

/// The entries of `old_out` stay untouched at the front of `out`.
spec fn entries_kept(old_out: Seq<String>, out: Seq<String>) -> bool {
    &&& out.len() >= old_out.len()
    &&& forall|k: int| 0 <= k < old_out.len() ==> out[k] == old_out[k]
}

/// Entry `k` of `out` is `acc0` followed by a word among the first `ci`
/// children of `n` (or its own mark).
spec fn entry_from_upto(n: TrieNode, ci: int, acc0: Seq<char>, out: Seq<String>, k: int) -> bool {
    exists|x: Seq<char>| #[trigger] node_has_upto(n, ci, x) && out[k]@ == acc0 + x
}

/// Entry `k` of `out` is `acc0` followed by a word of `n`.
spec fn entry_from_node(n: TrieNode, acc0: Seq<char>, out: Seq<String>, k: int) -> bool {
    exists|x: Seq<char>| #[trigger] node_has(n, x) && out[k]@ == acc0 + x
}

/// `acc0 + x` stands somewhere in `out` from `base` on.
spec fn word_listed(acc0: Seq<char>, base: int, out: Seq<String>, x: Seq<char>) -> bool {
    exists|k: int| base <= k < out.len() && (#[trigger] out[k])@ == acc0 + x
}

#[verifier::opaque]
spec fn sound_upto(n: TrieNode, ci: int, acc0: Seq<char>, base: int, out: Seq<String>) -> bool {
    forall|k: int| base <= k < out.len() ==> #[trigger] entry_from_upto(n, ci, acc0, out, k)
}

#[verifier::opaque]
spec fn complete_upto(n: TrieNode, ci: int, acc0: Seq<char>, base: int, out: Seq<String>) -> bool {
    forall|x: Seq<char>| #[trigger] node_has_upto(n, ci, x) ==> word_listed(acc0, base, out, x)
}

#[verifier::opaque]
spec fn sound_full(n: TrieNode, acc0: Seq<char>, base: int, out: Seq<String>) -> bool {
    forall|k: int| base <= k < out.len() ==> #[trigger] entry_from_node(n, acc0, out, k)
}

#[verifier::opaque]
spec fn complete_full(n: TrieNode, acc0: Seq<char>, base: int, out: Seq<String>) -> bool {
    forall|x: Seq<char>| #[trigger] node_has(n, x) ==> word_listed(acc0, base, out, x)
}

/// The entries of `out` from `base` on are in strictly increasing code-point
/// order.
#[verifier::opaque]
spec fn entries_sorted(base: int, out: Seq<String>) -> bool {
    forall|k1: int, k2: int|
        base <= k1 < k2 < out.len() ==> lex_lt((#[trigger] out[k1])@, (#[trigger] out[k2])@)
}

/// The entries of `out` from `base` on are exactly the words of the first `ci`
/// children of `n` (and its own mark), each prefixed with `acc0`, sorted.
spec fn block_props(n: TrieNode, ci: int, acc0: Seq<char>, base: int, out: Seq<String>) -> bool {
    &&& 0 <= base <= out.len()
    &&& sound_upto(n, ci, acc0, base, out)
    &&& complete_upto(n, ci, acc0, base, out)
    &&& entries_sorted(base, out)
}

/// The entries of `out` from `base` on are exactly the words below `n`, each
/// prefixed with `acc0`, sorted.
spec fn collected(n: TrieNode, acc0: Seq<char>, base: int, out: Seq<String>) -> bool {
    &&& 0 <= base <= out.len()
    &&& sound_full(n, acc0, base, out)
    &&& complete_full(n, acc0, base, out)
    &&& entries_sorted(base, out)
}

proof fn lemma_block_init(n: TrieNode, acc0: Seq<char>, base: int, out: Seq<String>)
    requires
        0 <= base,
        out.len() == base + (if n.is_word { 1int } else { 0int }),
        n.is_word ==> base < out.len() && out[base]@ == acc0,
    ensures
        block_props(n, 0, acc0, base, out),
{
    assert(sound_upto(n, 0, acc0, base, out)) by {
        reveal(sound_upto);
        assert forall|k: int| base <= k < out.len() implies #[trigger] entry_from_upto(
            n,
            0,
            acc0,
            out,
            k,
        ) by {
            assert(k == base && n.is_word);
            let x = Seq::<char>::empty();
            assert(node_has_upto(n, 0, x));
            assert(acc0 + x =~= acc0);
            assert(out[k]@ == acc0 + x);
        }
    }
    assert(complete_upto(n, 0, acc0, base, out)) by {
        reveal(complete_upto);
        assert forall|x: Seq<char>| #[trigger] node_has_upto(n, 0, x) implies word_listed(
            acc0,
            base,
            out,
            x,
        ) by {
            assert(x.len() == 0 && n.is_word);
            assert(x =~= Seq::<char>::empty());
            assert(acc0 + x =~= acc0);
            assert(out[base]@ == acc0 + x);
        }
    }
    assert(entries_sorted(base, out)) by {
        reveal(entries_sorted);
    }
}

proof fn lemma_step_sound(
    n: TrieNode,
    ci: int,
    acc0: Seq<char>,
    base: int,
    out_mid: Seq<String>,
    out: Seq<String>,
)
    requires
        0 <= ci < n.children@.len(),
        0 <= base <= out_mid.len(),
        sound_upto(n, ci, acc0, base, out_mid),
        entries_kept(out_mid, out),
        sound_full(n.children@[ci].1, acc0.push(n.children@[ci].0), out_mid.len() as int, out),
    ensures
        sound_upto(n, ci + 1, acc0, base, out),
{
    reveal(sound_upto);
    reveal(sound_full);
    let c = n.children@[ci].0;
    let child = n.children@[ci].1;
    let mid = out_mid.len() as int;
    assert forall|k: int| base <= k < out.len() implies #[trigger] entry_from_upto(
        n,
        ci + 1,
        acc0,
        out,
        k,
    ) by {
        if k < mid {
            assert(entry_from_upto(n, ci, acc0, out_mid, k));
            let x = choose|x: Seq<char>| #[trigger]
                node_has_upto(n, ci, x) && out_mid[k]@ == acc0 + x;
            assert(node_has_upto(n, ci + 1, x));
            assert(out[k] == out_mid[k]);
            assert(out[k]@ == acc0 + x);
        } else {
            assert(entry_from_node(child, acc0.push(c), out, k));
            let y = choose|y: Seq<char>| #[trigger]
                node_has(child, y) && out[k]@ == acc0.push(c) + y;
            let x = seq![c] + y;
            assert(x[0] == c && x.skip(1) =~= y);
            assert(node_has_upto(n, ci + 1, x)) by {
                assert((n.children@[ci]).0 == x[0] && node_has(n.children@[ci].1, x.skip(1)));
            }
            assert(acc0.push(c) + y =~= acc0 + x);
            assert(out[k]@ == acc0 + x);
        }
    }
}

proof fn lemma_step_complete(
    n: TrieNode,
    ci: int,
    acc0: Seq<char>,
    base: int,
    out_mid: Seq<String>,
    out: Seq<String>,
)
    requires
        0 <= ci < n.children@.len(),
        0 <= base <= out_mid.len(),
        complete_upto(n, ci, acc0, base, out_mid),
        entries_kept(out_mid, out),
        complete_full(n.children@[ci].1, acc0.push(n.children@[ci].0), out_mid.len() as int, out),
    ensures
        complete_upto(n, ci + 1, acc0, base, out),
{
    reveal(complete_upto);
    reveal(complete_full);
    let c = n.children@[ci].0;
    let child = n.children@[ci].1;
    let mid = out_mid.len() as int;
    assert forall|x: Seq<char>| #[trigger] node_has_upto(n, ci + 1, x) implies word_listed(
        acc0,
        base,
        out,
        x,
    ) by {
        if node_has_upto(n, ci, x) {
            assert(word_listed(acc0, base, out_mid, x));
            let k = choose|k: int| base <= k < out_mid.len() && (#[trigger] out_mid[k])@ == acc0
                + x;
            assert(out[k] == out_mid[k]);
            assert(out[k]@ == acc0 + x);
        } else {
            assert(x.len() > 0);
            let i = choose|i: int|
                0 <= i < ci + 1 && i < n.children@.len() && (#[trigger] n.children@[i]).0 == x[0]
                    && node_has(n.children@[i].1, x.skip(1));
            assert(i == ci) by {
                if i < ci {
                    assert(node_has_upto(n, ci, x));
                }
            }
            let y = x.skip(1);
            assert(node_has(child, y));
            assert(word_listed(acc0.push(c), mid, out, y));
            let k = choose|k: int| mid <= k < out.len() && (#[trigger] out[k])@ == acc0.push(c)
                + y;
            assert(acc0.push(c) + y =~= acc0 + x) by {
                assert(x =~= seq![c] + y);
            }
            assert(out[k]@ == acc0 + x);
        }
    }
}

proof fn lemma_step_order(
    n: TrieNode,
    ci: int,
    acc0: Seq<char>,
    base: int,
    out_mid: Seq<String>,
    out: Seq<String>,
)
    requires
        node_wf(n),
        0 <= ci < n.children@.len(),
        0 <= base <= out_mid.len(),
        sound_upto(n, ci, acc0, base, out_mid),
        entries_sorted(base, out_mid),
        entries_kept(out_mid, out),
        sound_full(n.children@[ci].1, acc0.push(n.children@[ci].0), out_mid.len() as int, out),
        entries_sorted(out_mid.len() as int, out),
    ensures
        entries_sorted(base, out),
{
    reveal(sound_upto);
    reveal(sound_full);
    reveal(entries_sorted);
    let c = n.children@[ci].0;
    let child = n.children@[ci].1;
    let mid = out_mid.len() as int;
    assert forall|k1: int, k2: int| base <= k1 < k2 < out.len() implies lex_lt(
        (#[trigger] out[k1])@,
        (#[trigger] out[k2])@,
    ) by {
        if k2 < mid {
            assert(out[k1] == out_mid[k1] && out[k2] == out_mid[k2]);
        } else if k1 >= mid {
        } else {
            assert(entry_from_upto(n, ci, acc0, out_mid, k1));
            let x = choose|x: Seq<char>| #[trigger]
                node_has_upto(n, ci, x) && out_mid[k1]@ == acc0 + x;
            assert(entry_from_node(child, acc0.push(c), out, k2));
            let y = choose|y: Seq<char>| #[trigger]
                node_has(child, y) && out[k2]@ == acc0.push(c) + y;
            assert(out[k1] == out_mid[k1]);
            assert(acc0.push(c) + y =~= acc0 + (seq![c] + y));
            crate::text::lemma_lex_common_prefix(acc0, x, seq![c] + y);
            if x.len() == 0 {
                assert(lex_lt(x, seq![c] + y));
            } else {
                let i = choose|i: int|
                    0 <= i < ci && i < n.children@.len() && (#[trigger] n.children@[i]).0 == x[0]
                        && node_has(n.children@[i].1, x.skip(1));
                assert(n.children@[i].0 < n.children@[ci].0);
                assert((seq![c] + y)[0] == c);
                assert(lex_lt(x, seq![c] + y));
            }
        }
    }
}

proof fn lemma_finish_sound(n: TrieNode, cl: int, acc0: Seq<char>, base: int, out: Seq<String>)
    requires
        cl == n.children@.len(),
        sound_upto(n, cl, acc0, base, out),
    ensures
        sound_full(n, acc0, base, out),
{
    reveal(sound_upto);
    reveal(sound_full);
    assert forall|k: int| base <= k < out.len() implies #[trigger] entry_from_node(
        n,
        acc0,
        out,
        k,
    ) by {
        assert(entry_from_upto(n, cl, acc0, out, k));
        let x = choose|x: Seq<char>| #[trigger] node_has_upto(n, cl, x) && out[k]@ == acc0 + x;
        lemma_upto_full(n, x);
        assert(node_has(n, x) && out[k]@ == acc0 + x);
    }
}

proof fn lemma_finish_complete(n: TrieNode, cl: int, acc0: Seq<char>, base: int, out: Seq<String>)
    requires
        cl == n.children@.len(),
        complete_upto(n, cl, acc0, base, out),
    ensures
        complete_full(n, acc0, base, out),
{
    reveal(complete_upto);
    reveal(complete_full);
    assert forall|x: Seq<char>| #[trigger] node_has(n, x) implies word_listed(
        acc0,
        base,
        out,
        x,
    ) by {
        lemma_upto_full(n, x);
        assert(node_has_upto(n, cl, x));
    }
}

/// Appends to `out`, in code-point order, every word below `n` prefixed with
/// the path `acc`, leaving `acc` as it was.
fn collect_words(n: &TrieNode, acc: &mut Vec<char>, out: &mut Vec<String>)
    requires
        node_wf(*n),
    ensures
        final(acc)@ == old(acc)@,
        entries_kept(old(out)@, final(out)@),
        collected(*n, old(acc)@, old(out)@.len() as int, final(out)@),
    decreases *n,
{
    let ghost base = out@.len() as int;
    let ghost acc0 = acc@;
    if n.is_word {
        let word = crate::text::chars_to_string(acc.as_slice());
        out.push(word);
        proof {
            assert(out@[base]@ == acc0);
        }
    }
    proof {
        lemma_block_init(*n, acc0, base, out@);
    }
    let len = n.children.len();
    let mut ci: usize = 0;
    while ci < len
        invariant
            ci <= len,
            len == n.children@.len(),
            node_wf(*n),
            acc@ == acc0,
            base == old(out)@.len(),
            entries_kept(old(out)@, out@),
            block_props(*n, ci as int, acc0, base, out@),
        decreases len - ci,
    {
        let ghost out_mid = out@;
        let c = n.children[ci].0;
        acc.push(c);
        collect_words(&n.children[ci].1, acc, out);
        let _ = acc.pop();
        proof {
            assert(acc0.push(c).drop_last() =~= acc0);
            lemma_step_sound(*n, ci as int, acc0, base, out_mid, out@);
            lemma_step_complete(*n, ci as int, acc0, base, out_mid, out@);
            lemma_step_order(*n, ci as int, acc0, base, out_mid, out@);
        }
        ci = ci + 1;
    }
    proof {
        lemma_finish_sound(*n, len as int, acc0, base, out@);
        lemma_finish_complete(*n, len as int, acc0, base, out@);
    }
}

impl Trie {
    /// Returns all stored words that start with the given prefix, in strictly
    /// increasing code-point order; the empty prefix yields every word.
    #[verifier::rlimit(100)]
    pub fn completions(&self, prefix: &str) -> (r: Vec<String>)
        requires
            self.wf(),
        ensures
            forall|k: int|
                0 <= k < r@.len() ==> self@.contains((#[trigger] r@[k])@) && prefix@.is_prefix_of(
                    r@[k]@,
                ),
            forall|x: Seq<char>|
                self@.contains(x) && prefix@.is_prefix_of(x) ==> exists|k: int|
                    0 <= k < r@.len() && (#[trigger] r@[k])@ == x,
            forall|k1: int, k2: int|
                0 <= k1 < k2 < r@.len() ==> lex_lt((#[trigger] r@[k1])@, (#[trigger] r@[k2])@),
    {
        let pchars = crate::text::str_to_chars(prefix);
        let mut out: Vec<String> = Vec::new();
        proof {
            assert(pchars@.skip(0) =~= prefix@);
        }
        match node_find(&self.root, &pchars, 0) {
            None => {
                proof {
                    assert forall|x: Seq<char>|
                        !(self@.contains(x) && prefix@.is_prefix_of(x)) by {
                        if prefix@.is_prefix_of(x) {
                            assert(prefix@ + x.skip(prefix@.len() as int) =~= x);
                            assert(!node_has(self.root, prefix@ + x.skip(prefix@.len() as int)));
                        }
                    }
                }
                out
            },
            Some(m) => {
                let mut acc = pchars;
                collect_words(m, &mut acc, &mut out);
                proof {
                    assert forall|k: int|
                        0 <= k < out@.len() implies self@.contains((#[trigger] out@[k])@)
                        && prefix@.is_prefix_of(out@[k]@) by {
                        reveal(sound_full);
                        assert(entry_from_node(*m, prefix@, out@, k));
                        let x = choose|x: Seq<char>| #[trigger]
                            node_has(*m, x) && out@[k]@ == prefix@ + x;
                        assert(node_has(self.root, prefix@ + x));
                        assert((prefix@ + x).subrange(0, prefix@.len() as int) =~= prefix@);
                    }
                    assert forall|x: Seq<char>|
                        self@.contains(x) && prefix@.is_prefix_of(x) implies exists|k: int|
                        0 <= k < out@.len() && (#[trigger] out@[k])@ == x by {
                        reveal(complete_full);
                        let tail = x.skip(prefix@.len() as int);
                        assert(prefix@ + tail =~= x);
                        assert(node_has(*m, tail));
                        assert(word_listed(prefix@, 0, out@, tail));
                        let k = choose|k: int|
                            0 <= k < out@.len() && (#[trigger] out@[k])@ == prefix@ + tail;
                        assert(out@[k]@ == x);
                    }
                    assert forall|k1: int, k2: int|
                        0 <= k1 < k2 < out@.len() implies lex_lt(
                        (#[trigger] out@[k1])@,
                        (#[trigger] out@[k2])@,
                    ) by {
                        reveal(entries_sorted);
                    }
                }
                out
            },
        }
    }

    /// Returns every word in the trie, in code-point order.
    pub fn all_words(&self) -> (r: Vec<String>)
        requires
            self.wf(),
        ensures
            forall|k: int| 0 <= k < r@.len() ==> self@.contains((#[trigger] r@[k])@),
            forall|x: Seq<char>|
                self@.contains(x) ==> exists|k: int| 0 <= k < r@.len() && (#[trigger] r@[k])@ == x,
            forall|k1: int, k2: int|
                0 <= k1 < k2 < r@.len() ==> lex_lt((#[trigger] r@[k1])@, (#[trigger] r@[k2])@),
    {
        let r = self.completions("");
        proof {
            reveal_strlit("");
            assert forall|x: Seq<char>| self@.contains(x) implies ""@.is_prefix_of(x) by {
                assert(""@ =~= x.subrange(0, 0));
            }
        }
        r
    }

    /// Inserts a word into the trie; inserting an already-present word, or
    /// the empty word, changes nothing.
    pub fn insert(&mut self, word: &str)
        requires
            old(self).wf(),
            !old(self)@.contains(word@) ==> old(self)@.len() < usize::MAX,
        ensures
            final(self).wf(),
            final(self)@.len() <= old(self)@.len() + 1,
            word@.len() == 0 ==> final(self)@ == old(self)@,
            word@.len() > 0 ==> final(self)@ == old(self)@.insert(word@),
    {
        let chars = crate::text::str_to_chars(word);
        if chars.len() == 0 {
            return ;
        }
        proof {
            assert(chars@.skip(0) =~= word@);
        }
        let added = node_insert(&mut self.root, &chars, 0);
        proof {
            assert(self@ =~= old(self)@.insert(word@));
            if added {
                assert(!old(self)@.contains(word@));
                vstd::set::axiom_set_insert_len(old(self)@, word@);
            } else {
                assert(old(self)@.contains(word@));
                assert(self@ =~= old(self)@);
            }
        }
        if added {
            self.count = self.count + 1;
        }
    }

    /// Removes a word from the trie, returning whether it was present.
    /// Words extending the removed one are unaffected.
    pub fn remove(&mut self, word: &str) -> (removed: bool)
        requires
            old(self).wf(),
        ensures
            final(self).wf(),
            removed == old(self)@.contains(word@),
            final(self)@ == old(self)@.remove(word@),
    {
        let chars = crate::text::str_to_chars(word);
        if chars.len() == 0 {
            proof {
                assert(!old(self)@.contains(word@));
                assert(self@ =~= old(self)@.remove(word@));
            }
            return false;
        }
        proof {
            assert(chars@.skip(0) =~= word@);
        }
        let removed = node_remove(&mut self.root, &chars, 0);
        proof {
            assert(self@ =~= old(self)@.remove(word@));
            if removed {
                assert(old(self)@.contains(word@));
                vstd::set::axiom_set_remove_len(old(self)@, word@);
                vstd::set::axiom_set_remove_finite(old(self)@, word@);
            } else {
                assert(self@ =~= old(self)@);
            }
        }
        if removed {
            self.count = self.count - 1;
        }
        removed
    }

    /// Returns the number of words in the trie.
    pub fn len(&self) -> (r: usize)
        requires
            self.wf(),
        ensures
            r == self@.len(),
    {
        self.count
    }

    /// Returns true if the trie holds no words.
    pub fn is_empty(&self) -> (r: bool)
        requires
            self.wf(),
        ensures
            r == (self@.len() == 0),
    {
        self.count == 0
    }

    /// Removes every word.
    pub fn clear(&mut self)
        ensures
            final(self).wf(),
            final(self)@ == Set::<Seq<char>>::empty(),
    {
        self.root = TrieNode { children: Vec::new(), is_word: false };
        self.count = 0;
        proof {
            assert(self@ =~= Set::<Seq<char>>::empty());
        }
    }

    /// Checks if a word exists in the trie; the empty word never does.
    pub fn contains(&self, word: &str) -> (r: bool)
        requires
            self.wf(),
        ensures
            r == self@.contains(word@),
    {
        let chars = crate::text::str_to_chars(word);
        if chars.len() == 0 {
            return false;
        }
        proof {
            assert(chars@.skip(0) =~= word@);
        }
        node_contains(&self.root, &chars, 0)
    }
}

} // verus!
