//! The in-memory credential store: a name-to-secret map with unique names.
//! First write wins; an `add` with a name already present changes nothing.

use vstd::prelude::*;

verus! {

/// The map that a sequence of (name, secret) pairs denotes; on duplicate
/// names, a later pair wins.
pub open spec fn pairs_to_map(s: Seq<(Seq<char>, Seq<char>)>) -> Map<Seq<char>, Seq<char>>
    decreases s.len(),
{
    if s.len() == 0 {
        Map::empty()
    } else {
        pairs_to_map(s.drop_last()).insert(s.last().0, s.last().1)
    }
}

/// No two pairs share a name.
pub open spec fn distinct_keys(s: Seq<(Seq<char>, Seq<char>)>) -> bool {
    forall|i: int, j: int| 0 <= i < j < s.len() ==> (#[trigger] s[i]).0 != (#[trigger] s[j]).0
}

/// Some pair of `s` carries the name `n`.
pub open spec fn key_at(s: Seq<(Seq<char>, Seq<char>)>, n: Seq<char>) -> bool {
    exists|i: int| 0 <= i < s.len() && (#[trigger] s[i]).0 == n
}

pub proof fn lemma_pairs_to_map_dom(s: Seq<(Seq<char>, Seq<char>)>)
    ensures
        forall|n: Seq<char>| (#[trigger] pairs_to_map(s).dom().contains(n)) == key_at(s, n),
    decreases s.len(),
{
    if s.len() == 0 {
        assert forall|n: Seq<char>|
            (#[trigger] pairs_to_map(s).dom().contains(n)) == key_at(s, n) by {
            if key_at(s, n) {
                let i = choose|i: int| 0 <= i < s.len() && (#[trigger] s[i]).0 == n;
            }
        }
    } else {
        lemma_pairs_to_map_dom(s.drop_last());
        assert forall|n: Seq<char>|
            (#[trigger] pairs_to_map(s).dom().contains(n)) == key_at(s, n) by {
            if pairs_to_map(s).dom().contains(n) {
                if n == s.last().0 {
                    assert(s[s.len() - 1].0 == n);
                    assert(key_at(s, n));
                } else {
                    assert(pairs_to_map(s.drop_last()).dom().contains(n));
                    assert(key_at(s.drop_last(), n));
                    let i = choose|i: int|
                        0 <= i < s.drop_last().len() && (#[trigger] s.drop_last()[i]).0 == n;
                    assert(s[i].0 == n);
                    assert(key_at(s, n));
                }
            }
            if key_at(s, n) {
                let i = choose|i: int| 0 <= i < s.len() && (#[trigger] s[i]).0 == n;
                if i < s.len() - 1 {
                    assert(s.drop_last()[i].0 == n);
                    assert(key_at(s.drop_last(), n));
                    assert(pairs_to_map(s.drop_last()).dom().contains(n));
                } else {
                    assert(n == s.last().0);
                }
                assert(pairs_to_map(s).dom().contains(n));
            }
        }
    }
}

/// A name carried by no pair is not in the map.
pub proof fn lemma_pairs_to_map_absent(s: Seq<(Seq<char>, Seq<char>)>, n: Seq<char>)
    requires
        forall|k: int| 0 <= k < s.len() ==> (#[trigger] s[k]).0 != n,
    ensures
        !pairs_to_map(s).dom().contains(n),
{
    lemma_pairs_to_map_dom(s);
    if key_at(s, n) {
        let i = choose|i: int| 0 <= i < s.len() && (#[trigger] s[i]).0 == n;
    }
}

pub proof fn lemma_pairs_to_map_index(s: Seq<(Seq<char>, Seq<char>)>, i: int)
    requires
        distinct_keys(s),
        0 <= i < s.len(),
    ensures
        pairs_to_map(s).dom().contains(s[i].0),
        pairs_to_map(s)[s[i].0] == s[i].1,
    decreases s.len(),
{
    if i == s.len() - 1 {
    } else {
        assert(distinct_keys(s.drop_last()));
        lemma_pairs_to_map_index(s.drop_last(), i);
        assert(s.drop_last()[i] == s[i]);
        assert(s[i].0 != s.last().0);
    }
}

pub proof fn lemma_pairs_to_map_len(s: Seq<(Seq<char>, Seq<char>)>)
    requires
        distinct_keys(s),
    ensures
        pairs_to_map(s).dom().finite(),
        pairs_to_map(s).dom().len() == s.len(),
    decreases s.len(),
{
    if s.len() == 0 {
        assert(pairs_to_map(s).dom() =~= Set::<Seq<char>>::empty());
    } else {
        assert(distinct_keys(s.drop_last()));
        lemma_pairs_to_map_len(s.drop_last());
        let prev = pairs_to_map(s.drop_last());
        assert(!prev.dom().contains(s.last().0)) by {
            assert forall|k: int|
                0 <= k < s.drop_last().len() implies (#[trigger] s.drop_last()[k]).0
                != s.last().0 by {
                assert(s.drop_last()[k] == s[k]);
            }
            lemma_pairs_to_map_absent(s.drop_last(), s.last().0);
        }
        assert(pairs_to_map(s).dom() =~= prev.dom().insert(s.last().0));
        vstd::set::axiom_set_insert_len(prev.dom(), s.last().0);
    }
}

/// Owns all credentials of a session.
pub struct Credentials {
    entries: Vec<(String, String)>,
}

impl Credentials {
    /// The name-to-secret map these entries denote.
    pub closed spec fn view(&self) -> Map<Seq<char>, Seq<char>> {
        pairs_to_map(self.entries.deep_view())
    }

    /// Internal invariant: names are unique.
    pub closed spec fn wf(&self) -> bool {
        distinct_keys(self.entries.deep_view())
    }

    /// Creates an empty store.
    pub fn new() -> (r: Credentials)
        ensures
            r.wf(),
            r@ == Map::<Seq<char>, Seq<char>>::empty(),
    {
        Credentials { entries: Vec::new() }
    }

    /// Builds a store from (name, secret) pairs with distinct names.
    pub fn from_map(data: Vec<(String, String)>) -> (r: Credentials)
        requires
            distinct_keys(data.deep_view()),
        ensures
            r.wf(),
            r@ == pairs_to_map(data.deep_view()),
    {
        Credentials { entries: data }
    }

    /// The entries as (name, secret) pairs; names are distinct.
    pub fn to_map(&self) -> (r: &Vec<(String, String)>)
        requires
            self.wf(),
        ensures
            distinct_keys(r.deep_view()),
            pairs_to_map(r.deep_view()) == self@,
    {
        &self.entries
    }

    /// The entries, open to direct mutation: what the caller reads is the
    /// current map, and whatever the caller leaves becomes the store's
    /// contents, well-formed exactly when its names stay unique.
    pub fn to_map_mut(&mut self) -> (r: &mut Vec<(String, String)>)
        requires
            old(self).wf(),
        ensures
            distinct_keys((*r).deep_view()),
            pairs_to_map((*r).deep_view()) == old(self)@,
            final(self)@ == pairs_to_map(final(r).deep_view()),
            final(self).wf() == distinct_keys(final(r).deep_view()),
    {
        &mut self.entries
    }

    /// Stores a new credential; a name that is already present is rejected
    /// and nothing changes.
    pub fn add(&mut self, name: String, secret: String) -> (r: Result<(), String>)
        requires
            old(self).wf(),
        ensures
            final(self).wf(),
            match r {
                Ok(()) => !old(self)@.dom().contains(name@) && final(self)@ == old(self)@.insert(
                    name@,
                    secret@,
                ),
                Err(msg) => old(self)@.dom().contains(name@) && final(self)@ == old(self)@
                    && msg@ == "'"@ + name@ + "' already exists."@,
            },
    {
        let n = self.entries.len();
        let mut i: usize = 0;
        while i < n
            invariant
                i <= n,
                n == self.entries@.len(),
                self == old(self),
                self.wf(),
                forall|k: int| 0 <= k < i ==> (#[trigger] self.entries.deep_view()[k]).0 != name@,
            decreases n - i,
        {
            if self.entries[i].0 == name {
                proof {
                    assert(self.entries.deep_view()[i as int].0 == name@);
                    lemma_pairs_to_map_index(self.entries.deep_view(), i as int);
                }
                let mut msg = String::new();
                msg.append("'");
                msg.append(name.as_str());
                msg.append("' already exists.");
                proof {
                    assert(msg@ =~= "'"@ + name@ + "' already exists."@);
                }
                return Err(msg);
            }
            proof {
                assert(self.entries.deep_view()[i as int].0 == self.entries@[i as int].0@);
            }
            i = i + 1;
        }
        proof {
            lemma_pairs_to_map_absent(self.entries.deep_view(), name@);
        }
        let ghost before = self.entries.deep_view();
        self.entries.push((name, secret));
        proof {
            let after = self.entries.deep_view();
            assert(after =~= before.push((name@, secret@)));
            assert(after.drop_last() =~= before);
            assert(final(self)@ == old(self)@.insert(name@, secret@));
            assert(distinct_keys(after)) by {
                assert forall|p: int, q: int|
                    0 <= p < q < after.len() implies (#[trigger] after[p]).0
                    != (#[trigger] after[q]).0 by {
                    if q == after.len() - 1 {
                        assert(after[p] == before[p]);
                    } else {
                        assert(after[p] == before[p] && after[q] == before[q]);
                    }
                }
            }
        }
        Ok(())
    }

    /// Looks a secret up by exact name.
    pub fn get(&self, name: &str) -> (r: Option<&String>)
        requires
            self.wf(),
        ensures
            match r {
                Some(secret) => self@.dom().contains(name@) && secret@ == self@[name@],
                None => !self@.dom().contains(name@),
            },
    {
        let n = self.entries.len();
        let mut i: usize = 0;
        while i < n
            invariant
                i <= n,
                n == self.entries@.len(),
                self.wf(),
                forall|k: int| 0 <= k < i ==> (#[trigger] self.entries.deep_view()[k]).0 != name@,
            decreases n - i,
        {
            if crate::text::str_eq(self.entries[i].0.as_str(), name) {
                proof {
                    assert(self.entries.deep_view()[i as int].0 == name@);
                    lemma_pairs_to_map_index(self.entries.deep_view(), i as int);
                }
                return Some(&self.entries[i].1);
            }
            proof {
                assert(self.entries.deep_view()[i as int].0 == self.entries@[i as int].0@);
            }
            i = i + 1;
        }
        proof {
            lemma_pairs_to_map_absent(self.entries.deep_view(), name@);
        }
        None
    }

    /// Removes a credential by name, reporting whether it existed.
    pub fn remove(&mut self, name: &str) -> (r: bool)
        requires
            old(self).wf(),
        ensures
            final(self).wf(),
            r == old(self)@.dom().contains(name@),
            final(self)@ == old(self)@.remove(name@),
    {
        let n = self.entries.len();
        let mut i: usize = 0;
        while i < n
            invariant
                i <= n,
                n == self.entries@.len(),
                self == old(self),
                self.wf(),
                forall|k: int| 0 <= k < i ==> (#[trigger] self.entries.deep_view()[k]).0 != name@,
            decreases n - i,
        {
            if crate::text::str_eq(self.entries[i].0.as_str(), name) {
                proof {
                    assert(self.entries.deep_view()[i as int].0 == name@);
                    lemma_pairs_to_map_index(self.entries.deep_view(), i as int);
                    lemma_pairs_to_map_remove(self.entries.deep_view(), i as int);
                }
                let ghost before = self.entries.deep_view();
                let _ = self.entries.remove(i);
                proof {
                    assert(self.entries.deep_view() =~= before.remove(i as int));
                    assert(distinct_keys(before.remove(i as int))) by {
                        let rem = before.remove(i as int);
                        assert forall|p: int, q: int|
                            0 <= p < q < rem.len() implies (#[trigger] rem[p]).0
                            != (#[trigger] rem[q]).0 by {
                            let p0 = if p < i as int {
                                p
                            } else {
                                p + 1
                            };
                            let q0 = if q < i as int {
                                q
                            } else {
                                q + 1
                            };
                            assert(rem[p] == before[p0] && rem[q] == before[q0]);
                        }
                    }
                }
                return true;
            }
            proof {
                assert(self.entries.deep_view()[i as int].0 == self.entries@[i as int].0@);
            }
            i = i + 1;
        }
        proof {
            lemma_pairs_to_map_absent(self.entries.deep_view(), name@);
            assert(self@ =~= old(self)@.remove(name@));
        }
        false
    }

    /// The stored names, in no particular order.
    pub fn list(&self) -> (r: Vec<String>)
        requires
            self.wf(),
        ensures
            r@.len() == self@.dom().len(),
            forall|k1: int, k2: int|
                0 <= k1 < k2 < r@.len() ==> (#[trigger] r@[k1])@ != (#[trigger] r@[k2])@,
            forall|k: int| 0 <= k < r@.len() ==> self@.dom().contains((#[trigger] r@[k])@),
            forall|n: Seq<char>|
                self@.dom().contains(n) ==> exists|k: int|
                    0 <= k < r@.len() && (#[trigger] r@[k])@ == n,
    {
        let n = self.entries.len();
        let mut r: Vec<String> = Vec::new();
        let mut i: usize = 0;
        while i < n
            invariant
                i <= n,
                n == self.entries@.len(),
                r@.len() == i,
                forall|k: int| 0 <= k < i ==> (#[trigger] r@[k])@ == self.entries.deep_view()[k].0,
            decreases n - i,
        {
            r.push(self.entries[i].0.clone());
            proof {
                assert(self.entries.deep_view()[i as int].0 == self.entries@[i as int].0@);
            }
            i = i + 1;
        }
        proof {
            lemma_pairs_to_map_len(self.entries.deep_view());
            lemma_pairs_to_map_dom(self.entries.deep_view());
            assert forall|nm: Seq<char>| self@.dom().contains(nm) implies exists|k: int|
                0 <= k < r@.len() && (#[trigger] r@[k])@ == nm by {
                assert(key_at(self.entries.deep_view(), nm));
                let i0 = choose|i0: int|
                    0 <= i0 < self.entries.deep_view().len()
                        && (#[trigger] self.entries.deep_view()[i0]).0 == nm;
                assert(r@[i0]@ == nm);
            }
        }
        r
    }

    /// True when no credential is stored.
    pub fn is_empty(&self) -> (r: bool)
        requires
            self.wf(),
        ensures
            r == (self@.dom().len() == 0),
    {
        proof {
            lemma_pairs_to_map_len(self.entries.deep_view());
        }
        self.entries.len() == 0
    }

    /// Drops every credential.
    pub fn clear(&mut self)
        ensures
            final(self).wf(),
            final(self)@ == Map::<Seq<char>, Seq<char>>::empty(),
    {
        self.entries.clear();
    }
}

/// Adding a credential and then looking the same name up yields exactly the
/// stored secret, whatever else the store holds.
pub proof fn lemma_add_then_get(m: Map<Seq<char>, Seq<char>>, name: Seq<char>, secret: Seq<char>)
    ensures
        m.insert(name, secret).dom().contains(name),
        m.insert(name, secret)[name] == secret,
{
}

/// First write wins: once a name is stored, a second `add` of that name is
/// the rejected branch of `Credentials::add`, which leaves the map unchanged,
/// so a later `get` still yields the first secret.
pub proof fn lemma_first_write_wins(
    m: Map<Seq<char>, Seq<char>>,
    name: Seq<char>,
    first: Seq<char>,
)
    requires
        !m.dom().contains(name),
    ensures
        m.insert(name, first).dom().contains(name),
        m.insert(name, first)[name] == first,
{
}

proof fn lemma_pairs_to_map_remove(s: Seq<(Seq<char>, Seq<char>)>, i: int)
    requires
        distinct_keys(s),
        0 <= i < s.len(),
    ensures
        pairs_to_map(s.remove(i)) == pairs_to_map(s).remove(s[i].0),
    decreases s.len(),
{
    if i == s.len() - 1 {
        assert(s.remove(i) =~= s.drop_last());
        assert(!pairs_to_map(s.drop_last()).dom().contains(s[i].0)) by {
            assert forall|k: int|
                0 <= k < s.drop_last().len() implies (#[trigger] s.drop_last()[k]).0 != s[i].0 by {
                assert(s.drop_last()[k] == s[k]);
            }
            lemma_pairs_to_map_absent(s.drop_last(), s[i].0);
        }
        assert(pairs_to_map(s.remove(i)) =~= pairs_to_map(s).remove(s[i].0));
    } else {
        assert(distinct_keys(s.drop_last()));
        lemma_pairs_to_map_remove(s.drop_last(), i);
        assert(s.drop_last()[i] == s[i]);
        assert(s.remove(i).drop_last() =~= s.drop_last().remove(i));
        assert(s.remove(i).last() == s.last());
        assert(pairs_to_map(s.remove(i)) == pairs_to_map(s.drop_last().remove(i)).insert(
            s.last().0,
            s.last().1,
        ));
        assert(s[i].0 != s.last().0);
        assert(pairs_to_map(s.drop_last()).remove(s[i].0).insert(s.last().0, s.last().1)
            =~= pairs_to_map(s.drop_last()).insert(s.last().0, s.last().1).remove(s[i].0));
    }
}

} // verus!
