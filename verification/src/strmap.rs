//! A small association map from URL strings to values.
//!
//! The map is kept as a vector of key/value pairs with pairwise-distinct key
//! contents; its mathematical meaning is a `Map<Seq<char>, _>` over the key
//! views. Keys are compared by string content, so two `String`s with the same
//! characters name the same entry.

use vstd::prelude::*;

verus! {

/// Does some entry of `s` carry a key whose characters are `k`?
pub open spec fn alist_has_key<V: View>(s: Seq<(String, V)>, k: Seq<char>) -> bool {
    exists|i: int| 0 <= i < s.len() && s[i].0@ == k
}

/// The index of the entry of `s` whose key characters are `k`
/// (meaningful only when `alist_has_key(s, k)` holds and keys are distinct).
pub open spec fn alist_key_index<V: View>(s: Seq<(String, V)>, k: Seq<char>) -> int {
    choose|i: int| 0 <= i < s.len() && s[i].0@ == k
}

/// No two entries of `s` carry keys with the same characters.
pub open spec fn alist_wf<V: View>(s: Seq<(String, V)>) -> bool {
    forall|i: int, j: int| 0 <= i < j < s.len() ==> s[i].0@ != s[j].0@
}

/// The map that a pair sequence stands for: each key's characters are mapped
/// to the view of the value stored beside that key.
pub open spec fn alist_view<V: View>(s: Seq<(String, V)>) -> Map<Seq<char>, V::V> {
    Map::new(
        |k: Seq<char>| alist_has_key(s, k),
        |k: Seq<char>| s[alist_key_index(s, k)].1@,
    )
}

/// A map from URL strings to values, keyed by string content.
pub struct StrMap<V> {
    pub pairs: Vec<(String, V)>,
}

impl<V: View> View for StrMap<V> {
    type V = Map<Seq<char>, <V as View>::V>;

    open spec fn view(&self) -> Map<Seq<char>, <V as View>::V> {
        alist_view(self.pairs@)
    }
}

impl<V: View> StrMap<V> {
    /// Well-formed: no two entries share key contents.
    pub open spec fn wf(self) -> bool {
        alist_wf(self.pairs@)
    }

    pub fn new() -> (r: Self)
        ensures
            r.wf(),
            r@ == Map::<Seq<char>, <V as View>::V>::empty(),
            r.pairs@.len() == 0,
    {
        let r = StrMap { pairs: Vec::new() };
        proof {
            assert(r@ =~= Map::<Seq<char>, <V as View>::V>::empty());
        }
        r
    }

    /// The position of the entry whose key equals `k`, if one exists.
    fn index_of(&self, k: &String) -> (r: Option<usize>)
        ensures
            match r {
                Some(i) => i < self.pairs@.len() && self.pairs@[i as int].0@ == k@,
                None => !alist_has_key(self.pairs@, k@),
            },
    {
        let n = self.pairs.len();
        let mut i: usize = 0;
        while i < n
            invariant
                n == self.pairs@.len(),
                i <= n,
                forall|j: int| 0 <= j < i ==> self.pairs@[j].0@ != k@,
            decreases n - i,
        {
            if self.pairs[i].0 == *k {
                return Some(i);
            }
            i = i + 1;
        }
        None
    }

    pub fn contains_key(&self, k: &String) -> (r: bool)
        ensures
            r == self@.contains_key(k@),
    {
        match self.index_of(k) {
            Some(i) => {
                proof {
                    assert(alist_has_key(self.pairs@, k@));
                }
                true
            },
            None => false,
        }
    }

    pub fn get(&self, k: &String) -> (r: Option<&V>)
        requires
            self.wf(),
        ensures
            r is Some <==> self@.contains_key(k@),
            (r matches Some(v) ==> self@[k@] == v@),
    {
        match self.index_of(k) {
            Some(i) => {
                proof {
                    assert(alist_has_key(self.pairs@, k@));
                    let j = alist_key_index(self.pairs@, k@);
                    assert(0 <= j < self.pairs@.len() && self.pairs@[j].0@ == k@);
                    assert(j == i as int);
                }
                Some(&self.pairs[i].1)
            },
            None => None,
        }
    }

    /// Removes the entry keyed by `k`, if one exists.
    pub fn remove(&mut self, k: &String)
        requires
            old(self).wf(),
        ensures
            final(self).wf(),
            final(self)@ == old(self)@.remove(k@),
    {
        match self.index_of(k) {
            Some(i) => {
                proof {
                    lemma_alist_remove_at(self.pairs@, i as int);
                }
                self.pairs.remove(i);
            },
            None => {
                proof {
                    assert(self@ =~= self@.remove(k@));
                }
            },
        }
    }

    /// Inserts or overwrites the entry keyed by `k`.
    pub fn insert(&mut self, k: String, v: V)
        requires
            old(self).wf(),
        ensures
            final(self).wf(),
            final(self)@ == old(self)@.insert(k@, v@),
    {
        self.remove(&k);
        proof {
            assert(!self@.contains_key(k@));
            assert(!alist_has_key(self.pairs@, k@));
            lemma_alist_push(self.pairs@, k, v);
            assert(old(self)@.remove(k@).insert(k@, v@) =~= old(self)@.insert(k@, v@));
        }
        self.pairs.push((k, v));
    }
}

/// In a well-formed pair sequence, the entry at any position is the one the
/// map view associates with its key.
pub proof fn lemma_alist_index_value<V: View>(s: Seq<(String, V)>, j: int)
    requires
        alist_wf(s),
        0 <= j < s.len(),
    ensures
        alist_view(s).contains_key(s[j].0@),
        alist_view(s)[s[j].0@] == s[j].1@,
{
    assert(alist_has_key(s, s[j].0@));
    let j1 = alist_key_index(s, s[j].0@);
    assert(0 <= j1 < s.len() && s[j1].0@ == s[j].0@);
    assert(j1 == j);
}

/// Appending an entry with a fresh key extends the map by exactly that entry.
proof fn lemma_alist_push<V: View>(s: Seq<(String, V)>, k: String, v: V)
    requires
        alist_wf(s),
        !alist_has_key(s, k@),
    ensures
        alist_wf(s.push((k, v))),
        alist_view(s.push((k, v))) == alist_view(s).insert(k@, v@),
{
    let s2 = s.push((k, v));
    let n = s.len() as int;
    assert(s2[n] == (k, v));
    assert forall|i: int, j: int| 0 <= i < j < s2.len() implies s2[i].0@ != s2[j].0@ by {
        if j < n {
            assert(s[i].0@ != s[j].0@);
        } else {
            assert(s2[i] == s[i]);
            assert(s[i].0@ != k@);
        }
    }
    assert forall|q: Seq<char>| #[trigger] alist_has_key(s2, q) implies alist_has_key(s, q) || q
        == k@ by {
        let i = choose|i: int| 0 <= i < s2.len() && s2[i].0@ == q;
        if i < n {
            assert(s[i].0@ == q);
        }
    }
    assert forall|q: Seq<char>| #[trigger] alist_has_key(s, q) implies alist_has_key(s2, q) by {
        let i = choose|i: int| 0 <= i < s.len() && s[i].0@ == q;
        assert(s2[i].0@ == q);
    }
    assert(s2[n].0@ == k@);
    assert(alist_has_key(s2, k@));
    assert forall|q: Seq<char>| #[trigger] alist_has_key(s2, q) implies alist_view(s2)[q] == (
    if q == k@ {
        v@
    } else {
        alist_view(s)[q]
    }) by {
        let j = alist_key_index(s2, q);
        assert(0 <= j < s2.len() && s2[j].0@ == q);
        if q == k@ {
            if j < n {
                assert(s[j].0@ == k@);
                assert(alist_has_key(s, k@));
                assert(false);
            }
            assert(alist_view(s2)[q] == v@);
        } else {
            assert(j < n);
            assert(s[j].0@ == q);
            assert(alist_has_key(s, q));
            let j1 = alist_key_index(s, q);
            assert(0 <= j1 < s.len() && s[j1].0@ == q);
            assert(j1 == j);
            assert(alist_view(s2)[q] == s2[j].1@);
            assert(alist_view(s)[q] == s[j].1@);
        }
    }
    assert(alist_view(s2) =~= alist_view(s).insert(k@, v@));
}

/// Removing the entry at position `i` removes exactly its key from the map.
proof fn lemma_alist_remove_at<V: View>(s: Seq<(String, V)>, i: int)
    requires
        alist_wf(s),
        0 <= i < s.len(),
    ensures
        alist_wf(s.remove(i)),
        alist_view(s.remove(i)) == alist_view(s).remove(s[i].0@),
{
    let s2 = s.remove(i);
    let n = s.len() as int;
    s.remove_ensures(i);
    assert forall|j: int| 0 <= j < s2.len() implies s2[j] == (if j < i {
        s[j]
    } else {
        s[j + 1]
    }) by {}
    assert forall|a: int, b: int| 0 <= a < b < s2.len() implies s2[a].0@ != s2[b].0@ by {
        let a1: int = if a < i {
            a
        } else {
            a + 1
        };
        let b1: int = if b < i {
            b
        } else {
            b + 1
        };
        assert(s2[a] == s[a1] && s2[b] == s[b1]);
        assert(a1 < b1);
        assert(s[a1].0@ != s[b1].0@);
    }
    let rk = s[i].0@;
    assert forall|j: int| 0 <= j < s2.len() implies s2[j].0@ != rk by {
        let j1: int = if j < i {
            j
        } else {
            j + 1
        };
        assert(s2[j] == s[j1]);
        assert(j1 != i);
        assert(s[j1].0@ != s[i].0@);
    }
    assert(!alist_has_key(s2, rk));
    assert forall|q: Seq<char>| #[trigger] alist_has_key(s2, q) implies alist_has_key(s, q) && q
        != rk by {
        let j = choose|j: int| 0 <= j < s2.len() && s2[j].0@ == q;
        let j1: int = if j < i {
            j
        } else {
            j + 1
        };
        assert(s[j1].0@ == q);
    }
    assert forall|q: Seq<char>| alist_has_key(s, q) && q != rk implies #[trigger] alist_has_key(
        s2,
        q,
    ) by {
        let j = choose|j: int| 0 <= j < s.len() && s[j].0@ == q;
        assert(j != i);
        let j2: int = if j < i {
            j
        } else {
            j - 1
        };
        assert(s2[j2] == s[j]);
        assert(s2[j2].0@ == q);
    }
    assert forall|q: Seq<char>| #[trigger] alist_has_key(s2, q) implies alist_view(s2)[q]
        == alist_view(s)[q] by {
        let j = alist_key_index(s2, q);
        assert(0 <= j < s2.len() && s2[j].0@ == q);
        let j1: int = if j < i {
            j
        } else {
            j + 1
        };
        assert(s2[j] == s[j1]);
        assert(alist_has_key(s, q));
        let j3 = alist_key_index(s, q);
        assert(0 <= j3 < s.len() && s[j3].0@ == q);
        assert(j3 == j1);
        assert(alist_view(s2)[q] == s2[j].1@);
        assert(alist_view(s)[q] == s[j3].1@);
    }
    assert(alist_view(s2) =~= alist_view(s).remove(rk));
}

} // verus!
