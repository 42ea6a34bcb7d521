//! Maps keyed by strings that remember the order in which keys first arrived, and the
//! header map built on them.
use vstd::prelude::*;

verus! {

/// A header list: pairs of name and value.
pub type HeaderSeq = Seq<(Seq<char>, Seq<char>)>;

/// No key occurs twice.
pub open spec fn distinct_keys<V>(s: Seq<(Seq<char>, V)>) -> bool {
    forall|i: int, j: int| 0 <= i < s.len() && 0 <= j < s.len() && i != j ==> s[i].0 != s[j].0
}

/// Some entry has the key `k`.
pub open spec fn has_key<V>(s: Seq<(Seq<char>, V)>, k: Seq<char>) -> bool {
    exists|i: int| 0 <= i < s.len() && s[i].0 == k
}

/// The position of the entry with key `k`, where there is one.
pub open spec fn key_pos<V>(s: Seq<(Seq<char>, V)>, k: Seq<char>) -> int {
    choose|i: int| 0 <= i < s.len() && s[i].0 == k
}

/// The value stored under `k`.
pub open spec fn lookup<V>(s: Seq<(Seq<char>, V)>, k: Seq<char>) -> Option<V> {
    if has_key(s, k) {
        Some(s[key_pos(s, k)].1)
    } else {
        None
    }
}

/// The list after storing `v` under `k`: an existing entry keeps its place and takes the new
/// value, a new key goes to the end.
pub open spec fn inserted<V>(s: Seq<(Seq<char>, V)>, k: Seq<char>, v: V) -> Seq<(Seq<char>, V)> {
    if has_key(s, k) {
        s.update(key_pos(s, k), (k, v))
    } else {
        s.push((k, v))
    }
}

/// A map from strings to values, in the order in which keys first arrived.
pub struct StrMap<V: View> {
    entries: Vec<(String, V)>,
}

/// A header map: header names to values.
pub type HeaderMap = StrMap<String>;

impl<V: View> View for StrMap<V> {
    type V = Seq<(Seq<char>, V::V)>;

    closed spec fn view(&self) -> Seq<(Seq<char>, V::V)> {
        self.entries@.map_values(|e: (String, V)| (e.0@, e.1@))
    }
}

impl<V: View> StrMap<V> {
    #[verifier::type_invariant]
    spec fn keys_are_distinct(self) -> bool {
        distinct_keys(self@)
    }

    /// An empty map.
    pub fn new() -> (r: StrMap<V>)
        ensures
            r@ == Seq::<(Seq<char>, V::V)>::empty(),
    {
        let r = StrMap { entries: Vec::new() };
        assert(r@ =~= Seq::<(Seq<char>, V::V)>::empty());
        r
    }

    /// The number of entries.
    pub fn len(&self) -> (r: usize)
        ensures
            r == self@.len(),
            distinct_keys(self@),
    {
        proof {
            use_type_invariant(self);
        }
        self.entries.len()
    }

    /// The key and value of the `i`-th entry.
    pub fn entry(&self, i: usize) -> (r: (&String, &V))
        requires
            i < self@.len(),
        ensures
            r.0@ == self@[i as int].0,
            r.1@ == self@[i as int].1,
    {
        let e = &self.entries[i];
        (&e.0, &e.1)
    }

    /// The position of the entry with key `k`.
    fn position(&self, k: &String) -> (r: Option<usize>)
        ensures
            match r {
                Some(i) => i < self@.len() && self@[i as int].0 == k@ && key_pos(self@, k@) == i,
                None => !has_key(self@, k@),
            },
    {
        proof {
            use_type_invariant(self);
        }
        let mut i: usize = 0;
        while i < self.entries.len()
            invariant
                i <= self@.len(),
                self@.len() == self.entries@.len(),
                distinct_keys(self@),
                forall|j: int| 0 <= j < i ==> self@[j].0 != k@,
            decreases self.entries.len() - i,
        {
            if self.entries[i].0 == *k {
                proof {
                    assert(self@[i as int].0 == k@);
                    assert(has_key(self@, k@));
                    let p = key_pos(self@, k@);
                    assert(self@[p].0 == k@);
                }
                return Some(i);
            }
            i = i + 1;
        }
        None
    }

    /// The value stored under `k`.
    pub fn get(&self, k: &String) -> (r: Option<&V>)
        ensures
            match r {
                Some(v) => lookup(self@, k@) == Some(v@),
                None => lookup(self@, k@) is None,
            },
    {
        match self.position(k) {
            Some(i) => Some(&self.entries[i].1),
            None => None,
        }
    }

    /// Whether some entry has the key `k`.
    pub fn contains_key(&self, k: &String) -> (r: bool)
        ensures
            r == has_key(self@, k@),
    {
        self.position(k).is_some()
    }

    /// Stores `v` under `k`, replacing an earlier value.
    pub fn insert(&mut self, k: String, v: V)
        ensures
            final(self)@ == inserted(old(self)@, k@, v@),
    {
        proof {
            use_type_invariant(&*self);
        }
        let ghost old_view = self@;
        let pos = self.position(&k);
        let mut entries: Vec<(String, V)> = Vec::new();
        std::mem::swap(&mut entries, &mut self.entries);
        let ghost kv = (k@, v@);
        match pos {
            Some(i) => {
                entries.set(i, (k, v));
                let ghost nv = entries@.map_values(|e: (String, V)| (e.0@, e.1@));
                assert(nv =~= old_view.update(i as int, kv));
                assert(distinct_keys(nv));
            },
            None => {
                entries.push((k, v));
                let ghost nv = entries@.map_values(|e: (String, V)| (e.0@, e.1@));
                assert(nv =~= old_view.push(kv));
                assert(distinct_keys(nv));
            },
        }
        self.entries = entries;
    }
}

/// Storing a value under a key makes a lookup of that key give the value, leaves every
/// other key as it was, and keeps the keys distinct.
pub proof fn lemma_inserted_lookup<V>(s: Seq<(Seq<char>, V)>, k: Seq<char>, v: V, k2: Seq<char>)
    requires
        distinct_keys(s),
    ensures
        distinct_keys(inserted(s, k, v)),
        lookup(inserted(s, k, v), k) == Some(v),
        k2 != k ==> lookup(inserted(s, k, v), k2) == lookup(s, k2),
{
    let t = inserted(s, k, v);
    if has_key(s, k) {
        let p = key_pos(s, k);
        assert(t[p].0 == k);
        assert(has_key(t, k));
        let q = key_pos(t, k);
        assert(q == p);
        if k2 != k {
            if has_key(s, k2) {
                let p2 = key_pos(s, k2);
                assert(t[p2].0 == k2);
                assert(has_key(t, k2));
                let q2 = key_pos(t, k2);
                assert(q2 == p2);
            } else {
                assert(!has_key(t, k2)) by {
                    if has_key(t, k2) {
                        let q2 = key_pos(t, k2);
                        assert(s[q2].0 == k2);
                    }
                }
            }
        }
    } else {
        assert(t[s.len() as int].0 == k);
        assert(has_key(t, k));
        let q = key_pos(t, k);
        assert(q == s.len());
        if k2 != k {
            if has_key(s, k2) {
                let p2 = key_pos(s, k2);
                assert(t[p2].0 == k2);
                assert(has_key(t, k2));
                let q2 = key_pos(t, k2);
                assert(q2 == p2);
            } else {
                assert(!has_key(t, k2)) by {
                    if has_key(t, k2) {
                        let q2 = key_pos(t, k2);
                        assert(s[q2].0 == k2);
                    }
                }
            }
        }
    }
}

} // verus!
