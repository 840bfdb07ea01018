//! Insertion-ordered maps keyed by strings, and insertion-ordered string
//! sets, with unique keys. These back every keyed structure of the library:
//! project sources, aliases, environment variables, task registries.
use vstd::prelude::*;

use crate::ids::str_eq;

verus! {

/// A map from strings to values that remembers insertion order and holds
/// each key at most once.
pub struct KeyMap<V> {
    entries: Vec<(String, V)>,
}

impl<V> KeyMap<V> {
    /// The keys, in insertion order, as character sequences.
    pub closed spec fn keys(&self) -> Seq<Seq<char>> {
        self.entries@.map_values(|e: (String, V)| e.0@)
    }

    /// The values, in insertion order.
    pub closed spec fn vals(&self) -> Seq<V> {
        self.entries@.map_values(|e: (String, V)| e.1)
    }

    /// Every key occurs once.
    pub open spec fn wf(&self) -> bool {
        forall|i: int, j: int|
            0 <= i < j < self.keys().len() ==> self.keys()[i] != self.keys()[j]
    }

    /// The index of a key, where present.
    pub open spec fn index_of(&self, k: Seq<char>) -> int {
        choose|i: int| 0 <= i < self.keys().len() && self.keys()[i] == k
    }

    /// Whether the map holds a key.
    pub open spec fn spec_contains(&self, k: Seq<char>) -> bool {
        exists|i: int| 0 <= i < self.keys().len() && self.keys()[i] == k
    }

    /// The value at a key the map holds.
    pub open spec fn spec_get(&self, k: Seq<char>) -> V
        recommends
            self.spec_contains(k),
    {
        self.vals()[self.index_of(k)]
    }

    /// The map as a mathematical map from key sequences to values.
    pub open spec fn as_map(&self) -> Map<Seq<char>, V> {
        Map::new(|k: Seq<char>| self.spec_contains(k), |k: Seq<char>| self.spec_get(k))
    }

    /// An empty map.
    pub fn new() -> (r: Self)
        ensures
            r.wf(),
            r.keys() =~= Seq::<Seq<char>>::empty(),
            r.as_map() =~= Map::<Seq<char>, V>::empty(),
    {
        let r = KeyMap { entries: Vec::new() };
        assert(r.keys() =~= Seq::<Seq<char>>::empty());
        assert(r.as_map() =~= Map::<Seq<char>, V>::empty());
        r
    }

    /// How many keys the map holds.
    pub fn len(&self) -> (r: usize)
        ensures
            r == self.keys().len(),
    {
        self.entries.len()
    }

    /// The position of a key, searched from the front.
    fn find(&self, k: &str) -> (r: Option<usize>)
        ensures
            match r {
                Some(i) => 0 <= i < self.keys().len() && self.keys()[i as int] == k@,
                None => !self.spec_contains(k@),
            },
    {
        let n = self.entries.len();
        let mut i: usize = 0;
        while i < n
            invariant
                n == self.keys().len(),
                0 <= i <= n,
                forall|j: int| 0 <= j < i ==> self.keys()[j] != k@,
            decreases n - i,
        {
            if str_eq(self.entries[i].0.as_str(), k) {
                return Some(i);
            }
            i += 1;
        }
        None
    }

    /// Whether the map holds a key.
    pub fn contains_key(&self, k: &str) -> (r: bool)
        ensures
            r == self.spec_contains(k@),
    {
        self.find(k).is_some()
    }

    /// Borrow the value at a key.
    pub fn get(&self, k: &str) -> (r: Option<&V>)
        requires
            self.wf(),
        ensures
            match r {
                Some(v) => self.spec_contains(k@) && *v == self.spec_get(k@),
                None => !self.spec_contains(k@),
            },
    {
        match self.find(k) {
            Some(i) => {
                let v = &self.entries[i].1;
                proof {
                    let j = self.index_of(k@);
                    assert(self.keys()[j] == k@);
                    assert(j == i);
                }
                Some(v)
            },
            None => None,
        }
    }

    /// Insert a key, overwriting the value in place if the key is present,
    /// else appending the entry.
    pub fn insert(&mut self, k: &str, v: V)
        requires
            old(self).wf(),
        ensures
            final(self).wf(),
            final(self).spec_contains(k@),
            final(self).spec_get(k@) == v,
            final(self).keys() =~= if old(self).spec_contains(k@) {
                old(self).keys()
            } else {
                old(self).keys().push(k@)
            },
            final(self).vals() =~= if old(self).spec_contains(k@) {
                old(self).vals().update(old(self).index_of(k@), v)
            } else {
                old(self).vals().push(v)
            },
            forall|q: Seq<char>|
                q != k@ ==> #[trigger] final(self).spec_contains(q) == old(self).spec_contains(q),
            forall|q: Seq<char>|
                q != k@ && old(self).spec_contains(q) ==> #[trigger] final(self).spec_get(q)
                    == old(self).spec_get(q),
            final(self).as_map() =~= old(self).as_map().insert(k@, v),
    {
        match self.find(k) {
            Some(i) => {
                proof {
                    let j = self.index_of(k@);
                    assert(self.keys()[j] == k@);
                    assert(j == i);
                }
                self.entries[i].1 = v;
                proof {
                    assert(self.keys() =~= old(self).keys());
                    assert(self.vals() =~= old(self).vals().update(i as int, v));
                    lemma_unique_get(self, k@, i as int);
                    assert forall|q: Seq<char>|
                        q != k@ && old(self).spec_contains(q) implies #[trigger] self.spec_get(q)
                        == old(self).spec_get(q) by {
                        let jq = old(self).index_of(q);
                        assert(old(self).keys()[jq] == q);
                        lemma_unique_get(self, q, jq);
                        lemma_unique_get(old(self), q, jq);
                    };
                }
            },
            None => {
                self.entries.push((k.to_owned(), v));
                proof {
                    assert(self.keys() =~= old(self).keys().push(k@));
                    assert(self.vals() =~= old(self).vals().push(v));
                    let n = old(self).keys().len() as int;
                    lemma_unique_get(self, k@, n);
                    assert forall|q: Seq<char>|
                        q != k@ && old(self).spec_contains(q) implies #[trigger] self.spec_get(q)
                        == old(self).spec_get(q) by {
                        let jq = old(self).index_of(q);
                        assert(old(self).keys()[jq] == q);
                        lemma_unique_get(self, q, jq);
                        lemma_unique_get(old(self), q, jq);
                    };
                    assert forall|q: Seq<char>|
                        q != k@ implies #[trigger] self.spec_contains(q) == old(
                        self,
                    ).spec_contains(q) by {
                        if self.spec_contains(q) {
                            let jq = self.index_of(q);
                            assert(self.keys()[jq] == q);
                            assert(jq < n);
                            assert(old(self).keys()[jq] == q);
                        }
                        if old(self).spec_contains(q) {
                            let jq = old(self).index_of(q);
                            assert(old(self).keys()[jq] == q);
                            assert(self.keys()[jq] == q);
                        }
                    };
                }
            },
        }
        proof {
            assert(self.as_map() =~= old(self).as_map().insert(k@, v));
        }
    }

    /// Insert a key only if it is absent; an explicit entry wins over a
    /// later implicit one.
    pub fn insert_absent(&mut self, k: &str, v: V)
        requires
            old(self).wf(),
        ensures
            final(self).wf(),
            old(self).spec_contains(k@) ==> *final(self) == *old(self),
            !old(self).spec_contains(k@) ==> {
                &&& final(self).keys() =~= old(self).keys().push(k@)
                &&& final(self).vals() =~= old(self).vals().push(v)
                &&& final(self).as_map() =~= old(self).as_map().insert(k@, v)
                &&& final(self).spec_get(k@) == v
            },
            final(self).spec_contains(k@),
            forall|q: Seq<char>|
                q != k@ ==> #[trigger] final(self).spec_contains(q) == old(self).spec_contains(q),
            forall|q: Seq<char>|
                q != k@ && old(self).spec_contains(q) ==> #[trigger] final(self).spec_get(q)
                    == old(self).spec_get(q),
    {
        if !self.contains_key(k) {
            self.insert(k, v);
        }
    }

    /// Remove a key, keeping the order of the remaining entries.
    pub fn remove_key(&mut self, k: &str)
        requires
            old(self).wf(),
        ensures
            final(self).wf(),
            !final(self).spec_contains(k@),
            !old(self).spec_contains(k@) ==> *final(self) == *old(self),
            old(self).spec_contains(k@) ==> final(self).keys() =~= old(self).keys().remove(
                old(self).index_of(k@),
            ),
            forall|q: Seq<char>|
                q != k@ ==> #[trigger] final(self).spec_contains(q) == old(self).spec_contains(q),
            forall|q: Seq<char>|
                q != k@ && old(self).spec_contains(q) ==> #[trigger] final(self).spec_get(q)
                    == old(self).spec_get(q),
    {
        match self.find(k) {
            Some(i) => {
                proof {
                    let j = self.index_of(k@);
                    assert(self.keys()[j] == k@);
                    assert(j == i);
                }
                self.entries.remove(i);
                proof {
                    assert(self.keys() =~= old(self).keys().remove(i as int));
                    assert forall|q: Seq<char>|
                        q != k@ && old(self).spec_contains(q) implies #[trigger] self.spec_contains(
                        q,
                    ) by {
                        let jq = old(self).index_of(q);
                        assert(old(self).keys()[jq] == q);
                        if jq < i {
                            assert(self.keys()[jq] == q);
                        } else {
                            assert(self.keys()[jq - 1] == q);
                        }
                    };
                    assert forall|q: Seq<char>| q != k@ && self.spec_contains(q) implies old(
                        self,
                    ).spec_contains(q) by {
                        let jq = self.index_of(q);
                        assert(self.keys()[jq] == q);
                        if jq < i {
                            assert(old(self).keys()[jq] == q);
                        } else {
                            assert(old(self).keys()[jq + 1] == q);
                        }
                    };
                    assert forall|q: Seq<char>|
                        q != k@ && old(self).spec_contains(q) implies #[trigger] self.spec_get(q)
                        == old(self).spec_get(q) by {
                        let jq = old(self).index_of(q);
                        assert(old(self).keys()[jq] == q);
                        if jq < i {
                            lemma_unique_get(self, q, jq);
                        } else {
                            lemma_unique_get(self, q, jq - 1);
                        }
                        lemma_unique_get(old(self), q, jq);
                    };
                    if self.spec_contains(k@) {
                        let jq = self.index_of(k@);
                        assert(self.keys()[jq] == k@);
                        if jq < i {
                            assert(old(self).keys()[jq] == k@);
                        } else {
                            assert(old(self).keys()[jq + 1] == k@);
                        }
                        assert(false);
                    }
                }
            },
            None => {},
        }
    }

    /// Remove a key and return its value, keeping the order of the rest.
    pub fn take_key(&mut self, k: &str) -> (r: Option<V>)
        requires
            old(self).wf(),
        ensures
            final(self).wf(),
            !final(self).spec_contains(k@),
            r is Some <==> old(self).spec_contains(k@),
            r matches Some(v) ==> v == old(self).spec_get(k@),
            !old(self).spec_contains(k@) ==> *final(self) == *old(self),
            forall|q: Seq<char>|
                q != k@ ==> #[trigger] final(self).spec_contains(q) == old(self).spec_contains(q),
            forall|q: Seq<char>|
                q != k@ && old(self).spec_contains(q) ==> #[trigger] final(self).spec_get(q)
                    == old(self).spec_get(q),
    {
        match self.find(k) {
            Some(i) => {
                proof {
                    let j = self.index_of(k@);
                    assert(self.keys()[j] == k@);
                    assert(j == i);
                    lemma_unique_get(self, k@, i as int);
                }
                let e = self.entries.remove(i);
                proof {
                    assert(self.keys() =~= old(self).keys().remove(i as int));
                    assert(self.vals() =~= old(self).vals().remove(i as int));
                    assert forall|q: Seq<char>|
                        q != k@ && old(self).spec_contains(q) implies #[trigger] self.spec_contains(
                        q,
                    ) by {
                        let jq = old(self).index_of(q);
                        assert(old(self).keys()[jq] == q);
                        if jq < i {
                            assert(self.keys()[jq] == q);
                        } else {
                            assert(self.keys()[jq - 1] == q);
                        }
                    };
                    assert forall|q: Seq<char>| q != k@ && self.spec_contains(q) implies old(
                        self,
                    ).spec_contains(q) by {
                        let jq = self.index_of(q);
                        assert(self.keys()[jq] == q);
                        if jq < i {
                            assert(old(self).keys()[jq] == q);
                        } else {
                            assert(old(self).keys()[jq + 1] == q);
                        }
                    };
                    assert forall|q: Seq<char>|
                        q != k@ && old(self).spec_contains(q) implies #[trigger] self.spec_get(q)
                        == old(self).spec_get(q) by {
                        let jq = old(self).index_of(q);
                        assert(old(self).keys()[jq] == q);
                        if jq < i {
                            lemma_unique_get(self, q, jq);
                        } else {
                            lemma_unique_get(self, q, jq - 1);
                        }
                        lemma_unique_get(old(self), q, jq);
                    };
                    if self.spec_contains(k@) {
                        let jq = self.index_of(k@);
                        assert(self.keys()[jq] == k@);
                        if jq < i {
                            assert(old(self).keys()[jq] == k@);
                        } else {
                            assert(old(self).keys()[jq + 1] == k@);
                        }
                        assert(false);
                    }
                }
                Some(e.1)
            },
            None => None,
        }
    }

    /// Borrow the key at a position.
    pub fn key_at(&self, i: usize) -> (r: &String)
        requires
            i < self.keys().len(),
        ensures
            r@ == self.keys()[i as int],
    {
        &self.entries[i].0
    }

    /// Borrow the value at a position.
    pub fn val_at(&self, i: usize) -> (r: &V)
        requires
            i < self.keys().len(),
        ensures
            *r == self.vals()[i as int],
    {
        &self.entries[i].1
    }

    /// Remove and return the first entry, keeping the order of the rest.
    pub fn pop_front(&mut self) -> (r: Option<(String, V)>)
        requires
            old(self).wf(),
        ensures
            final(self).wf(),
            old(self).keys().len() == 0 ==> r is None && *final(self) == *old(self),
            old(self).keys().len() > 0 ==> (r matches Some(p) && p.0@ == old(self).keys()[0]
                && p.1 == old(self).vals()[0] && final(self).keys() =~= old(
                self,
            ).keys().drop_first() && final(self).vals() =~= old(self).vals().drop_first()),
    {
        if self.entries.len() == 0 {
            None
        } else {
            let e = self.entries.remove(0);
            proof {
                assert(self.keys() =~= old(self).keys().drop_first());
                assert(self.vals() =~= old(self).vals().drop_first());
            }
            Some(e)
        }
    }

    /// Replace the value at a position, keeping the key.
    pub fn set_val_at(&mut self, i: usize, v: V)
        requires
            old(self).wf(),
            i < old(self).keys().len(),
        ensures
            final(self).wf(),
            final(self).keys() =~= old(self).keys(),
            final(self).vals() =~= old(self).vals().update(i as int, v),
            final(self).as_map() =~= old(self).as_map().insert(old(self).keys()[i as int], v),
    {
        let ghost k = self.keys()[i as int];
        self.entries[i].1 = v;
        proof {
            assert(self.keys() =~= old(self).keys());
            assert(self.vals() =~= old(self).vals().update(i as int, v));
            lemma_unique_get(self, k, i as int);
            assert forall|q: Seq<char>|
                q != k && old(self).spec_contains(q) implies #[trigger] self.spec_get(q) == old(
                self,
            ).spec_get(q) by {
                let jq = old(self).index_of(q);
                assert(old(self).keys()[jq] == q);
                lemma_unique_get(self, q, jq);
                lemma_unique_get(old(self), q, jq);
            };
            assert(self.as_map() =~= old(self).as_map().insert(k, v));
        }
    }
}

/// A string set's mathematical set is its member sequence's set.
pub proof fn lemma_strset_as_set(s: &StrSet)
    ensures
        s.as_set() == s.seq().to_set(),
        s.as_set().finite(),
{
    broadcast use vstd::seq_lib::seq_to_set_is_finite;
    broadcast use vstd::seq_lib::group_seq_properties;

    assert(s.as_set() =~= s.seq().to_set()) by {
        assert forall|x: Seq<char>| #[trigger] s.seq().to_set().contains(x) implies s.spec_contains(
            x,
        ) by {
            assert(s.seq().contains(x));
        };
        assert forall|x: Seq<char>| #[trigger] s.spec_contains(x) implies s.seq().to_set().contains(
            x,
        ) by {
            let j = choose|j: int| 0 <= j < s.seq().len() && s.seq()[j] == x;
            assert(s.seq().contains(x));
        };
    };
}

/// A map holds as many values as keys.
pub proof fn lemma_kv_len<V>(m: &KeyMap<V>)
    ensures
        m.keys().len() == m.vals().len(),
{
}

/// In a well-formed map, the value looked up at a key held at position `i`
/// is the value at `i`.
pub proof fn lemma_unique_get<V>(m: &KeyMap<V>, k: Seq<char>, i: int)
    requires
        m.wf(),
        0 <= i < m.keys().len(),
        m.keys()[i] == k,
    ensures
        m.spec_contains(k),
        m.index_of(k) == i,
        m.spec_get(k) == m.vals()[i],
{
    assert(m.spec_contains(k));
    let j = m.index_of(k);
    assert(m.keys()[j] == k);
    if i < j {
        assert(m.keys()[i] != m.keys()[j]);
    }
    if j < i {
        assert(m.keys()[j] != m.keys()[i]);
    }
}

impl KeyMap<String> {
    /// Copy a map of strings.
    pub fn duplicate(&self) -> (r: Self)
        requires
            self.wf(),
        ensures
            r.wf(),
            r.keys() =~= self.keys(),
            r.as_map() =~= self.as_map(),
            forall|q: Seq<char>|
                #[trigger] r.spec_contains(q) ==> r.spec_get(q)@ == self.spec_get(q)@,
    {
        let n = self.entries.len();
        let mut items: Vec<(String, String)> = Vec::new();
        let mut i: usize = 0;
        while i < n
            invariant
                n == self.entries@.len(),
                0 <= i <= n,
                items@ =~= self.entries@.take(i as int),
            decreases n - i,
        {
            items.push((self.entries[i].0.clone(), self.entries[i].1.clone()));
            i += 1;
        }
        let out = KeyMap { entries: items };
        proof {
            assert(out.entries@ =~= self.entries@);
            assert(out.keys() =~= self.keys());
            assert(out.vals() =~= self.vals());
            assert(out.as_map() =~= self.as_map());
        }
        out
    }
}

/// Copy a vector of strings, keeping every character.
pub fn clone_string_vec(v: &Vec<String>) -> (r: Vec<String>)
    ensures
        r@ =~= v@,
        r.deep_view() == v.deep_view(),
{
    let n = v.len();
    let mut out: Vec<String> = Vec::new();
    let mut i: usize = 0;
    while i < n
        invariant
            n == v@.len(),
            0 <= i <= n,
            out@ =~= v@.take(i as int),
        decreases n - i,
    {
        out.push(v[i].clone());
        i += 1;
    }
    proof {
        assert(out@ =~= v@);
        assert(out.deep_view() =~= v.deep_view());
    }
    out
}

/// Copy an optional vector of strings.
pub fn clone_opt_string_vec(v: &Option<Vec<String>>) -> (r: Option<Vec<String>>)
    ensures
        match (r, v) {
            (Some(a), Some(b)) => a@ =~= b@ && a.deep_view() == b.deep_view(),
            (None, None) => true,
            _ => false,
        },
        r is Some == v is Some,
{
    match v {
        Some(inner) => Some(clone_string_vec(inner)),
        None => None,
    }
}

/// Copy an optional string.
pub fn clone_opt_string(v: &Option<String>) -> (r: Option<String>)
    ensures
        match (r, v) {
            (Some(a), Some(b)) => a@ == b@,
            (None, None) => true,
            _ => false,
        },
{
    match v {
        Some(inner) => Some(inner.clone()),
        None => None,
    }
}

/// An insertion-ordered set of strings.
pub struct StrSet {
    items: Vec<String>,
}

impl StrSet {
    /// The members, in insertion order, as character sequences.
    pub closed spec fn seq(&self) -> Seq<Seq<char>> {
        self.items@.map_values(|s: String| s@)
    }

    /// Every member occurs once.
    pub open spec fn wf(&self) -> bool {
        forall|i: int, j: int| 0 <= i < j < self.seq().len() ==> self.seq()[i] != self.seq()[j]
    }

    /// Whether the set holds a string.
    pub open spec fn spec_contains(&self, s: Seq<char>) -> bool {
        exists|i: int| 0 <= i < self.seq().len() && self.seq()[i] == s
    }

    /// The members as a mathematical set.
    pub open spec fn as_set(&self) -> Set<Seq<char>> {
        Set::new(|s: Seq<char>| self.spec_contains(s))
    }

    /// An empty set.
    pub fn new() -> (r: Self)
        ensures
            r.wf(),
            r.seq() =~= Seq::<Seq<char>>::empty(),
            r.as_set() =~= Set::<Seq<char>>::empty(),
    {
        let r = StrSet { items: Vec::new() };
        assert(r.as_set() =~= Set::<Seq<char>>::empty());
        r
    }

    /// How many members the set holds.
    pub fn len(&self) -> (r: usize)
        ensures
            r == self.seq().len(),
    {
        self.items.len()
    }

    /// The position of a member, searched from the front.
    fn find_item(&self, s: &str) -> (r: Option<usize>)
        ensures
            match r {
                Some(i) => 0 <= i < self.seq().len() && self.seq()[i as int] == s@,
                None => !self.spec_contains(s@),
            },
    {
        let n = self.items.len();
        let mut i: usize = 0;
        while i < n
            invariant
                n == self.seq().len(),
                0 <= i <= n,
                forall|j: int| 0 <= j < i ==> self.seq()[j] != s@,
            decreases n - i,
        {
            if str_eq(self.items[i].as_str(), s) {
                return Some(i);
            }
            i += 1;
        }
        None
    }

    /// Whether the set holds a string.
    pub fn contains(&self, s: &str) -> (r: bool)
        ensures
            r == self.spec_contains(s@),
    {
        self.find_item(s).is_some()
    }

    /// Add a string if it is absent.
    pub fn insert(&mut self, s: &str)
        requires
            old(self).wf(),
        ensures
            final(self).wf(),
            final(self).spec_contains(s@),
            old(self).spec_contains(s@) ==> *final(self) == *old(self),
            !old(self).spec_contains(s@) ==> final(self).seq() =~= old(self).seq().push(s@),
            final(self).as_set() =~= old(self).as_set().insert(s@),
    {
        if !self.contains(s) {
            self.items.push(s.to_owned());
            proof {
                assert(self.seq() =~= old(self).seq().push(s@));
                let n = old(self).seq().len() as int;
                assert(self.seq()[n] == s@);
                assert forall|q: Seq<char>| q != s@ implies #[trigger] self.spec_contains(q) == old(
                    self,
                ).spec_contains(q) by {
                    if self.spec_contains(q) {
                        let jq = choose|j: int|
                            0 <= j < self.seq().len() && self.seq()[j] == q;
                        assert(jq < n);
                        assert(old(self).seq()[jq] == q);
                    }
                    if old(self).spec_contains(q) {
                        let jq = choose|j: int|
                            0 <= j < old(self).seq().len() && old(self).seq()[j] == q;
                        assert(self.seq()[jq] == q);
                    }
                };
            }
        }
        proof {
            assert(self.as_set() =~= old(self).as_set().insert(s@));
        }
    }

    /// Remove a string, keeping the order of the rest.
    pub fn remove(&mut self, s: &str)
        requires
            old(self).wf(),
        ensures
            final(self).wf(),
            !final(self).spec_contains(s@),
            !old(self).spec_contains(s@) ==> *final(self) == *old(self),
            final(self).as_set() =~= old(self).as_set().remove(s@),
    {
        match self.find_item(s) {
            Some(i) => {
                self.items.remove(i);
                proof {
                    assert(self.seq() =~= old(self).seq().remove(i as int));
                    assert forall|q: Seq<char>|
                        q != s@ && old(self).spec_contains(q) implies #[trigger] self.spec_contains(
                        q,
                    ) by {
                        let jq = choose|j: int|
                            0 <= j < old(self).seq().len() && old(self).seq()[j] == q;
                        if jq < i {
                            assert(self.seq()[jq] == q);
                        } else {
                            assert(self.seq()[jq - 1] == q);
                        }
                    };
                    assert forall|q: Seq<char>| self.spec_contains(q) implies old(
                        self,
                    ).spec_contains(q) by {
                        let jq = choose|j: int|
                            0 <= j < self.seq().len() && self.seq()[j] == q;
                        if jq < i {
                            assert(old(self).seq()[jq] == q);
                        } else {
                            assert(old(self).seq()[jq + 1] == q);
                        }
                    };
                    if self.spec_contains(s@) {
                        let jq = choose|j: int|
                            0 <= j < self.seq().len() && self.seq()[j] == s@;
                        if jq < i {
                            assert(old(self).seq()[jq] == s@);
                            assert(false);
                        } else {
                            assert(old(self).seq()[jq + 1] == s@);
                            assert(old(self).seq()[i as int] == s@);
                            assert(false);
                        }
                    }
                    assert(self.as_set() =~= old(self).as_set().remove(s@));
                }
            },
            None => {
                proof {
                    assert(self.as_set() =~= old(self).as_set().remove(s@));
                }
            },
        }
    }

    /// Add every string of a vector that is absent.
    pub fn insert_all(&mut self, items: &Vec<String>)
        requires
            old(self).wf(),
        ensures
            final(self).wf(),
            final(self).as_set() == old(self).as_set().union(
                items.deep_view().to_set(),
            ),
    {
        let n = items.len();
        let mut i: usize = 0;
        while i < n
            invariant
                self.wf(),
                n == items@.len(),
                0 <= i <= n,
                self.as_set() == old(self).as_set().union(
                    items.deep_view().take(i as int).to_set(),
                ),
            decreases n - i,
        {
            let ghost pre = self.as_set();
            self.insert(items[i].as_str());
            i += 1;
            proof {
                let dv = items.deep_view();
                assert(dv.take(i as int).drop_last() =~= dv.take(i - 1));
                assert(dv.take(i as int).last() == dv[i - 1]);
                assert(dv.take(i as int).to_set() =~= dv.take(i - 1).to_set().insert(dv[i - 1]));
                assert(self.as_set() =~= old(self).as_set().union(dv.take(i as int).to_set()));
            }
        }
        proof {
            assert(items.deep_view().take(n as int) =~= items.deep_view());
        }
    }

    /// The members as a vector, in insertion order.
    pub fn to_vec(&self) -> (r: Vec<String>)
        ensures
            r.deep_view() == self.seq(),
    {
        let r = clone_string_vec(&self.items);
        proof {
            assert(r.deep_view() =~= self.seq());
        }
        r
    }

    /// Borrow the member at a position.
    pub fn at(&self, i: usize) -> (r: &String)
        requires
            i < self.seq().len(),
        ensures
            r@ == self.seq()[i as int],
    {
        &self.items[i]
    }
}

} // verus!
