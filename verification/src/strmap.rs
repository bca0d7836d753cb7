//! A map keyed by strings, kept as a list of entries in insertion order with
//! no key twice. It stands where the chain's records are keyed by address,
//! hash or name.

use vstd::prelude::*;
use crate::text::str_eq;

verus! {

/// No key occurs twice.
pub open spec fn keys_distinct<V>(s: Seq<(Seq<char>, V)>) -> bool {
    forall|i: int, j: int| 0 <= i < s.len() && 0 <= j < s.len() && i != j ==> #[trigger] s[i].0 != #[trigger] s[j].0
}

/// Entry `i` of `s` has key `k`.
pub open spec fn key_at<V>(s: Seq<(Seq<char>, V)>, k: Seq<char>, i: int) -> bool {
    0 <= i < s.len() && s[i].0 == k
}

pub open spec fn has_key<V>(s: Seq<(Seq<char>, V)>, k: Seq<char>) -> bool {
    exists|i: int| key_at(s, k, i)
}

/// The value stored under `k` (meaningful where `has_key(s, k)`).
pub open spec fn value_of<V>(s: Seq<(Seq<char>, V)>, k: Seq<char>) -> V {
    s[choose|i: int| key_at(s, k, i)].1
}

pub open spec fn lookup<V>(s: Seq<(Seq<char>, V)>, k: Seq<char>) -> Option<V> {
    if has_key(s, k) { Some(value_of(s, k)) } else { None }
}

/// The entries as a mathematical map.
pub open spec fn map_of<V>(s: Seq<(Seq<char>, V)>) -> Map<Seq<char>, V> {
    Map::new(|k: Seq<char>| has_key(s, k), |k: Seq<char>| value_of(s, k))
}

/// With distinct keys, the value under the key of entry `i` is that entry's.
pub proof fn lemma_lookup_at<V>(s: Seq<(Seq<char>, V)>, i: int)
    requires
        keys_distinct(s),
        0 <= i < s.len(),
    ensures
        has_key(s, s[i].0),
        value_of(s, s[i].0) == s[i].1,
        lookup(s, s[i].0) == Some(s[i].1),
        map_of(s).contains_key(s[i].0),
        map_of(s)[s[i].0] == s[i].1,
{
    assert(key_at(s, s[i].0, i));
    let j = choose|j: int| key_at(s, s[i].0, j);
    assert(j == i);
}

/// Replacing the value of entry `i` changes only the value under its key.
pub proof fn lemma_update_value<V>(s: Seq<(Seq<char>, V)>, i: int, v: V)
    requires
        keys_distinct(s),
        0 <= i < s.len(),
    ensures
        keys_distinct(s.update(i, (s[i].0, v))),
        map_of(s.update(i, (s[i].0, v))) == map_of(s).insert(s[i].0, v),
        forall|k: Seq<char>| #[trigger] lookup(s.update(i, (s[i].0, v)), k) == if k == s[i].0 { Some(v) } else { lookup(s, k) },
{
    let t = s.update(i, (s[i].0, v));
    assert forall|a: int, b: int| 0 <= a < t.len() && 0 <= b < t.len() && a != b implies #[trigger] t[a].0 != #[trigger] t[b].0 by {
        assert(t[a].0 == s[a].0);
        assert(t[b].0 == s[b].0);
    }
    assert forall|k: Seq<char>| #[trigger] lookup(t, k) == if k == s[i].0 { Some(v) } else { lookup(s, k) } by {
        if k == s[i].0 {
            lemma_lookup_at(t, i);
        } else {
            if has_key(s, k) {
                let j = choose|j: int| key_at(s, k, j);
                assert(key_at(t, k, j));
                lemma_lookup_at(s, j);
                lemma_lookup_at(t, j);
            } else {
                assert forall|j: int| !key_at(t, k, j) by {
                    if 0 <= j < t.len() {
                        assert(!key_at(s, k, j));
                    }
                }
            }
        }
    }
    assert(map_of(t) =~= map_of(s).insert(s[i].0, v)) by {
        assert forall|k: Seq<char>| map_of(t).contains_key(k) == map_of(s).insert(s[i].0, v).contains_key(k) by {
            assert(lookup(t, k) == if k == s[i].0 { Some(v) } else { lookup(s, k) });
        }
        assert forall|k: Seq<char>| map_of(t).contains_key(k) implies map_of(t)[k] == map_of(s).insert(s[i].0, v)[k] by {
            assert(lookup(t, k) == if k == s[i].0 { Some(v) } else { lookup(s, k) });
        }
    }
}

/// Appending an entry under a fresh key adds just that key.
pub proof fn lemma_push_fresh<V>(s: Seq<(Seq<char>, V)>, k: Seq<char>, v: V)
    requires
        keys_distinct(s),
        !has_key(s, k),
    ensures
        keys_distinct(s.push((k, v))),
        map_of(s.push((k, v))) == map_of(s).insert(k, v),
        forall|k2: Seq<char>| #[trigger] lookup(s.push((k, v)), k2) == if k2 == k { Some(v) } else { lookup(s, k2) },
{
    let t = s.push((k, v));
    assert forall|a: int, b: int| 0 <= a < t.len() && 0 <= b < t.len() && a != b implies #[trigger] t[a].0 != #[trigger] t[b].0 by {
        if a == s.len() {
            assert(!key_at(s, k, b));
        } else if b == s.len() {
            assert(!key_at(s, k, a));
        } else {
            assert(t[a] == s[a]);
            assert(t[b] == s[b]);
        }
    }
    assert forall|k2: Seq<char>| #[trigger] lookup(t, k2) == if k2 == k { Some(v) } else { lookup(s, k2) } by {
        if k2 == k {
            lemma_lookup_at(t, s.len() as int);
        } else if has_key(s, k2) {
            let j = choose|j: int| key_at(s, k2, j);
            assert(key_at(t, k2, j));
            lemma_lookup_at(s, j);
            lemma_lookup_at(t, j);
        } else {
            assert forall|j: int| !key_at(t, k2, j) by {
                if 0 <= j < s.len() {
                    assert(!key_at(s, k2, j));
                }
            }
        }
    }
    assert(map_of(t) =~= map_of(s).insert(k, v)) by {
        assert forall|k2: Seq<char>| map_of(t).contains_key(k2) == map_of(s).insert(k, v).contains_key(k2) by {
            assert(lookup(t, k2) == if k2 == k { Some(v) } else { lookup(s, k2) });
        }
        assert forall|k2: Seq<char>| map_of(t).contains_key(k2) implies map_of(t)[k2] == map_of(s).insert(k, v)[k2] by {
            assert(lookup(t, k2) == if k2 == k { Some(v) } else { lookup(s, k2) });
        }
    }
}

/// Removing entry `i` removes just its key.
pub proof fn lemma_remove_at<V>(s: Seq<(Seq<char>, V)>, i: int)
    requires
        keys_distinct(s),
        0 <= i < s.len(),
    ensures
        keys_distinct(s.remove(i)),
        map_of(s.remove(i)) == map_of(s).remove(s[i].0),
        forall|k: Seq<char>| #[trigger] lookup(s.remove(i), k) == if k == s[i].0 { None } else { lookup(s, k) },
{
    let t = s.remove(i);
    assert forall|a: int, b: int| 0 <= a < t.len() && 0 <= b < t.len() && a != b implies #[trigger] t[a].0 != #[trigger] t[b].0 by {
        let sa = if a < i { a } else { a + 1 };
        let sb = if b < i { b } else { b + 1 };
        assert(t[a] == s[sa]);
        assert(t[b] == s[sb]);
    }
    assert forall|k: Seq<char>| #[trigger] lookup(t, k) == if k == s[i].0 { None } else { lookup(s, k) } by {
        if k == s[i].0 {
            assert forall|j: int| !key_at(t, k, j) by {
                if 0 <= j < t.len() {
                    let sj = if j < i { j } else { j + 1 };
                    assert(t[j] == s[sj]);
                }
            }
        } else if has_key(s, k) {
            let j = choose|j: int| key_at(s, k, j);
            let tj = if j < i { j } else { j - 1 };
            assert(t[tj] == s[j]);
            assert(key_at(t, k, tj));
            lemma_lookup_at(s, j);
            lemma_lookup_at(t, tj);
        } else {
            assert forall|j: int| !key_at(t, k, j) by {
                if 0 <= j < t.len() {
                    let sj = if j < i { j } else { j + 1 };
                    assert(t[j] == s[sj]);
                    assert(!key_at(s, k, sj));
                }
            }
        }
    }
    assert(map_of(t) =~= map_of(s).remove(s[i].0)) by {
        assert forall|k: Seq<char>| map_of(t).contains_key(k) == map_of(s).remove(s[i].0).contains_key(k) by {
            assert(lookup(t, k) == if k == s[i].0 { None } else { lookup(s, k) });
        }
        assert forall|k: Seq<char>| map_of(t).contains_key(k) implies map_of(t)[k] == map_of(s).remove(s[i].0)[k] by {
            assert(lookup(t, k) == if k == s[i].0 { None } else { lookup(s, k) });
        }
    }
}

#[derive(Debug)]
pub struct StrMap<V> {
    entries: Vec<(String, V)>,
}

pub open spec fn entry_view<V>(e: (String, V)) -> (Seq<char>, V) {
    (e.0@, e.1)
}

impl<V> View for StrMap<V> {
    type V = Seq<(Seq<char>, V)>;

    closed spec fn view(&self) -> Seq<(Seq<char>, V)> {
        self.entries@.map_values(|e: (String, V)| entry_view(e))
    }
}

impl<V> StrMap<V> {
    pub open spec fn wf(&self) -> bool {
        keys_distinct(self@)
    }

    pub fn new() -> (r: Self)
        ensures
            r@ == Seq::<(Seq<char>, V)>::empty(),
            r.wf(),
    {
        let r = StrMap { entries: Vec::new() };
        assert(r@ =~= Seq::<(Seq<char>, V)>::empty());
        r
    }

    pub fn len(&self) -> (n: usize)
        ensures
            n == self@.len(),
    {
        self.entries.len()
    }

    /// An entry-for-entry copy.
    pub fn duplicate(&self) -> (r: Self)
        where V: Copy
        ensures
            r@ == self@,
    {
        let mut out: Vec<(String, V)> = Vec::new();
        let mut i: usize = 0;
        while i < self.entries.len()
            invariant
                i <= self.entries@.len(),
                out@.len() == i,
                forall|k: int| 0 <= k < i ==> #[trigger] entry_view(out@[k]) == entry_view(self.entries@[k]),
            decreases self.entries@.len() - i,
        {
            let key = self.entries[i].0.clone();
            let value = self.entries[i].1;
            out.push((key, value));
            i = i + 1;
        }
        let r = StrMap { entries: out };
        assert(r@ =~= self@) by {
            assert forall|k: int| 0 <= k < r@.len() implies r@[k] == self@[k] by {
                assert(entry_view(out@[k]) == entry_view(self.entries@[k]));
            }
        }
        r
    }

    /// The position of the entry with key `k`, if there is one.
    pub fn find(&self, k: &str) -> (r: Option<usize>)
        ensures
            r matches Some(i) ==> key_at(self@, k@, i as int),
            r is None ==> !has_key(self@, k@),
    {
        let n = self.entries.len();
        let mut i: usize = 0;
        while i < n
            invariant
                n == self@.len(),
                n == self.entries@.len(),
                i <= n,
                forall|j: int| 0 <= j < i ==> !key_at(self@, k@, j),
            decreases n - i,
        {
            if str_eq(self.entries[i].0.as_str(), k) {
                return Some(i);
            }
            i = i + 1;
        }
        None
    }

    pub fn contains_key(&self, k: &str) -> (r: bool)
        ensures
            r == has_key(self@, k@),
    {
        self.find(k).is_some()
    }

    pub fn key_at(&self, i: usize) -> (r: &String)
        requires
            i < self@.len(),
        ensures
            r@ == self@[i as int].0,
    {
        &self.entries[i].0
    }

    pub fn value_at(&self, i: usize) -> (r: &V)
        requires
            i < self@.len(),
        ensures
            *r == self@[i as int].1,
    {
        &self.entries[i].1
    }

    /// The value stored under `k`.
    pub fn get(&self, k: &str) -> (r: Option<&V>)
        requires
            self.wf(),
        ensures
            match r {
                Some(v) => lookup(self@, k@) == Some(*v),
                None => lookup(self@, k@) is None,
            },
    {
        match self.find(k) {
            Some(i) => {
                proof { lemma_lookup_at(self@, i as int); }
                Some(&self.entries[i].1)
            },
            None => None,
        }
    }

    /// Replaces the value of entry `i`, keeping its key and position.
    pub fn set_value_at(&mut self, i: usize, v: V)
        requires
            old(self).wf(),
            i < old(self)@.len(),
        ensures
            final(self).wf(),
            final(self)@ == old(self)@.update(i as int, (old(self)@[i as int].0, v)),
    {
        let ghost s = self@;
        let ghost v2 = v;
        let (k, _) = self.entries.remove(i);
        self.entries.insert(i, (k, v));
        assert(self@ =~= s.update(i as int, (s[i as int].0, v2)));
        proof { lemma_update_value(s, i as int, v2); }
    }

    /// Stores `v` under `k`: in place where `k` is present, else appended.
    pub fn insert(&mut self, k: String, v: V)
        requires
            old(self).wf(),
        ensures
            final(self).wf(),
            map_of(final(self)@) == map_of(old(self)@).insert(k@, v),
            forall|k2: Seq<char>| #[trigger] lookup(final(self)@, k2) == if k2 == k@ { Some(v) } else { lookup(old(self)@, k2) },
            has_key(old(self)@, k@) ==> exists|i: int| key_at(old(self)@, k@, i) && final(self)@ == old(self)@.update(i, (k@, v)),
            !has_key(old(self)@, k@) ==> final(self)@ == old(self)@.push((k@, v)),
    {
        let ghost s = self@;
        let ghost kv = k@;
        let ghost v2 = v;
        match self.find(k.as_str()) {
            Some(i) => {
                self.set_value_at(i, v);
                proof { lemma_update_value(s, i as int, v2); }
                assert(key_at(s, kv, i as int));
            },
            None => {
                self.entries.push((k, v));
                assert(self@ =~= s.push((kv, v2)));
                proof { lemma_push_fresh(s, kv, v2); }
            },
        }
    }

    /// Takes the entry with key `k` out, if there is one.
    pub fn remove(&mut self, k: &str) -> (r: Option<V>)
        requires
            old(self).wf(),
        ensures
            final(self).wf(),
            r == lookup(old(self)@, k@),
            map_of(final(self)@) == map_of(old(self)@).remove(k@),
            forall|k2: Seq<char>| #[trigger] lookup(final(self)@, k2) == if k2 == k@ { None } else { lookup(old(self)@, k2) },
            has_key(old(self)@, k@) ==> exists|i: int| key_at(old(self)@, k@, i) && final(self)@ == old(self)@.remove(i),
            !has_key(old(self)@, k@) ==> final(self)@ == old(self)@,
    {
        let ghost s = self@;
        match self.find(k) {
            Some(i) => {
                proof { lemma_lookup_at(s, i as int); lemma_remove_at(s, i as int); }
                let (_, v) = self.entries.remove(i);
                assert(self@ =~= s.remove(i as int));
                assert(key_at(s, k@, i as int));
                Some(v)
            },
            None => None,
        }
    }

    /// Takes entry `i` out, keeping the order of the others.
    pub fn remove_at(&mut self, i: usize) -> (r: (String, V))
        requires
            old(self).wf(),
            i < old(self)@.len(),
        ensures
            final(self).wf(),
            final(self)@ == old(self)@.remove(i as int),
            r.0@ == old(self)@[i as int].0,
            r.1 == old(self)@[i as int].1,
            map_of(final(self)@) == map_of(old(self)@).remove(old(self)@[i as int].0),
    {
        let ghost s = self@;
        proof { lemma_remove_at(s, i as int); }
        let e = self.entries.remove(i);
        assert(self@ =~= s.remove(i as int));
        e
    }

    /// References to the values, in entry order.
    pub fn values(&self) -> (r: Vec<&V>)
        ensures
            r@.len() == self@.len(),
            forall|i: int| 0 <= i < self@.len() ==> *r@[i] == self@[i].1,
    {
        let n = self.entries.len();
        let mut out: Vec<&V> = Vec::new();
        let mut i: usize = 0;
        while i < n
            invariant
                n == self@.len(),
                n == self.entries@.len(),
                i <= n,
                out@.len() == i,
                forall|j: int| 0 <= j < i ==> *out@[j] == self@[j].1,
            decreases n - i,
        {
            out.push(&self.entries[i].1);
            i = i + 1;
        }
        out
    }
}

} // verus!
