//! The flat mapping from text keys to text values that a conversion reads.
//!
//! The entries are kept in the order in which their keys first came, and no
//! key occurs twice. The view of a `FlatMap` is the mathematical map from
//! keys to values; `pairs` gives the entries in their order.

use vstd::prelude::*;

verus! {

/// Some entry of `e` has the key `k`.
pub open spec fn has_key(e: Seq<(Seq<char>, Seq<char>)>, k: Seq<char>) -> bool {
    exists|i: int| 0 <= i < e.len() && (#[trigger] e[i]).0 == k
}

/// The index of an entry of `e` with the key `k`, where there is one.
pub open spec fn index_of_key(e: Seq<(Seq<char>, Seq<char>)>, k: Seq<char>) -> int {
    choose|i: int| 0 <= i < e.len() && (#[trigger] e[i]).0 == k
}

/// No two entries of `e` have the same key.
pub open spec fn distinct_keys(e: Seq<(Seq<char>, Seq<char>)>) -> bool {
    forall|i: int, j: int| 0 <= i < j < e.len() ==> (#[trigger] e[i]).0 != (#[trigger] e[j]).0
}

/// The map that the entries `e` stand for.
pub open spec fn map_of(e: Seq<(Seq<char>, Seq<char>)>) -> Map<Seq<char>, Seq<char>> {
    Map::new(|k: Seq<char>| has_key(e, k), |k: Seq<char>| e[index_of_key(e, k)].1)
}

/// With distinct keys, the map gives for the key of each entry the value of
/// that entry.
pub proof fn lemma_map_of_entry(e: Seq<(Seq<char>, Seq<char>)>, i: int)
    requires
        distinct_keys(e),
        0 <= i < e.len(),
    ensures
        map_of(e).contains_key(e[i].0),
        map_of(e)[e[i].0] == e[i].1,
        index_of_key(e, e[i].0) == i,
{
    let k = e[i].0;
    assert(has_key(e, k));
    let j = index_of_key(e, k);
    assert(0 <= j < e.len() && e[j].0 == k);
    if j < i {
        assert(e[j].0 != e[i].0);
    } else if i < j {
        assert(e[i].0 != e[j].0);
    }
}

/// A new key at the end adds one entry to the map.
pub proof fn lemma_map_of_push(e: Seq<(Seq<char>, Seq<char>)>, k: Seq<char>, v: Seq<char>)
    requires
        distinct_keys(e),
        !has_key(e, k),
    ensures
        distinct_keys(e.push((k, v))),
        map_of(e.push((k, v))) == map_of(e).insert(k, v),
{
    let f = e.push((k, v));
    assert forall|i: int, j: int| 0 <= i < j < f.len() implies (#[trigger] f[i]).0 != (
    #[trigger] f[j]).0 by {
        if j < e.len() {
            assert(e[i].0 != e[j].0);
        } else {
            assert(f[i] == e[i]);
        }
    }
    assert forall|q: Seq<char>| has_key(f, q) <==> (q == k || has_key(e, q)) by {
        if has_key(f, q) {
            let i = index_of_key(f, q);
            if i < e.len() {
                assert(e[i] == f[i]);
            }
        }
        if q == k {
            assert(f[e.len() as int].0 == k);
        }
        if has_key(e, q) {
            let i = index_of_key(e, q);
            assert(f[i] == e[i]);
        }
    }
    assert forall|q: Seq<char>| has_key(f, q) implies #[trigger] map_of(f)[q] == map_of(e).insert(
        k,
        v,
    )[q] by {
        if q == k {
            lemma_map_of_entry(f, e.len() as int);
        } else {
            let i = index_of_key(e, q);
            assert(f[i] == e[i]);
            lemma_map_of_entry(f, i);
            lemma_map_of_entry(e, i);
        }
    }
    assert(map_of(f) =~= map_of(e).insert(k, v));
}

/// A new value for the key of entry `i` changes the map at that key only.
pub proof fn lemma_map_of_update(e: Seq<(Seq<char>, Seq<char>)>, i: int, v: Seq<char>)
    requires
        distinct_keys(e),
        0 <= i < e.len(),
    ensures
        distinct_keys(e.update(i, (e[i].0, v))),
        map_of(e.update(i, (e[i].0, v))) == map_of(e).insert(e[i].0, v),
{
    let k = e[i].0;
    let f = e.update(i, (k, v));
    assert forall|a: int, b: int| 0 <= a < b < f.len() implies (#[trigger] f[a]).0 != (
    #[trigger] f[b]).0 by {
        assert(f[a].0 == e[a].0);
        assert(f[b].0 == e[b].0);
        assert(e[a].0 != e[b].0);
    }
    assert forall|q: Seq<char>| has_key(f, q) <==> has_key(e, q) by {
        if has_key(f, q) {
            let j = index_of_key(f, q);
            assert(e[j].0 == f[j].0);
        }
        if has_key(e, q) {
            let j = index_of_key(e, q);
            assert(f[j].0 == e[j].0);
        }
    }
    assert(has_key(e, k));
    assert forall|q: Seq<char>| has_key(f, q) implies #[trigger] map_of(f)[q] == map_of(e).insert(
        k,
        v,
    )[q] by {
        let j = index_of_key(e, q);
        lemma_map_of_entry(e, j);
        assert(f[j].0 == q);
        lemma_map_of_entry(f, j);
    }
    assert(map_of(f) =~= map_of(e).insert(k, v));
}

/// With distinct keys, the map has as many keys as there are entries.
pub proof fn lemma_map_of_len(e: Seq<(Seq<char>, Seq<char>)>)
    requires
        distinct_keys(e),
    ensures
        map_of(e).dom().finite(),
        map_of(e).dom().len() == e.len(),
    decreases e.len(),
{
    if e.len() == 0 {
        assert(map_of(e).dom() =~= Set::<Seq<char>>::empty());
    } else {
        let f = e.drop_last();
        let (k, v) = e.last();
        assert(e =~= f.push((k, v)));
        assert forall|i: int, j: int| 0 <= i < j < f.len() implies (#[trigger] f[i]).0 != (
        #[trigger] f[j]).0 by {
            assert(f[i] == e[i] && f[j] == e[j]);
        }
        assert(!has_key(f, k)) by {
            if has_key(f, k) {
                let i = index_of_key(f, k);
                assert(f[i] == e[i]);
                assert(e[i].0 != e[e.len() - 1].0);
            }
        }
        lemma_map_of_len(f);
        lemma_map_of_push(f, k, v);
        assert(map_of(e).dom() =~= map_of(f).dom().insert(k));
        assert(!map_of(f).dom().contains(k));
    }
}

/// A mapping from text keys to text values.
pub struct FlatMap {
    entries: Vec<(String, String)>,
}

impl View for FlatMap {
    type V = Map<Seq<char>, Seq<char>>;

    open spec fn view(&self) -> Map<Seq<char>, Seq<char>> {
        map_of(self.pairs())
    }
}

impl FlatMap {
    /// The entries, in the order in which their keys first came.
    pub closed spec fn pairs(&self) -> Seq<(Seq<char>, Seq<char>)> {
        Seq::new(self.entries@.len(), |i: int| (self.entries@[i].0@, self.entries@[i].1@))
    }

    #[verifier::type_invariant]
    spec fn well_formed(&self) -> bool {
        distinct_keys(self.pairs())
    }

    /// The mapping without entries.
    pub fn new() -> (m: FlatMap)
        ensures
            m.pairs() == Seq::<(Seq<char>, Seq<char>)>::empty(),
            m@ == Map::<Seq<char>, Seq<char>>::empty(),
    {
        let m = FlatMap { entries: Vec::new() };
        assert(m.pairs() =~= Seq::<(Seq<char>, Seq<char>)>::empty());
        assert(m@ =~= Map::<Seq<char>, Seq<char>>::empty());
        m
    }

    /// The number of entries, which is the number of keys.
    pub fn len(&self) -> (n: usize)
        ensures
            n == self.pairs().len(),
            distinct_keys(self.pairs()),
            self@.dom().finite(),
            n == self@.dom().len(),
    {
        proof {
            use_type_invariant(self);
            lemma_map_of_len(self.pairs());
        }
        self.entries.len()
    }

    /// The key and the value of entry `i`.
    pub fn entry(&self, i: usize) -> (r: (&String, &String))
        requires
            i < self.pairs().len(),
        ensures
            r.0@ == self.pairs()[i as int].0,
            r.1@ == self.pairs()[i as int].1,
            self@.contains_key(r.0@),
            self@[r.0@] == r.1@,
    {
        proof {
            use_type_invariant(self);
            lemma_map_of_entry(self.pairs(), i as int);
        }
        let e = &self.entries[i];
        (&e.0, &e.1)
    }

    /// Where the entry with the key `key` stands.
    fn position(&self, key: &String) -> (r: Option<usize>)
        ensures
            match r {
                Some(i) => i < self.pairs().len() && self.pairs()[i as int].0 == key@,
                None => !has_key(self.pairs(), key@),
            },
    {
        let n = self.entries.len();
        let mut i: usize = 0;
        while i < n
            invariant
                n == self.entries@.len(),
                i <= n,
                forall|j: int| 0 <= j < i ==> (#[trigger] self.pairs()[j]).0 != key@,
            decreases n - i,
        {
            if self.entries[i].0 == *key {
                return Some(i);
            }
            i += 1;
        }
        None
    }

    /// The value that stands under `key`, if there is one.
    pub fn get(&self, key: &str) -> (r: Option<&String>)
        ensures
            match r {
                Some(v) => self@.contains_key(key@) && v@ == self@[key@],
                None => !self@.contains_key(key@),
            },
    {
        let owned = key.to_owned();
        match self.position(&owned) {
            Some(i) => {
                proof {
                    use_type_invariant(self);
                    lemma_map_of_entry(self.pairs(), i as int);
                }
                Some(&self.entries[i].1)
            },
            None => None,
        }
    }

    /// Puts `value` under `key`. A value that stood there before is replaced,
    /// and the entry keeps its place; a new key comes last.
    pub fn insert(&mut self, key: String, value: String)
        ensures
            final(self)@ == old(self)@.insert(key@, value@),
            has_key(old(self).pairs(), key@) ==> final(self).pairs() == old(self).pairs().update(
                index_of_key(old(self).pairs(), key@),
                (key@, value@),
            ),
            !has_key(old(self).pairs(), key@) ==> final(self).pairs() == old(self).pairs().push(
                (key@, value@),
            ),
    {
        proof {
            use_type_invariant(&*self);
        }
        let ghost before = self.pairs();
        let found = self.position(&key);
        let mut entries: Vec<(String, String)> = Vec::new();
        core::mem::swap(&mut self.entries, &mut entries);
        match found {
            Some(i) => {
                proof {
                    lemma_map_of_entry(before, i as int);
                    lemma_map_of_update(before, i as int, value@);
                }
                entries.set(i, (key, value));
            },
            None => {
                proof {
                    lemma_map_of_push(before, key@, value@);
                }
                entries.push((key, value));
            },
        }
        proof {
            let after = Seq::new(entries@.len(), |i: int| (entries@[i].0@, entries@[i].1@));
            if found is Some {
                assert(after =~= before.update(found->0 as int, (key@, value@)));
            } else {
                assert(after =~= before.push((key@, value@)));
            }
        }
        self.entries = entries;
    }
}

} // verus!
