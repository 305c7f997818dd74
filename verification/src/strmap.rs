use vstd::prelude::*;

verus! {

/// Whether no two entries of `s` share a key.
pub open spec fn keys_unique<V>(s: Seq<(String, V)>) -> bool {
    forall|i: int, j: int| 0 <= i < j < s.len() ==> s[i].0@ != s[j].0@
}

/// The map that the entries `s` stand for; a later entry wins over an earlier one.
pub open spec fn map_of<V: View>(s: Seq<(String, V)>) -> Map<Seq<char>, V::V>
    decreases s.len(),
{
    if s.len() == 0 {
        Map::empty()
    } else {
        map_of(s.drop_last()).insert(s.last().0@, s.last().1@)
    }
}

/// A map keyed by strings, kept as its entries in the order the keys came in.
pub struct StrMap<V> {
    entries: Vec<(String, V)>,
}

impl<V: View> View for StrMap<V> {
    type V = Map<Seq<char>, V::V>;

    closed spec fn view(&self) -> Map<Seq<char>, V::V> {
        map_of(self.entries@)
    }
}

/// An entry of `s` with key `k` has the value that the map gives `k`.
pub proof fn lemma_map_of_index<V: View>(s: Seq<(String, V)>, i: int)
    requires
        keys_unique(s),
        0 <= i < s.len(),
    ensures
        map_of(s).contains_key(s[i].0@),
        map_of(s)[s[i].0@] == s[i].1@,
    decreases s.len(),
{
    if i < s.len() - 1 {
        let t = s.drop_last();
        assert(keys_unique(t));
        assert(t[i] == s[i]);
        lemma_map_of_index(t, i);
        assert(s.last().0@ != s[i].0@);
    }
}

/// A key that no entry of `s` has is not in the map.
pub proof fn lemma_map_of_absent<V: View>(s: Seq<(String, V)>, k: Seq<char>)
    requires
        forall|i: int| 0 <= i < s.len() ==> s[i].0@ != k,
    ensures
        !map_of(s).contains_key(k),
    decreases s.len(),
{
    if s.len() > 0 {
        let t = s.drop_last();
        assert forall|i: int| 0 <= i < t.len() implies t[i].0@ != k by {
            assert(t[i] == s[i]);
        }
        lemma_map_of_absent(t, k);
    }
}

/// Replacing the value of the entry at `i` replaces the value of its key in the map.
pub proof fn lemma_map_of_update<V: View>(s: Seq<(String, V)>, i: int, e: (String, V))
    requires
        keys_unique(s),
        0 <= i < s.len(),
        e.0@ == s[i].0@,
    ensures
        keys_unique(s.update(i, e)),
        map_of(s.update(i, e)) == map_of(s).insert(e.0@, e.1@),
{
    let t = s.update(i, e);
    assert(keys_unique(t)) by {
        assert forall|a: int, b: int| 0 <= a < b < t.len() implies t[a].0@ != t[b].0@ by {
            assert(t[a].0@ == s[a].0@);
            assert(t[b].0@ == s[b].0@);
        }
    }
    let m = map_of(s).insert(e.0@, e.1@);
    assert forall|k: Seq<char>| #[trigger] map_of(t).contains_key(k) <==> m.contains_key(k) by {
        if exists|j: int| 0 <= j < s.len() && s[j].0@ == k {
            let j = choose|j: int| 0 <= j < s.len() && s[j].0@ == k;
            lemma_map_of_index(s, j);
            assert(t[j].0@ == k);
            lemma_map_of_index(t, j);
        } else {
            lemma_map_of_absent(s, k);
            assert forall|j: int| 0 <= j < t.len() implies t[j].0@ != k by {
                assert(t[j].0@ == s[j].0@);
            }
            lemma_map_of_absent(t, k);
        }
    }
    assert forall|k: Seq<char>| map_of(t).contains_key(k) implies map_of(t)[k] == m[k] by {
        if k == e.0@ {
            lemma_map_of_index(t, i);
        } else {
            let j = choose|j: int| 0 <= j < s.len() && s[j].0@ == k;
            if exists|j: int| 0 <= j < s.len() && s[j].0@ == k {
                lemma_map_of_index(s, j);
                assert(t[j] == s[j]);
                lemma_map_of_index(t, j);
            } else {
                assert forall|j: int| 0 <= j < t.len() implies t[j].0@ != k by {
                    assert(t[j].0@ == s[j].0@);
                }
                lemma_map_of_absent(t, k);
            }
        }
    }
    assert(map_of(t) =~= m);
}

/// Taking out the entry at `i` takes its key out of the map and leaves the rest.
pub proof fn lemma_map_of_remove<V: View>(s: Seq<(String, V)>, i: int)
    requires
        keys_unique(s),
        0 <= i < s.len(),
    ensures
        keys_unique(s.remove(i)),
        map_of(s.remove(i)) == map_of(s).remove(s[i].0@),
{
    let t = s.remove(i);
    let key = s[i].0@;
    assert(keys_unique(t)) by {
        assert forall|a: int, b: int| 0 <= a < b < t.len() implies t[a].0@ != t[b].0@ by {
            let sa = if a < i { a } else { a + 1 };
            let sb = if b < i { b } else { b + 1 };
            assert(t[a] == s[sa]);
            assert(t[b] == s[sb]);
        }
    }
    let m = map_of(s).remove(key);
    assert forall|k: Seq<char>| #[trigger] map_of(t).contains_key(k) <==> m.contains_key(k) by {
        if exists|j: int| 0 <= j < t.len() && t[j].0@ == k {
            let j = choose|j: int| 0 <= j < t.len() && t[j].0@ == k;
            let sj = if j < i { j } else { j + 1 };
            assert(t[j] == s[sj]);
            lemma_map_of_index(t, j);
            lemma_map_of_index(s, sj);
        } else {
            lemma_map_of_absent(t, k);
            if k != key && map_of(s).contains_key(k) {
                assert(exists|j: int| 0 <= j < s.len() && s[j].0@ == k) by {
                    if !(exists|j: int| 0 <= j < s.len() && s[j].0@ == k) {
                        lemma_map_of_absent(s, k);
                    }
                }
                let sj = choose|j: int| 0 <= j < s.len() && s[j].0@ == k;
                let j = if sj < i { sj } else { sj - 1 };
                assert(t[j] == s[sj]);
            }
        }
    }
    assert forall|k: Seq<char>| map_of(t).contains_key(k) implies map_of(t)[k] == m[k] by {
        let j = choose|j: int| 0 <= j < t.len() && t[j].0@ == k;
        if exists|j: int| 0 <= j < t.len() && t[j].0@ == k {
            let sj = if j < i { j } else { j + 1 };
            assert(t[j] == s[sj]);
            lemma_map_of_index(t, j);
            lemma_map_of_index(s, sj);
        } else {
            lemma_map_of_absent(t, k);
        }
    }
    assert(map_of(t) =~= m);
}

impl<V> StrMap<V> {
    #[verifier::type_invariant]
    spec fn inv(self) -> bool {
        keys_unique(self.entries@)
    }
}

impl<V: View> StrMap<V> {
    /// The number of keys.
    pub closed spec fn spec_len(&self) -> nat {
        self.entries@.len()
    }

    /// The key of the `i`-th entry, in the order the keys came in.
    pub closed spec fn key_at(&self, i: int) -> Seq<char> {
        self.entries@[i].0@
    }

    /// The keys, in the order they came in.
    pub closed spec fn key_order(&self) -> Seq<Seq<char>> {
        self.entries@.map_values(|e: (String, V)| e.0@)
    }

    /// Every key of the map has a place in the key order.
    pub proof fn lemma_key_order_covers(&self, k: Seq<char>)
        ensures
            self@.contains_key(k) ==> exists|j: int| 0 <= j < self.key_order().len() && self.key_order()[j] == k,
    {
        if self@.contains_key(k) {
            if forall|j: int| 0 <= j < self.entries@.len() ==> self.entries@[j].0@ != k {
                lemma_map_of_absent(self.entries@, k);
            }
            let j = choose|j: int| 0 <= j < self.entries@.len() && self.entries@[j].0@ == k;
            assert(self.key_order()[j] == k);
        }
    }

    /// An empty map.
    pub fn new() -> (r: Self)
        ensures
            r@ == Map::<Seq<char>, V::V>::empty(),
            r.key_order() == Seq::<Seq<char>>::empty(),
    {
        let r = StrMap { entries: Vec::new() };
        assert(r.key_order() =~= Seq::<Seq<char>>::empty());
        r
    }

    /// The number of keys.
    pub fn len(&self) -> (n: usize)
        ensures
            n == self.key_order().len(),
            n == self@.dom().len(),
    {
        proof {
            use_type_invariant(self);
            self.lemma_dom_len();
        }
        self.entries.len()
    }

    proof fn lemma_dom_len(&self)
        requires
            keys_unique(self.entries@),
        ensures
            self@.dom().len() == self.entries@.len(),
            self@.dom().finite(),
        decreases self.entries@.len(),
    {
        lemma_unique_dom_len(self.entries@);
    }

    fn find(&self, key: &str) -> (r: Option<usize>)
        ensures
            match r {
                Some(i) => i < self.entries@.len() && self.entries@[i as int].0@ == key@,
                None => forall|j: int| 0 <= j < self.entries@.len() ==> self.entries@[j].0@ != key@,
            },
    {
        let k = key.to_owned();
        let mut i: usize = 0;
        while i < self.entries.len()
            invariant
                i <= self.entries@.len(),
                k@ == key@,
                forall|j: int| 0 <= j < i ==> self.entries@[j].0@ != key@,
            decreases self.entries@.len() - i,
        {
            if self.entries[i].0 == k {
                return Some(i);
            }
            i = i + 1;
        }
        None
    }

    /// Whether `key` is in the map.
    pub fn contains_key(&self, key: &str) -> (r: bool)
        ensures
            r == self@.contains_key(key@),
    {
        proof {
            use_type_invariant(self);
        }
        match self.find(key) {
            Some(i) => {
                proof {
                    lemma_map_of_index(self.entries@, i as int);
                }
                true
            },
            None => {
                proof {
                    lemma_map_of_absent(self.entries@, key@);
                }
                false
            },
        }
    }

    /// The value of `key`, if it is in the map.
    pub fn get(&self, key: &str) -> (r: Option<&V>)
        ensures
            match r {
                Some(v) => self@.contains_key(key@) && v@ == self@[key@],
                None => !self@.contains_key(key@),
            },
    {
        proof {
            use_type_invariant(self);
        }
        match self.find(key) {
            Some(i) => {
                proof {
                    lemma_map_of_index(self.entries@, i as int);
                }
                Some(&self.entries[i].1)
            },
            None => {
                proof {
                    lemma_map_of_absent(self.entries@, key@);
                }
                None
            },
        }
    }

    /// The key and value of the `i`-th entry, in the order the keys came in.
    pub fn entry_at(&self, i: usize) -> (r: (&String, &V))
        requires
            i < self.key_order().len(),
        ensures
            r.0@ == self.key_order()[i as int],
            self@.contains_key(r.0@),
            self@[r.0@] == r.1@,
    {
        proof {
            use_type_invariant(self);
            lemma_map_of_index(self.entries@, i as int);
        }
        let e = &self.entries[i];
        (&e.0, &e.1)
    }

    /// Takes `key` out of the map, handing back its value; the other keys keep their order.
    pub fn remove(&mut self, key: &str) -> (r: Option<V>)
        ensures
            final(self)@ == old(self)@.remove(key@),
            match r {
                Some(v) => old(self)@.contains_key(key@) && v@ == old(self)@[key@] && exists|i: int|
                    0 <= i < old(self).key_order().len() && old(self).key_order()[i] == key@
                        && final(self).key_order() == old(self).key_order().remove(i),
                None => !old(self)@.contains_key(key@) && final(self).key_order() == old(
                    self,
                ).key_order(),
            },
    {
        proof {
            use_type_invariant(&*self);
        }
        let ghost old_entries = self.entries@;
        match self.find(key) {
            Some(i) => {
                proof {
                    lemma_map_of_index(old_entries, i as int);
                    lemma_map_of_remove(old_entries, i as int);
                }
                let mut entries = Vec::new();
                std::mem::swap(&mut entries, &mut self.entries);
                let (_, v) = entries.remove(i);
                self.entries = entries;
                proof {
                    assert(self.key_order() =~= old(self).key_order().remove(i as int));
                }
                Some(v)
            },
            None => {
                proof {
                    lemma_map_of_absent(old_entries, key@);
                    assert(map_of(old_entries).remove(key@) =~= map_of(old_entries));
                }
                None
            },
        }
    }

    /// Sets the value of `key`; a key that was not there yet comes last in the key order.
    pub fn insert(&mut self, key: String, value: V)
        ensures
            final(self)@ == old(self)@.insert(key@, value@),
            old(self)@.contains_key(key@) ==> final(self).key_order() == old(self).key_order(),
            !old(self)@.contains_key(key@) ==> final(self).key_order() == old(self).key_order().push(
                key@,
            ),
    {
        proof {
            use_type_invariant(&*self);
        }
        let ghost old_entries = self.entries@;
        match self.find(key.as_str()) {
            Some(i) => {
                proof {
                    lemma_map_of_index(old_entries, i as int);
                    lemma_map_of_update(old_entries, i as int, (key, value));
                }
                let mut entries = Vec::new();
                std::mem::swap(&mut entries, &mut self.entries);
                entries.set(i, (key, value));
                self.entries = entries;
                proof {
                    assert(self.key_order() =~= old(self).key_order());
                }
            },
            None => {
                proof {
                    lemma_map_of_absent(old_entries, key@);
                }
                let ghost k = key@;
                let mut entries = Vec::new();
                std::mem::swap(&mut entries, &mut self.entries);
                entries.push((key, value));
                proof {
                    assert(entries@.drop_last() =~= old_entries);
                    assert(keys_unique(entries@));
                }
                self.entries = entries;
                proof {
                    assert(self.key_order() =~= old(self).key_order().push(k));
                }
            },
        }
    }
}

proof fn lemma_unique_dom_len<V: View>(s: Seq<(String, V)>)
    requires
        keys_unique(s),
    ensures
        map_of(s).dom().len() == s.len(),
        map_of(s).dom().finite(),
    decreases s.len(),
{
    if s.len() > 0 {
        let t = s.drop_last();
        assert(keys_unique(t));
        lemma_unique_dom_len(t);
        assert forall|j: int| 0 <= j < t.len() implies t[j].0@ != s.last().0@ by {
            assert(t[j] == s[j]);
        }
        lemma_map_of_absent(t, s.last().0@);
    }
}

} // verus!
