//! An insertion-ordered association list keyed by strings.
//!
//! Every collection of the library (the shared context, the handler groups of
//! the event bus, the module registry) is a map from string ids to values.
//! `KeyedList` keeps its entries in the order in which their keys were first
//! inserted, and never holds a key twice.
use vstd::prelude::*;

verus! {

/// A map from string keys to values that remembers the order in which keys
/// were first inserted.
pub struct KeyedList<V> {
    entries: Vec<(String, V)>,
}

/// The index of a key that occurs exactly once in `keys`.
proof fn lemma_index_of_unique(keys: Seq<Seq<char>>, i: int)
    requires
        keys.no_duplicates(),
        0 <= i < keys.len(),
    ensures
        keys.index_of(keys[i]) == i,
        keys.contains(keys[i]),
{
    assert(keys.contains(keys[i]));
    let j = keys.index_of(keys[i]);
    assert(0 <= j < keys.len() && keys[j] == keys[i]);
}

/// The keys of a sequence of entries.
pub open spec fn seq_keys<V>(s: Seq<(String, V)>) -> Seq<Seq<char>> {
    s.map_values(|e: (String, V)| e.0@)
}

/// The map that a sequence of entries with distinct keys stands for.
pub open spec fn seq_map<V>(s: Seq<(String, V)>) -> Map<Seq<char>, V> {
    Map::new(
        |k: Seq<char>| seq_keys(s).contains(k),
        |k: Seq<char>| s[seq_keys(s).index_of(k)].1,
    )
}

/// Replacing the value of one entry keeps the keys and updates the map at that key.
proof fn lemma_update_value<V>(s: Seq<(String, V)>, i: int)
    requires
        seq_keys(s).no_duplicates(),
        0 <= i < s.len(),
    ensures
        forall|v: V|
            #![trigger s.update(i, (s[i].0, v))]
            seq_keys(s.update(i, (s[i].0, v))) == seq_keys(s)
            && seq_map(s.update(i, (s[i].0, v))) == seq_map(s).insert(s[i].0@, v),
{
    assert forall|v: V|
        #![trigger s.update(i, (s[i].0, v))]
        seq_keys(s.update(i, (s[i].0, v))) == seq_keys(s)
        && seq_map(s.update(i, (s[i].0, v))) == seq_map(s).insert(s[i].0@, v) by {
        let t = s.update(i, (s[i].0, v));
        assert(seq_keys(t) =~= seq_keys(s));
        lemma_index_of_unique(seq_keys(s), i);
        assert forall|k: Seq<char>| seq_keys(s).contains(k) implies
            #[trigger] seq_map(t)[k] == seq_map(s).insert(s[i].0@, v)[k] by {
            let j = seq_keys(s).index_of(k);
            lemma_index_of_unique(seq_keys(s), j);
        }
        assert(seq_map(t) =~= seq_map(s).insert(s[i].0@, v));
    }
}


/// Appending an entry with a fresh key appends the key and inserts into the map.
proof fn lemma_push_fresh<V>(s: Seq<(String, V)>, e: (String, V))
    requires
        seq_keys(s).no_duplicates(),
        !seq_keys(s).contains(e.0@),
    ensures
        seq_keys(s.push(e)) == seq_keys(s).push(e.0@),
        seq_keys(s.push(e)).no_duplicates(),
        seq_map(s.push(e)) == seq_map(s).insert(e.0@, e.1),
{
    let t = s.push(e);
    assert(seq_keys(t) =~= seq_keys(s).push(e.0@));
    assert(seq_keys(t).no_duplicates());
    assert forall|k: Seq<char>| #[trigger] seq_keys(t).contains(k) implies
        seq_map(t)[k] == seq_map(s).insert(e.0@, e.1)[k] by {
        let j = seq_keys(t).index_of(k);
        lemma_index_of_unique(seq_keys(t), j);
        if k != e.0@ {
            assert(seq_keys(t)[j] == k);
            assert(j < s.len());
            assert(seq_keys(s)[j] == k);
            lemma_index_of_unique(seq_keys(s), j);
        }
    }
    assert forall|k: Seq<char>| seq_map(s).insert(e.0@, e.1).contains_key(k) implies
        #[trigger] seq_keys(t).contains(k) by {
        if k != e.0@ {
            let j = seq_keys(s).index_of(k);
            assert(seq_keys(t)[j] == k);
        } else {
            assert(seq_keys(t)[s.len() as int] == k);
        }
    }
    assert(seq_map(t) =~= seq_map(s).insert(e.0@, e.1));
}

/// Removing the entry at a position removes its key from the keys and the map.
proof fn lemma_remove_at<V>(s: Seq<(String, V)>, i: int)
    requires
        seq_keys(s).no_duplicates(),
        0 <= i < s.len(),
    ensures
        seq_keys(s.remove(i)) == seq_keys(s).remove(i),
        seq_keys(s.remove(i)).no_duplicates(),
        seq_map(s.remove(i)) == seq_map(s).remove(s[i].0@),
{
    let t = s.remove(i);
    let ks = seq_keys(s);
    assert(seq_keys(t) =~= ks.remove(i));
    assert forall|a: int, b: int| 0 <= a < t.len() && 0 <= b < t.len() && a != b implies
        seq_keys(t)[a] != seq_keys(t)[b] by {
        let a0 = if a < i { a } else { a + 1 };
        let b0 = if b < i { b } else { b + 1 };
        assert(seq_keys(t)[a] == ks[a0]);
        assert(seq_keys(t)[b] == ks[b0]);
    }
    assert(seq_keys(t).no_duplicates());
    let k0 = s[i].0@;
    assert forall|k: Seq<char>| #[trigger] seq_keys(t).contains(k) implies
        k != k0 && ks.contains(k) && seq_map(t)[k] == seq_map(s)[k] by {
        let j = seq_keys(t).index_of(k);
        lemma_index_of_unique(seq_keys(t), j);
        let j0 = if j < i { j } else { j + 1 };
        assert(ks[j0] == k);
        lemma_index_of_unique(ks, j0);
        lemma_index_of_unique(ks, i);
    }
    assert forall|k: Seq<char>| seq_map(s).remove(k0).contains_key(k) implies
        #[trigger] seq_keys(t).contains(k) by {
        let j0 = ks.index_of(k);
        let j = if j0 < i { j0 } else { j0 - 1 };
        assert(j0 != i);
        assert(seq_keys(t)[j] == k);
    }
    assert(seq_map(t) =~= seq_map(s).remove(k0));
}

impl<V> KeyedList<V> {
    /// The keys, in insertion order.
    pub closed spec fn keys(&self) -> Seq<Seq<char>> {
        seq_keys(self.entries@)
    }

    /// Well-formedness: no key occurs twice.
    pub closed spec fn wf(&self) -> bool {
        self.keys().no_duplicates()
    }

    /// Creates an empty list.
    pub fn new() -> (r: Self)
        ensures
            r.wf(),
            r@ == Map::<Seq<char>, V>::empty(),
            r.keys() == Seq::<Seq<char>>::empty(),
    {
        let r = KeyedList { entries: Vec::new() };
        assert(r@ =~= Map::<Seq<char>, V>::empty());
        assert(r.keys() =~= Seq::<Seq<char>>::empty());
        r
    }

    /// The key set of the view is the set of keys, and its size their number.
    pub proof fn lemma_dom(&self)
        requires
            self.wf(),
        ensures
            self.keys().no_duplicates(),
            self@.dom() == self.keys().to_set(),
            self@.dom().finite(),
            self@.dom().len() == self.keys().len(),
    {
        assert(self@.dom() =~= self.keys().to_set());
        self.keys().unique_seq_to_set();
    }

    /// Number of entries.
    pub fn len(&self) -> (n: usize)
        requires
            self.wf(),
        ensures
            n == self.keys().len(),
            n == self@.dom().len(),
    {
        proof {
            self.lemma_dom();
        }
        self.entries.len()
    }

    /// Position of a key, if present.
    fn find(&self, key: &String) -> (r: Option<usize>)
        requires
            self.wf(),
        ensures
            match r {
                Some(i) => i < self.keys().len() && self.keys()[i as int] == key@
                    && self.keys().index_of(key@) == i,
                None => !self.keys().contains(key@),
            },
    {
        let n = self.entries.len();
        let mut i: usize = 0;
        while i < n
            invariant
                n == self.entries@.len(),
                i <= n,
                self.keys().len() == n,
                self.wf(),
                forall|j: int| 0 <= j < i ==> self.keys()[j] != key@,
            decreases n - i,
        {
            if self.entries[i].0 == *key {
                proof {
                    lemma_index_of_unique(self.keys(), i as int);
                }
                return Some(i);
            }
            i = i + 1;
        }
        None
    }

    /// Whether a key is present.
    pub fn contains_key(&self, key: &str) -> (r: bool)
        requires
            self.wf(),
        ensures
            r == self@.contains_key(key@),
    {
        let k = key.to_owned();
        self.find(&k).is_some()
    }

    /// A shared reference to the value under a key.
    pub fn get(&self, key: &str) -> (r: Option<&V>)
        requires
            self.wf(),
        ensures
            r == (if self@.contains_key(key@) { Some(&self@[key@]) } else { None }),
    {
        let k = key.to_owned();
        match self.find(&k) {
            Some(i) => Some(&self.entries[i].1),
            None => None,
        }
    }

    /// A mutable reference to the value under a key.
    pub fn get_mut(&mut self, key: &str) -> (r: Option<&mut V>)
        requires
            old(self).wf(),
        ensures
            final(self).wf(),
            final(self).keys() == old(self).keys(),
            match r {
                Some(v) => {
                    &&& old(self)@.contains_key(key@)
                    &&& *v == old(self)@[key@]
                    &&& final(self)@ == old(self)@.insert(key@, *final(v))
                },
                None => !old(self)@.contains_key(key@) && *final(self) == *old(self),
            },
    {
        let k = key.to_owned();
        match self.find(&k) {
            Some(i) => {
                proof {
                    lemma_update_value(self.entries@, i as int);
                }
                let e = &mut self.entries[i];
                Some(&mut e.1)
            },
            None => None,
        }
    }

    /// Inserts a value under a key. A key that is already present keeps its
    /// position and gets the new value; a new key goes last. Returns the value
    /// that was replaced, if any.
    pub fn insert(&mut self, key: String, value: V) -> (r: Option<V>)
        requires
            old(self).wf(),
        ensures
            final(self).wf(),
            final(self)@ == old(self)@.insert(key@, value),
            final(self).keys() == (if old(self)@.contains_key(key@) {
                old(self).keys()
            } else {
                old(self).keys().push(key@)
            }),
            r == (if old(self)@.contains_key(key@) { Some(old(self)@[key@]) } else { None }),
    {
        match self.find(&key) {
            Some(i) => {
                proof {
                    lemma_update_value(self.entries@, i as int);
                }
                let mut v = value;
                let e = &mut self.entries[i];
                std::mem::swap(&mut e.1, &mut v);
                Some(v)
            },
            None => {
                proof {
                    lemma_push_fresh(self.entries@, (key, value));
                }
                self.entries.push((key, value));
                None
            },
        }
    }

    /// Removes a key and returns its value, if it was present.
    pub fn remove(&mut self, key: &str) -> (r: Option<V>)
        requires
            old(self).wf(),
        ensures
            final(self).wf(),
            final(self)@ == old(self)@.remove(key@),
            r == (if old(self)@.contains_key(key@) { Some(old(self)@[key@]) } else { None }),
            old(self)@.contains_key(key@) ==> final(self).keys() == old(self).keys().remove(
                old(self).keys().index_of(key@),
            ),
            !old(self)@.contains_key(key@) ==> final(self).keys() == old(self).keys(),
    {
        let k = key.to_owned();
        match self.find(&k) {
            Some(i) => {
                proof {
                    lemma_remove_at(self.entries@, i as int);
                }
                let (_, v) = self.entries.remove(i);
                Some(v)
            },
            None => {
                proof {
                    assert(self@ =~= self@.remove(key@));
                }
                None
            },
        }
    }

    /// The keys, in insertion order, borrowed.
    pub fn key_strs(&self) -> (r: Vec<&str>)
        requires
            self.wf(),
        ensures
            r@.map_values(|s: &str| s@) == self.keys(),
    {
        let mut r: Vec<&str> = Vec::new();
        let n = self.entries.len();
        let mut i: usize = 0;
        while i < n
            invariant
                n == self.entries@.len(),
                i <= n,
                r@.len() == i,
                forall|j: int| 0 <= j < i ==> #[trigger] r@[j]@ == self.keys()[j],
            decreases n - i,
        {
            r.push(self.entries[i].0.as_str());
            i = i + 1;
        }
        assert(r@.map_values(|s: &str| s@) =~= self.keys());
        r
    }

    /// The keys, in insertion order, copied.
    pub fn key_strings(&self) -> (r: Vec<String>)
        requires
            self.wf(),
        ensures
            r@.map_values(|s: String| s@) == self.keys(),
    {
        let mut r: Vec<String> = Vec::new();
        let n = self.entries.len();
        let mut i: usize = 0;
        while i < n
            invariant
                n == self.entries@.len(),
                i <= n,
                r@.len() == i,
                forall|j: int| 0 <= j < i ==> #[trigger] r@[j]@ == self.keys()[j],
            decreases n - i,
        {
            r.push(self.entries[i].0.clone());
            i = i + 1;
        }
        assert(r@.map_values(|s: String| s@) =~= self.keys());
        r
    }
}

impl<V> View for KeyedList<V> {
    type V = Map<Seq<char>, V>;

    closed spec fn view(&self) -> Map<Seq<char>, V> {
        seq_map(self.entries@)
    }
}

} // verus!
