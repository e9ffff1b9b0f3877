//! A map keyed by strings, stored as an association list without duplicate keys.

use vstd::prelude::*;

verus! {

/// Keys of an association list.
pub open spec fn keys_of<V>(s: Seq<(String, V)>) -> Seq<Seq<char>> {
    s.map_values(|e: (String, V)| e.0@)
}

/// The map that an association list denotes (later entries win).
pub open spec fn map_of<V>(s: Seq<(String, V)>) -> Map<Seq<char>, V>
    decreases s.len(),
{
    if s.len() == 0 {
        Map::empty()
    } else {
        map_of(s.drop_last()).insert(s.last().0@, s.last().1)
    }
}

proof fn lemma_keys_drop_last<V>(s: Seq<(String, V)>)
    requires
        s.len() > 0,
    ensures
        keys_of(s.drop_last()) == keys_of(s).drop_last(),
        keys_of(s).last() == s.last().0@,
{
    assert(keys_of(s.drop_last()) =~= keys_of(s).drop_last());
}

/// The domain of `map_of(s)` is the set of keys of `s`.
pub proof fn lemma_map_of_dom<V>(s: Seq<(String, V)>)
    ensures
        map_of(s).dom() == keys_of(s).to_set(),
        map_of(s).dom().finite(),
    decreases s.len(),
{
    if s.len() > 0 {
        lemma_map_of_dom(s.drop_last());
        lemma_keys_drop_last(s);
        assert(keys_of(s).to_set() =~= keys_of(s.drop_last()).to_set().insert(s.last().0@)) by {
            assert forall|k: Seq<char>| keys_of(s).to_set().contains(k) implies keys_of(s.drop_last()).to_set().insert(s.last().0@).contains(k) by {
                let i = choose|i: int| 0 <= i < keys_of(s).len() && keys_of(s)[i] == k;
                if i < s.len() - 1 {
                    assert(keys_of(s.drop_last())[i] == k);
                }
            }
            assert forall|k: Seq<char>| keys_of(s.drop_last()).to_set().contains(k) implies keys_of(s).to_set().contains(k) by {
                let i = choose|i: int| 0 <= i < keys_of(s.drop_last()).len() && keys_of(s.drop_last())[i] == k;
                assert(keys_of(s)[i] == k);
            }
            assert(keys_of(s)[s.len() - 1] == s.last().0@);
        }
    } else {
        assert(keys_of(s).to_set() =~= Set::empty());
    }
}

/// With distinct keys, entry `i` is what the map holds at its key.
pub proof fn lemma_map_of_index<V>(s: Seq<(String, V)>, i: int)
    requires
        keys_of(s).no_duplicates(),
        0 <= i < s.len(),
    ensures
        map_of(s).dom().contains(s[i].0@),
        map_of(s)[s[i].0@] == s[i].1,
    decreases s.len(),
{
    lemma_keys_drop_last(s);
    if i < s.len() - 1 {
        assert(keys_of(s)[i] != keys_of(s)[s.len() - 1]);
        assert(keys_of(s.drop_last())[i] == keys_of(s)[i]);
        lemma_map_of_index(s.drop_last(), i);
    }
}

/// Replacing the value of entry `i` (keeping its key) updates the map there.
pub proof fn lemma_map_of_update<V>(s: Seq<(String, V)>, i: int, e: (String, V))
    requires
        keys_of(s).no_duplicates(),
        0 <= i < s.len(),
        e.0@ == s[i].0@,
    ensures
        map_of(s.update(i, e)) == map_of(s).insert(e.0@, e.1),
    decreases s.len(),
{
    let t = s.update(i, e);
    lemma_keys_drop_last(s);
    lemma_keys_drop_last(t);
    if i == s.len() - 1 {
        assert(t.drop_last() =~= s.drop_last());
        assert(map_of(t) =~= map_of(s).insert(e.0@, e.1));
    } else {
        assert(t.drop_last() =~= s.drop_last().update(i, e));
        assert(keys_of(s)[i] != keys_of(s)[s.len() - 1]);
        assert(keys_of(s.drop_last())[i] == keys_of(s)[i]);
        lemma_map_of_update(s.drop_last(), i, e);
        assert(map_of(t) =~= map_of(s).insert(e.0@, e.1));
    }
}

/// Removing entry `i` removes its key from the map.
pub proof fn lemma_map_of_remove<V>(s: Seq<(String, V)>, i: int)
    requires
        keys_of(s).no_duplicates(),
        0 <= i < s.len(),
    ensures
        map_of(s.remove(i)) == map_of(s).remove(s[i].0@),
        keys_of(s.remove(i)).no_duplicates(),
    decreases s.len(),
{
    let t = s.remove(i);
    assert(keys_of(t) =~= keys_of(s).remove(i));
    lemma_keys_drop_last(s);
    if i == s.len() - 1 {
        assert(t =~= s.drop_last());
        lemma_map_of_dom(s.drop_last());
        assert(!keys_of(s.drop_last()).contains(s.last().0@)) by {
            if keys_of(s.drop_last()).contains(s.last().0@) {
                let j = choose|j: int| 0 <= j < keys_of(s.drop_last()).len() && keys_of(s.drop_last())[j] == s.last().0@;
                assert(keys_of(s)[j] == keys_of(s)[s.len() - 1]);
            }
        }
        assert(map_of(t) =~= map_of(s).remove(s[i].0@));
    } else {
        assert(t.drop_last() =~= s.drop_last().remove(i));
        assert(t.last() == s.last());
        assert(keys_of(s)[i] != keys_of(s)[s.len() - 1]);
        assert(keys_of(s.drop_last())[i] == keys_of(s)[i]);
        lemma_map_of_remove(s.drop_last(), i);
        assert(map_of(t) =~= map_of(s).remove(s[i].0@));
    }
}

/// A string-keyed map.
pub struct StrMap<V> {
    entries: Vec<(String, V)>,
}

impl<V> View for StrMap<V> {
    type V = Map<Seq<char>, V>;

    closed spec fn view(&self) -> Map<Seq<char>, V> {
        map_of(self.entries@)
    }
}

impl<V> StrMap<V> {
    /// Keys are distinct.
    pub closed spec fn wf(&self) -> bool {
        keys_of(self.entries@).no_duplicates()
    }

    /// An empty map.
    pub fn new() -> (m: Self)
        ensures
            m.wf(),
            m@ == Map::<Seq<char>, V>::empty(),
    {
        let m = StrMap { entries: Vec::new() };
        assert(keys_of(m.entries@) =~= Seq::empty());
        m
    }

    fn find(&self, key: &String) -> (r: Option<usize>)
        requires
            self.wf(),
        ensures
            match r {
                Some(i) => i < self.entries@.len() && self.entries@[i as int].0@ == key@,
                None => !self@.dom().contains(key@),
            },
    {
        let n = self.entries.len();
        let mut i: usize = 0;
        while i < n
            invariant
                n == self.entries@.len(),
                i <= n,
                forall|j: int| 0 <= j < i ==> self.entries@[j].0@ != key@,
            decreases n - i,
        {
            if self.entries[i].0 == *key {
                return Some(i);
            }
            i = i + 1;
        }
        proof {
            lemma_map_of_dom(self.entries@);
            if keys_of(self.entries@).contains(key@) {
                let j = choose|j: int| 0 <= j < keys_of(self.entries@).len() && keys_of(self.entries@)[j] == key@;
                assert(self.entries@[j].0@ == key@);
            }
        }
        None
    }

    /// The value stored under `key`.
    pub fn get(&self, key: &str) -> (r: Option<&V>)
        requires
            self.wf(),
        ensures
            match r {
                Some(v) => self@.dom().contains(key@) && *v == self@[key@],
                None => !self@.dom().contains(key@),
            },
    {
        let k: String = key.to_owned();
        match self.find(&k) {
            Some(i) => {
                proof { lemma_map_of_index(self.entries@, i as int); }
                Some(&self.entries[i].1)
            },
            None => None,
        }
    }

    /// `key` is present.
    pub fn contains_key(&self, key: &str) -> (b: bool)
        requires
            self.wf(),
        ensures
            b == self@.dom().contains(key@),
    {
        self.get(key).is_some()
    }

    /// Store `value` under `key`, replacing any earlier value.
    pub fn insert(&mut self, key: String, value: V)
        requires
            old(self).wf(),
        ensures
            final(self).wf(),
            final(self)@ == old(self)@.insert(key@, value),
    {
        match self.find(&key) {
            Some(i) => {
                proof { lemma_map_of_update(self.entries@, i as int, (key, value)); }
                let ghost s = self.entries@;
                self.entries.set(i, (key, value));
                assert(keys_of(self.entries@) =~= keys_of(s));
            },
            None => {
                let ghost s = self.entries@;
                proof { lemma_map_of_dom(s); }
                self.entries.push((key, value));
                proof {
                    assert(self.entries@.drop_last() =~= s);
                    assert(keys_of(self.entries@) =~= keys_of(s).push(key@));
                    assert(!keys_of(s).contains(key@)) by {
                        if keys_of(s).contains(key@) {
                            let j = choose|j: int| 0 <= j < keys_of(s).len() && keys_of(s)[j] == key@;
                            assert(keys_of(s).to_set().contains(key@));
                        }
                    }
                }
            },
        }
    }

    /// Remove `key`, returning its value.
    pub fn remove(&mut self, key: &str) -> (r: Option<V>)
        requires
            old(self).wf(),
        ensures
            final(self).wf(),
            final(self)@ == old(self)@.remove(key@),
            match r {
                Some(v) => old(self)@.dom().contains(key@) && v == old(self)@[key@],
                None => !old(self)@.dom().contains(key@) && *final(self) == *old(self),
            },
    {
        let k: String = key.to_owned();
        match self.find(&k) {
            Some(i) => {
                proof {
                    lemma_map_of_index(self.entries@, i as int);
                    lemma_map_of_remove(self.entries@, i as int);
                }
                let e = self.entries.remove(i);
                Some(e.1)
            },
            None => {
                proof { assert(old(self)@.remove(key@) =~= old(self)@); }
                None
            },
        }
    }

    /// The entries, each key once; they denote the map.
    pub fn entries(&self) -> (v: &Vec<(String, V)>)
        requires
            self.wf(),
        ensures
            map_of(v@) == self@,
            keys_of(v@).no_duplicates(),
    {
        &self.entries
    }

    /// Number of keys.
    pub fn len(&self) -> (n: usize)
        requires
            self.wf(),
        ensures
            n == self@.len(),
    {
        proof {
            lemma_map_of_dom(self.entries@);
            keys_of(self.entries@).unique_seq_to_set();
        }
        self.entries.len()
    }
}

} // verus!
