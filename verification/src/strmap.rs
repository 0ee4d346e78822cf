use vstd::prelude::*;

verus! {

/// The map that a list of entries denotes, each key taken by its characters and each value by
/// its view; a later entry for a key takes precedence.
pub open spec fn str_entries_map<V: View>(s: Seq<(String, V)>) -> Map<Seq<char>, V::V>
    decreases s.len(),
{
    if s.len() == 0 {
        Map::empty()
    } else {
        str_entries_map(s.drop_last()).insert(s.last().0@, s.last().1@)
    }
}

/// No key occurs twice among the entries.
pub open spec fn str_keys_unique<V>(s: Seq<(String, V)>) -> bool {
    forall|i: int, j: int| 0 <= i < j < s.len() ==> s[i].0@ != s[j].0@
}

proof fn lemma_str_entries_map<V: View>(s: Seq<(String, V)>, k: Seq<char>)
    requires
        str_keys_unique(s),
    ensures
        str_entries_map(s).contains_key(k) <==> exists|i: int| 0 <= i < s.len() && s[i].0@ == k,
        forall|i: int| 0 <= i < s.len() && s[i].0@ == k ==> str_entries_map(s)[k] == s[i].1@,
    decreases s.len(),
{
    if s.len() > 0 {
        let t = s.drop_last();
        lemma_str_entries_map(t, k);
        if s.last().0@ != k {
            if exists|i: int| 0 <= i < s.len() && s[i].0@ == k {
                let i = choose|i: int| 0 <= i < s.len() && s[i].0@ == k;
                assert(t[i].0@ == k);
            }
        }
    }
}

/// A map from strings to values, kept as a list of entries with distinct keys.
pub struct StrMap<V> {
    entries: Vec<(String, V)>,
}

impl<V: View> View for StrMap<V> {
    type V = Map<Seq<char>, V::V>;

    closed spec fn view(&self) -> Map<Seq<char>, V::V> {
        str_entries_map(self.entries@)
    }
}

impl<V: View> StrMap<V> {
    /// The map's internal invariant.
    pub closed spec fn wf(&self) -> bool {
        str_keys_unique(self.entries@)
    }

    /// The keys in the order they were first inserted.
    pub closed spec fn key_order(&self) -> Seq<Seq<char>> {
        self.entries@.map_values(|e: (String, V)| e.0@)
    }

    /// An empty map.
    pub fn new() -> (m: Self)
        ensures
            m.wf(),
            m@ == Map::<Seq<char>, V::V>::empty(),
            m.key_order() == Seq::<Seq<char>>::empty(),
    {
        let m = StrMap { entries: Vec::new() };
        assert(m.key_order() =~= Seq::<Seq<char>>::empty());
        m
    }

    fn find(&self, key: &String) -> (r: Option<usize>)
        requires
            self.wf(),
        ensures
            match r {
                Some(i) => i < self.entries@.len() && self.entries@[i as int].0@ == key@,
                None => forall|i: int|
                    0 <= i < self.entries@.len() ==> self.entries@[i].0@ != key@,
            },
    {
        let mut i: usize = 0;
        while i < self.entries.len()
            invariant
                i <= self.entries@.len(),
                forall|j: int| 0 <= j < i ==> self.entries@[j].0@ != key@,
            decreases self.entries@.len() - i,
        {
            if self.entries[i].0 == *key {
                return Some(i);
            }
            i = i + 1;
        }
        None
    }

    /// Whether the key is present.
    pub fn contains_key(&self, key: &String) -> (r: bool)
        requires
            self.wf(),
        ensures
            r == self@.contains_key(key@),
    {
        proof {
            lemma_str_entries_map(self.entries@, key@);
        }
        self.find(key).is_some()
    }

    /// The value stored under the key.
    pub fn get(&self, key: &String) -> (r: Option<&V>)
        requires
            self.wf(),
        ensures
            match r {
                Some(v) => self@.contains_key(key@) && v@ == self@[key@],
                None => !self@.contains_key(key@),
            },
    {
        proof {
            lemma_str_entries_map(self.entries@, key@);
        }
        match self.find(key) {
            Some(i) => Some(&self.entries[i].1),
            None => None,
        }
    }

    /// Stores the value under the key, replacing what was there.
    pub fn insert(&mut self, key: String, value: V)
        requires
            old(self).wf(),
        ensures
            final(self).wf(),
            final(self)@ == old(self)@.insert(key@, value@),
            old(self)@.contains_key(key@) ==> final(self).key_order() == old(self).key_order(),
            !old(self)@.contains_key(key@) ==> final(self).key_order() == old(self).key_order().push(
                key@,
            ),
    {
        proof {
            lemma_str_entries_map(self.entries@, key@);
        }
        let ghost old_entries = self.entries@;
        let ghost kv = key@;
        let ghost vv = value@;
        match self.find(&key) {
            Some(i) => {
                self.entries.remove(i);
                self.entries.insert(i, (key, value));
                proof {
                    let s = self.entries@;
                    assert(s =~= old_entries.update(i as int, s[i as int]));
                    assert(str_keys_unique(s));
                    assert forall|q: Seq<char>|
                        #![trigger str_entries_map(s).contains_key(q)]
                        str_entries_map(s).contains_key(q) == old(self)@.insert(kv, vv).contains_key(q)
                        && (str_entries_map(s).contains_key(q) ==> str_entries_map(s)[q] == old(
                        self,
                    )@.insert(kv, vv)[q]) by {
                        lemma_str_entries_map(s, q);
                        lemma_str_entries_map(old_entries, q);
                        if q != kv {
                            if exists|j: int| 0 <= j < old_entries.len() && old_entries[j].0@ == q {
                                let j = choose|j: int|
                                    0 <= j < old_entries.len() && old_entries[j].0@ == q;
                                assert(s[j].0@ == q);
                            }
                            if exists|j: int| 0 <= j < s.len() && s[j].0@ == q {
                                let j = choose|j: int| 0 <= j < s.len() && s[j].0@ == q;
                                assert(old_entries[j].0@ == q);
                            }
                        } else {
                            assert(s[i as int].0@ == q);
                        }
                    }
                    assert(str_entries_map(s) =~= old(self)@.insert(kv, vv));
                    assert(self.key_order() =~= old(self).key_order());
                }
            },
            None => {
                self.entries.push((key, value));
                proof {
                    let s = self.entries@;
                    assert(s.drop_last() =~= old_entries);
                    assert(self.key_order() =~= old(self).key_order().push(kv));
                }
            },
        }
    }

    /// The insertion order lists each key of the map exactly once.
    pub proof fn lemma_key_order(&self)
        requires
            self.wf(),
        ensures
            self.key_order().no_duplicates(),
            forall|k: Seq<char>| #[trigger] self@.contains_key(k) <==> self.key_order().contains(k),
    {
        let s = self.entries@;
        let o = self.key_order();
        assert forall|k: Seq<char>| #[trigger] self@.contains_key(k) <==> o.contains(k) by {
            lemma_str_entries_map(s, k);
            if o.contains(k) {
                let i = choose|i: int| 0 <= i < o.len() && o[i] == k;
                assert(s[i].0@ == k);
            }
            if self@.contains_key(k) {
                let i = choose|i: int| 0 <= i < s.len() && s[i].0@ == k;
                assert(o[i] == k);
            }
        }
    }

    /// The number of keys.
    pub fn len(&self) -> (r: usize)
        requires
            self.wf(),
        ensures
            r == self.key_order().len(),
    {
        self.entries.len()
    }

    /// The key at the given position of the insertion order.
    pub fn key_at(&self, i: usize) -> (r: &String)
        requires
            self.wf(),
            i < self.key_order().len(),
        ensures
            r@ == self.key_order()[i as int],
            self@.contains_key(r@),
    {
        proof {
            lemma_str_entries_map(self.entries@, self.entries@[i as int].0@);
        }
        &self.entries[i].0
    }
}

} // verus!
