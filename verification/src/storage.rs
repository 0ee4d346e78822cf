use vstd::prelude::*;

verus! {

/// Compares two byte strings.
pub fn bytes_eq(a: &[u8], b: &[u8]) -> (r: bool)
    ensures
        r == (a@ == b@),
{
    if a.len() != b.len() {
        return false;
    }
    let mut i: usize = 0;
    while i < a.len()
        invariant
            a@.len() == b@.len(),
            i <= a@.len(),
            forall|j: int| 0 <= j < i ==> a@[j] == b@[j],
        decreases a@.len() - i,
    {
        if a[i] != b[i] {
            return false;
        }
        i = i + 1;
    }
    assert(a@ =~= b@);
    true
}

/// Copies a byte slice into a fresh vector.
pub fn bytes_to_vec(a: &[u8]) -> (r: Vec<u8>)
    ensures
        r@ == a@,
{
    let mut out: Vec<u8> = Vec::new();
    let mut i: usize = 0;
    while i < a.len()
        invariant
            i <= a@.len(),
            out@ == a@.subrange(0, i as int),
        decreases a@.len() - i,
    {
        out.push(a[i]);
        i = i + 1;
        assert(out@ =~= a@.subrange(0, i as int));
    }
    assert(a@.subrange(0, a@.len() as int) =~= a@);
    out
}

/// Concatenates two byte slices.
pub fn concat_bytes(a: &[u8], b: &[u8]) -> (r: Vec<u8>)
    ensures
        r@ == a@ + b@,
{
    let mut out = bytes_to_vec(a);
    let mut i: usize = 0;
    while i < b.len()
        invariant
            i <= b@.len(),
            out@ == a@ + b@.subrange(0, i as int),
        decreases b@.len() - i,
    {
        out.push(b[i]);
        i = i + 1;
        assert(out@ =~= a@ + b@.subrange(0, i as int));
    }
    assert(b@.subrange(0, b@.len() as int) =~= b@);
    out
}

/// The map that a list of key/value entries denotes; a later entry for a key
/// takes precedence over an earlier one.
pub open spec fn entries_map(s: Seq<(Vec<u8>, Vec<u8>)>) -> Map<Seq<u8>, Seq<u8>>
    decreases s.len(),
{
    if s.len() == 0 {
        Map::empty()
    } else {
        entries_map(s.drop_last()).insert(s.last().0@, s.last().1@)
    }
}

/// No key occurs twice in the entries.
pub open spec fn keys_unique(s: Seq<(Vec<u8>, Vec<u8>)>) -> bool {
    forall|i: int, j: int| 0 <= i < j < s.len() ==> s[i].0@ != s[j].0@
}

proof fn lemma_entries_map(s: Seq<(Vec<u8>, Vec<u8>)>, k: Seq<u8>)
    requires
        keys_unique(s),
    ensures
        entries_map(s).contains_key(k) <==> exists|i: int| 0 <= i < s.len() && s[i].0@ == k,
        forall|i: int| 0 <= i < s.len() && s[i].0@ == k ==> entries_map(s)[k] == s[i].1@,
    decreases s.len(),
{
    if s.len() > 0 {
        let t = s.drop_last();
        assert(keys_unique(t));
        lemma_entries_map(t, k);
        if s.last().0@ != k {
            if exists|i: int| 0 <= i < s.len() && s[i].0@ == k {
                let i = choose|i: int| 0 <= i < s.len() && s[i].0@ == k;
                assert(t[i].0@ == k);
            }
        }
    }
}

/// An in-memory key/value store of byte strings, as a contract's storage.
pub struct MemoryStorage {
    entries: Vec<(Vec<u8>, Vec<u8>)>,
}

impl View for MemoryStorage {
    type V = Map<Seq<u8>, Seq<u8>>;

    closed spec fn view(&self) -> Map<Seq<u8>, Seq<u8>> {
        entries_map(self.entries@)
    }
}

impl MemoryStorage {
    /// The store's internal invariant.
    pub closed spec fn wf(&self) -> bool {
        keys_unique(self.entries@)
    }

    /// An empty store.
    pub fn new() -> (s: Self)
        ensures
            s.wf(),
            s@ == Map::<Seq<u8>, Seq<u8>>::empty(),
    {
        MemoryStorage { entries: Vec::new() }
    }

    fn find(&self, key: &[u8]) -> (r: Option<usize>)
        requires
            self.wf(),
        ensures
            match r {
                Some(i) => i < self.entries@.len() && self.entries@[i as int].0@ == key@,
                None => forall|i: int| 0 <= i < self.entries@.len() ==> self.entries@[i].0@ != key@,
            },
    {
        let mut i: usize = 0;
        while i < self.entries.len()
            invariant
                i <= self.entries@.len(),
                forall|j: int| 0 <= j < i ==> self.entries@[j].0@ != key@,
            decreases self.entries@.len() - i,
        {
            if bytes_eq(self.entries[i].0.as_slice(), key) {
                return Some(i);
            }
            i = i + 1;
        }
        None
    }

    /// Reads the value stored under `key`.
    pub fn get(&self, key: &[u8]) -> (r: Option<Vec<u8>>)
        requires
            self.wf(),
        ensures
            match r {
                Some(v) => self@.contains_key(key@) && v@ == self@[key@],
                None => !self@.contains_key(key@),
            },
    {
        proof {
            lemma_entries_map(self.entries@, key@);
        }
        match self.find(key) {
            Some(i) => Some(bytes_to_vec(self.entries[i].1.as_slice())),
            None => None,
        }
    }

    /// Stores `value` under `key`, replacing what was there.
    pub fn set(&mut self, key: &[u8], value: &[u8])
        requires
            old(self).wf(),
        ensures
            final(self).wf(),
            final(self)@ == old(self)@.insert(key@, value@),
    {
        proof {
            lemma_entries_map(self.entries@, key@);
        }
        let ghost old_entries = self.entries@;
        let v = bytes_to_vec(value);
        match self.find(key) {
            Some(i) => {
                let k = bytes_to_vec(key);
                self.entries.set(i, (k, v));
                proof {
                    let s = self.entries@;
                    assert(keys_unique(s));
                    assert forall|q: Seq<u8>|
                        #![trigger entries_map(s).contains_key(q)]
                        entries_map(s).contains_key(q) == old(self)@.insert(key@, value@).contains_key(q)
                        && (entries_map(s).contains_key(q) ==> entries_map(s)[q] == old(self)@.insert(key@, value@)[q]) by {
                        lemma_entries_map(s, q);
                        lemma_entries_map(old_entries, q);
                        if q != key@ {
                            if exists|j: int| 0 <= j < old_entries.len() && old_entries[j].0@ == q {
                                let j = choose|j: int| 0 <= j < old_entries.len() && old_entries[j].0@ == q;
                                assert(s[j].0@ == q);
                            }
                            if exists|j: int| 0 <= j < s.len() && s[j].0@ == q {
                                let j = choose|j: int| 0 <= j < s.len() && s[j].0@ == q;
                                assert(old_entries[j].0@ == q);
                            }
                        } else {
                            assert(s[i as int].0@ == q);
                        }
                    }
                    assert(entries_map(s) =~= old(self)@.insert(key@, value@));
                }
            },
            None => {
                let k = bytes_to_vec(key);
                self.entries.push((k, v));
                proof {
                    let s = self.entries@;
                    assert(s.drop_last() =~= old_entries);
                }
            },
        }
    }
}

} // verus!
