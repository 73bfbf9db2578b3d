//! A small map keyed by strings, kept as a list of distinct entries.
use vstd::prelude::*;

verus! {

/// Keys of an entry list are distinct.
pub open spec fn keys_distinct<V>(s: Seq<(String, V)>) -> bool {
    forall|i: int, j: int| 0 <= i < s.len() && 0 <= j < s.len() && i != j ==> s[i].0@ != s[j].0@
}

/// Whether some entry has key `k`.
pub open spec fn has_key<V>(s: Seq<(String, V)>, k: Seq<char>) -> bool {
    exists|i: int| 0 <= i < s.len() && #[trigger] s[i].0@ == k
}

/// The entries as a map from key to value.
pub open spec fn entries_map<V>(s: Seq<(String, V)>) -> Map<Seq<char>, V> {
    Map::new(
        |k: Seq<char>| has_key(s, k),
        |k: Seq<char>| s[choose|i: int| 0 <= i < s.len() && #[trigger] s[i].0@ == k].1,
    )
}

pub proof fn lemma_entries_lookup<V>(s: Seq<(String, V)>, i: int)
    requires
        keys_distinct(s),
        0 <= i < s.len(),
    ensures
        entries_map(s).contains_key(s[i].0@),
        entries_map(s)[s[i].0@] == s[i].1,
{
    let k = s[i].0@;
    assert(has_key(s, k));
    let j = choose|j: int| 0 <= j < s.len() && #[trigger] s[j].0@ == k;
    assert(j == i);
}

pub proof fn lemma_entries_update<V>(s: Seq<(String, V)>, i: int, name: String, v: V)
    requires
        keys_distinct(s),
        0 <= i < s.len(),
        name@ == s[i].0@,
    ensures
        keys_distinct(s.update(i, (name, v))),
        entries_map(s.update(i, (name, v))) == entries_map(s).insert(s[i].0@, v),
{
    let t = s.update(i, (name, v));
    assert forall|k: Seq<char>| has_key(t, k) <==> has_key(s, k) || k == s[i].0@ by {
        if has_key(t, k) {
            let j = choose|j: int| 0 <= j < t.len() && #[trigger] t[j].0@ == k;
            assert(s[j].0@ == k);
        }
        if has_key(s, k) {
            let j = choose|j: int| 0 <= j < s.len() && #[trigger] s[j].0@ == k;
            assert(t[j].0@ == k);
        }
        if k == s[i].0@ {
            assert(t[i].0@ == k);
        }
    }
    assert forall|k: Seq<char>| #[trigger] entries_map(t).contains_key(k) implies entries_map(t)[k] == entries_map(s).insert(s[i].0@, v)[k] by {
        let j = choose|j: int| 0 <= j < t.len() && #[trigger] t[j].0@ == k;
        lemma_entries_lookup(t, j);
        if k != s[i].0@ {
            lemma_entries_lookup(s, j);
        }
    }
    assert(entries_map(t) =~= entries_map(s).insert(s[i].0@, v));
}

pub proof fn lemma_entries_push<V>(s: Seq<(String, V)>, key: String, v: V)
    requires
        keys_distinct(s),
        !has_key(s, key@),
    ensures
        keys_distinct(s.push((key, v))),
        entries_map(s.push((key, v))) == entries_map(s).insert(key@, v),
{
    let t = s.push((key, v));
    assert forall|k: Seq<char>| has_key(t, k) <==> has_key(s, k) || k == key@ by {
        if has_key(t, k) {
            let j = choose|j: int| 0 <= j < t.len() && #[trigger] t[j].0@ == k;
            if j < s.len() {
                assert(s[j].0@ == k);
            }
        }
        if has_key(s, k) {
            let j = choose|j: int| 0 <= j < s.len() && #[trigger] s[j].0@ == k;
            assert(t[j].0@ == k);
        }
        if k == key@ {
            assert(t[s.len() as int].0@ == k);
        }
    }
    assert forall|a: int, b: int| 0 <= a < t.len() && 0 <= b < t.len() && a != b implies t[a].0@ != t[b].0@ by {
        if a == s.len() {
            assert(!(s[b].0@ == key@));
        } else if b == s.len() {
            assert(!(s[a].0@ == key@));
        }
    }
    assert forall|k: Seq<char>| #[trigger] entries_map(t).contains_key(k) implies entries_map(t)[k] == entries_map(s).insert(key@, v)[k] by {
        let j = choose|j: int| 0 <= j < t.len() && #[trigger] t[j].0@ == k;
        lemma_entries_lookup(t, j);
        if k != key@ {
            lemma_entries_lookup(s, j);
        }
    }
    assert(entries_map(t) =~= entries_map(s).insert(key@, v));
}

pub proof fn lemma_entries_remove<V>(s: Seq<(String, V)>, i: int)
    requires
        keys_distinct(s),
        0 <= i < s.len(),
    ensures
        keys_distinct(s.remove(i)),
        entries_map(s.remove(i)) == entries_map(s).remove(s[i].0@),
{
    let t = s.remove(i);
    assert forall|a: int, b: int| 0 <= a < t.len() && 0 <= b < t.len() && a != b implies t[a].0@ != t[b].0@ by {
        let sa = if a < i { a } else { a + 1 };
        let sb = if b < i { b } else { b + 1 };
        assert(t[a] == s[sa]);
        assert(t[b] == s[sb]);
    }
    assert forall|k: Seq<char>| has_key(t, k) <==> has_key(s, k) && k != s[i].0@ by {
        if has_key(t, k) {
            let j = choose|j: int| 0 <= j < t.len() && #[trigger] t[j].0@ == k;
            let sj = if j < i { j } else { j + 1 };
            assert(s[sj].0@ == k);
        }
        if has_key(s, k) && k != s[i].0@ {
            let j = choose|j: int| 0 <= j < s.len() && #[trigger] s[j].0@ == k;
            if j < i {
                assert(t[j].0@ == k);
            } else {
                assert(t[j - 1].0@ == k);
            }
        }
    }
    assert forall|k: Seq<char>| #[trigger] entries_map(t).contains_key(k) implies entries_map(t)[k] == entries_map(s).remove(s[i].0@)[k] by {
        let j = choose|j: int| 0 <= j < t.len() && #[trigger] t[j].0@ == k;
        lemma_entries_lookup(t, j);
        let sj = if j < i { j } else { j + 1 };
        assert(t[j] == s[sj]);
        lemma_entries_lookup(s, sj);
    }
    assert(entries_map(t) =~= entries_map(s).remove(s[i].0@));
}

pub proof fn lemma_entries_len<V>(s: Seq<(String, V)>)
    requires
        keys_distinct(s),
    ensures
        entries_map(s).dom().finite(),
        entries_map(s).len() == s.len(),
    decreases s.len(),
{
    if s.len() == 0 {
        assert(entries_map(s).dom() =~= Set::empty());
    } else {
        let t = s.drop_last();
        assert(keys_distinct(t));
        lemma_entries_len(t);
        assert(!has_key(t, s.last().0@)) by {
            if has_key(t, s.last().0@) {
                let j = choose|j: int| 0 <= j < t.len() && #[trigger] t[j].0@ == s.last().0@;
                assert(s[j].0@ == s[s.len() - 1].0@);
            }
        }
        lemma_entries_push(t, s.last().0, s.last().1);
        assert(t.push(s.last()) == s);
    }
}

/// The keys and values side by side, as entries.
pub open spec fn zip_entries<V>(keys: Seq<String>, vals: Seq<V>) -> Seq<(String, V)> {
    Seq::new(keys.len(), |i: int| (keys[i], vals[i]))
}

/// Index of the key `key` in `keys`, if any.
pub fn find_key(keys: &Vec<String>, key: &str) -> (r: Option<usize>)
    ensures
        match r {
            Some(i) => i < keys@.len() && keys@[i as int]@ == key@,
            None => forall|j: int| 0 <= j < keys@.len() ==> keys@[j]@ != key@,
        },
{
    let key_s = key.to_owned();
    let mut i: usize = 0;
    while i < keys.len()
        invariant
            0 <= i <= keys.len(),
            key_s@ == key@,
            forall|j: int| 0 <= j < i ==> keys@[j]@ != key@,
        decreases keys.len() - i,
    {
        if keys[i] == key_s {
            return Some(i);
        }
        i += 1;
    }
    None
}

/// A map from strings to `V`: distinct keys, each with its value at the
/// same index.
#[derive(Debug)]
pub struct StrMap<V> {
    keys: Vec<String>,
    vals: Vec<V>,
}

impl<V> StrMap<V> {
    #[verifier::type_invariant]
    closed spec fn distinct(&self) -> bool {
        &&& self.keys@.len() == self.vals@.len()
        &&& forall|i: int, j: int|
            0 <= i < self.keys@.len() && 0 <= j < self.keys@.len() && i != j
                ==> self.keys@[i]@ != self.keys@[j]@
    }

    closed spec fn entries_seq(&self) -> Seq<(String, V)> {
        zip_entries(self.keys@, self.vals@)
    }

    /// The contents, by key.
    pub closed spec fn view(&self) -> Map<Seq<char>, V> {
        entries_map(self.entries_seq())
    }

    /// The keys in the order they were first inserted.
    pub closed spec fn key_order(&self) -> Seq<Seq<char>> {
        self.keys@.map_values(|k: String| k@)
    }

    proof fn lemma_wf(&self)
        requires
            self.distinct(),
        ensures
            keys_distinct(self.entries_seq()),
            self.entries_seq().len() == self.keys@.len(),
            forall|i: int| 0 <= i < self.keys@.len() ==> #[trigger] self.entries_seq()[i] == (self.keys@[i], self.vals@[i]),
            forall|k: Seq<char>| has_key(self.entries_seq(), k) <==> exists|i: int| 0 <= i < self.keys@.len() && #[trigger] self.keys@[i]@ == k,
    {
        let s = self.entries_seq();
        assert forall|k: Seq<char>| has_key(s, k) <==> exists|i: int| 0 <= i < self.keys@.len() && #[trigger] self.keys@[i]@ == k by {
            if has_key(s, k) {
                let j = choose|j: int| 0 <= j < s.len() && #[trigger] s[j].0@ == k;
                assert(self.keys@[j]@ == k);
            }
            if exists|i: int| 0 <= i < self.keys@.len() && #[trigger] self.keys@[i]@ == k {
                let j = choose|i: int| 0 <= i < self.keys@.len() && #[trigger] self.keys@[i]@ == k;
                assert(s[j].0@ == k);
            }
        }
    }

    pub fn new() -> (r: Self)
        ensures
            r@ == Map::<Seq<char>, V>::empty(),
    {
        let r = StrMap { keys: Vec::new(), vals: Vec::new() };
        assert(entries_map(r.entries_seq()) =~= Map::<Seq<char>, V>::empty());
        r
    }

    pub fn get(&self, key: &str) -> (r: Option<&V>)
        ensures
            match r {
                Some(v) => self@.contains_key(key@) && *v == self@[key@],
                None => !self@.contains_key(key@),
            },
    {
        proof {
            use_type_invariant(self);
            self.lemma_wf();
        }
        match find_key(&self.keys, key) {
            Some(i) => {
                proof {
                    lemma_entries_lookup(self.entries_seq(), i as int);
                }
                Some(&self.vals[i])
            },
            None => None,
        }
    }

    /// Mutable access to the value under `key`.
    pub fn get_mut(&mut self, key: &str) -> (r: Option<&mut V>)
        ensures
            match r {
                Some(v) => {
                    &&& old(self)@.contains_key(key@)
                    &&& *v == old(self)@[key@]
                    &&& final(self)@ == old(self)@.insert(key@, *final(v))
                },
                None => !old(self)@.contains_key(key@) && final(self)@ == old(self)@,
            },
    {
        proof {
            use_type_invariant(&*self);
            self.lemma_wf();
        }
        match find_key(&self.keys, key) {
            Some(i) => {
                proof {
                    let s = self.entries_seq();
                    lemma_entries_lookup(s, i as int);
                    assert forall|v: V| #[trigger] entries_map(zip_entries(self.keys@, self.vals@.update(i as int, v)))
                        == entries_map(s).insert(key@, v) by {
                        assert(zip_entries(self.keys@, self.vals@.update(i as int, v)) =~= s.update(i as int, (self.keys@[i as int], v)));
                        lemma_entries_update(s, i as int, self.keys@[i as int], v);
                    }
                }
                Some(&mut self.vals[i])
            },
            None => None,
        }
    }

    pub fn contains_key(&self, key: &str) -> (r: bool)
        ensures
            r == self@.contains_key(key@),
    {
        proof {
            use_type_invariant(self);
            self.lemma_wf();
        }
        match find_key(&self.keys, key) {
            Some(i) => {
                proof {
                    lemma_entries_lookup(self.entries_seq(), i as int);
                }
                true
            },
            None => false,
        }
    }

    fn take_parts(&mut self) -> (r: (Vec<String>, Vec<V>))
        ensures
            r.0@ == old(self).keys@,
            r.1@ == old(self).vals@,
            final(self).keys@.len() == 0,
            final(self).vals@.len() == 0,
    {
        let mut taken = StrMap { keys: Vec::new(), vals: Vec::new() };
        std::mem::swap(&mut taken, self);
        let StrMap { keys, vals } = taken;
        (keys, vals)
    }

    /// Stores `value` under `key`, replacing any value there.
    pub fn insert(&mut self, key: String, value: V)
        ensures
            final(self)@ == old(self)@.insert(key@, value),
    {
        proof {
            use_type_invariant(&*self);
            self.lemma_wf();
        }
        let idx = find_key(&self.keys, key.as_str());
        let ghost s = self.entries_seq();
        let (mut keys, mut vals) = self.take_parts();
        match idx {
            Some(i) => {
                proof {
                    lemma_entries_update(s, i as int, keys@[i as int], value);
                }
                vals.set(i, value);
                proof {
                    assert(zip_entries(keys@, vals@) =~= s.update(i as int, (keys@[i as int], value)));
                }
            },
            None => {
                proof {
                    lemma_entries_push(s, key, value);
                }
                keys.push(key);
                vals.push(value);
                proof {
                    assert(zip_entries(keys@, vals@) =~= s.push((key, value)));
                }
            },
        }
        *self = StrMap { keys, vals };
    }

    /// Removes and returns the value under `key`.
    pub fn remove(&mut self, key: &str) -> (r: Option<V>)
        ensures
            final(self)@ == old(self)@.remove(key@),
            match r {
                Some(v) => old(self)@.contains_key(key@) && v == old(self)@[key@],
                None => !old(self)@.contains_key(key@),
            },
    {
        proof {
            use_type_invariant(&*self);
            self.lemma_wf();
        }
        match find_key(&self.keys, key) {
            Some(i) => {
                let ghost s = self.entries_seq();
                let (mut keys, mut vals) = self.take_parts();
                proof {
                    lemma_entries_lookup(s, i as int);
                    lemma_entries_remove(s, i as int);
                }
                let _ = keys.remove(i);
                let v = vals.remove(i);
                proof {
                    assert(zip_entries(keys@, vals@) =~= s.remove(i as int));
                }
                *self = StrMap { keys, vals };
                Some(v)
            },
            None => {
                proof {
                    assert(self@.remove(key@) =~= self@);
                }
                None
            },
        }
    }

    pub fn len(&self) -> (r: usize)
        ensures
            r == self@.len(),
    {
        proof {
            use_type_invariant(self);
            self.lemma_wf();
            lemma_entries_len(self.entries_seq());
        }
        self.keys.len()
    }

    pub fn is_empty(&self) -> (r: bool)
        ensures
            r == (self@.len() == 0),
    {
        proof {
            use_type_invariant(self);
            self.lemma_wf();
            lemma_entries_len(self.entries_seq());
        }
        self.keys.len() == 0
    }

    /// The keys, one per entry, in insertion order.
    pub fn keys(&self) -> (r: &[String])
        ensures
            forall|i: int, j: int| 0 <= i < r@.len() && 0 <= j < r@.len() && i != j ==> r@[i]@ != r@[j]@,
            forall|k: Seq<char>| self@.contains_key(k) <==> exists|i: int| 0 <= i < r@.len() && #[trigger] r@[i]@ == k,
            r@.len() == self@.len(),
            r@.map_values(|k: String| k@) == self.key_order(),
    {
        proof {
            use_type_invariant(self);
            self.lemma_wf();
            lemma_entries_len(self.entries_seq());
        }
        self.keys.as_slice()
    }
}

} // verus!
