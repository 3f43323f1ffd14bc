//! A map keyed by names, kept as a list of entries in insertion order.
//!
//! The header maps of frames, the handlers of a subchannel and the
//! subchannels of a channel are all keyed by strings. Entries keep the
//! order in which their keys were first inserted, so that encoding a map
//! gives the same bytes every time.
use vstd::prelude::*;

verus! {

/// Whether `es` holds an entry with key `k`.
pub open spec fn has_key<T>(es: Seq<(Seq<char>, T)>, k: Seq<char>) -> bool {
    exists|i: int| 0 <= i < es.len() && #[trigger] es[i].0 == k
}

/// The position of the entry with key `k` (meaningful when `has_key(es, k)`).
pub open spec fn key_index<T>(es: Seq<(Seq<char>, T)>, k: Seq<char>) -> int {
    choose|i: int| 0 <= i < es.len() && #[trigger] es[i].0 == k
}

/// The value stored under `k`, if any.
pub open spec fn lookup<T>(es: Seq<(Seq<char>, T)>, k: Seq<char>) -> Option<T> {
    if has_key(es, k) {
        Some(es[key_index(es, k)].1)
    } else {
        None
    }
}

/// No two entries share a key.
pub open spec fn keys_distinct<T>(es: Seq<(Seq<char>, T)>) -> bool {
    forall|i: int, j: int| 0 <= i < es.len() && 0 <= j < es.len() && i != j ==> es[i].0 != es[j].0
}

/// The entries after storing `v` under `k`: an existing entry is replaced in
/// place, a new key is appended at the end.
pub open spec fn insert_entry<T>(es: Seq<(Seq<char>, T)>, k: Seq<char>, v: T) -> Seq<(Seq<char>, T)> {
    if has_key(es, k) {
        es.update(key_index(es, k), (k, v))
    } else {
        es.push((k, v))
    }
}

/// The entries after removing the entry with key `k`, if there is one.
pub open spec fn remove_entry<T>(es: Seq<(Seq<char>, T)>, k: Seq<char>) -> Seq<(Seq<char>, T)> {
    if has_key(es, k) {
        es.remove(key_index(es, k))
    } else {
        es
    }
}

/// With distinct keys, the entry found for the key at position `i` is that entry.
pub proof fn lemma_key_index<T>(es: Seq<(Seq<char>, T)>, i: int)
    requires
        keys_distinct(es),
        0 <= i < es.len(),
    ensures
        has_key(es, es[i].0),
        key_index(es, es[i].0) == i,
        lookup(es, es[i].0) == Some(es[i].1),
{
    assert(es[i].0 == es[i].0);
    let j = key_index(es, es[i].0);
    assert(es[j].0 == es[i].0);
}

/// After removing the entry with key `k`, no entry has that key.
pub proof fn lemma_remove_absent<T>(es: Seq<(Seq<char>, T)>, k: Seq<char>)
    requires
        keys_distinct(es),
    ensures
        !has_key(remove_entry(es, k), k),
        keys_distinct(remove_entry(es, k)),
{
    if has_key(es, k) {
        let i = key_index(es, k);
        assert(es[i].0 == k);
        let r = es.remove(i);
        if has_key(r, k) {
            let j = key_index(r, k);
            assert(r[j].0 == k);
            let j2 = if j < i { j } else { j + 1 };
            assert(r[j] == es[j2]);
            assert(es[j2].0 != es[i].0);
        }
        assert forall|a: int, b: int| 0 <= a < r.len() && 0 <= b < r.len() && a != b implies r[a].0 != r[b].0 by {
            let a2 = if a < i { a } else { a + 1 };
            let b2 = if b < i { b } else { b + 1 };
            assert(r[a] == es[a2]);
            assert(r[b] == es[b2]);
            assert(es[a2].0 != es[b2].0);
        }
    }
}

/// Inserting under `k` leaves the values of other keys as they were.
pub proof fn lemma_insert_other<T>(es: Seq<(Seq<char>, T)>, k: Seq<char>, v: T, other: Seq<char>)
    requires
        keys_distinct(es),
        other != k,
    ensures
        lookup(insert_entry(es, k, v), other) == lookup(es, other),
{
    lemma_insert_distinct(es, k, v);
    let r = insert_entry(es, k, v);
    if has_key(es, other) {
        let j = key_index(es, other);
        assert(es[j].0 == other);
        assert(r[j].0 == other);
        lemma_key_index(es, j);
        lemma_key_index(r, j);
    } else if has_key(r, other) {
        let j = key_index(r, other);
        assert(r[j].0 == other);
        if j < es.len() {
            assert(es[j].0 == other);
        }
    }
}

/// Replacing the value at position `i` keeps keys distinct, stores the value
/// under that position's key and leaves the other keys' values as they were.
pub broadcast proof fn lemma_update_value<T>(es: Seq<(Seq<char>, T)>, i: int, v: T, k: Seq<char>)
    requires
        keys_distinct(es),
        0 <= i < es.len(),
    ensures
        keys_distinct(es.update(i, (es[i].0, v))),
        #[trigger] lookup(es.update(i, (es[i].0, v)), k) == if k == es[i].0 {
            Some(v)
        } else {
            lookup(es, k)
        },
{
    let r = es.update(i, (es[i].0, v));
    assert forall|a: int, b: int| 0 <= a < r.len() && 0 <= b < r.len() && a != b implies r[a].0 != r[b].0 by {
        assert(es[a].0 != es[b].0);
    }
    lemma_key_index(r, i);
    if k != es[i].0 {
        if has_key(es, k) {
            let j = key_index(es, k);
            assert(es[j].0 == k);
            assert(r[j].0 == k);
            lemma_key_index(r, j);
            lemma_key_index(es, j);
        } else {
            if has_key(r, k) {
                let j = key_index(r, k);
                assert(r[j].0 == k);
                assert(es[j].0 == k);
            }
        }
    }
}

/// Inserting keeps keys distinct.
pub proof fn lemma_insert_distinct<T>(es: Seq<(Seq<char>, T)>, k: Seq<char>, v: T)
    requires
        keys_distinct(es),
    ensures
        keys_distinct(insert_entry(es, k, v)),
        lookup(insert_entry(es, k, v), k) == Some(v),
        insert_entry(es, k, v).len() == es.len() + (if has_key(es, k) { 0int } else { 1int }),
{
    let r = insert_entry(es, k, v);
    if has_key(es, k) {
        let idx = key_index(es, k);
        assert(es[idx].0 == k);
        assert forall|i: int, j: int| 0 <= i < r.len() && 0 <= j < r.len() && i != j implies r[i].0
            != r[j].0 by {
            if i == idx {
                assert(es[j].0 != es[idx].0);
            } else if j == idx {
                assert(es[i].0 != es[idx].0);
            } else {
                assert(es[i].0 != es[j].0);
            }
        }
        lemma_key_index(r, idx);
    } else {
        assert forall|i: int, j: int| 0 <= i < r.len() && 0 <= j < r.len() && i != j implies r[i].0
            != r[j].0 by {
            if i == es.len() {
                assert(es[j].0 != k);
            } else if j == es.len() {
                assert(es[i].0 != k);
            } else {
                assert(es[i].0 != es[j].0);
            }
        }
        lemma_key_index(r, es.len() as int);
    }
}

/// A map keyed by names.
#[derive(Debug, PartialEq, Eq)]
pub struct NameMap<T> {
    keys: Vec<String>,
    values: Vec<T>,
}

impl<T> View for NameMap<T> {
    type V = Seq<(Seq<char>, T)>;

    closed spec fn view(&self) -> Seq<(Seq<char>, T)> {
        Seq::new(self.keys@.len(), |i: int| (self.keys@[i]@, self.values@[i]))
    }
}

impl<T> NameMap<T> {
    #[verifier::type_invariant]
    closed spec fn inv(self) -> bool {
        &&& self.keys@.len() == self.values@.len()
        &&& forall|i: int, j: int|
            0 <= i < self.keys@.len() && 0 <= j < self.keys@.len() && i != j ==> #[trigger] self.keys@[i]@
                != #[trigger] self.keys@[j]@
    }

    proof fn lemma_view(&self)
        requires
            self.inv(),
        ensures
            keys_distinct(self@),
            self@.len() == self.keys@.len(),
            forall|i: int| 0 <= i < self.keys@.len() ==> #[trigger] self@[i] == (self.keys@[i]@, self.values@[i]),
    {
        assert forall|i: int, j: int| 0 <= i < self@.len() && 0 <= j < self@.len() && i != j implies self@[i].0
            != self@[j].0 by {
            assert(self.keys@[i]@ != self.keys@[j]@);
        }
    }

    /// An empty map.
    pub fn new() -> (m: Self)
        ensures
            m@ == Seq::<(Seq<char>, T)>::empty(),
            keys_distinct(m@),
    {
        let m = NameMap { keys: Vec::new(), values: Vec::new() };
        assert(m@ =~= Seq::<(Seq<char>, T)>::empty());
        m
    }

    /// The number of entries.
    pub fn len(&self) -> (n: usize)
        ensures
            n == self@.len(),
            keys_distinct(self@),
    {
        proof {
            use_type_invariant(self);
            self.lemma_view();
        }
        self.keys.len()
    }

    /// Whether the map is empty.
    pub fn is_empty(&self) -> (b: bool)
        ensures
            b == (self@.len() == 0),
    {
        self.keys.len() == 0
    }

    /// The position of the entry with key `key`.
    fn find(&self, key: &String) -> (r: Option<usize>)
        ensures
            r is Some <==> has_key(self@, key@),
            r matches Some(i) ==> i < self@.len() && self@[i as int].0 == key@ && key_index(self@, key@)
                == i,
            keys_distinct(self@),
            self@.len() == self.keys@.len(),
    {
        proof {
            use_type_invariant(self);
            self.lemma_view();
        }
        let mut i: usize = 0;
        while i < self.keys.len()
            invariant
                i <= self.keys@.len(),
                self.inv(),
                keys_distinct(self@),
                self@.len() == self.keys@.len(),
                forall|j: int| 0 <= j < i ==> self@[j].0 != key@,
            decreases self.keys@.len() - i,
        {
            if self.keys[i].eq(key) {
                proof {
                    self.lemma_view();
                    assert(self@[i as int].0 == key@);
                    lemma_key_index(self@, i as int);
                }
                return Some(i);
            }
            proof {
                self.lemma_view();
            }
            i = i + 1;
        }
        proof {
            if has_key(self@, key@) {
                let j = key_index(self@, key@);
                assert(self@[j].0 == key@);
            }
        }
        None
    }

    /// Whether an entry has key `key`.
    pub fn contains_key(&self, key: &String) -> (b: bool)
        ensures
            b == has_key(self@, key@),
            keys_distinct(self@),
    {
        self.find(key).is_some()
    }

    /// The value stored under `key`.
    pub fn get(&self, key: &String) -> (r: Option<&T>)
        ensures
            r matches Some(v) ==> lookup(self@, key@) == Some(*v),
            r is None ==> lookup(self@, key@) is None,
            keys_distinct(self@),
    {
        proof {
            use_type_invariant(self);
            self.lemma_view();
        }
        match self.find(key) {
            Some(i) => Some(&self.values[i]),
            None => None,
        }
    }

    /// The value stored under `key`, for changing it in place.
    pub fn get_mut(&mut self, key: &String) -> (r: Option<&mut T>)
        ensures
            r is Some <==> has_key(old(self)@, key@),
            r matches Some(v) ==> {
                &&& lookup(old(self)@, key@) == Some(*v)
                &&& final(self)@ == old(self)@.update(key_index(old(self)@, key@), (key@, *final(v)))
                &&& forall|k: Seq<char>|
                    #[trigger] lookup(old(self)@.update(key_index(old(self)@, key@), (key@, *final(v))), k) == if k == key@ {
                        Some(*final(v))
                    } else {
                        lookup(old(self)@, k)
                    }
            },
            r is None ==> final(self)@ == old(self)@,
            keys_distinct(final(self)@),
    {
        proof {
            use_type_invariant(&*self);
            self.lemma_view();
        }
        match self.find(key) {
            Some(i) => {
                proof {
                    assert forall|v: T, k: Seq<char>|
                        #[trigger] lookup(self@.update(i as int, (key@, v)), k) == if k == key@ {
                            Some(v)
                        } else {
                            lookup(self@, k)
                        } by {
                        lemma_update_value(self@, i as int, v, k);
                    }
                }
                Some(&mut self.values[i])
            },
            None => None,
        }
    }

    /// The entry at position `i`, in insertion order.
    pub fn entry_at(&self, i: usize) -> (r: (&String, &T))
        requires
            i < self@.len(),
        ensures
            r.0@ == self@[i as int].0,
            *r.1 == self@[i as int].1,
            keys_distinct(self@),
    {
        proof {
            use_type_invariant(self);
            self.lemma_view();
        }
        (&self.keys[i], &self.values[i])
    }

    /// Stores `value` under `key`, returning the value it replaces.
    pub fn insert(&mut self, key: String, value: T) -> (r: Option<T>)
        ensures
            final(self)@ == insert_entry(old(self)@, key@, value),
            keys_distinct(final(self)@),
            r matches Some(v) ==> lookup(old(self)@, key@) == Some(v),
            r is None ==> !has_key(old(self)@, key@),
    {
        proof {
            use_type_invariant(&*self);
            self.lemma_view();
            lemma_insert_distinct(self@, key@, value);
        }
        let ghost kv = key@;
        let ghost vv = value;
        let mut taken: NameMap<T> = NameMap::new();
        std::mem::swap(&mut taken, self);
        let ghost es = taken@;
        let found = taken.find(&key);
        proof {
            use_type_invariant(&taken);
            taken.lemma_view();
        }
        let NameMap { mut keys, mut values } = taken;
        let ghost old_keys = keys@;
        let r = match found {
            Some(i) => {
                let old_value = values.remove(i);
                values.insert(i, value);
                Some(old_value)
            },
            None => {
                keys.push(key);
                values.push(value);
                proof {
                    assert forall|a: int, b: int|
                        0 <= a < keys@.len() && 0 <= b < keys@.len() && a != b implies #[trigger] keys@[a]@
                        != #[trigger] keys@[b]@ by {
                        if a == old_keys.len() {
                            assert(es[b].0 != kv);
                        } else if b == old_keys.len() {
                            assert(es[a].0 != kv);
                        } else {
                            assert(old_keys[a]@ != old_keys[b]@);
                        }
                    }
                }
                None
            },
        };
        let m = NameMap { keys, values };
        proof {
            assert(m@ =~= insert_entry(es, kv, vv));
        }
        *self = m;
        r
    }

    /// Removes the entry with key `key`, returning its value.
    pub fn remove(&mut self, key: &String) -> (r: Option<T>)
        ensures
            final(self)@ == remove_entry(old(self)@, key@),
            keys_distinct(old(self)@),
            keys_distinct(final(self)@),
            r matches Some(v) ==> lookup(old(self)@, key@) == Some(v),
            r is None ==> !has_key(old(self)@, key@),
    {
        match self.find(key) {
            Some(i) => {
                let mut taken: NameMap<T> = NameMap::new();
                std::mem::swap(&mut taken, self);
                let ghost es = taken@;
                proof {
                    use_type_invariant(&taken);
                    taken.lemma_view();
                }
                let NameMap { mut keys, mut values } = taken;
                let ghost old_keys = keys@;
                keys.remove(i);
                let old_value = values.remove(i);
                proof {
                    assert forall|a: int, b: int|
                        0 <= a < keys@.len() && 0 <= b < keys@.len() && a != b implies #[trigger] keys@[a]@
                        != #[trigger] keys@[b]@ by {
                        let a2 = if a < i { a } else { a + 1 };
                        let b2 = if b < i { b } else { b + 1 };
                        assert(keys@[a] == old_keys[a2]);
                        assert(keys@[b] == old_keys[b2]);
                    }
                }
                let m = NameMap { keys, values };
                proof {
                    assert(m@ =~= remove_entry(es, key@));
                    use_type_invariant(&m);
                    m.lemma_view();
                }
                *self = m;
                Some(old_value)
            },
            None => None,
        }
    }
}

} // verus!
