//! A map from text to values that remembers insertion order.

use crate::text::same;
use vstd::prelude::*;

verus! {

/// A map keyed by text, without repeated keys, listed in the order in which the keys came.
#[derive(Debug)]
pub struct StringMap<V> {
    entries: Vec<(String, V)>,
}

/// No two entries share a key.
pub open spec fn distinct_keys<V>(entries: Seq<(String, V)>) -> bool {
    forall|i: int, j: int|
        0 <= i < j < entries.len() ==> (#[trigger] entries[i]).0@ != (#[trigger] entries[j]).0@
}

/// Whether some entry has the key `k`.
pub open spec fn has_key<V>(entries: Seq<(String, V)>, k: Seq<char>) -> bool {
    exists|i: int| 0 <= i < entries.len() && (#[trigger] entries[i]).0@ == k
}

/// Where the entry with key `k` stands.
pub open spec fn key_index<V>(entries: Seq<(String, V)>, k: Seq<char>) -> int {
    choose|i: int| 0 <= i < entries.len() && (#[trigger] entries[i]).0@ == k
}

/// What the entries say, as a map.
pub open spec fn as_map<V>(entries: Seq<(String, V)>) -> Map<Seq<char>, V> {
    Map::new(|k: Seq<char>| has_key(entries, k), |k: Seq<char>| entries[key_index(entries, k)].1)
}

/// The entry at `i` is what the map says of its key.
pub proof fn lemma_entry<V>(entries: Seq<(String, V)>, i: int)
    requires
        distinct_keys(entries),
        0 <= i < entries.len(),
    ensures
        as_map(entries).contains_key(entries[i].0@),
        as_map(entries)[entries[i].0@] == entries[i].1,
{
    let k = entries[i].0@;
    assert(has_key(entries, k));
    let j = key_index(entries, k);
    assert(0 <= j < entries.len() && entries[j].0@ == k);
    if i < j {
        assert(entries[i].0@ != entries[j].0@);
    } else if j < i {
        assert(entries[j].0@ != entries[i].0@);
    }
}

/// A map has as many keys as entries.
pub proof fn lemma_size<V>(entries: Seq<(String, V)>)
    requires
        distinct_keys(entries),
    ensures
        as_map(entries).dom().finite(),
        as_map(entries).dom().len() == entries.len(),
    decreases entries.len(),
{
    if entries.len() == 0 {
        assert(as_map(entries).dom() =~= Set::<Seq<char>>::empty());
    } else {
        let rest = entries.drop_last();
        let k = entries.last().0@;
        assert forall|i: int, j: int| 0 <= i < j < rest.len() implies (#[trigger] rest[i]).0@ != (
        #[trigger] rest[j]).0@ by {
            assert(entries[i].0@ != entries[j].0@);
        }
        lemma_size(rest);
        assert(!has_key(rest, k)) by {
            if has_key(rest, k) {
                let i = key_index(rest, k);
                assert(entries[i].0@ != entries[entries.len() - 1].0@);
            }
        }
        assert(as_map(entries).dom() =~= as_map(rest).dom().insert(k)) by {
            assert forall|x: Seq<char>| as_map(entries).dom().contains(x) <==> as_map(rest).dom().insert(k).contains(x) by {
                if has_key(entries, x) {
                    let i = key_index(entries, x);
                    if i < rest.len() {
                        assert(rest[i].0@ == x);
                    }
                }
                if has_key(rest, x) {
                    let i = key_index(rest, x);
                    assert(entries[i].0@ == x);
                }
                if x == k {
                    assert(entries[entries.len() - 1].0@ == x);
                }
            }
        }
    }
}

/// Adding an entry with a new key inserts it into the map.
pub proof fn lemma_push<V>(entries: Seq<(String, V)>, key: String, value: V)
    requires
        distinct_keys(entries),
        !has_key(entries, key@),
    ensures
        distinct_keys(entries.push((key, value))),
        as_map(entries.push((key, value))) == as_map(entries).insert(key@, value),
{
    let after = entries.push((key, value));
    assert forall|i: int, j: int| 0 <= i < j < after.len() implies (#[trigger] after[i]).0@ != (#[trigger] after[j]).0@ by {
        if j == entries.len() {
            assert(entries[i].0@ != key@);
        } else {
            assert(entries[i].0@ != entries[j].0@);
        }
    }
    assert forall|x: Seq<char>| has_key(after, x) <==> (x == key@ || has_key(entries, x)) by {
        if has_key(after, x) {
            let i = key_index(after, x);
            if i < entries.len() {
                assert(entries[i].0@ == x);
            }
        }
        if has_key(entries, x) {
            let i = key_index(entries, x);
            assert(after[i].0@ == x);
        }
        if x == key@ {
            assert(after[entries.len() as int].0@ == x);
        }
    }
    assert forall|x: Seq<char>| has_key(after, x) implies as_map(after)[x] == as_map(entries).insert(
        key@,
        value,
    )[x] by {
        if x == key@ {
            lemma_entry(after, entries.len() as int);
        } else {
            let i = key_index(entries, x);
            assert(after[i] == entries[i]);
            lemma_entry(after, i);
            lemma_entry(entries, i);
        }
    }
    assert(as_map(after) =~= as_map(entries).insert(key@, value));
}

/// Replacing the value of an entry inserts it into the map.
pub proof fn lemma_update<V>(entries: Seq<(String, V)>, at: int, key: String, value: V)
    requires
        distinct_keys(entries),
        0 <= at < entries.len(),
        entries[at].0@ == key@,
    ensures
        distinct_keys(entries.update(at, (key, value))),
        as_map(entries.update(at, (key, value))) == as_map(entries).insert(key@, value),
{
    let after = entries.update(at, (key, value));
    assert forall|i: int, j: int| 0 <= i < j < after.len() implies (#[trigger] after[i]).0@ != (#[trigger] after[j]).0@ by {
        assert(entries[i].0@ != entries[j].0@);
    }
    assert forall|x: Seq<char>| has_key(after, x) <==> has_key(entries, x) by {
        if has_key(after, x) {
            let i = key_index(after, x);
            assert(entries[i].0@ == x);
        }
        if has_key(entries, x) {
            let i = key_index(entries, x);
            assert(after[i].0@ == x);
        }
    }
    assert(has_key(entries, key@));
    assert forall|x: Seq<char>| has_key(after, x) implies as_map(after)[x] == as_map(entries).insert(
        key@,
        value,
    )[x] by {
        let i = key_index(entries, x);
        if x == key@ {
            lemma_entry(after, at);
        } else {
            assert(after[i] == entries[i]);
            lemma_entry(after, i);
            lemma_entry(entries, i);
        }
    }
    assert(as_map(after) =~= as_map(entries).insert(key@, value));
}

/// Taking an entry out removes its key from the map.
pub proof fn lemma_remove<V>(entries: Seq<(String, V)>, at: int)
    requires
        distinct_keys(entries),
        0 <= at < entries.len(),
    ensures
        distinct_keys(entries.remove(at)),
        as_map(entries.remove(at)) == as_map(entries).remove(entries[at].0@),
{
    let after = entries.remove(at);
    let k = entries[at].0@;
    assert forall|i: int, j: int| 0 <= i < j < after.len() implies (#[trigger] after[i]).0@ != (#[trigger] after[j]).0@ by {
        let a = if i < at { i } else { i + 1 };
        let b = if j < at { j } else { j + 1 };
        assert(entries[a].0@ != entries[b].0@);
    }
    assert forall|x: Seq<char>| has_key(after, x) <==> (x != k && has_key(entries, x)) by {
        if has_key(after, x) {
            let i = key_index(after, x);
            let a = if i < at { i } else { i + 1 };
            assert(entries[a].0@ == x);
            if a < at {
                assert(entries[a].0@ != entries[at].0@);
            } else {
                assert(entries[at].0@ != entries[a].0@);
            }
        }
        if x != k && has_key(entries, x) {
            let i = key_index(entries, x);
            let a = if i < at { i } else { i - 1 };
            assert(after[a].0@ == x);
        }
    }
    assert forall|x: Seq<char>| has_key(after, x) implies as_map(after)[x] == as_map(entries).remove(k)[x] by {
        let i = key_index(entries, x);
        let a = if i < at { i } else { i - 1 };
        assert(after[a] == entries[i]);
        lemma_entry(after, a);
        lemma_entry(entries, i);
    }
    assert(as_map(after) =~= as_map(entries).remove(k));
}

impl<V> View for StringMap<V> {
    type V = Map<Seq<char>, V>;

    open spec fn view(&self) -> Map<Seq<char>, V> {
        as_map(self.pairs())
    }
}

impl<V> StringMap<V> {
    /// The entries in order.
    pub closed spec fn pairs(&self) -> Seq<(String, V)> {
        self.entries@
    }

    /// Keys do not repeat.
    #[verifier::type_invariant]
    pub open spec fn wf(&self) -> bool {
        distinct_keys(self.pairs())
    }

    /// The empty map.
    pub fn new() -> (r: Self)
        ensures
            r.pairs().len() == 0,
            r@ == Map::<Seq<char>, V>::empty(),
    {
        let r = StringMap { entries: Vec::new() };
        proof {
            assert(r@ =~= Map::<Seq<char>, V>::empty());
        }
        r
    }

    /// How many keys there are.
    pub fn len(&self) -> (r: usize)
        ensures
            r == self.pairs().len(),
            r == self@.dom().len(),
            self@.dom().finite(),
    {
        proof {
            use_type_invariant(self);
            lemma_size(self.pairs());
        }
        self.entries.len()
    }

    /// Whether there is no key.
    pub fn is_empty(&self) -> (r: bool)
        ensures
            r == (self.pairs().len() == 0),
            r == (self@ == Map::<Seq<char>, V>::empty()),
    {
        proof {
            use_type_invariant(self);
            lemma_size(self.pairs());
            if self.pairs().len() == 0 {
                assert(self@ =~= Map::<Seq<char>, V>::empty());
            }
        }
        self.entries.len() == 0
    }

    fn find(&self, key: &str) -> (r: Option<usize>)
        ensures
            r matches Some(i) ==> i < self.pairs().len() && self.pairs()[i as int].0@ == key@,
            r is Some <==> has_key(self.pairs(), key@),
    {
        let mut i: usize = 0;
        while i < self.entries.len()
            invariant
                i <= self.entries.len(),
                self.entries@ == self.pairs(),
                forall|j: int| 0 <= j < i ==> (#[trigger] self.pairs()[j]).0@ != key@,
            decreases self.entries.len() - i,
        {
            if same(self.entries[i].0.as_str(), key) {
                return Some(i);
            }
            i = i + 1;
        }
        None
    }

    /// Whether `key` is in the map.
    pub fn contains_key(&self, key: &str) -> (r: bool)
        ensures
            r == self@.contains_key(key@),
    {
        self.find(key).is_some()
    }

    /// The value of `key`.
    pub fn get(&self, key: &str) -> (r: Option<&V>)
        ensures
            r matches Some(v) ==> self@.contains_key(key@) && *v == self@[key@],
            r is Some <==> self@.contains_key(key@),
    {
        proof {
            use_type_invariant(self);
        }
        match self.find(key) {
            Some(i) => {
                proof {
                    lemma_entry(self.pairs(), i as int);
                }
                Some(&self.entries[i].1)
            },
            None => None,
        }
    }

    /// The key at position `i`.
    pub fn key_at(&self, i: usize) -> (r: &String)
        requires
            i < self.pairs().len(),
        ensures
            *r == self.pairs()[i as int].0,
            self@.contains_key(r@),
    {
        proof {
            use_type_invariant(self);
            lemma_entry(self.pairs(), i as int);
        }
        &self.entries[i].0
    }

    /// The value at position `i`.
    pub fn value_at(&self, i: usize) -> (r: &V)
        requires
            i < self.pairs().len(),
        ensures
            *r == self.pairs()[i as int].1,
            self@[self.pairs()[i as int].0@] == *r,
    {
        proof {
            use_type_invariant(self);
            lemma_entry(self.pairs(), i as int);
        }
        &self.entries[i].1
    }

    /// Sets `key` to `value` and returns what it was before.
    pub fn insert(&mut self, key: String, value: V) -> (r: Option<V>)
        ensures
            final(self)@ == old(self)@.insert(key@, value),
            r == (if old(self)@.contains_key(key@) {
                Some(old(self)@[key@])
            } else {
                None
            }),
            !old(self)@.contains_key(key@) ==> final(self).pairs() == old(self).pairs().push((key, value)),
            old(self)@.contains_key(key@) ==> final(self).pairs().len() == old(self).pairs().len(),
    {
        proof {
            use_type_invariant(&*self);
        }
        let at = self.find(key.as_str());
        let mut entries: Vec<(String, V)> = Vec::new();
        std::mem::swap(&mut entries, &mut self.entries);
        match at {
            Some(i) => {
                proof {
                    lemma_update(entries@, i as int, key, value);
                    lemma_entry(entries@, i as int);
                }
                let mut slot: (String, V) = (key, value);
                std::mem::swap(&mut slot, &mut entries[i]);
                self.entries = entries;
                Some(slot.1)
            },
            None => {
                proof {
                    lemma_push(entries@, key, value);
                }
                entries.push((key, value));
                self.entries = entries;
                None
            },
        }
    }

    /// Takes `key` out and returns its value.
    pub fn remove(&mut self, key: &str) -> (r: Option<V>)
        ensures
            final(self)@ == old(self)@.remove(key@),
            r == (if old(self)@.contains_key(key@) {
                Some(old(self)@[key@])
            } else {
                None
            }),
            old(self)@.contains_key(key@) ==> final(self).pairs().len() == old(self).pairs().len() - 1,
            !old(self)@.contains_key(key@) ==> final(self).pairs() == old(self).pairs(),
    {
        proof {
            use_type_invariant(&*self);
        }
        match self.find(key) {
            Some(i) => {
                let mut entries: Vec<(String, V)> = Vec::new();
                std::mem::swap(&mut entries, &mut self.entries);
                proof {
                    lemma_remove(entries@, i as int);
                    lemma_entry(entries@, i as int);
                }
                let e = entries.remove(i);
                self.entries = entries;
                Some(e.1)
            },
            None => {
                proof {
                    assert(self@.remove(key@) =~= self@);
                }
                None
            },
        }
    }

    /// Removes every key.
    pub fn clear(&mut self)
        ensures
            final(self).pairs().len() == 0,
            final(self)@ == Map::<Seq<char>, V>::empty(),
    {
        self.entries = Vec::new();
        proof {
            assert(self@ =~= Map::<Seq<char>, V>::empty());
        }
    }

    /// The keys in order.
    pub fn keys(&self) -> (r: Vec<String>)
        ensures
            r@ == Seq::new(self.pairs().len(), |i: int| self.pairs()[i].0),
            forall|k: Seq<char>| crate::text::holds_text(r@, k) <==> self@.contains_key(k),
    {
        let mut r: Vec<String> = Vec::new();
        let mut i: usize = 0;
        while i < self.entries.len()
            invariant
                i <= self.entries.len(),
                self.entries@ == self.pairs(),
                r.len() == i,
                forall|j: int| 0 <= j < i ==> r@[j] == self.pairs()[j].0,
            decreases self.entries.len() - i,
        {
            r.push(self.entries[i].0.clone());
            i = i + 1;
        }
        proof {
            assert forall|k: Seq<char>| crate::text::holds_text(r@, k) <==> self@.contains_key(k) by {
                if crate::text::holds_text(r@, k) {
                    let j = choose|j: int| 0 <= j < r@.len() && (#[trigger] r@[j])@ == k;
                    assert(self.pairs()[j].0@ == k);
                }
                if has_key(self.pairs(), k) {
                    let j = key_index(self.pairs(), k);
                    assert(r@[j]@ == k);
                }
            }
        }
        r
    }
}

/// A set of texts.
#[derive(Debug)]
pub struct StringSet {
    names: StringMap<()>,
}

impl View for StringSet {
    type V = Set<Seq<char>>;

    closed spec fn view(&self) -> Set<Seq<char>> {
        self.names@.dom()
    }
}

impl StringSet {
    /// The empty set.
    pub fn new() -> (r: Self)
        ensures
            r@ == Set::<Seq<char>>::empty(),
    {
        let r = StringSet { names: StringMap::new() };
        proof {
            assert(r@ =~= Set::<Seq<char>>::empty());
        }
        r
    }

    /// How many texts the set holds.
    pub fn len(&self) -> (r: usize)
        ensures
            r == self@.len(),
            self@.finite(),
    {
        self.names.len()
    }

    /// Whether the set holds nothing.
    pub fn is_empty(&self) -> (r: bool)
        ensures
            r == (self@ == Set::<Seq<char>>::empty()),
    {
        proof {
            if self@ == Set::<Seq<char>>::empty() {
                assert(self.names@ =~= Map::<Seq<char>, ()>::empty());
            }
        }
        self.names.is_empty()
    }

    /// Whether the set holds `name`.
    pub fn contains(&self, name: &str) -> (r: bool)
        ensures
            r == self@.contains(name@),
    {
        self.names.contains_key(name)
    }

    /// Adds `name`; returns whether it is new.
    pub fn insert(&mut self, name: String) -> (r: bool)
        ensures
            final(self)@ == old(self)@.insert(name@),
            r == !old(self)@.contains(name@),
    {
        let before = self.names.insert(name, ());
        proof {
            assert(self@ =~= old(self)@.insert(name@));
        }
        before.is_none()
    }

    /// Takes `name` out; returns whether it was there.
    pub fn remove(&mut self, name: &str) -> (r: bool)
        ensures
            final(self)@ == old(self)@.remove(name@),
            r == old(self)@.contains(name@),
    {
        let before = self.names.remove(name);
        proof {
            assert(self@ =~= old(self)@.remove(name@));
        }
        before.is_some()
    }

    /// The texts in some order, each once.
    pub fn items(&self) -> (r: Vec<String>)
        ensures
            forall|k: Seq<char>| crate::text::holds_text(r@, k) <==> self@.contains(k),
            r@.len() == self@.len(),
    {
        let n: usize = self.names.len();
        self.names.keys()
    }
}

/// A copy of a map of values that can be copied.
pub fn copy_map<V: Copy>(m: &StringMap<V>) -> (r: StringMap<V>)
    ensures
        r@ == m@,
        r.pairs() == m.pairs(),
{
    let mut r: StringMap<V> = StringMap::new();
    let n: usize = m.len();
    let ghost pairs = m.pairs();
    proof {
        use_type_invariant(m);
        assert(pairs.take(0) =~= Seq::<(String, V)>::empty());
    }
    let mut i: usize = 0;
    while i < n
        invariant
            i <= n,
            n == pairs.len(),
            pairs == m.pairs(),
            distinct_keys(pairs),
            r.pairs() == pairs.take(i as int),
        decreases n - i,
    {
        let key = m.key_at(i).clone();
        let value: V = *m.value_at(i);
        proof {
            let before = pairs.take(i as int);
            if has_key(before, key@) {
                let j = key_index(before, key@);
                assert(pairs[j].0@ == pairs[i as int].0@);
            }
            assert(pairs.take(i + 1) =~= before.push((key, value)));
        }
        r.insert(key, value);
        i = i + 1;
    }
    proof {
        assert(pairs.take(i as int) =~= pairs);
    }
    r
}

/// A copy of a map of texts.
pub fn copy_texts(m: &StringMap<String>) -> (r: StringMap<String>)
    ensures
        r@ == m@,
        r.pairs() == m.pairs(),
{
    let mut r: StringMap<String> = StringMap::new();
    let n: usize = m.len();
    let ghost pairs = m.pairs();
    proof {
        use_type_invariant(m);
        assert(pairs.take(0) =~= Seq::<(String, String)>::empty());
    }
    let mut i: usize = 0;
    while i < n
        invariant
            i <= n,
            n == pairs.len(),
            pairs == m.pairs(),
            distinct_keys(pairs),
            r.pairs() == pairs.take(i as int),
        decreases n - i,
    {
        let key = m.key_at(i).clone();
        let value = m.value_at(i).clone();
        proof {
            let before = pairs.take(i as int);
            if has_key(before, key@) {
                let j = key_index(before, key@);
                assert(pairs[j].0@ == pairs[i as int].0@);
            }
            assert(pairs.take(i + 1) =~= before.push((key, value)));
        }
        r.insert(key, value);
        i = i + 1;
    }
    proof {
        assert(pairs.take(i as int) =~= pairs);
    }
    r
}

} // verus!
