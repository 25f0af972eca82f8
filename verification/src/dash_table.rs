//! A keyed table over a concurrent hash map.

use crate::string_map::{as_map, distinct_keys, has_key, key_index, lemma_entry, lemma_push, lemma_size, lemma_update};
use dashmap::DashMap;
use vstd::prelude::*;

verus! {

/// `dashmap::DashMap`, a sharded hash map.
#[verifier::external_type_specification]
#[verifier::external_body]
#[verifier::reject_recursive_types(K)]
#[verifier::reject_recursive_types(V)]
#[verifier::reject_recursive_types(S)]
pub struct ExDashMap<K, V, S>(dashmap::DashMap<K, V, S>);

/// What a `DashMap` from text to positions holds.
pub uninterp spec fn positions(m: DashMap<String, usize>) -> Map<Seq<char>, usize>;

/// `DashMap::new`: an empty map.
#[verifier::external_body]
fn dash_new() -> (r: DashMap<String, usize>)
    ensures
        positions(r).dom() == Set::<Seq<char>>::empty(),
{
    DashMap::new()
}

/// `DashMap::get`: the value of `key`, copied out.
#[verifier::external_body]
fn dash_get(m: &DashMap<String, usize>, key: &str) -> (r: Option<usize>)
    ensures
        r == (if positions(*m).contains_key(key@) {
            Some(positions(*m)[key@])
        } else {
            None
        }),
{
    m.get(key).map(|e| *e.value())
}

/// `DashMap::insert`: sets `key` to `value`.
#[verifier::external_body]
fn dash_insert(m: &mut DashMap<String, usize>, key: String, value: usize)
    ensures
        positions(*final(m)) == positions(*old(m)).insert(key@, value),
{
    m.insert(key, value);
}

/// `DashMap::remove`: takes `key` out.
#[verifier::external_body]
fn dash_remove(m: &mut DashMap<String, usize>, key: &str)
    ensures
        positions(*final(m)) == positions(*old(m)).remove(key@),
{
    m.remove(key);
}

/// A table keyed by text: a `DashMap` finds the position of a key, and the rows stand in
/// a vector.
pub struct DashTable<V> {
    index: DashMap<String, usize>,
    rows: Vec<(String, V)>,
}

/// The index finds each row under its key, and nothing else.
pub open spec fn indexed<V>(index: Map<Seq<char>, usize>, rows: Seq<(String, V)>) -> bool {
    &&& forall|i: int|
        0 <= i < rows.len() ==> index.contains_key((#[trigger] rows[i]).0@) && index[rows[i].0@] == i
    &&& forall|k: Seq<char>| #[trigger]
        index.contains_key(k) ==> index[k] < rows.len() && rows[index[k] as int].0@ == k
}

proof fn lemma_indexed<V>(index: Map<Seq<char>, usize>, rows: Seq<(String, V)>)
    requires
        indexed(index, rows),
    ensures
        distinct_keys(rows),
        forall|k: Seq<char>| index.contains_key(k) <==> has_key(rows, k),
{
    assert forall|i: int, j: int| 0 <= i < j < rows.len() implies (#[trigger] rows[i]).0@ != (#[trigger] rows[j]).0@ by {
        if rows[i].0@ == rows[j].0@ {
            assert(index[rows[i].0@] == i);
            assert(index[rows[j].0@] == j);
        }
    }
    assert forall|k: Seq<char>| index.contains_key(k) <==> has_key(rows, k) by {
        if index.contains_key(k) {
            assert(rows[index[k] as int].0@ == k);
        }
        if has_key(rows, k) {
            let i = key_index(rows, k);
            assert(index.contains_key(rows[i].0@));
        }
    }
}

impl<V> View for DashTable<V> {
    type V = Map<Seq<char>, V>;

    open spec fn view(&self) -> Map<Seq<char>, V> {
        as_map(self.pairs())
    }
}

impl<V> DashTable<V> {
    /// The rows in their present order.
    pub closed spec fn pairs(&self) -> Seq<(String, V)> {
        self.rows@
    }

    #[verifier::type_invariant]
    spec fn inv(&self) -> bool {
        indexed(positions(self.index), self.rows@)
    }

    /// Keys do not repeat.
    pub open spec fn wf(&self) -> bool {
        distinct_keys(self.pairs())
    }

    /// The empty table.
    pub fn new() -> (r: Self)
        ensures
            r.pairs().len() == 0,
            r@ == Map::<Seq<char>, V>::empty(),
            r.wf(),
    {
        let index = dash_new();
        let r = DashTable { index, rows: Vec::new() };
        proof {
            assert(r@ =~= Map::<Seq<char>, V>::empty());
        }
        r
    }

    /// How many rows there are.
    pub fn len(&self) -> (r: usize)
        ensures
            r == self.pairs().len(),
            self@.dom().finite(),
            r == self@.dom().len(),
            self.wf(),
    {
        proof {
            use_type_invariant(self);
            lemma_indexed(positions(self.index), self.rows@);
            lemma_size(self.pairs());
        }
        self.rows.len()
    }

    /// Whether `key` has a row.
    pub fn contains_key(&self, key: &str) -> (r: bool)
        ensures
            r == self@.contains_key(key@),
            self.wf(),
    {
        proof {
            use_type_invariant(self);
            lemma_indexed(positions(self.index), self.rows@);
        }
        dash_get(&self.index, key).is_some()
    }

    /// The row of `key`.
    pub fn get(&self, key: &str) -> (r: Option<&V>)
        ensures
            r matches Some(v) ==> self@.contains_key(key@) && *v == self@[key@],
            r is Some <==> self@.contains_key(key@),
            self.wf(),
    {
        proof {
            use_type_invariant(self);
            lemma_indexed(positions(self.index), self.rows@);
        }
        match dash_get(&self.index, key) {
            Some(i) => {
                proof {
                    lemma_entry(self.pairs(), i as int);
                }
                Some(&self.rows[i].1)
            },
            None => None,
        }
    }

    /// The key of row `i`.
    pub fn key_at(&self, i: usize) -> (r: &String)
        requires
            i < self.pairs().len(),
        ensures
            *r == self.pairs()[i as int].0,
            self@.contains_key(r@),
            self.wf(),
    {
        proof {
            use_type_invariant(self);
            lemma_indexed(positions(self.index), self.rows@);
            lemma_entry(self.pairs(), i as int);
        }
        &self.rows[i].0
    }

    /// The value of row `i`.
    pub fn value_at(&self, i: usize) -> (r: &V)
        requires
            i < self.pairs().len(),
        ensures
            *r == self.pairs()[i as int].1,
            self@[self.pairs()[i as int].0@] == *r,
            self.wf(),
    {
        proof {
            use_type_invariant(self);
            lemma_indexed(positions(self.index), self.rows@);
            lemma_entry(self.pairs(), i as int);
        }
        &self.rows[i].1
    }

    /// Sets the row of `key` to `value` and returns what it was before.
    pub fn insert(&mut self, key: String, value: V) -> (r: Option<V>)
        ensures
            final(self)@ == old(self)@.insert(key@, value),
            r == (if old(self)@.contains_key(key@) {
                Some(old(self)@[key@])
            } else {
                None
            }),
            final(self).pairs().len() == old(self).pairs().len() + (if old(self)@.contains_key(key@) {
                0int
            } else {
                1
            }),
            final(self).wf(),
            old(self).wf(),
    {
        proof {
            use_type_invariant(&*self);
            lemma_indexed(positions(self.index), self.rows@);
        }
        let mut table: DashTable<V> = DashTable::new();
        std::mem::swap(&mut table, self);
        let DashTable { mut index, mut rows } = table;
        let ghost before = rows@;
        match dash_get(&index, key.as_str()) {
            Some(i) => {
                proof {
                    lemma_update(before, i as int, key, value);
                    lemma_entry(before, i as int);
                }
                let ghost k = key@;
                let mut row: (String, V) = (key, value);
                std::mem::swap(&mut row, &mut rows[i]);
                proof {
                    assert forall|j: int| 0 <= j < rows@.len() implies positions(index).contains_key((#[trigger] rows@[j]).0@)
                        && positions(index)[rows@[j].0@] == j by {
                        assert(before[j].0@ == rows@[j].0@);
                    }
                }
                *self = DashTable { index, rows };
                Some(row.1)
            },
            None => {
                proof {
                    lemma_push(before, key, value);
                }
                let copy = key.clone();
                let n: usize = rows.len();
                dash_insert(&mut index, copy, n);
                rows.push((key, value));
                proof {
                    assert forall|j: int| 0 <= j < rows@.len() implies positions(index).contains_key((#[trigger] rows@[j]).0@)
                        && positions(index)[rows@[j].0@] == j by {
                        if j < before.len() {
                            assert(before[j].0@ == rows@[j].0@);
                            assert(has_key(before, before[j].0@));
                        }
                    }
                }
                *self = DashTable { index, rows };
                None
            },
        }
    }

    /// Takes the row of `key` out and returns it.
    pub fn remove(&mut self, key: &str) -> (r: Option<V>)
        ensures
            final(self)@ == old(self)@.remove(key@),
            r == (if old(self)@.contains_key(key@) {
                Some(old(self)@[key@])
            } else {
                None
            }),
            final(self).pairs().len() == old(self).pairs().len() - (if old(self)@.contains_key(key@) {
                1int
            } else {
                0
            }),
            final(self).wf(),
            old(self).wf(),
    {
        proof {
            use_type_invariant(&*self);
            lemma_indexed(positions(self.index), self.rows@);
        }
        let at: usize = match dash_get(&self.index, key) {
            Some(i) => i,
            None => {
                proof {
                    assert(self@.remove(key@) =~= self@);
                }
                return None;
            },
        };
        let mut table: DashTable<V> = DashTable::new();
        std::mem::swap(&mut table, self);
        let DashTable { mut index, mut rows } = table;
        let ghost before = rows@;
        let ghost before_index = positions(index);
        dash_remove(&mut index, key);
        let row = rows.swap_remove(at);
        if at < rows.len() {
            let moved = rows[at].0.clone();
            dash_insert(&mut index, moved, at);
        }
        proof {
            let after = rows@;
            lemma_entry(before, at as int);
            let last = before.len() - 1;
            assert forall|j: int| 0 <= j < after.len() implies positions(index).contains_key((#[trigger] after[j]).0@)
                && positions(index)[after[j].0@] == j by {
                if j != at {
                    assert(after[j] == before[j]);
                    assert(before_index[before[j].0@] == j);
                    assert(before_index[before[last].0@] == last);
                } else {
                    assert(after[j] == before[last]);
                }
            }
            assert forall|k: Seq<char>| #[trigger] positions(index).contains_key(k) implies positions(index)[k] < after.len()
                && after[positions(index)[k] as int].0@ == k by {
                if at < after.len() && k == before[last].0@ {
                } else {
                    assert(before_index.contains_key(k));
                    assert(k != key@);
                    assert(before[before_index[k] as int].0@ == k);
                    assert(before_index[k] != at);
                    if at == last {
                    } else {
                        assert(before_index[k] != last);
                    }
                }
            }
            lemma_indexed(positions(index), after);
            lemma_swap_removed(before, at as int, after);
        }
        *self = DashTable { index, rows };
        Some(row.1)
    }

    /// Removes every row.
    pub fn clear(&mut self)
        ensures
            final(self).pairs().len() == 0,
            final(self)@ == Map::<Seq<char>, V>::empty(),
            final(self).wf(),
    {
        *self = DashTable::new();
    }
}

/// Moving the last row into the place of the one taken out removes that key only.
proof fn lemma_swap_removed<V>(before: Seq<(String, V)>, at: int, after: Seq<(String, V)>)
    requires
        distinct_keys(before),
        distinct_keys(after),
        0 <= at < before.len(),
        after.len() == before.len() - 1,
        forall|j: int| 0 <= j < after.len() && j != at ==> after[j] == before[j],
        at < after.len() ==> after[at] == before[before.len() - 1],
    ensures
        as_map(after) == as_map(before).remove(before[at].0@),
{
    let k = before[at].0@;
    let last = before.len() - 1;
    assert forall|x: Seq<char>| has_key(after, x) <==> (x != k && has_key(before, x)) by {
        if has_key(after, x) {
            let i = key_index(after, x);
            let b = if i == at { last } else { i };
            assert(before[b].0@ == x);
            if b < at {
                assert(before[b].0@ != before[at].0@);
            } else {
                assert(before[at].0@ != before[b].0@);
            }
        }
        if x != k && has_key(before, x) {
            let i = key_index(before, x);
            let a = if i == last { at } else { i };
            assert(after[a].0@ == x);
        }
    }
    assert forall|x: Seq<char>| has_key(after, x) implies as_map(after)[x] == as_map(before).remove(k)[x] by {
        let i = key_index(before, x);
        let a = if i == last { at } else { i };
        assert(after[a] == before[i]);
        lemma_entry(after, a);
        lemma_entry(before, i);
    }
    assert(as_map(after) =~= as_map(before).remove(k));
}

} // verus!
