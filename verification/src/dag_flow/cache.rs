//! The values that the nodes of a workflow read and write.

use super::node::{DagError, IField};
use crate::clock::utc_millis;
use crate::dash_table::DashTable;
use crate::string_map::{distinct_keys, has_key, key_index, lemma_entry};
use crate::text::{
    cat2, cat3, cat4, cat5, dec_rem, dec_signed, decimal, owned, parse_dec, pieces, same, signed_decimal, split,
    truncated_rem, views,
};
use crate::value::{Json, Value};
use vstd::prelude::*;

verus! {

/// A stored value.
#[derive(Debug)]
pub struct SerializableData {
    pub value: Value,
}

impl Clone for SerializableData {
    fn clone(&self) -> (r: Self)
        ensures
            r.value@ == self.value@,
    {
        SerializableData { value: self.value.clone() }
    }
}

/// The values of the nodes, by node and by key.
pub struct Cache {
    data: DashTable<DashTable<SerializableData>>,
}

/// What the values of a node say, by key.
pub open spec fn table_json(t: DashTable<SerializableData>) -> Map<Seq<char>, Json> {
    t@.map_values(|d: SerializableData| d.value@)
}

impl View for Cache {
    type V = Map<Seq<char>, Map<Seq<char>, Json>>;

    closed spec fn view(&self) -> Map<Seq<char>, Map<Seq<char>, Json>> {
        self.data@.map_values(|t: DashTable<SerializableData>| table_json(t))
    }
}

/// The values of `node`, none where the cache does not know it.
pub open spec fn node_values(m: Map<Seq<char>, Map<Seq<char>, Json>>, node: Seq<char>) -> Map<Seq<char>, Json> {
    if m.contains_key(node) {
        m[node]
    } else {
        Map::empty()
    }
}

/// The cache `m` after `key` of `node` was set to `v`.
pub open spec fn with_value(
    m: Map<Seq<char>, Map<Seq<char>, Json>>,
    node: Seq<char>,
    key: Seq<char>,
    v: Json,
) -> Map<Seq<char>, Map<Seq<char>, Json>> {
    m.insert(node, node_values(m, node).insert(key, v))
}

/// The value of `key` of `node`.
pub open spec fn lookup(m: Map<Seq<char>, Map<Seq<char>, Json>>, node: Seq<char>, key: Seq<char>) -> Option<Json> {
    if m.contains_key(node) && m[node].contains_key(key) {
        Some(m[node][key])
    } else {
        None
    }
}

/// The entry under which a workflow keeps its own values.
pub open spec fn global_key(dag_name: Seq<char>) -> Seq<char> {
    "global:"@ + dag_name
}

/// An array with `v` appended: to the array that was there, to the single value that was
/// there, or to nothing.
pub open spec fn appended(before: Option<Json>, v: Json) -> Json {
    match before {
        Some(Json::Array(items)) => Json::Array(items.push(v)),
        Some(other) => Json::Array(seq![other, v]),
        None => Json::Array(seq![v]),
    }
}

fn append_to(before: Option<SerializableData>, value: Value) -> (r: SerializableData)
    ensures
        r.value@ == appended(
            match before {
                Some(d) => Some(d.value@),
                None => None,
            },
            value@,
        ),
{
    match before {
        Some(data) => match data.value {
            Value::Array(mut items) => {
                let ghost old_items = items@;
                items.push(value);
                let r = SerializableData { value: Value::Array(items) };
                proof {
                    assert(r.value@->Array_0 =~= Value::Array(items)@->Array_0);
                    assert(r.value@->Array_0.len() == old_items.len() + 1);
                    assert(r.value@->Array_0 =~= appended(Some(data.value@), value@)->Array_0);
                }
                r
            },
            other => {
                let mut items: Vec<Value> = Vec::new();
                let ghost o = other@;
                items.push(other);
                items.push(value);
                let r = SerializableData { value: Value::Array(items) };
                proof {
                    assert(r.value@->Array_0 =~= seq![o, value@]);
                }
                r
            },
        },
        None => {
            let mut items: Vec<Value> = Vec::new();
            items.push(value);
            let r = SerializableData { value: Value::Array(items) };
            proof {
                assert(r.value@->Array_0 =~= seq![value@]);
            }
            r
        },
    }
}

impl Cache {
    /// The empty cache.
    pub fn new() -> (r: Self)
        ensures
            r@ == Map::<Seq<char>, Map<Seq<char>, Json>>::empty(),
    {
        let r = Cache { data: DashTable::new() };
        proof {
            assert(r@ =~= Map::<Seq<char>, Map<Seq<char>, Json>>::empty());
        }
        r
    }

    /// How many nodes have values.
    pub fn len(&self) -> (r: usize)
        ensures
            r == self@.dom().len(),
    {
        proof {
            assert(self@.dom() =~= self.data@.dom());
        }
        self.data.len()
    }

    /// Whether `node_id` has values.
    pub fn contains_node(&self, node_id: &str) -> (r: bool)
        ensures
            r == self@.contains_key(node_id@),
    {
        self.data.contains_key(node_id)
    }

    /// The value of `key` of `node_id`.
    pub fn get_value(&self, node_id: &str, key: &str) -> (r: Option<&Value>)
        ensures
            r is Some <==> lookup(self@, node_id@, key@) is Some,
            r matches Some(v) ==> lookup(self@, node_id@, key@) == Some(v@),
    {
        match self.data.get(node_id) {
            Some(table) => {
                match table.get(key) {
                    Some(d) => Some(&d.value),
                    None => None,
                }
            },
            None => None,
        }
    }

    /// Sets `key` of `node_id` to `value`.
    pub fn insert_value(&mut self, node_id: &str, key: &str, value: Value)
        ensures
            final(self)@ == with_value(old(self)@, node_id@, key@, value@),
    {
        let ghost before = self.data@;
        let mut table: DashTable<SerializableData> = match self.data.remove(node_id) {
            Some(t) => t,
            None => DashTable::new(),
        };
        let ghost inner = table_json(table);
        table.insert(owned(key), SerializableData { value });
        proof {
            assert(inner =~= node_values(old(self)@, node_id@));
            assert(table_json(table) =~= inner.insert(key@, value@));
        }
        let ghost after = table_json(table);
        self.data.insert(owned(node_id), table);
        proof {
            assert(self@ =~= old(self)@.insert(node_id@, after));
        }
    }

    /// Appends `value` to the list `key` among the values of the workflow `dag_name`.
    pub fn append_global_value(&mut self, dag_name: &str, key: &str, value: Value)
        ensures
            final(self)@ == with_value(
                old(self)@,
                global_key(dag_name@),
                key@,
                appended(lookup(old(self)@, global_key(dag_name@), key@), value@),
            ),
    {
        let global = cat2("global:", dag_name);
        let mut table: DashTable<SerializableData> = match self.data.remove(global.as_str()) {
            Some(t) => t,
            None => DashTable::new(),
        };
        let ghost inner = table_json(table);
        proof {
            assert(inner =~= node_values(old(self)@, global@));
        }
        let before = table.remove(key);
        let data = append_to(before, value);
        let ghost stored = data.value@;
        table.insert(owned(key), data);
        proof {
            assert(table_json(table) =~= inner.insert(key@, stored));
        }
        let ghost after = table_json(table);
        self.data.insert(global, table);
        proof {
            assert(self@ =~= old(self)@.insert(global_key(dag_name@), after));
        }
    }

    /// The value `key` of the workflow `dag_name`.
    pub fn get_global_value(&self, dag_name: &str, key: &str) -> (r: Option<Value>)
        ensures
            r is Some <==> lookup(self@, global_key(dag_name@), key@) is Some,
            r matches Some(v) ==> lookup(self@, global_key(dag_name@), key@) == Some(v@),
    {
        let global = cat2("global:", dag_name);
        match self.get_value(global.as_str(), key) {
            Some(v) => Some(v.clone()),
            None => None,
        }
    }

    /// All values: each node with its keys and values.
    pub fn entries(&self) -> (r: Vec<(String, Vec<(String, Value)>)>)
        ensures
            entries_map(entries_view(r@)) == self@,
    {
        let mut r: Vec<(String, Vec<(String, Value)>)> = Vec::new();
        let n: usize = self.data.len();
        let mut i: usize = 0;
        while i < n
            invariant
                i <= n,
                n == self.data.pairs().len(),
                self.data.wf(),
                r.len() == i,
                forall|j: int|
                    0 <= j < i ==> (#[trigger] r@[j]).0@ == self.data.pairs()[j].0@ && members_map(members_view(r@[j].1@))
                        == table_json(self.data.pairs()[j].1),
            decreases n - i,
        {
            let table = self.data.value_at(i);
            let members = table_entries(table);
            let key = self.data.key_at(i).clone();
            r.push((key, members));
            i = i + 1;
        }
        proof {
            lemma_entries(self.data, r@);
        }
        r
    }

    /// The cache with the given values; a node or key that comes twice keeps what came last.
    pub fn from_entries(entries: Vec<(String, Vec<(String, Value)>)>) -> (r: Self)
        ensures
            r@ == entries_map(entries_view(entries@)),
    {
        let mut data: DashTable<DashTable<SerializableData>> = DashTable::new();
        let mut i: usize = 0;
        let ghost all = entries_view(entries@);
        proof {
            assert(all.take(0) =~= Seq::<(Seq<char>, Seq<(Seq<char>, Json)>)>::empty());
            assert(data@.map_values(|t: DashTable<SerializableData>| table_json(t)) =~= entries_map(all.take(0)));
        }
        while i < entries.len()
            invariant
                i <= entries.len(),
                all == entries_view(entries@),
                data@.map_values(|t: DashTable<SerializableData>| table_json(t)) == entries_map(all.take(i as int)),
            decreases entries.len() - i,
        {
            let ghost before = data@.map_values(|t: DashTable<SerializableData>| table_json(t));
            let table = table_from(&entries[i].1);
            let ghost inner = table_json(table);
            data.insert(entries[i].0.clone(), table);
            proof {
                assert(all.take(i + 1).drop_last() =~= all.take(i as int));
                assert(data@.map_values(|t: DashTable<SerializableData>| table_json(t)) =~= before.insert(entries@[i as int].0@, inner));
            }
            i = i + 1;
        }
        proof {
            assert(all.take(i as int) =~= all);
        }
        Cache { data }
    }

    /// All values, one by one: node, key and value.
    pub fn to_rows(&self) -> (r: Vec<(String, String, Value)>)
        ensures
            forall|node: Seq<char>, key: Seq<char>| #[trigger]
                lookup(rows_map(row_views(r@)), node, key) == lookup(self@, node, key),
    {
        let mut r: Vec<(String, String, Value)> = Vec::new();
        let n: usize = self.data.len();
        let ghost pairs = self.data.pairs();
        proof {
            assert(row_views(r@) =~= Seq::<(Seq<char>, Seq<char>, Json)>::empty());
        }
        let mut i: usize = 0;
        while i < n
            invariant
                i <= n,
                n == pairs.len(),
                pairs == self.data.pairs(),
                distinct_keys(pairs),
                forall|node: Seq<char>, key: Seq<char>| #[trigger]
                    lookup(rows_map(row_views(r@)), node, key) == (if has_key(pairs.take(i as int), node) {
                        lookup(self@, node, key)
                    } else {
                        None
                    }),
            decreases n - i,
        {
            let node = self.data.key_at(i);
            let table = self.data.value_at(i);
            let m: usize = table.len();
            let ghost keys = table.pairs();
            let ghost done = rows_map(row_views(r@));
            proof {
                lemma_entry(pairs, i as int);
                assert(self@[node@] == table_json(*table));
                assert(!has_key(pairs.take(i as int), node@)) by {
                    if has_key(pairs.take(i as int), node@) {
                        let j = key_index(pairs.take(i as int), node@);
                        assert(pairs[j].0@ == pairs[i as int].0@);
                    }
                }
            }
            let mut j: usize = 0;
            while j < m
                invariant
                    j <= m,
                    m == keys.len(),
                    keys == table.pairs(),
                    distinct_keys(keys),
                    i < n,
                    n == pairs.len(),
                    pairs == self.data.pairs(),
                    *node == pairs[i as int].0,
                    self@.contains_key(node@),
                    self@[node@] == table_json(*table),
                    forall|key: Seq<char>| #[trigger] lookup(done, node@, key) is None,
                    forall|other: Seq<char>, key: Seq<char>| #[trigger]
                        lookup(rows_map(row_views(r@)), other, key) == (if other == node@ && has_key(keys.take(j as int), key) {
                            lookup(self@, node@, key)
                        } else {
                            lookup(done, other, key)
                        }),
                decreases m - j,
            {
                let key = table.key_at(j);
                let value = table.value_at(j).value.clone();
                let ghost before = row_views(r@);
                let ghost v = value@;
                r.push((node.clone(), key.clone(), value));
                proof {
                    lemma_entry(keys, j as int);
                    assert(row_views(r@) =~= before.push((node@, key@, v)));
                    assert(before.push((node@, key@, v)).drop_last() =~= before);
                    assert(lookup(self@, node@, key@) == Some(v));
                    assert forall|other: Seq<char>, k: Seq<char>| #[trigger]
                        lookup(rows_map(row_views(r@)), other, k) == (if other == node@ && has_key(keys.take(j + 1), k) {
                            lookup(self@, node@, k)
                        } else {
                            lookup(done, other, k)
                        }) by {
                        lemma_lookup_set(rows_map(before), node@, key@, v, other, k);
                        lemma_key_take(keys, j as int, k);
                    }
                }
                j = j + 1;
            }
            proof {
                assert(keys.take(j as int) =~= keys);
                assert forall|other: Seq<char>, key: Seq<char>| #[trigger]
                    lookup(rows_map(row_views(r@)), other, key) == (if has_key(pairs.take(i + 1), other) {
                        lookup(self@, other, key)
                    } else {
                        None
                    }) by {
                    lemma_key_take(pairs, i as int, other);
                }
            }
            i = i + 1;
        }
        proof {
            assert(pairs.take(i as int) =~= pairs);
            assert forall|node: Seq<char>, key: Seq<char>| #[trigger]
                lookup(rows_map(row_views(r@)), node, key) == lookup(self@, node, key) by {
                assert(self@.contains_key(node) <==> has_key(pairs, node));
            }
        }
        r
    }

    /// The cache with the given values; of a node and key that come twice, the last value
    /// counts.
    pub fn from_rows(rows: Vec<(String, String, Value)>) -> (r: Self)
        ensures
            r@ == rows_map(row_views(rows@)),
    {
        let ghost all = row_views(rows@);
        let mut r = Cache::new();
        let mut i: usize = 0;
        proof {
            assert(all.take(0) =~= Seq::<(Seq<char>, Seq<char>, Json)>::empty());
        }
        while i < rows.len()
            invariant
                i <= rows@.len(),
                all == row_views(rows@),
                r@ == rows_map(all.take(i as int)),
            decreases rows.len() - i,
        {
            proof {
                assert(all.take(i + 1).drop_last() =~= all.take(i as int));
            }
            let value = rows[i].2.clone();
            r.insert_value(rows[i].0.as_str(), rows[i].1.as_str(), value);
            i = i + 1;
        }
        proof {
            assert(all.take(i as int) =~= all);
        }
        r
    }
}

/// What a list of rows says.
pub open spec fn row_views(v: Seq<(String, String, Value)>) -> Seq<(Seq<char>, Seq<char>, Json)> {
    Seq::new(v.len(), |i: int| (v[i].0@, v[i].1@, v[i].2@))
}

/// The values that rows of node, key and value spell out; of a node and key that come twice,
/// the last value counts.
pub open spec fn rows_map(v: Seq<(Seq<char>, Seq<char>, Json)>) -> Map<Seq<char>, Map<Seq<char>, Json>>
    decreases v.len(),
{
    if v.len() == 0 {
        Map::empty()
    } else {
        with_value(rows_map(v.drop_last()), v.last().0, v.last().1, v.last().2)
    }
}

proof fn lemma_lookup_set(
    m: Map<Seq<char>, Map<Seq<char>, Json>>,
    node: Seq<char>,
    key: Seq<char>,
    v: Json,
    other: Seq<char>,
    k: Seq<char>,
)
    ensures
        lookup(with_value(m, node, key, v), other, k) == (if other == node && k == key {
            Some(v)
        } else {
            lookup(m, other, k)
        }),
{
}

proof fn lemma_key_take<V>(pairs: Seq<(String, V)>, i: int, k: Seq<char>)
    requires
        0 <= i < pairs.len(),
    ensures
        has_key(pairs.take(i + 1), k) <==> has_key(pairs.take(i), k) || k == pairs[i].0@,
{
    let a = pairs.take(i);
    let b = pairs.take(i + 1);
    if has_key(b, k) {
        let j = key_index(b, k);
        if j < i {
            assert(a[j].0@ == k);
        }
    }
    if has_key(a, k) {
        let j = key_index(a, k);
        assert(b[j].0@ == k);
    }
    if k == pairs[i].0@ {
        assert(b[i].0@ == k);
    }
}

/// A cache that is saved row by row and loaded again gives back every value, and nothing else.
pub proof fn saved_rows_are_loaded(
    saved: Map<Seq<char>, Map<Seq<char>, Json>>,
    rows: Seq<(Seq<char>, Seq<char>, Json)>,
    loaded: Map<Seq<char>, Map<Seq<char>, Json>>,
    node: Seq<char>,
    key: Seq<char>,
)
    requires
        forall|n: Seq<char>, k: Seq<char>| #[trigger] lookup(rows_map(rows), n, k) == lookup(saved, n, k),
        loaded == rows_map(rows),
    ensures
        lookup(loaded, node, key) == lookup(saved, node, key),
{
}

/// What a list of keys and values says.
pub open spec fn members_view(v: Seq<(String, Value)>) -> Seq<(Seq<char>, Json)> {
    Seq::new(v.len(), |i: int| (v[i].0@, v[i].1@))
}

/// What a list of nodes with their keys and values says.
pub open spec fn entries_view(v: Seq<(String, Vec<(String, Value)>)>) -> Seq<(Seq<char>, Seq<(Seq<char>, Json)>)> {
    Seq::new(v.len(), |i: int| (v[i].0@, members_view(v[i].1@)))
}

/// The map that a list of keys and values spells out; the last mention of a key counts.
pub open spec fn members_map(v: Seq<(Seq<char>, Json)>) -> Map<Seq<char>, Json>
    decreases v.len(),
{
    if v.len() == 0 {
        Map::empty()
    } else {
        members_map(v.drop_last()).insert(v.last().0, v.last().1)
    }
}

/// The cache that a list of nodes with their keys and values spells out.
pub open spec fn entries_map(v: Seq<(Seq<char>, Seq<(Seq<char>, Json)>)>) -> Map<Seq<char>, Map<Seq<char>, Json>>
    decreases v.len(),
{
    if v.len() == 0 {
        Map::empty()
    } else {
        entries_map(v.drop_last()).insert(v.last().0, members_map(v.last().1))
    }
}

fn table_entries(table: &DashTable<SerializableData>) -> (r: Vec<(String, Value)>)
    ensures
        members_map(members_view(r@)) == table_json(*table),
{
    let mut r: Vec<(String, Value)> = Vec::new();
    let n: usize = table.len();
    let mut i: usize = 0;
    while i < n
        invariant
            i <= n,
            n == table.pairs().len(),
            table.wf(),
            r.len() == i,
            forall|j: int|
                0 <= j < i ==> (#[trigger] r@[j]).0@ == table.pairs()[j].0@ && r@[j].1@ == table.pairs()[j].1.value@,
        decreases n - i,
    {
        let key = table.key_at(i).clone();
        let value = table.value_at(i).value.clone();
        r.push((key, value));
        i = i + 1;
    }
    proof {
        let v = members_view(r@);
        assert(v.len() == table.pairs().len());
        assert forall|i: int, j: int| 0 <= i < j < v.len() implies (#[trigger] v[i]).0 != (#[trigger] v[j]).0 by {
            assert(table.pairs()[i].0@ != table.pairs()[j].0@);
        }
        lemma_members_map(v);
        assert forall|k: Seq<char>| table_json(*table).contains_key(k) <==> members_map(v).contains_key(k) by {
            if table@.contains_key(k) {
                let j = key_index(table.pairs(), k);
                assert(v[j].0 == k);
            }
            if members_map(v).contains_key(k) {
                let j = choose|j: int| 0 <= j < v.len() && (#[trigger] v[j]).0 == k;
                assert(table.pairs()[j].0@ == k);
            }
        }
        assert forall|k: Seq<char>| members_map(v).contains_key(k) implies members_map(v)[k] == table_json(*table)[k] by {
            let j = choose|j: int| 0 <= j < v.len() && (#[trigger] v[j]).0 == k;
            lemma_entry(table.pairs(), j);
            assert(members_map(v)[v[j].0] == v[j].1);
        }
        assert(members_map(v) =~= table_json(*table));
    }
    r
}

fn table_from(members: &Vec<(String, Value)>) -> (r: DashTable<SerializableData>)
    ensures
        table_json(r) == members_map(members_view(members@)),
{
    let mut r: DashTable<SerializableData> = DashTable::new();
    let mut i: usize = 0;
    let ghost all = members_view(members@);
    proof {
        assert(all.take(0) =~= Seq::<(Seq<char>, Json)>::empty());
        assert(table_json(r) =~= members_map(all.take(0)));
    }
    while i < members.len()
        invariant
            i <= members.len(),
            all == members_view(members@),
            table_json(r) == members_map(all.take(i as int)),
        decreases members.len() - i,
    {
        let ghost before = table_json(r);
        let value = members[i].1.clone();
        r.insert(members[i].0.clone(), SerializableData { value });
        proof {
            assert(all.take(i + 1).drop_last() =~= all.take(i as int));
            assert(table_json(r) =~= before.insert(members@[i as int].0@, value@));
        }
        i = i + 1;
    }
    proof {
        assert(all.take(i as int) =~= all);
    }
    r
}

/// Where keys do not repeat, the map holds exactly what is listed.
proof fn lemma_members_map(v: Seq<(Seq<char>, Json)>)
    requires
        forall|i: int, j: int| 0 <= i < j < v.len() ==> (#[trigger] v[i]).0 != (#[trigger] v[j]).0,
    ensures
        forall|k: Seq<char>|
            members_map(v).contains_key(k) <==> exists|i: int| 0 <= i < v.len() && (#[trigger] v[i]).0 == k,
        forall|i: int| 0 <= i < v.len() ==> members_map(v)[(#[trigger] v[i]).0] == v[i].1,
    decreases v.len(),
{
    if v.len() > 0 {
        let rest = v.drop_last();
        assert forall|i: int, j: int| 0 <= i < j < rest.len() implies (#[trigger] rest[i]).0 != (#[trigger] rest[j]).0 by {
            assert(v[i].0 != v[j].0);
        }
        lemma_members_map(rest);
        assert forall|k: Seq<char>|
            members_map(v).contains_key(k) <==> exists|i: int| 0 <= i < v.len() && (#[trigger] v[i]).0 == k by {
            if members_map(v).contains_key(k) {
                if k == v.last().0 {
                    assert(v[v.len() - 1].0 == k);
                } else {
                    assert(members_map(rest).contains_key(k));
                    let i = choose|i: int| 0 <= i < rest.len() && (#[trigger] rest[i]).0 == k;
                    assert(v[i].0 == k);
                }
            }
            if exists|i: int| 0 <= i < v.len() && (#[trigger] v[i]).0 == k {
                let i = choose|i: int| 0 <= i < v.len() && (#[trigger] v[i]).0 == k;
                if i < rest.len() {
                    assert(rest[i].0 == k);
                    assert(members_map(rest).contains_key(k));
                }
            }
        }
        assert forall|i: int| 0 <= i < v.len() implies members_map(v)[(#[trigger] v[i]).0] == v[i].1 by {
            if i < rest.len() {
                assert(rest[i] == v[i]);
                assert(v[i].0 != v[v.len() - 1].0);
            }
        }
    }
}

proof fn lemma_entries_map(v: Seq<(Seq<char>, Seq<(Seq<char>, Json)>)>)
    requires
        forall|i: int, j: int| 0 <= i < j < v.len() ==> (#[trigger] v[i]).0 != (#[trigger] v[j]).0,
    ensures
        forall|k: Seq<char>|
            entries_map(v).contains_key(k) <==> exists|i: int| 0 <= i < v.len() && (#[trigger] v[i]).0 == k,
        forall|i: int| 0 <= i < v.len() ==> entries_map(v)[(#[trigger] v[i]).0] == members_map(v[i].1),
    decreases v.len(),
{
    if v.len() > 0 {
        let rest = v.drop_last();
        assert forall|i: int, j: int| 0 <= i < j < rest.len() implies (#[trigger] rest[i]).0 != (#[trigger] rest[j]).0 by {
            assert(v[i].0 != v[j].0);
        }
        lemma_entries_map(rest);
        assert forall|k: Seq<char>|
            entries_map(v).contains_key(k) <==> exists|i: int| 0 <= i < v.len() && (#[trigger] v[i]).0 == k by {
            if entries_map(v).contains_key(k) {
                if k == v.last().0 {
                    assert(v[v.len() - 1].0 == k);
                } else {
                    assert(entries_map(rest).contains_key(k));
                    let i = choose|i: int| 0 <= i < rest.len() && (#[trigger] rest[i]).0 == k;
                    assert(v[i].0 == k);
                }
            }
            if exists|i: int| 0 <= i < v.len() && (#[trigger] v[i]).0 == k {
                let i = choose|i: int| 0 <= i < v.len() && (#[trigger] v[i]).0 == k;
                if i < rest.len() {
                    assert(rest[i].0 == k);
                    assert(entries_map(rest).contains_key(k));
                }
            }
        }
        assert forall|i: int| 0 <= i < v.len() implies entries_map(v)[(#[trigger] v[i]).0] == members_map(v[i].1) by {
            if i < rest.len() {
                assert(rest[i] == v[i]);
                assert(v[i].0 != v[v.len() - 1].0);
            }
        }
    }
}

proof fn lemma_entries(data: DashTable<DashTable<SerializableData>>, r: Seq<(String, Vec<(String, Value)>)>)
    requires
        data.wf(),
        r.len() == data.pairs().len(),
        forall|j: int|
            0 <= j < r.len() ==> (#[trigger] r[j]).0@ == data.pairs()[j].0@ && members_map(members_view(r[j].1@)) == table_json(
                data.pairs()[j].1,
            ),
    ensures
        entries_map(entries_view(r)) == data@.map_values(|t: DashTable<SerializableData>| table_json(t)),
{
    let v = entries_view(r);
    let m = data@.map_values(|t: DashTable<SerializableData>| table_json(t));
    assert forall|i: int, j: int| 0 <= i < j < v.len() implies (#[trigger] v[i]).0 != (#[trigger] v[j]).0 by {
        assert(r[i].0@ == data.pairs()[i].0@);
        assert(r[j].0@ == data.pairs()[j].0@);
        assert(data.pairs()[i].0@ != data.pairs()[j].0@);
    }
    lemma_entries_map(v);
    assert forall|k: Seq<char>| m.contains_key(k) <==> entries_map(v).contains_key(k) by {
        if data@.contains_key(k) {
            let j = key_index(data.pairs(), k);
            assert(r[j].0@ == k);
            assert(v[j].0 == k);
        }
        if entries_map(v).contains_key(k) {
            let j = choose|j: int| 0 <= j < v.len() && (#[trigger] v[j]).0 == k;
            assert(r[j].0@ == k);
            assert(data.pairs()[j].0@ == k);
        }
    }
    assert forall|k: Seq<char>| m.contains_key(k) implies entries_map(v)[k] == m[k] by {
        let j = choose|j: int| 0 <= j < v.len() && (#[trigger] v[j]).0 == k;
        assert(r[j].0@ == k);
        lemma_entry(data.pairs(), j);
        assert(entries_map(v)[v[j].0] == members_map(v[j].1));
    }
    assert(entries_map(v) =~= m);
}

/// Sets `output_name` of `node_id` to `value`.
pub fn insert_value(cache: &mut Cache, node_id: &str, output_name: &str, value: Value)
    ensures
        final(cache)@ == with_value(old(cache)@, node_id@, output_name@, value@),
{
    cache.insert_value(node_id, output_name, value);
}

/// Why a read of `key` of `node` fails.
pub open spec fn missing_text(m: Map<Seq<char>, Map<Seq<char>, Json>>, node: Seq<char>, key: Seq<char>) -> Seq<char> {
    if m.contains_key(node) {
        "Key '"@ + key + "' not found in node '"@ + node + "'"@
    } else {
        "Node '"@ + node + "' not found in cache"@
    }
}

/// The value of `key` of `node_id`; an error says which of the two is missing.
pub fn get_input(cache: &Cache, node_id: &str, key: &str) -> (r: Result<Value, String>)
    ensures
        r is Ok <==> lookup(cache@, node_id@, key@) is Some,
        r matches Ok(v) ==> lookup(cache@, node_id@, key@) == Some(v@),
        r matches Err(e) ==> e@ == missing_text(cache@, node_id@, key@),
{
    if !cache.contains_node(node_id) {
        return Err(cat3("Node '", node_id, "' not found in cache"));
    }
    match cache.get_value(node_id, key) {
        Some(v) => Ok(v.clone()),
        None => Err(cat5("Key '", key, "' not found in node '", node_id, "'")),
    }
}

/// The first input field called `name`.
pub open spec fn field_at(inputs: Seq<IField>, name: Seq<char>, i: int) -> bool {
    &&& 0 <= i < inputs.len()
    &&& inputs[i].name@ == name
    &&& forall|j: int| 0 <= j < i ==> (#[trigger] inputs[j]).name@ != name
}

/// What the input `name` of a node refers to, or why it refers to nothing: the field may
/// be missing, its reference may not have the form `node.output`, or the cache may hold no
/// such value.
pub open spec fn resolved(
    m: Map<Seq<char>, Map<Seq<char>, Json>>,
    inputs: Seq<IField>,
    name: Seq<char>,
) -> Result<Json, Seq<char>> {
    if exists|i: int| field_at(inputs, name, i) {
        let reference = inputs[choose|i: int| field_at(inputs, name, i)].reference@;
        let parts = pieces(reference, '.');
        if parts.len() != 2 {
            Err("Invalid reference format: '"@ + reference + "'"@)
        } else {
            match lookup(m, parts[0], parts[1]) {
                Some(v) => Ok(v),
                None => Err(missing_text(m, parts[0], parts[1])),
            }
        }
    } else {
        Err("Input field '"@ + name + "' not found"@)
    }
}

/// Looks up what the input `input_name` refers to.
pub fn parse_input_from_name(cache: &Cache, input_name: &str, inputs: &Vec<IField>) -> (r: Result<Value, String>)
    ensures
        r is Ok <==> resolved(cache@, inputs@, input_name@) is Ok,
        r matches Ok(v) ==> resolved(cache@, inputs@, input_name@) == Ok::<Json, Seq<char>>(v@),
        r matches Err(e) ==> resolved(cache@, inputs@, input_name@) == Err::<Json, Seq<char>>(e@),
{
    let mut i: usize = 0;
    while i < inputs.len()
        invariant
            i <= inputs.len(),
            forall|j: int| 0 <= j < i ==> (#[trigger] inputs@[j]).name@ != input_name@,
        decreases inputs.len() - i,
    {
        if same(inputs[i].name.as_str(), input_name) {
            proof {
                assert(field_at(inputs@, input_name@, i as int));
                let k = choose|k: int| field_at(inputs@, input_name@, k);
                if k < i {
                    assert(inputs@[k].name@ != input_name@);
                } else if k > i {
                    assert(inputs@[i as int].name@ == input_name@);
                }
            }
            let reference = inputs[i].reference.as_str();
            let parts = split(reference, '.');
            proof {
                assert(views(parts@).len() == parts@.len());
            }
            if parts.len() != 2 {
                return Err(cat3("Invalid reference format: '", reference, "'"));
            }
            proof {
                assert(views(parts@)[0] == parts@[0]@);
                assert(views(parts@)[1] == parts@[1]@);
            }
            return get_input(cache, parts[0].as_str(), parts[1].as_str());
        }
        i = i + 1;
    }
    proof {
        if exists|k: int| field_at(inputs@, input_name@, k) {
            let k = choose|k: int| field_at(inputs@, input_name@, k);
            assert(inputs@[k].name@ == input_name@);
        }
    }
    Err(cat3("Input field '", input_name, "' not found"))
}

/// The value `key` of the workflow `dag_name`; an error says what is missing.
pub fn get_global_input(cache: &Cache, dag_name: &str, key: &str) -> (r: Result<Value, DagError>)
    ensures
        r is Ok <==> lookup(cache@, global_key(dag_name@), key@) is Some,
        r matches Ok(v) ==> lookup(cache@, global_key(dag_name@), key@) == Some(v@),
        r matches Err(e) ==> e is InvalidState && e->InvalidState_0@ == (if cache@.contains_key(global_key(dag_name@)) {
            "Key '"@ + key@ + "' not found in global inputs for DAG '"@ + dag_name@ + "'"@
        } else {
            "Global inputs not found for DAG '"@ + dag_name@ + "'"@
        }),
{
    let global = cat2("global:", dag_name);
    if !cache.contains_node(global.as_str()) {
        return Err(DagError::InvalidState(cat3("Global inputs not found for DAG '", dag_name, "'")));
    }
    match cache.get_value(global.as_str(), key) {
        Some(v) => Ok(v.clone()),
        None => Err(
            DagError::InvalidState(cat5("Key '", key, "' not found in global inputs for DAG '", dag_name, "'")),
        ),
    }
}

/// Sets the value `key` of the workflow `dag_name`.
pub fn insert_global_value(cache: &mut Cache, dag_name: &str, key: &str, value: Value)
    ensures
        final(cache)@ == with_value(old(cache)@, global_key(dag_name@), key@, value@),
{
    let global = cat2("global:", dag_name);
    cache.insert_value(global.as_str(), key, value);
}

/// Appends `value` to the list `key` of the workflow `dag_name`.
pub fn append_global_value(cache: &mut Cache, dag_name: &str, key: &str, value: Value)
    ensures
        final(cache)@ == with_value(
            old(cache)@,
            global_key(dag_name@),
            key@,
            appended(lookup(old(cache)@, global_key(dag_name@), key@), value@),
        ),
{
    cache.append_global_value(dag_name, key, value);
}

/// The number that a JSON number without sign, fraction or exponent spells out.
pub fn as_count(v: &Value) -> (r: Option<u64>)
    ensures
        r matches Some(n) ==> v@ == Json::Number(decimal(n as nat)),
        r is None ==> forall|n: u64| v@ != Json::Number(#[trigger] decimal(n as nat)),
{
    match v {
        Value::Number(t) => parse_dec(t.as_str()),
        _ => None,
    }
}

/// The id of a node for `action_name` made up at the time `millis`.
pub open spec fn node_id_text(action_name: Seq<char>, millis: int) -> Seq<char> {
    action_name + "_"@ + signed_decimal(truncated_rem(millis, 1_000_000))
}

/// The id of a node for `action_name` made up at the time `millis`: the name and the last
/// six digits of the time.
pub fn node_id_at(action_name: &str, millis: i64) -> (r: String)
    ensures
        r@ == node_id_text(action_name@, millis as int),
{
    cat3(action_name, "_", dec_rem(millis, 1_000_000).as_str())
}

/// The id of a node for `action_name` made up now.
pub fn generate_node_id(action_name: &str) -> (r: String)
    ensures
        exists|millis: i64| r@ == #[trigger] node_id_text(action_name@, millis as int),
{
    let millis: i64 = utc_millis();
    node_id_at(action_name, millis)
}

/// The name of the cache state of `node_id` at the time `millis`.
pub open spec fn cache_ref_text(node_id: Seq<char>, millis: int) -> Seq<char> {
    "cache_"@ + node_id + "_"@ + signed_decimal(millis)
}

/// The name of the cache state of `node_id` at the time `millis`.
pub fn cache_ref_at(node_id: &str, millis: i64) -> (r: String)
    ensures
        r@ == cache_ref_text(node_id@, millis as int),
{
    cat4("cache_", node_id, "_", dec_signed(millis).as_str())
}

/// The name of the cache state of `node_id` now.
pub fn generate_cache_ref(node_id: &str) -> (r: String)
    ensures
        exists|millis: i64| r@ == #[trigger] cache_ref_text(node_id@, millis as int),
{
    let millis: i64 = utc_millis();
    cache_ref_at(node_id, millis)
}

/// A read gives back what the last write to the same place wrote.
pub proof fn read_after_write(
    m: Map<Seq<char>, Map<Seq<char>, Json>>,
    node: Seq<char>,
    key: Seq<char>,
    v: Json,
)
    ensures
        lookup(with_value(m, node, key, v), node, key) == Some(v),
{
}

/// A write changes no other place.
pub proof fn write_is_local(
    m: Map<Seq<char>, Map<Seq<char>, Json>>,
    node: Seq<char>,
    key: Seq<char>,
    v: Json,
    other_node: Seq<char>,
    other_key: Seq<char>,
)
    requires
        node != other_node || key != other_key,
    ensures
        lookup(with_value(m, node, key, v), other_node, other_key) == lookup(m, other_node, other_key),
{
}

/// The values appended one after the other to a place that held nothing.
pub open spec fn appended_all(vs: Seq<Json>) -> Option<Json>
    decreases vs.len(),
{
    if vs.len() == 0 {
        None
    } else {
        Some(appended(appended_all(vs.drop_last()), vs.last()))
    }
}

/// Values appended to a place that held nothing are read back as the array of all of them,
/// in order.
pub proof fn appends_accumulate(vs: Seq<Json>)
    requires
        vs.len() > 0,
    ensures
        appended_all(vs) == Some(Json::Array(vs)),
    decreases vs.len(),
{
    if vs.len() == 1 {
        assert(vs.drop_last().len() == 0);
        assert(appended_all(vs.drop_last()) is None);
        assert(seq![vs.last()] =~= vs);
    } else {
        appends_accumulate(vs.drop_last());
        assert(appended_all(vs.drop_last()) == Some(Json::Array(vs.drop_last())));
        assert(vs.drop_last().push(vs.last()) =~= vs);
    }
}

/// What is written under a node and a key is what is read there next; what is under another node
/// or key is read as before.
pub proof fn written_value_is_read(
    a: &mut Cache,
    node: &str,
    key: &str,
    value: Value,
    b: &Cache,
    other_node: &str,
    other_key: &str,
    r: Result<Value, String>,
    c: &Cache,
    s: Result<Value, String>,
)
    requires
        call_ensures(Cache::insert_value, (a, node, key, value), ()),
        call_ensures(get_input, (b, other_node, other_key), r),
        call_ensures(get_input, (c, other_node, other_key), s),
    ensures
        b@ == final(a)@ && other_node@ == node@ && other_key@ == key@ ==> (r matches Ok(v) && v@ == value@),
        b@ == final(a)@ && c@ == old(a)@ && !(other_node@ == node@ && other_key@ == key@) ==> (r is Ok <==> s is Ok) && (
        r is Ok ==> r->Ok_0@ == s->Ok_0@),
        r is Ok <==> b@.contains_key(other_node@) && b@[other_node@].contains_key(other_key@),
        r matches Ok(v) ==> v@ == b@[other_node@][other_key@],
        !b@.contains_key(other_node@) ==> (r matches Err(e) && e@ == "Node '"@ + other_node@ + "' not found in cache"@),
        b@.contains_key(other_node@) && !b@[other_node@].contains_key(other_key@) ==> (r matches Err(e) && e@ == "Key '"@
            + other_key@ + "' not found in node '"@ + other_node@ + "'"@),
{
}

/// The values of a workflow lie under its name, apart from those of its nodes; what is appended
/// is the last item of what is read.
pub proof fn global_values_are_read(
    a: &mut Cache,
    dag: &str,
    key: &str,
    value: Value,
    b: &Cache,
    r: Result<Value, DagError>,
    c: &mut Cache,
    d: &Cache,
    s: Result<Value, DagError>,
)
    requires
        call_ensures(insert_global_value, (a, dag, key, value), ()),
        call_ensures(get_global_input, (b, dag, key), r),
        call_ensures(append_global_value, (c, dag, key, value), ()),
        call_ensures(get_global_input, (d, dag, key), s),
    ensures
        b@ == final(a)@ ==> (r matches Ok(v) && v@ == value@),
        d@ == final(c)@ ==> (s matches Ok(v) && v@ is Array && v@->Array_0.len() > 0 && v@->Array_0.last() == value@),
        d@ == final(c)@ && c_holds(old(c)@, dag@, key@) is None ==> s->Ok_0@->Array_0 == seq![value@],
        d@ == final(c)@ && (c_holds(old(c)@, dag@, key@) matches Some(Json::Array(items)) && s->Ok_0@->Array_0 != items.push(
            value@,
        )) ==> false,
        d@ == final(c)@ && (c_holds(old(c)@, dag@, key@) matches Some(v) && !(v is Array) && s->Ok_0@->Array_0 != seq![v, value@])
            ==> false,
        r is Ok <==> c_holds(b@, dag@, key@) is Some,
        final(a)@.contains_key("global:"@ + dag@),
{
}

/// What a cache holds under a key of a workflow.
pub open spec fn c_holds(m: Map<Seq<char>, Map<Seq<char>, Json>>, dag: Seq<char>, key: Seq<char>) -> Option<Json> {
    if m.contains_key("global:"@ + dag) && m["global:"@ + dag].contains_key(key) {
        Some(m["global:"@ + dag][key])
    } else {
        None
    }
}

/// An input that refers to an output of a node, as the node's name, a dot and the output's name,
/// is what the cache holds there; what is missing is named.
pub proof fn reference_is_followed(
    cache: &Cache,
    name: &str,
    inputs: &Vec<IField>,
    r: Result<Value, String>,
    i: int,
    node: Seq<char>,
    output: Seq<char>,
)
    requires
        call_ensures(parse_input_from_name, (cache, name, inputs), r),
        0 <= i < inputs@.len(),
        inputs@[i].name@ == name@,
        forall|j: int| 0 <= j < i ==> (#[trigger] inputs@[j]).name@ != name@,
        inputs@[i].reference@ == node + seq!['.'] + output,
        !node.contains('.'),
        !output.contains('.'),
    ensures
        r is Ok <==> cache@.contains_key(node) && cache@[node].contains_key(output),
        r matches Ok(v) ==> v@ == cache@[node][output],
        !cache@.contains_key(node) ==> (r matches Err(e) && e@ == "Node '"@ + node + "' not found in cache"@),
        cache@.contains_key(node) && !cache@[node].contains_key(output) ==> (r matches Err(e) && e@ == "Key '"@ + output
            + "' not found in node '"@ + node + "'"@),
{
    assert(field_at(inputs@, name@, i));
    lemma_field(inputs@, name@, i);
    let k = choose|k: int| field_at(inputs@, name@, k);
    assert(inputs@[k].reference@ == inputs@[i].reference@);
    crate::text::plain_text_is_one_piece(node, '.');
    crate::text::plain_text_is_one_piece(output, '.');
    crate::text::separator_parts_the_pieces(node, output, '.');
    assert(pieces(inputs@[i].reference@, '.') =~= seq![node, output]);
}

proof fn lemma_field(inputs: Seq<IField>, name: Seq<char>, i: int)
    requires
        field_at(inputs, name, i),
    ensures
        (choose|k: int| field_at(inputs, name, k)) == i,
{
    let k = choose|k: int| field_at(inputs, name, k);
    assert(field_at(inputs, name, k));
    if k < i {
        assert(inputs[k].name@ != name);
    } else if i < k {
        assert(inputs[i].name@ != name);
    }
}

/// A field that is not there, and a reference without a dot, are named.
pub proof fn bad_inputs_are_named(cache: &Cache, name: &str, inputs: &Vec<IField>, r: Result<Value, String>, i: int)
    requires
        call_ensures(parse_input_from_name, (cache, name, inputs), r),
    ensures
        (forall|j: int| 0 <= j < inputs@.len() ==> (#[trigger] inputs@[j]).name@ != name@) ==> (r matches Err(e) && e@
            == "Input field '"@ + name@ + "' not found"@),
        0 <= i < inputs@.len() && inputs@[i].name@ == name@ && (forall|j: int|
            0 <= j < i ==> (#[trigger] inputs@[j]).name@ != name@) && !inputs@[i].reference@.contains('.') ==> (r matches Err(e)
            && e@ == "Invalid reference format: '"@ + inputs@[i].reference@ + "'"@),
{
    if 0 <= i < inputs@.len() && inputs@[i].name@ == name@ && (forall|j: int|
        0 <= j < i ==> (#[trigger] inputs@[j]).name@ != name@) && !inputs@[i].reference@.contains('.') {
        lemma_field(inputs@, name@, i);
        crate::text::plain_text_is_one_piece(inputs@[i].reference@, '.');
    }
}

/// What an input refers to, where its reference names a node and an output.
pub proof fn lemma_resolved(
    m: Map<Seq<char>, Map<Seq<char>, Json>>,
    inputs: Seq<IField>,
    name: Seq<char>,
    i: int,
    node: Seq<char>,
    output: Seq<char>,
)
    requires
        0 <= i < inputs.len(),
        inputs[i].name@ == name,
        forall|j: int| 0 <= j < i ==> (#[trigger] inputs[j]).name@ != name,
        inputs[i].reference@ == node + seq!['.'] + output,
        !node.contains('.'),
        !output.contains('.'),
    ensures
        m.contains_key(node) && m[node].contains_key(output) ==> resolved(m, inputs, name) == Ok::<Json, Seq<char>>(
            m[node][output],
        ),
{
    assert(field_at(inputs, name, i));
    lemma_field(inputs, name, i);
    crate::text::plain_text_is_one_piece(node, '.');
    crate::text::plain_text_is_one_piece(output, '.');
    crate::text::separator_parts_the_pieces(node, output, '.');
    assert(pieces(inputs[i].reference@, '.') =~= seq![node, output]);
}

/// A cache that is written as rows and read back says the same under every node and key.
pub proof fn rows_come_back(c: &Cache, rows: Vec<(String, String, Value)>, back: Cache, node: Seq<char>, key: Seq<char>)
    requires
        call_ensures(Cache::to_rows, (c,), rows),
        call_ensures(Cache::from_rows, (rows,), back),
    ensures
        (back@.contains_key(node) && back@[node].contains_key(key)) <==> (c@.contains_key(node) && c@[node].contains_key(key)),
        c@.contains_key(node) && c@[node].contains_key(key) ==> back@[node][key] == c@[node][key],
{
    assert(lookup(rows_map(row_views(rows@)), node, key) == lookup(c@, node, key));
}

/// Of the rows with the same node and key the last counts, and nothing is there that no row says.
pub proof fn last_row_counts(rows: Vec<(String, String, Value)>, r: Cache, i: int, node: Seq<char>, key: Seq<char>)
    requires
        call_ensures(Cache::from_rows, (rows,), r),
    ensures
        0 <= i < rows@.len() && (forall|j: int|
            i < j < rows@.len() ==> (#[trigger] rows@[j]).0@ != rows@[i].0@ || rows@[j].1@ != rows@[i].1@)
            ==> r@.contains_key(rows@[i].0@) && r@[rows@[i].0@].contains_key(rows@[i].1@) && r@[rows@[i].0@][rows@[i].1@]
            == rows@[i].2@,
        (forall|j: int| 0 <= j < rows@.len() ==> (#[trigger] rows@[j]).0@ != node || rows@[j].1@ != key) ==> !(
        r@.contains_key(node) && r@[node].contains_key(key)),
{
    let v = row_views(rows@);
    if 0 <= i < rows@.len() && (forall|j: int|
        i < j < rows@.len() ==> (#[trigger] rows@[j]).0@ != rows@[i].0@ || rows@[j].1@ != rows@[i].1@) {
        assert forall|j: int| i < j < v.len() implies (#[trigger] v[j]).0 != v[i].0 || v[j].1 != v[i].1 by {
            assert(rows@[j].0@ != rows@[i].0@ || rows@[j].1@ != rows@[i].1@);
        }
        lemma_last_row(v, i);
    }
    if forall|j: int| 0 <= j < rows@.len() ==> (#[trigger] rows@[j]).0@ != node || rows@[j].1@ != key {
        assert forall|j: int| 0 <= j < v.len() implies (#[trigger] v[j]).0 != node || v[j].1 != key by {
            assert(rows@[j].0@ != node || rows@[j].1@ != key);
        }
        lemma_no_row(v, node, key);
    }
}

proof fn lemma_last_row(v: Seq<(Seq<char>, Seq<char>, Json)>, i: int)
    requires
        0 <= i < v.len(),
        forall|j: int| i < j < v.len() ==> (#[trigger] v[j]).0 != v[i].0 || v[j].1 != v[i].1,
    ensures
        lookup(rows_map(v), v[i].0, v[i].1) == Some(v[i].2),
    decreases v.len(),
{
    let rest = v.drop_last();
    if i < v.len() - 1 {
        assert forall|j: int| i < j < rest.len() implies (#[trigger] rest[j]).0 != rest[i].0 || rest[j].1 != rest[i].1 by {
            assert(v[j].0 != v[i].0 || v[j].1 != v[i].1);
        }
        lemma_last_row(rest, i);
        assert(v[v.len() - 1].0 != v[i].0 || v[v.len() - 1].1 != v[i].1);
    }
    lemma_lookup_set(rows_map(rest), v.last().0, v.last().1, v.last().2, v[i].0, v[i].1);
}

proof fn lemma_no_row(v: Seq<(Seq<char>, Seq<char>, Json)>, node: Seq<char>, key: Seq<char>)
    requires
        forall|j: int| 0 <= j < v.len() ==> (#[trigger] v[j]).0 != node || v[j].1 != key,
    ensures
        lookup(rows_map(v), node, key) is None,
    decreases v.len(),
{
    if v.len() > 0 {
        let rest = v.drop_last();
        assert forall|j: int| 0 <= j < rest.len() implies (#[trigger] rest[j]).0 != node || rest[j].1 != key by {
            assert(v[j].0 != node || v[j].1 != key);
        }
        lemma_no_row(rest, node, key);
        assert(v[v.len() - 1].0 != node || v[v.len() - 1].1 != key);
        lemma_lookup_set(rows_map(rest), v.last().0, v.last().1, v.last().2, node, key);
    }
}

/// A cache that is listed and put together again is the same; of the entries that share a name
/// the last counts.
pub proof fn entries_come_back(
    c: &Cache,
    entries: Vec<(String, Vec<(String, Value)>)>,
    back: Cache,
    given: Vec<(String, Vec<(String, Value)>)>,
    made: Cache,
    i: int,
    j: int,
)
    requires
        call_ensures(Cache::entries, (c,), entries),
        call_ensures(Cache::from_entries, (entries,), back),
        call_ensures(Cache::from_entries, (given,), made),
    ensures
        back@ == c@,
        0 <= i < given@.len() && 0 <= j < given@[i].1@.len() && (forall|k: int|
            i < k < given@.len() ==> (#[trigger] given@[k]).0@ != given@[i].0@) && (forall|k: int|
            j < k < given@[i].1@.len() ==> (#[trigger] given@[i].1@[k]).0@ != given@[i].1@[j].0@) ==> made@.contains_key(
            given@[i].0@,
        ) && made@[given@[i].0@].contains_key(given@[i].1@[j].0@) && made@[given@[i].0@][given@[i].1@[j].0@]
            == given@[i].1@[j].1@,
{
    let v = entries_view(given@);
    if 0 <= i < given@.len() && 0 <= j < given@[i].1@.len() && (forall|k: int|
        i < k < given@.len() ==> (#[trigger] given@[k]).0@ != given@[i].0@) && (forall|k: int|
        j < k < given@[i].1@.len() ==> (#[trigger] given@[i].1@[k]).0@ != given@[i].1@[j].0@) {
        assert forall|k: int| i < k < v.len() implies (#[trigger] v[k]).0 != v[i].0 by {
            assert(given@[k].0@ != given@[i].0@);
        }
        lemma_last_entry(v, i);
        let m = v[i].1;
        assert forall|k: int| j < k < m.len() implies (#[trigger] m[k]).0 != m[j].0 by {
            assert(given@[i].1@[k].0@ != given@[i].1@[j].0@);
        }
        lemma_last_member(m, j);
    }
}

proof fn lemma_last_entry(v: Seq<(Seq<char>, Seq<(Seq<char>, Json)>)>, i: int)
    requires
        0 <= i < v.len(),
        forall|k: int| i < k < v.len() ==> (#[trigger] v[k]).0 != v[i].0,
    ensures
        entries_map(v).contains_key(v[i].0),
        entries_map(v)[v[i].0] == members_map(v[i].1),
    decreases v.len(),
{
    if i < v.len() - 1 {
        let rest = v.drop_last();
        assert forall|k: int| i < k < rest.len() implies (#[trigger] rest[k]).0 != rest[i].0 by {
            assert(v[k].0 != v[i].0);
        }
        lemma_last_entry(rest, i);
        assert(v[v.len() - 1].0 != v[i].0);
    }
}

proof fn lemma_last_member(v: Seq<(Seq<char>, Json)>, i: int)
    requires
        0 <= i < v.len(),
        forall|k: int| i < k < v.len() ==> (#[trigger] v[k]).0 != v[i].0,
    ensures
        members_map(v).contains_key(v[i].0),
        members_map(v)[v[i].0] == v[i].1,
    decreases v.len(),
{
    if i < v.len() - 1 {
        let rest = v.drop_last();
        assert forall|k: int| i < k < rest.len() implies (#[trigger] rest[k]).0 != rest[i].0 by {
            assert(v[k].0 != v[i].0);
        }
        lemma_last_member(rest, i);
        assert(v[v.len() - 1].0 != v[i].0);
    }
}

/// A made-up reference to a cache starts with the word for it and names the node; a made-up node
/// is named by its action.
pub proof fn made_up_names_tell_what_for(action: &str, id: String, node: &str, reference: String)
    requires
        call_ensures(generate_node_id, (action,), id),
        call_ensures(generate_cache_ref, (node,), reference),
    ensures
        exists|rest: Seq<char>| id@ == #[trigger] (action@ + "_"@ + rest),
        exists|rest: Seq<char>| reference@ == #[trigger] ("cache_"@ + node@ + "_"@ + rest),
{
    let a = choose|millis: i64| id@ == #[trigger] node_id_text(action@, millis as int);
    assert(id@ == action@ + "_"@ + signed_decimal(truncated_rem(a as int, 1_000_000)));
    let b = choose|millis: i64| reference@ == #[trigger] cache_ref_text(node@, millis as int);
    assert(reference@ == "cache_"@ + node@ + "_"@ + signed_decimal(b as int));
}

/// A global value that is missing is named, and so is a workflow without any.
pub proof fn missing_global_values_are_named(cache: &Cache, dag: &str, key: &str, r: Result<Value, DagError>)
    requires
        call_ensures(get_global_input, (cache, dag, key), r),
    ensures
        r matches Err(e) ==> (e matches DagError::InvalidState(s) && (s@ == "Key '"@ + key@
            + "' not found in global inputs for DAG '"@ + dag@ + "'"@ || s@ == "Global inputs not found for DAG '"@ + dag@ + "'"@)),
        cache@ == Map::<Seq<char>, Map<Seq<char>, Json>>::empty() ==> (r matches Err(DagError::InvalidState(s)) && s@
            == "Global inputs not found for DAG '"@ + dag@ + "'"@),
{
}

} // verus!
