//! JSON values.

use crate::string_map::{distinct_keys, has_key, key_index, lemma_entry, StringMap};
use crate::text::same;
use vstd::prelude::*;

verus! {

/// A JSON value.
#[derive(Debug)]
pub enum Value {
    /// `null`
    Null,
    /// `true` or `false`
    Bool(bool),
    /// A number, by its JSON text.
    Number(String),
    /// A string.
    String(String),
    /// An array.
    Array(Vec<Value>),
    /// An object: its members, keys not repeated.
    Object(Vec<(String, Value)>),
}

/// What a [`Value`] says.
#[verifier::ext_equal]
pub enum Json {
    Null,
    Bool(bool),
    Number(Seq<char>),
    String(Seq<char>),
    Array(Seq<Json>),
    Object(Seq<(Seq<char>, Json)>),
}

impl Value {
    /// What the value says.
    pub open spec fn json(&self) -> Json
        decreases self,
    {
        match self {
            Value::Null => Json::Null,
            Value::Bool(b) => Json::Bool(*b),
            Value::Number(t) => Json::Number(t@),
            Value::String(t) => Json::String(t@),
            Value::Array(items) => Json::Array(
                Seq::new(
                    items@.len(),
                    |i: int|
                        if 0 <= i < items@.len() {
                            items@[i].json()
                        } else {
                            Json::Null
                        },
                ),
            ),
            Value::Object(members) => Json::Object(
                Seq::new(
                    members@.len(),
                    |i: int|
                        if 0 <= i < members@.len() {
                            (members@[i].0@, members@[i].1.json())
                        } else {
                            (Seq::empty(), Json::Null)
                        },
                ),
            ),
        }
    }
}

impl View for Value {
    type V = Json;

    open spec fn view(&self) -> Json {
        self.json()
    }
}

impl Clone for Value {
    fn clone(&self) -> (r: Self)
        ensures
            r@ == self@,
        decreases self,
    {
        match self {
            Value::Null => Value::Null,
            Value::Bool(b) => Value::Bool(*b),
            Value::Number(t) => Value::Number(t.clone()),
            Value::String(t) => Value::String(t.clone()),
            Value::Array(items) => {
                let mut copy: Vec<Value> = Vec::new();
                let mut i: usize = 0;
                while i < items.len()
                    invariant
                        i <= items.len(),
                        copy.len() == i,
                        self matches Value::Array(v) && v == items,
                        forall|j: int| 0 <= j < i ==> (#[trigger] copy@[j])@ == items@[j]@,
                    decreases items.len() - i,
                {
                    assert(decreases_to!(*self => items@[i as int]));
                    let item = items[i].clone();
                    copy.push(item);
                    i = i + 1;
                }
                let r = Value::Array(copy);
                proof {
                    assert(r@->Array_0 =~= self@->Array_0);
                }
                r
            },
            Value::Object(members) => {
                let mut copy: Vec<(String, Value)> = Vec::new();
                let mut i: usize = 0;
                while i < members.len()
                    invariant
                        i <= members.len(),
                        copy.len() == i,
                        self matches Value::Object(v) && v == members,
                        forall|j: int|
                            0 <= j < i ==> (#[trigger] copy@[j]).0@ == members@[j].0@ && copy@[j].1@ == members@[j].1@,
                    decreases members.len() - i,
                {
                    assert(decreases_to!(*self => members@[i as int].1));
                    let key = members[i].0.clone();
                    let item = members[i].1.clone();
                    copy.push((key, item));
                    i = i + 1;
                }
                let r = Value::Object(copy);
                proof {
                    assert(r@->Object_0 =~= self@->Object_0);
                }
                r
            },
        }
    }
}

/// What the members of an object say.
pub open spec fn members_json(v: Seq<(String, Value)>) -> Seq<(Seq<char>, Json)> {
    Seq::new(v.len(), |i: int| (v[i].0@, v[i].1@))
}

/// An object.
pub fn object(members: Vec<(String, Value)>) -> (r: Value)
    ensures
        r@ == Json::Object(members_json(members@)),
{
    let r = Value::Object(members);
    proof {
        assert(r@->Object_0 =~= members_json(members@));
    }
    r
}

/// A string value.
pub fn string(s: &str) -> (r: Value)
    ensures
        r@ == Json::String(s@),
{
    Value::String(s.to_owned())
}

/// A truth value.
pub fn boolean(b: bool) -> (r: Value)
    ensures
        r@ == Json::Bool(b),
{
    Value::Bool(b)
}

/// The index of the first member with the key `key`.
pub open spec fn member_at(members: Seq<(Seq<char>, Json)>, key: Seq<char>, i: int) -> bool {
    &&& 0 <= i < members.len()
    &&& members[i].0 == key
    &&& forall|j: int| 0 <= j < i ==> (#[trigger] members[j]).0 != key
}

/// The member `key` of `v`, where `v` is an object that has one.
pub open spec fn member(v: Json, key: Seq<char>) -> Option<Json> {
    match v {
        Json::Object(members) => if exists|i: int| member_at(members, key, i) {
            Some(members[choose|i: int| member_at(members, key, i)].1)
        } else {
            None
        },
        _ => None,
    }
}

impl Value {
    /// The member `key`, where the value is an object that has one.
    pub fn get(&self, key: &str) -> (r: Option<&Value>)
        ensures
            r is Some <==> member(self@, key@) is Some,
            r matches Some(v) ==> member(self@, key@) == Some(v@),
    {
        match self {
            Value::Object(members) => {
                let ghost ms = self@->Object_0;
                let mut i: usize = 0;
                while i < members.len()
                    invariant
                        i <= members.len(),
                        self matches Value::Object(v) && v == members,
                        ms == self@->Object_0,
                        ms.len() == members@.len(),
                        forall|j: int| 0 <= j < i ==> (#[trigger] ms[j]).0 != key@,
                    decreases members.len() - i,
                {
                    if same(members[i].0.as_str(), key) {
                        proof {
                            assert(member_at(ms, key@, i as int));
                            let k = choose|k: int| member_at(ms, key@, k);
                            if k < i {
                                assert(ms[k].0 != key@);
                            } else if k > i {
                                assert(ms[i as int].0 == key@);
                            }
                        }
                        return Some(&members[i].1);
                    }
                    i = i + 1;
                }
                proof {
                    if exists|k: int| member_at(ms, key@, k) {
                        let k = choose|k: int| member_at(ms, key@, k);
                        assert(ms[k].0 == key@);
                    }
                }
                None
            },
            _ => None,
        }
    }

    /// Whether the value is `null`.
    pub fn is_null(&self) -> (r: bool)
        ensures
            r == (self@ is Null),
    {
        match self {
            Value::Null => true,
            _ => false,
        }
    }

    /// The text of a string value.
    pub fn as_str(&self) -> (r: Option<&str>)
        ensures
            r is Some <==> self@ is String,
            r matches Some(t) ==> self@ == Json::String(t@),
    {
        match self {
            Value::String(t) => Some(t.as_str()),
            _ => None,
        }
    }

    /// The items of an array value.
    pub fn as_array(&self) -> (r: Option<&Vec<Value>>)
        ensures
            r is Some <==> self@ is Array,
            r matches Some(items) ==> self@->Array_0.len() == items.len() && forall|i: int|
                0 <= i < items.len() ==> (#[trigger] items@[i])@ == self@->Array_0[i],
    {
        match self {
            Value::Array(items) => Some(items),
            _ => None,
        }
    }
}

/// The members of an object after `key` was set: a member of that key keeps its place.
pub open spec fn member_set(members: Seq<(Seq<char>, Json)>, key: Seq<char>, v: Json) -> Seq<(Seq<char>, Json)> {
    if exists|i: int| member_at(members, key, i) {
        members.update(choose|i: int| member_at(members, key, i), (key, v))
    } else {
        members.push((key, v))
    }
}

/// Sets the member `key`.
pub fn set_member(members: &mut Vec<(String, Value)>, key: &str, value: Value)
    ensures
        members_json(final(members)@) == member_set(members_json(old(members)@), key@, value@),
{
    let ghost before = members_json(members@);
    let mut i: usize = 0;
    while i < members.len()
        invariant
            i <= members@.len(),
            members@ == old(members)@,
            before == members_json(members@),
            forall|j: int| 0 <= j < i ==> (#[trigger] before[j]).0 != key@,
        decreases members.len() - i,
    {
        if same(members[i].0.as_str(), key) {
            proof {
                assert(before[i as int].0 == key@);
                assert(member_at(before, key@, i as int));
                let k = choose|k: int| member_at(before, key@, k);
                if k < i {
                    assert(before[k].0 != key@);
                } else if k > i {
                    assert(before[i as int].0 == key@);
                }
            }
            members[i] = (key.to_owned(), value);
            proof {
                assert(members_json(members@) =~= before.update(i as int, (key@, value@)));
            }
            return;
        }
        i = i + 1;
    }
    proof {
        if exists|k: int| member_at(before, key@, k) {
            let k = choose|k: int| member_at(before, key@, k);
            assert(before[k].0 == key@);
        }
    }
    members.push((key.to_owned(), value));
    proof {
        assert(members_json(members@) =~= before.push((key@, value@)));
    }
}

/// What was set is found, and the other members stay.
pub proof fn set_member_is_found(members: Seq<(Seq<char>, Json)>, key: Seq<char>, v: Json, other: Seq<char>)
    ensures
        member(Json::Object(member_set(members, key, v)), key) == Some(v),
        other != key ==> member(Json::Object(member_set(members, key, v)), other) == member(Json::Object(members), other),
{
    let after = member_set(members, key, v);
    if exists|i: int| member_at(members, key, i) {
        let i = choose|i: int| member_at(members, key, i);
        assert forall|j: int| 0 <= j < i implies (#[trigger] after[j]).0 != key by {
            assert(members[j].0 != key);
        }
        assert(member_at(after, key, i));
        lemma_first_member(after, key, i);
    } else {
        let n = members.len() as int;
        assert forall|j: int| 0 <= j < n implies (#[trigger] after[j]).0 != key by {
            assert(after[j] == members[j]);
            if members[j].0 == key {
                lemma_some_member(members, key, j);
            }
        }
        assert(member_at(after, key, n));
        lemma_first_member(after, key, n);
    }
    if other != key {
        if exists|i: int| member_at(members, other, i) {
            let i = choose|i: int| member_at(members, other, i);
            assert forall|j: int| 0 <= j < i implies (#[trigger] after[j]).0 != other by {
                assert(members[j].0 != other);
            }
            assert(after[i] == members[i]);
            assert(member_at(after, other, i));
            lemma_first_member(after, other, i);
            lemma_first_member(members, other, i);
        } else if exists|i: int| member_at(after, other, i) {
            let i = choose|i: int| member_at(after, other, i);
            assert(after[i].0 == other);
            assert(i < members.len() && members[i].0 == other);
            lemma_some_member(members, other, i);
        }
    }
}

proof fn lemma_first_member(members: Seq<(Seq<char>, Json)>, key: Seq<char>, i: int)
    requires
        member_at(members, key, i),
    ensures
        (choose|k: int| member_at(members, key, k)) == i,
{
    let k = choose|k: int| member_at(members, key, k);
    if k < i {
        assert(members[k].0 != key);
    } else if k > i {
        assert(members[i].0 != key);
    }
}

/// Where a member has the key, one is the first.
pub proof fn lemma_some_member(members: Seq<(Seq<char>, Json)>, key: Seq<char>, j: int)
    requires
        0 <= j < members.len(),
        members[j].0 == key,
    ensures
        exists|i: int| member_at(members, key, i),
    decreases j,
{
    if member_at(members, key, j) {
    } else {
        let k = choose|k: int| 0 <= k < j && (#[trigger] members[k]).0 == key;
        lemma_some_member(members, key, k);
    }
}

/// What the values of a map say.
pub open spec fn values_json(m: Map<Seq<char>, Value>) -> Map<Seq<char>, Json> {
    m.map_values(|v: Value| v@)
}

/// A copy of a map of values.
pub fn copy_values(m: &StringMap<Value>) -> (r: StringMap<Value>)
    ensures
        values_json(r@) == values_json(m@),
{
    let mut r: StringMap<Value> = StringMap::new();
    let n: usize = m.len();
    let ghost pairs = m.pairs();
    proof {
        use_type_invariant(m);
    }
    let mut i: usize = 0;
    while i < n
        invariant
            i <= n,
            n == pairs.len(),
            pairs == m.pairs(),
            distinct_keys(pairs),
            r.pairs().len() == i,
            forall|j: int|
                0 <= j < i ==> (#[trigger] r.pairs()[j]).0@ == pairs[j].0@ && r.pairs()[j].1@ == pairs[j].1@,
        decreases n - i,
    {
        let key = m.key_at(i).clone();
        let value = m.value_at(i).clone();
        proof {
            if has_key(r.pairs(), key@) {
                let j = key_index(r.pairs(), key@);
                assert(pairs[j].0@ == pairs[i as int].0@);
            }
        }
        r.insert(key, value);
        i = i + 1;
    }
    proof {
        use_type_invariant(&r);
        let a = values_json(r@);
        let b = values_json(m@);
        assert forall|k: Seq<char>| a.contains_key(k) <==> b.contains_key(k) by {
            if has_key(r.pairs(), k) {
                let j = key_index(r.pairs(), k);
                assert(pairs[j].0@ == k);
            }
            if has_key(pairs, k) {
                let j = key_index(pairs, k);
                assert(r.pairs()[j].0@ == k);
            }
        }
        assert forall|k: Seq<char>| a.contains_key(k) implies a[k] == b[k] by {
            let j = key_index(r.pairs(), k);
            lemma_entry(r.pairs(), j);
            lemma_entry(pairs, j);
        }
        assert(a =~= b);
    }
    r
}

/// A type whose values can be written as JSON and read back.
pub trait Convertible: Sized {
    /// The value as JSON.
    fn to_value(&self) -> Value;

    /// The value that JSON says, where it says one.
    fn from_value(value: &Value) -> Option<Self>;
}

/// The first member with a key is the one that is found.
pub proof fn first_member_is_found(members: Seq<(Seq<char>, Json)>, i: int)
    requires
        0 <= i < members.len(),
        forall|j: int| 0 <= j < i ==> (#[trigger] members[j]).0 != members[i].0,
    ensures
        member(Json::Object(members), members[i].0) == Some(members[i].1),
{
    assert(member_at(members, members[i].0, i));
    lemma_first_member(members, members[i].0, i);
}

/// A member is found exactly where the value is an object that has one with the key, and then
/// it is the first.
pub proof fn get_finds_the_first(v: &Value, key: &str, r: Option<&Value>)
    requires
        call_ensures(Value::get, (v, key), r),
    ensures
        r is Some <==> v@ is Object && exists|i: int| 0 <= i < v@->Object_0.len() && (#[trigger] v@->Object_0[i]).0 == key@,
        r matches Some(x) ==> exists|i: int|
            0 <= i < v@->Object_0.len() && (#[trigger] v@->Object_0[i]).0 == key@ && v@->Object_0[i].1 == x@ && forall|j: int|
                0 <= j < i ==> (#[trigger] v@->Object_0[j]).0 != key@,
{
    if v@ is Object {
        let members = v@->Object_0;
        if exists|i: int| 0 <= i < members.len() && (#[trigger] members[i]).0 == key@ {
            let i = choose|i: int| 0 <= i < members.len() && (#[trigger] members[i]).0 == key@;
            lemma_some_member(members, key@, i);
        }
        if exists|i: int| member_at(members, key@, i) {
            let i = choose|i: int| member_at(members, key@, i);
            assert(members[i].0 == key@);
        }
    }
}

/// A member that is set is there, in the place of one with its key or behind all others; the
/// others stay where they are.
pub proof fn member_is_set(members: &mut Vec<(String, Value)>, key: &str, value: Value, i: int)
    requires
        call_ensures(set_member, (members, key, value), ()),
    ensures
        (forall|j: int| 0 <= j < old(members)@.len() ==> (#[trigger] old(members)@[j]).0@ != key@) ==> final(members)@.len() == old(members)@.len() + 1 && final(members)@.last().0@ == key@ && final(members)@.last().1@ == value@,
        0 <= i < old(members)@.len() && old(members)@[i].0@ == key@ && (forall|j: int|
            0 <= j < i ==> (#[trigger] old(members)@[j]).0@ != key@) ==> final(members)@.len() == old(members)@.len()
            && final(members)@[i].0@ == key@ && final(members)@[i].1@ == value@,
        0 <= i < old(members)@.len() && old(members)@[i].0@ != key@ ==> final(members)@.len() > i && final(members)@[i].0@
            == old(members)@[i].0@ && final(members)@[i].1@ == old(members)@[i].1@,
{
    let before = members_json(old(members)@);
    let after = members_json(final(members)@);
    assert(after.len() == final(members)@.len());
    if forall|j: int| 0 <= j < old(members)@.len() ==> (#[trigger] old(members)@[j]).0@ != key@ {
        assert(!exists|k: int| member_at(before, key@, k)) by {
            if exists|k: int| member_at(before, key@, k) {
                let k = choose|k: int| member_at(before, key@, k);
                assert(old(members)@[k].0@ != key@);
            }
        }
        assert(after == before.push((key@, value@)));
        assert(after[before.len() as int] == (key@, value@));
    }
    if 0 <= i < old(members)@.len() && old(members)@[i].0@ == key@ && (forall|j: int|
        0 <= j < i ==> (#[trigger] old(members)@[j]).0@ != key@) {
        assert forall|j: int| 0 <= j < i implies (#[trigger] before[j]).0 != key@ by {
            assert(old(members)@[j].0@ != key@);
        }
        assert(member_at(before, key@, i));
        lemma_first_member(before, key@, i);
        assert(after[i] == (key@, value@));
    }
    if 0 <= i < old(members)@.len() && old(members)@[i].0@ != key@ {
        if exists|k: int| member_at(before, key@, k) {
            let k = choose|k: int| member_at(before, key@, k);
            assert(k != i);
        }
        assert(after[i] == before[i]);
    }
}

} // verus!
