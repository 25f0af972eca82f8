//! A cache of JSON values that keeps within limits and forgets what was not used for long.

use crate::dag_flow::cache::{appended, global_key};
use crate::dash_table::DashTable;
use crate::double::{Double, NINE_TENTHS, ONE, SEVEN_TENTHS, ZERO};
use crate::duration::nanos;
use crate::errors::DaggerError;
use crate::limits::{count_up, counted_up};
use crate::string_map::{as_map, lemma_entry};
use crate::sums::{
    lemma_stands, lemma_stands_for_itself, lemma_sum_empty, lemma_sum_insert, lemma_sum_remove, lemma_sum_rows, shift,
    shifted, stands_for, sum_of, sum_to,
};
use crate::text::{byte_count, byte_len, cat2, owned};
use crate::value::{Json, Value};
use std::time::Duration;
use vstd::prelude::*;

verus! {

/// How a cache behaves.
#[derive(Debug, Clone, Copy)]
pub struct CacheConfig {
    pub max_memory_bytes: usize,
    pub max_entries: usize,
    /// After how long without use an entry is forgotten.
    pub ttl: Duration,
    pub cleanup_interval: Duration,
    /// The share down to which entries are forgotten.
    pub low_water_mark: Double,
    /// The share from which on entries are forgotten.
    pub high_water_mark: Double,
}

impl Default for CacheConfig {
    fn default() -> (r: Self)
        ensures
            r.max_memory_bytes == 104_857_600,
            r.max_entries == 10_000,
            nanos(r.ttl) == 3_600_000_000_000,
            nanos(r.cleanup_interval) == 30_000_000_000,
            r.low_water_mark.bits == SEVEN_TENTHS,
            r.high_water_mark.bits == NINE_TENTHS,
            r.problem() is None,
    {
        CacheConfig {
            max_memory_bytes: 104_857_600,
            max_entries: 10_000,
            ttl: Duration::from_secs(3600),
            cleanup_interval: Duration::from_secs(30),
            low_water_mark: Double { bits: SEVEN_TENTHS },
            high_water_mark: Double { bits: NINE_TENTHS },
        }
    }
}

impl CacheConfig {
    /// What is wrong with the settings.
    pub open spec fn problem(&self) -> Option<Seq<char>> {
        if self.max_memory_bytes == 0 {
            Some("max_memory_bytes cannot be zero"@)
        } else if self.max_entries == 0 {
            Some("max_entries cannot be zero"@)
        } else if self.high_water_mark.at_most(self.low_water_mark) {
            Some("low_water_mark must be less than high_water_mark"@)
        } else if (Double { bits: ONE }).below(self.high_water_mark) || self.low_water_mark.below(Double { bits: ZERO }) {
            Some("water marks must be between 0.0 and 1.0"@)
        } else {
            None
        }
    }

    /// Checks the settings.
    pub fn validate(&self) -> (r: Result<(), DaggerError>)
        ensures
            r is Ok <==> self.problem() is None,
            r matches Err(e) ==> self.problem() is Some && e.is_configuration(self.problem()->0),
    {
        if self.max_memory_bytes == 0 {
            return Err(DaggerError::configuration("max_memory_bytes cannot be zero"));
        }
        if self.max_entries == 0 {
            return Err(DaggerError::configuration("max_entries cannot be zero"));
        }
        if self.high_water_mark.le(self.low_water_mark) {
            return Err(DaggerError::configuration("low_water_mark must be less than high_water_mark"));
        }
        if (Double { bits: ONE }).lt(self.high_water_mark) || self.low_water_mark.lt(Double { bits: ZERO }) {
            return Err(DaggerError::configuration("water marks must be between 0.0 and 1.0"));
        }
        Ok(())
    }
}

/// How much memory a JSON value is taken to need, in bytes.
pub open spec fn json_size(v: Json) -> nat
    decreases v, 0int,
{
    match v {
        Json::Null => 8,
        Json::Bool(_) => 8,
        Json::Number(_) => 16,
        Json::String(s) => byte_count(s) + 24,
        Json::Array(items) => items_size(items, items.len() as int) + 24,
        Json::Object(members) => members_size(members, members.len() as int) + 24,
    }
}

/// How much memory the first `n` items need.
pub open spec fn items_size(items: Seq<Json>, n: int) -> nat
    decreases items, n,
{
    if n <= 0 || n > items.len() {
        0
    } else {
        items_size(items, n - 1) + json_size(items[n - 1])
    }
}

/// How much memory the first `n` members need.
pub open spec fn members_size(members: Seq<(Seq<char>, Json)>, n: int) -> nat
    decreases members, n,
{
    if n <= 0 || n > members.len() {
        0
    } else {
        members_size(members, n - 1) + byte_count(members[n - 1].0) + json_size(members[n - 1].1)
    }
}

proof fn lemma_items_grow(items: Seq<Json>, m: int, n: int)
    requires
        0 <= m <= n <= items.len(),
    ensures
        items_size(items, m) <= items_size(items, n),
    decreases n,
{
    if m < n {
        lemma_items_grow(items, m, n - 1);
    }
}

proof fn lemma_members_grow(members: Seq<(Seq<char>, Json)>, m: int, n: int)
    requires
        0 <= m <= n <= members.len(),
    ensures
        members_size(members, m) <= members_size(members, n),
    decreases n,
{
    if m < n {
        lemma_members_grow(members, m, n - 1);
    }
}

fn value_size(v: &Value) -> (r: usize)
    requires
        json_size(v@) <= usize::MAX,
    ensures
        r == json_size(v@),
    decreases v,
{
    match v {
        Value::Null => 8,
        Value::Bool(_) => 8,
        Value::Number(_) => 16,
        Value::String(s) => byte_len(s.as_str()) + 24,
        Value::Array(items) => {
            let ghost all = v@->Array_0;
            let mut total: usize = 0;
            let mut i: usize = 0;
            while i < items.len()
                invariant
                    i <= items@.len(),
                    v matches Value::Array(x) && x == items,
                    all == v@->Array_0,
                    all.len() == items@.len(),
                    items_size(all, all.len() as int) + 24 <= usize::MAX,
                    total == items_size(all, i as int),
                decreases items.len() - i,
            {
                assert(decreases_to!(*v => items@[i as int]));
                proof {
                    assert(all[i as int] == items@[i as int]@);
                    lemma_items_grow(all, i + 1, all.len() as int);
                }
                total = total + value_size(&items[i]);
                i = i + 1;
            }
            total + 24
        },
        Value::Object(members) => {
            let ghost all = v@->Object_0;
            let mut total: usize = 0;
            let mut i: usize = 0;
            while i < members.len()
                invariant
                    i <= members@.len(),
                    v matches Value::Object(x) && x == members,
                    all == v@->Object_0,
                    all.len() == members@.len(),
                    members_size(all, all.len() as int) + 24 <= usize::MAX,
                    total == members_size(all, i as int),
                decreases members.len() - i,
            {
                assert(decreases_to!(*v => members@[i as int].1));
                proof {
                    assert(all[i as int] == (members@[i as int].0@, members@[i as int].1@));
                    lemma_members_grow(all, i + 1, all.len() as int);
                }
                total = total + byte_len(members[i].0.as_str()) + value_size(&members[i].1);
                i = i + 1;
            }
            total + 24
        },
    }
}

/// A JSON value of which the size is known.
#[derive(Debug)]
pub struct SerializableData {
    pub value: Value,
}

impl SerializableData {
    /// Wraps a value.
    pub fn new(value: Value) -> (r: Self)
        ensures
            r.value == value,
    {
        SerializableData { value }
    }

    /// How much memory the value is taken to need, in bytes.
    pub fn estimate_size(&self) -> (r: usize)
        requires
            json_size(self.value@) <= usize::MAX,
        ensures
            r == json_size(self.value@),
    {
        value_size(&self.value)
    }
}

/// What a cache has done so far.
#[derive(Debug, Clone, Copy, PartialEq, Eq, Structural)]
pub struct CacheStats {
    pub total_entries: usize,
    pub total_size_bytes: usize,
    pub hit_count: u64,
    pub miss_count: u64,
    pub eviction_count: u64,
    pub cleanup_count: u64,
}

/// Nothing was done.
pub open spec fn no_stats() -> CacheStats {
    CacheStats { total_entries: 0, total_size_bytes: 0, hit_count: 0, miss_count: 0, eviction_count: 0, cleanup_count: 0 }
}

impl CacheStats {
    /// Nothing was done.
    pub fn new() -> (r: Self)
        ensures
            r == no_stats(),
    {
        CacheStats { total_entries: 0, total_size_bytes: 0, hit_count: 0, miss_count: 0, eviction_count: 0, cleanup_count: 0 }
    }
}

/// The values of a node and how they were used. Times are in nanoseconds by a clock that
/// does not go back.
pub struct CacheEntry {
    data: DashTable<SerializableData>,
    created_at: u128,
    last_accessed: u128,
    access_count: u64,
    size_bytes: usize,
}

/// What a [`CacheEntry`] says.
#[verifier::ext_equal]
pub struct EntryView {
    pub values: Map<Seq<char>, Json>,
    pub created_at: u128,
    pub last_accessed: u128,
    pub access_count: u64,
    pub size: usize,
}

/// What a table of values says.
pub open spec fn values_json(t: DashTable<SerializableData>) -> Map<Seq<char>, Json> {
    t@.map_values(|d: SerializableData| d.value@)
}

impl View for CacheEntry {
    type V = EntryView;

    closed spec fn view(&self) -> EntryView {
        EntryView {
            values: values_json(self.data),
            created_at: self.created_at,
            last_accessed: self.last_accessed,
            access_count: self.access_count,
            size: self.size_bytes,
        }
    }
}

/// An entry without values, made at `now`.
pub open spec fn fresh_entry(now: u128) -> EntryView {
    EntryView { values: Map::empty(), created_at: now, last_accessed: now, access_count: 0, size: 0 }
}

/// An entry that was used at `now`.
pub open spec fn accessed(e: EntryView, now: u128) -> EntryView {
    EntryView { last_accessed: now, access_count: counted_up(e.access_count), ..e }
}

/// How much memory the value of `key` needs; 0 where there is none.
pub open spec fn key_size(e: EntryView, key: Seq<char>) -> nat {
    if e.values.contains_key(key) {
        json_size(e.values[key])
    } else {
        0
    }
}

/// An entry after `key` was set to `v`, by which it grew by `plus` and shrank by `minus`
/// bytes.
pub open spec fn with_key(e: EntryView, key: Seq<char>, v: Json, plus: usize, minus: usize) -> EntryView {
    EntryView { values: e.values.insert(key, v), size: shift(e.size, plus, minus), ..e }
}

/// How much memory each value needs.
pub open spec fn value_sizes(values: Map<Seq<char>, Json>) -> Map<Seq<char>, nat> {
    values.map_values(|v: Json| json_size(v))
}

/// Whether the size of an entry is that of its values, as far as a machine number holds it,
/// and each value has a size that does.
pub open spec fn sized(e: EntryView) -> bool {
    &&& e.values.dom().finite()
    &&& stands_for(e.size, sum_of(value_sizes(e.values)) as int)
    &&& forall|k: Seq<char>| #[trigger] e.values.contains_key(k) ==> json_size(e.values[k]) <= usize::MAX
}

/// Whether an entry was not used for longer than `ttl` nanoseconds.
pub open spec fn expired(e: EntryView, ttl: nat, now: u128) -> bool {
    now > e.last_accessed && now - e.last_accessed > ttl
}

proof fn lemma_with_key_sized(e: EntryView, key: Seq<char>, v: Json, plus: usize, minus: usize)
    requires
        sized(e),
        plus == json_size(v),
        minus == key_size(e, key),
        forall|b: int| stands_for(e.size, b) ==> #[trigger] stands_for(shift(e.size, plus, minus), b + plus - minus),
    ensures
        sized(with_key(e, key, v, plus, minus)),
{
    let before = value_sizes(e.values);
    let after = value_sizes(e.values.insert(key, v));
    assert(before.dom() =~= e.values.dom());
    assert(after =~= before.insert(key, json_size(v)));
    lemma_sum_insert(before, key, json_size(v));
    if e.values.contains_key(key) {
        lemma_sum_remove(before, key);
    }
    assert(stands_for(shift(e.size, plus, minus), sum_of(before) as int + plus - minus));
}

impl CacheEntry {
    fn new(now: u128) -> (r: Self)
        ensures
            r@ == fresh_entry(now),
            sized(r@),
    {
        let r = CacheEntry {
            data: DashTable::new(),
            created_at: now,
            last_accessed: now,
            access_count: 0,
            size_bytes: 0,
        };
        proof {
            assert(r@.values =~= Map::<Seq<char>, Json>::empty());
            assert(value_sizes(r@.values) =~= Map::<Seq<char>, nat>::empty());
            lemma_sum_empty(value_sizes(r@.values));
            lemma_stands(0);
        }
        r
    }

    fn access(&mut self, now: u128)
        requires
            sized(old(self)@),
        ensures
            final(self)@ == accessed(old(self)@, now),
            sized(final(self)@),
    {
        self.last_accessed = now;
        self.access_count = count_up(self.access_count);
    }

    fn size_of(&self, key: &str) -> (r: usize)
        requires
            sized(self@),
        ensures
            r == key_size(self@, key@),
    {
        match self.data.get(key) {
            Some(d) => {
                proof {
                    assert(self@.values.contains_key(key@));
                }
                d.estimate_size()
            },
            None => 0,
        }
    }

    fn set(&mut self, key: &str, data: SerializableData, plus: usize, minus: usize)
        requires
            sized(old(self)@),
            plus == json_size(data.value@),
            minus == key_size(old(self)@, key@),
        ensures
            final(self)@ == with_key(old(self)@, key@, data.value@, plus, minus),
            sized(final(self)@),
    {
        let ghost before = self@;
        let ghost v = data.value@;
        self.data.insert(owned(key), data);
        let size: usize = shifted(self.size_bytes, plus, minus);
        self.size_bytes = size;
        proof {
            assert(self@.values =~= before.values.insert(key@, v));
            lemma_with_key_sized(before, key@, v, plus, minus);
        }
    }
}

/// A cache.
pub struct Cache {
    data: DashTable<CacheEntry>,
    config: CacheConfig,
    stats: CacheStats,
}

/// What a [`Cache`] says.
#[verifier::ext_equal]
pub struct CacheView {
    pub entries: Map<Seq<char>, EntryView>,
    pub stats: CacheStats,
    pub config: CacheConfig,
}

/// What a table of entries says.
pub open spec fn entry_views(t: DashTable<CacheEntry>) -> Map<Seq<char>, EntryView> {
    t@.map_values(|e: CacheEntry| e@)
}

impl View for Cache {
    type V = CacheView;

    closed spec fn view(&self) -> CacheView {
        CacheView { entries: entry_views(self.data), stats: self.stats, config: self.config }
    }
}

/// The entry of a node, or a fresh one.
pub open spec fn entry_or_fresh(m: Map<Seq<char>, EntryView>, node: Seq<char>, now: u128) -> EntryView {
    if m.contains_key(node) {
        m[node]
    } else {
        fresh_entry(now)
    }
}

/// The entries after `key` of `node` was set at `now`.
pub open spec fn stored(m: Map<Seq<char>, EntryView>, node: Seq<char>, key: Seq<char>, v: Json, now: u128) -> Map<
    Seq<char>,
    EntryView,
> {
    let e = accessed(entry_or_fresh(m, node, now), now);
    m.insert(node, with_key(e, key, v, json_size(v) as usize, key_size(e, key) as usize))
}

/// The value of `key` of `node`.
pub open spec fn found(m: Map<Seq<char>, EntryView>, node: Seq<char>, key: Seq<char>) -> Option<Json> {
    if m.contains_key(node) && m[node].values.contains_key(key) {
        Some(m[node].values[key])
    } else {
        None
    }
}

/// How many bytes each entry is said to need.
pub open spec fn entry_sizes(m: Map<Seq<char>, EntryView>) -> Map<Seq<char>, nat> {
    m.map_values(|e: EntryView| e.size as nat)
}

/// What has to be done about the memory that a cache uses.
#[derive(Debug, Clone, Copy, PartialEq, Eq, Structural)]
pub enum Pressure {
    /// Nothing.
    Low,
    /// Entries have to go because of their size.
    Memory,
    /// Entries have to go because of their number.
    Entries,
}

/// `order` are the entries that were forgotten to free `target` bytes: each time the one that
/// was not used for the longest, until enough was freed or nothing was left.
pub open spec fn evicts(before: Map<Seq<char>, EntryView>, after: Map<Seq<char>, EntryView>, order: Seq<Seq<char>>, target: nat) -> bool {
    &&& forall|i: int| 0 <= i < order.len() ==> oldest_at(before, order, i)
    &&& forall|i: int| 0 <= i < order.len() ==> #[trigger] freed(before, order, i) < target
    &&& freed(before, order, order.len() as int) >= target || after == Map::<Seq<char>, EntryView>::empty()
    &&& after == without(before, order, order.len() as int)
}

/// The entries without the first `n` of `order`.
pub open spec fn without(m: Map<Seq<char>, EntryView>, order: Seq<Seq<char>>, n: int) -> Map<Seq<char>, EntryView>
    decreases n,
{
    if n <= 0 {
        m
    } else {
        without(m, order, n - 1).remove(order[n - 1])
    }
}

/// How many bytes the first `n` of `order` need.
pub open spec fn freed(m: Map<Seq<char>, EntryView>, order: Seq<Seq<char>>, n: int) -> nat
    decreases n,
{
    if n <= 0 {
        0
    } else {
        freed(m, order, n - 1) + m[order[n - 1]].size as nat
    }
}

/// Of the entries that were left, the one at `i` of `order` was not used for the longest.
#[verifier::opaque]
pub open spec fn oldest_at(m: Map<Seq<char>, EntryView>, order: Seq<Seq<char>>, i: int) -> bool {
    let left = without(m, order, i);
    &&& left.contains_key(order[i])
    &&& forall|k: Seq<char>| #[trigger] left.contains_key(k) ==> left[order[i]].last_accessed <= left[k].last_accessed
}

/// The entries that were used within `ttl` before `now`.
pub open spec fn fresh(m: Map<Seq<char>, EntryView>, ttl: nat, now: u128) -> Map<Seq<char>, EntryView> {
    m.remove_keys(Set::new(|k: Seq<char>| m.contains_key(k) && expired(m[k], ttl, now)))
}

/// What is counted after `evicted` entries were forgotten and `left` are left.
pub open spec fn noted(before: CacheStats, after: CacheStats, left: Map<Seq<char>, EntryView>, evicted: nat) -> bool {
    &&& after.eviction_count == (if before.eviction_count + evicted > u64::MAX {
        before.eviction_count + evicted - 0x1_0000_0000_0000_0000
    } else {
        before.eviction_count + evicted as int
    })
    &&& after.cleanup_count == counted_up(before.cleanup_count)
    &&& after.total_entries == left.dom().len()
    &&& stands_for(after.total_size_bytes, sum_of(entry_sizes(left)) as int)
    &&& after.hit_count == before.hit_count
    &&& after.miss_count == before.miss_count
}

/// How full a cache is: the parts of its memory and of its entries that are used, and how many
/// bytes are to be freed where the one or the other is too high.
#[derive(Debug, Clone, Copy)]
pub struct Fullness {
    pub memory_usage: Double,
    pub entry_usage: Double,
    pub memory_target: u128,
    pub entry_target: u128,
}

/// How many bytes are to be freed.
pub open spec fn to_free(high: Double, f: Fullness) -> nat {
    if high.below(f.memory_usage) {
        f.memory_target as nat
    } else if high.below(f.entry_usage) {
        f.entry_target as nat
    } else {
        0
    }
}

/// What a clean-up comes to: what was not used for too long is forgotten and then, where the
/// cache is too full, the entries of `order`.
pub open spec fn cleaned(before: CacheView, after: CacheView, now: u128, f: Fullness, order: Seq<Seq<char>>) -> bool {
    let kept = fresh(before.entries, nanos(before.config.ttl), now);
    &&& evicts(kept, after.entries, order, to_free(before.config.high_water_mark, f))
    &&& after.config == before.config
    &&& noted(before.stats, after.stats, after.entries, (before.entries.dom().len() - kept.dom().len() + order.len()) as nat)
}

impl Cache {
    /// Each entry has the size of its values.
    pub closed spec fn wf(&self) -> bool {
        forall|k: Seq<char>| #[trigger] self.data@.contains_key(k) ==> sized(self.data@[k]@)
    }

    /// A cache without entries, where the settings are in order.
    pub fn new(config: CacheConfig) -> (r: Result<Self, DaggerError>)
        ensures
            r is Ok <==> config.problem() is None,
            r matches Ok(c) ==> c.wf() && c@ == (CacheView { entries: Map::empty(), stats: no_stats(), config }),
            r matches Err(e) ==> config.problem() is Some && e.is_configuration(config.problem()->0),
    {
        match config.validate() {
            Ok(()) => {},
            Err(e) => {
                return Err(e);
            },
        }
        let c = Cache { data: DashTable::new(), config, stats: CacheStats::new() };
        proof {
            assert(c@.entries =~= Map::<Seq<char>, EntryView>::empty());
        }
        Ok(c)
    }

    fn take(&mut self, node_id: &str, now: u128) -> (r: CacheEntry)
        requires
            old(self).wf(),
        ensures
            r@ == entry_or_fresh(old(self)@.entries, node_id@, now),
            sized(r@),
            final(self).data@ == old(self).data@.remove(node_id@),
            final(self).config == old(self).config,
            final(self).stats == old(self).stats,
    {
        match self.data.remove(node_id) {
            Some(e) => {
                proof {
                    assert(old(self)@.entries.contains_key(node_id@));
                    assert(sized(old(self).data@[node_id@]@));
                }
                e
            },
            None => CacheEntry::new(now),
        }
    }

    fn put(&mut self, node_id: &str, entry: CacheEntry, Ghost(before): Ghost<Cache>)
        requires
            before.wf(),
            sized(entry@),
            old(self).data@ == before.data@.remove(node_id@),
        ensures
            final(self).wf(),
            final(self)@.entries == before@.entries.insert(node_id@, entry@),
            final(self).config == old(self).config,
            final(self).stats == old(self).stats,
    {
        self.data.insert(owned(node_id), entry);
        proof {
            assert(self.data@ =~= before.data@.insert(node_id@, entry));
            assert(self@.entries =~= before@.entries.insert(node_id@, entry@));
            assert forall|k: Seq<char>| #[trigger] self.data@.contains_key(k) implies sized(self.data@[k]@) by {
                if k != node_id@ {
                    assert(before.data@.contains_key(k));
                }
            }
        }
    }

    /// Stores a value under a node, where that keeps within the limits.
    pub fn insert_value(&mut self, node_id: &str, key: &str, value: Value, now: u128) -> (r: Result<(), DaggerError>)
        requires
            old(self).wf(),
            old(self)@.stats.total_size_bytes + json_size(value@) <= usize::MAX,
        ensures
            final(self).wf(),
            ({
                let s = old(self)@.stats;
                let c = old(self)@.config;
                let size = json_size(value@);
                &&& r is Ok <==> s.total_size_bytes + size <= c.max_memory_bytes && s.total_entries < c.max_entries
                &&& r matches Err(e) ==> final(self)@ == old(self)@ && if s.total_size_bytes + size > c.max_memory_bytes {
                    e.is_exhausted("cache_memory"@, s.total_size_bytes + size, c.max_memory_bytes as int)
                } else {
                    e.is_exhausted("cache_entries"@, s.total_entries as int, c.max_entries as int)
                }
                &&& r is Ok ==> {
                    let was = key_size(entry_or_fresh(old(self)@.entries, node_id@, now), key@);
                    let entries = stored(old(self)@.entries, node_id@, key@, value@, now);
                    final(self)@ == (CacheView {
                        entries,
                        stats: CacheStats {
                            total_size_bytes: shift(s.total_size_bytes, size as usize, was as usize),
                            total_entries: if was == 0 {
                                entries.dom().len() as usize
                            } else {
                                s.total_entries
                            },
                            ..s
                        },
                        ..old(self)@
                    })
                }
            }),
    {
        let data = SerializableData::new(value);
        let size: usize = data.estimate_size();
        let total: usize = self.stats.total_size_bytes + size;
        if total > self.config.max_memory_bytes {
            return Err(
                DaggerError::resource_exhausted("cache_memory", total as u64, self.config.max_memory_bytes as u64),
            );
        }
        if self.stats.total_entries >= self.config.max_entries {
            return Err(
                DaggerError::resource_exhausted(
                    "cache_entries",
                    self.stats.total_entries as u64,
                    self.config.max_entries as u64,
                ),
            );
        }
        let ghost before = *self;
        let mut entry = self.take(node_id, now);
        entry.access(now);
        let was: usize = entry.size_of(key);
        entry.set(key, data, size, was);
        self.put(node_id, entry, Ghost(before));
        let mut stats: CacheStats = self.stats;
        stats.total_size_bytes = shifted(stats.total_size_bytes, size, was);
        if was == 0 {
            stats.total_entries = self.data.len();
            proof {
                assert(self@.entries.dom() =~= self.data@.dom());
            }
        }
        self.stats = stats;
        Ok(())
    }

    /// The value of `key` of a node. It is counted whether there is one, and where there is,
    /// the node was used at `now`.
    pub fn get_value(&mut self, node_id: &str, key: &str, now: u128) -> (r: Option<Value>)
        requires
            old(self).wf(),
        ensures
            final(self).wf(),
            r is Some <==> found(old(self)@.entries, node_id@, key@) is Some,
            r matches Some(v) ==> found(old(self)@.entries, node_id@, key@) == Some(v@),
            final(self)@ == (CacheView {
                entries: if r is Some {
                    old(self)@.entries.insert(node_id@, accessed(old(self)@.entries[node_id@], now))
                } else {
                    old(self)@.entries
                },
                stats: if r is Some {
                    CacheStats { hit_count: counted_up(old(self)@.stats.hit_count), ..old(self)@.stats }
                } else {
                    CacheStats { miss_count: counted_up(old(self)@.stats.miss_count), ..old(self)@.stats }
                },
                ..old(self)@
            }),
    {
        let result: Option<Value> = match self.data.get(node_id) {
            Some(e) => {
                proof {
                    assert(self@.entries.contains_key(node_id@));
                    assert(self@.entries[node_id@] == e@);
                }
                match e.data.get(key) {
                    Some(d) => {
                        proof {
                            assert(e@.values.contains_key(key@));
                        }
                        Some(d.value.clone())
                    },
                    None => None,
                }
            },
            None => None,
        };
        let ghost before = *self;
        if result.is_some() {
            let mut entry = self.take(node_id, now);
            entry.access(now);
            self.put(node_id, entry, Ghost(before));
            self.stats.hit_count = count_up(self.stats.hit_count);
        } else {
            self.stats.miss_count = count_up(self.stats.miss_count);
        }
        result
    }

    /// Forgets a node and returns the size of its values.
    pub fn remove_node(&mut self, node_id: &str) -> (r: Option<usize>)
        requires
            old(self).wf(),
        ensures
            final(self).wf(),
            r is Some <==> old(self)@.entries.contains_key(node_id@),
            r is None ==> final(self)@ == old(self)@,
            r matches Some(size) ==> size == old(self)@.entries[node_id@].size && final(self)@ == (CacheView {
                entries: old(self)@.entries.remove(node_id@),
                stats: CacheStats {
                    total_size_bytes: if old(self)@.stats.total_size_bytes > size {
                        (old(self)@.stats.total_size_bytes - size) as usize
                    } else {
                        0
                    },
                    total_entries: old(self)@.entries.remove(node_id@).dom().len() as usize,
                    ..old(self)@.stats
                },
                ..old(self)@
            }),
    {
        match self.data.remove(node_id) {
            Some(entry) => {
                let size: usize = entry.size_bytes;
                let mut stats: CacheStats = self.stats;
                stats.total_size_bytes = if stats.total_size_bytes > size {
                    stats.total_size_bytes - size
                } else {
                    0
                };
                stats.total_entries = self.data.len();
                self.stats = stats;
                proof {
                    assert(old(self)@.entries.contains_key(node_id@));
                    assert(self@.entries =~= old(self)@.entries.remove(node_id@));
                    assert(self@.entries.dom() =~= self.data@.dom());
                    assert forall|k: Seq<char>| #[trigger] self.data@.contains_key(k) implies sized(self.data@[k]@) by {
                        assert(old(self).data@.contains_key(k));
                    }
                }
                Some(size)
            },
            None => {
                proof {
                    assert(self.data@ =~= old(self).data@);
                    assert(self@.entries =~= old(self)@.entries);
                    assert forall|k: Seq<char>| #[trigger] self.data@.contains_key(k) implies sized(self.data@[k]@) by {
                        assert(old(self).data@.contains_key(k));
                    }
                }
                None
            },
        }
    }

    /// Forgets everything.
    pub fn clear(&mut self)
        ensures
            final(self).wf(),
            final(self)@ == (CacheView { entries: Map::empty(), stats: no_stats(), config: old(self)@.config }),
    {
        self.data.clear();
        self.stats = CacheStats::new();
        proof {
            assert(self@.entries =~= Map::<Seq<char>, EntryView>::empty());
        }
    }

    /// What the cache has done so far.
    pub fn get_stats(&self) -> (r: CacheStats)
        ensures
            r == self@.stats,
    {
        self.stats
    }

    /// How many nodes have values.
    pub fn len(&self) -> (r: usize)
        ensures
            r == self@.entries.dom().len(),
    {
        proof {
            assert(self@.entries.dom() =~= self.data@.dom());
        }
        self.data.len()
    }

    /// Whether no node has values.
    pub fn is_empty(&self) -> (r: bool)
        ensures
            r == (self@.entries.dom().len() == 0),
    {
        self.len() == 0
    }

    /// How many bytes are said to be in use.
    pub fn get_memory_usage(&self) -> (r: usize)
        ensures
            r == self@.stats.total_size_bytes,
    {
        self.stats.total_size_bytes
    }

    /// The settings.
    pub fn get_config(&self) -> (r: &CacheConfig)
        ensures
            *r == self@.config,
    {
        &self.config
    }

    /// Appends a value to the array that a workflow keeps under `key`; a value that is no
    /// array becomes the first of one.
    pub fn append_global_value(&mut self, dag_name: &str, key: &str, value: Value, now: u128)
        requires
            old(self).wf(),
            json_size(appended(found(old(self)@.entries, global_key(dag_name@), key@), value@)) <= usize::MAX,
        ensures
            final(self).wf(),
            final(self)@ == (CacheView {
                entries: stored(
                    old(self)@.entries,
                    global_key(dag_name@),
                    key@,
                    appended(found(old(self)@.entries, global_key(dag_name@), key@), value@),
                    now,
                ),
                ..old(self)@
            }),
    {
        let node = cat2("global:", dag_name);
        let ghost before = *self;
        let mut entry = self.take(node.as_str(), now);
        entry.access(now);
        let was: usize = entry.size_of(key);
        let present: Option<Value> = match entry.data.get(key) {
            Some(d) => {
                proof {
                    assert(entry@.values.contains_key(key@));
                }
                Some(d.value.clone())
            },
            None => None,
        };
        let data = SerializableData::new(append(present, value));
        let size: usize = data.estimate_size();
        entry.set(key, data, size, was);
        self.put(node.as_str(), entry, Ghost(before));
    }

    /// What a workflow keeps under `key`. The values of the workflow were used at `now`.
    pub fn get_global_value(&mut self, dag_name: &str, key: &str, now: u128) -> (r: Option<Value>)
        requires
            old(self).wf(),
        ensures
            final(self).wf(),
            ({
                let node = global_key(dag_name@);
                let m = old(self)@.entries;
                &&& r is Some <==> found(m, node, key@) is Some
                &&& r matches Some(v) ==> found(m, node, key@) == Some(v@)
                &&& final(self)@ == (CacheView {
                    entries: if m.contains_key(node) {
                        m.insert(node, accessed(m[node], now))
                    } else {
                        m
                    },
                    ..old(self)@
                })
            }),
    {
        let node = cat2("global:", dag_name);
        if !self.data.contains_key(node.as_str()) {
            return None;
        }
        let ghost before = *self;
        proof {
            assert(self@.entries.contains_key(node@));
        }
        let mut entry = self.take(node.as_str(), now);
        entry.access(now);
        let r: Option<Value> = match entry.data.get(key) {
            Some(d) => {
                proof {
                    assert(entry@.values.contains_key(key@));
                }
                Some(d.value.clone())
            },
            None => None,
        };
        self.put(node.as_str(), entry, Ghost(before));
        r
    }

    fn total_size(&self) -> (r: usize)
        ensures
            self@.entries.dom().finite(),
            stands_for(r, sum_of(entry_sizes(self@.entries)) as int),
    {
        let n: usize = self.data.len();
        let ghost rows = self.data.pairs();
        let ghost f = |e: CacheEntry| e@.size as nat;
        let mut total: usize = 0;
        let mut i: usize = 0;
        proof {
            lemma_stands(0);
        }
        while i < n
            invariant
                i <= n,
                n == rows.len(),
                rows == self.data.pairs(),
                f == (|e: CacheEntry| e@.size as nat),
                stands_for(total, sum_to(rows, f, i as int) as int),
            decreases n - i,
        {
            let size: usize = self.data.value_at(i).size_bytes;
            total = shifted(total, size, 0);
            proof {
                assert(f(rows[i as int].1) == size as nat);
                assert(stands_for(total, sum_to(rows, f, i as int) as int + size - 0));
            }
            i = i + 1;
        }
        proof {
            lemma_sum_rows(rows, f);
            assert(self@.entries.dom() =~= self.data@.dom());
            assert(entry_sizes(self@.entries) =~= self.data@.map_values(f));
            assert(self.data@.map_values(f) == as_map(rows).map_values(f));
        }
        total
    }

    /// Forgets the entries that were not used for longer than the settings allow. Returns the
    /// size of all entries before that, and how many are forgotten.
    pub fn expire(&mut self, now: u128) -> (r: (usize, usize))
        requires
            old(self).wf(),
        ensures
            final(self).wf(),
            final(self)@.stats == old(self)@.stats,
            final(self)@.config == old(self)@.config,
            final(self)@.entries == fresh(old(self)@.entries, nanos(old(self)@.config.ttl), now),
            stands_for(r.0, sum_of(entry_sizes(old(self)@.entries)) as int),
            r.1 == old(self)@.entries.dom().len() - final(self)@.entries.dom().len(),
    {
        let total: usize = self.total_size();
        let count: usize = self.data.len();
        let ttl: u128 = self.config.ttl.as_nanos();
        let ghost m = self@.entries;
        let ghost gone = Set::new(|k: Seq<char>| m.contains_key(k) && expired(m[k], ttl as nat, now));
        let mut keys: Vec<String> = Vec::new();
        let mut i: usize = 0;
        let ghost rows = self.data.pairs();
        while i < count
            invariant
                i <= count,
                count == rows.len(),
                rows == self.data.pairs(),
                *self == *old(self),
                m == self@.entries,
                gone == Set::new(|k: Seq<char>| m.contains_key(k) && expired(m[k], ttl as nat, now)),
                forall|j: int| 0 <= j < keys@.len() ==> gone.contains((#[trigger] keys@[j])@),
                forall|j: int| 0 <= j < i && gone.contains((#[trigger] rows[j]).0@) ==> crate::text::holds_text(keys@, rows[j].0@),
            decreases count - i,
        {
            let entry = self.data.value_at(i);
            let key = self.data.key_at(i);
            let ghost before = keys@;
            proof {
                assert(m.contains_key(key@));
                assert(m[key@] == entry@);
            }
            if now > entry.last_accessed && now - entry.last_accessed > ttl {
                keys.push(key.clone());
                proof {
                    assert(gone.contains(key@));
                    assert(keys@[keys@.len() - 1]@ == key@);
                }
            }
            proof {
                assert forall|j: int| 0 <= j < i + 1 && gone.contains((#[trigger] rows[j]).0@) implies crate::text::holds_text(
                    keys@,
                    rows[j].0@,
                ) by {
                    if j < i {
                        let t = choose|t: int| 0 <= t < before.len() && (#[trigger] before[t])@ == rows[j].0@;
                        assert(keys@[t]@ == rows[j].0@);
                    }
                }
            }
            i = i + 1;
        }
        proof {
            assert forall|k: Seq<char>| #[trigger] gone.contains(k) implies crate::text::holds_text(keys@, k) by {
                assert(self.data@.contains_key(k));
                let j = crate::string_map::key_index(rows, k);
                assert(rows[j].0@ == k);
            }
        }
        let mut j: usize = 0;
        while j < keys.len()
            invariant
                j <= keys@.len(),
                self.wf(),
                self.config == old(self).config,
                self.stats == old(self).stats,
                forall|t: int| 0 <= t < keys@.len() ==> gone.contains((#[trigger] keys@[t])@),
                forall|k: Seq<char>| #[trigger]
                    self.data@.contains_key(k) <==> old(self).data@.contains_key(k) && !(exists|t: int|
                        0 <= t < j && (#[trigger] keys@[t])@ == k),
                forall|k: Seq<char>| #[trigger] self.data@.contains_key(k) ==> self.data@[k] == old(self).data@[k],
            decreases keys.len() - j,
        {
            let ghost before = self.data@;
            self.data.remove(keys[j].as_str());
            proof {
                assert forall|k: Seq<char>| #[trigger] self.data@.contains_key(k) <==> old(self).data@.contains_key(k) && !(
                exists|t: int| 0 <= t < j + 1 && (#[trigger] keys@[t])@ == k) by {
                    if self.data@.contains_key(k) {
                        assert(before.contains_key(k));
                        if exists|t: int| 0 <= t < j + 1 && (#[trigger] keys@[t])@ == k {
                            let t = choose|t: int| 0 <= t < j + 1 && (#[trigger] keys@[t])@ == k;
                            if t < j {
                                assert(keys@[t]@ == k);
                            }
                        }
                    } else if old(self).data@.contains_key(k) {
                        if before.contains_key(k) {
                            assert(keys@[j as int]@ == k);
                        } else {
                            let t = choose|t: int| 0 <= t < j && (#[trigger] keys@[t])@ == k;
                            assert(keys@[t]@ == k);
                        }
                    }
                }
                assert forall|k: Seq<char>| #[trigger] self.data@.contains_key(k) implies sized(self.data@[k]@) by {
                    assert(before.contains_key(k));
                }
            }
            j = j + 1;
        }
        let left: usize = self.data.len();
        proof {
            assert forall|k: Seq<char>| self@.entries.contains_key(k) <==> m.contains_key(k) && !gone.contains(k) by {
                assert(self@.entries.contains_key(k) == self.data@.contains_key(k));
                assert(m.contains_key(k) == old(self).data@.contains_key(k));
                if gone.contains(k) {
                    let t = choose|t: int| 0 <= t < keys@.len() && (#[trigger] keys@[t])@ == k;
                    assert(keys@[t]@ == k);
                }
                if exists|t: int| 0 <= t < j && (#[trigger] keys@[t])@ == k {
                    let t = choose|t: int| 0 <= t < j && (#[trigger] keys@[t])@ == k;
                    assert(gone.contains(keys@[t]@));
                }
            }
            assert(self@.entries =~= m.remove_keys(gone));
            assert(self@.entries.dom() =~= self.data@.dom());
            assert(m.dom() =~= old(self).data@.dom());
            assert(self@.entries.dom().subset_of(m.dom()));
            vstd::set_lib::lemma_len_subset(self@.entries.dom(), m.dom());
        }
        (total, count - left)
    }

    /// What has to be done, where these shares of the memory and of the entries are in use.
    pub fn pressure(&self, memory_usage: Double, entry_usage: Double) -> (r: Pressure)
        ensures
            r == (if self@.config.high_water_mark.below(memory_usage) {
                Pressure::Memory
            } else if self@.config.high_water_mark.below(entry_usage) {
                Pressure::Entries
            } else {
                Pressure::Low
            }),
    {
        if self.config.high_water_mark.lt(memory_usage) {
            Pressure::Memory
        } else if self.config.high_water_mark.lt(entry_usage) {
            Pressure::Entries
        } else {
            Pressure::Low
        }
    }

    fn oldest(&self) -> (r: Option<String>)
        ensures
            r is None <==> self@.entries == Map::<Seq<char>, EntryView>::empty(),
            r matches Some(key) ==> self@.entries.contains_key(key@) && forall|k: Seq<char>| #[trigger]
                self@.entries.contains_key(k) ==> self@.entries[key@].last_accessed <= self@.entries[k].last_accessed,
    {
        let n: usize = self.data.len();
        let ghost rows = self.data.pairs();
        if n == 0 {
            proof {
                assert(self@.entries =~= Map::<Seq<char>, EntryView>::empty()) by {
                    assert forall|k: Seq<char>| !self@.entries.contains_key(k) by {
                        if self.data@.contains_key(k) {
                            let j = crate::string_map::key_index(rows, k);
                            assert(rows[j].0@ == k);
                        }
                    }
                }
            }
            return None;
        }
        let mut best: usize = 0;
        let mut i: usize = 1;
        while i < n
            invariant
                best < i <= n,
                n == rows.len(),
                rows == self.data.pairs(),
                forall|j: int| 0 <= j < i ==> rows[best as int].1@.last_accessed <= (#[trigger] rows[j]).1@.last_accessed,
            decreases n - i,
        {
            if self.data.value_at(i).last_accessed < self.data.value_at(best).last_accessed {
                best = i;
            }
            i = i + 1;
        }
        let key = self.data.key_at(best);
        let entry = self.data.value_at(best);
        proof {
            assert(self@.entries.contains_key(key@));
            assert(self@.entries[key@] == entry@);
            assert forall|k: Seq<char>| #[trigger] self@.entries.contains_key(k) implies self@.entries[key@].last_accessed
                <= self@.entries[k].last_accessed by {
                assert(self.data@.contains_key(k));
                let j = crate::string_map::key_index(rows, k);
                assert(rows[j].0@ == k);
                lemma_entry(rows, j);
            }
        }
        Some(key.clone())
    }

    /// Forgets entries to free `target` bytes, those first that were not used for the longest.
    /// Returns how many are forgotten.
    pub fn evict(&mut self, target: u128) -> (r: usize)
        requires
            old(self).wf(),
        ensures
            final(self).wf(),
            final(self)@.stats == old(self)@.stats,
            final(self)@.config == old(self)@.config,
            exists|order: Seq<Seq<char>>| #[trigger]
                evicts(old(self)@.entries, final(self)@.entries, order, target as nat) && order.len() == r,
            r == old(self)@.entries.dom().len() - final(self)@.entries.dom().len(),
    {
        let ghost m = self@.entries;
        let ghost mut order: Seq<Seq<char>> = Seq::empty();
        let mut evicted: usize = 0;
        let mut need: u128 = target;
        let mut done: bool = false;
        let total: usize = self.data.len();
        proof {
            assert(self@.entries.dom() =~= self.data@.dom());
        }
        while need > 0 && !done
            invariant
                self.wf(),
                m == old(self)@.entries,
                self.config == old(self).config,
                self.stats == old(self).stats,
                order.len() == evicted,
                self@.entries.dom().finite(),
                evicted + self@.entries.dom().len() == total,
                self@.entries == without(m, order, order.len() as int),
                forall|i: int| 0 <= i < order.len() ==> oldest_at(m, order, i),
                forall|i: int| 0 <= i < order.len() ==> #[trigger] freed(m, order, i) < target,
                need == (if freed(m, order, order.len() as int) < target {
                    (target - freed(m, order, order.len() as int)) as int
                } else {
                    0
                }),
                done ==> self@.entries == Map::<Seq<char>, EntryView>::empty(),
                forall|k: Seq<char>| #[trigger] self@.entries.contains_key(k) ==> m.contains_key(k) && self@.entries[k] == m[k],
            decreases
                self@.entries.dom().len(),
                if done {
                    0int
                } else {
                    1int
                },
        {
            match self.oldest() {
                Some(key) => {
                    let ghost before = *self;
                    let ghost past = order;
                    let removed = self.data.remove(key.as_str());
                    let size: usize = match &removed {
                        Some(e) => e.size_bytes,
                        None => 0,
                    };
                    proof {
                        assert(before.data@.contains_key(key@));
                        order = order.push(key@);
                        lemma_order_push(m, past, key@);
                        assert(self@.entries =~= before@.entries.remove(key@));
                        assert(m[key@].size == size);
                        assert(order[past.len() as int] == key@);
                        assert(order.len() == past.len() + 1);
                        assert(without(m, order, past.len() as int) == without(m, past, past.len() as int));
                        assert(without(m, order, order.len() as int) == without(m, past, past.len() as int).remove(key@));
                        assert(freed(m, order, past.len() as int) == freed(m, past, past.len() as int));
                        assert(freed(m, order, order.len() as int) == freed(m, past, past.len() as int) + size);
                        assert(oldest_at(m, order, past.len() as int)) by {
                            reveal(oldest_at);
                        }
                        assert forall|i: int| 0 <= i < order.len() implies #[trigger] freed(m, order, i) < target by {
                            if i < past.len() {
                                assert(freed(m, past, i) < target);
                            }
                        }
                        assert forall|i: int| 0 <= i < order.len() implies oldest_at(m, order, i) by {
                            if i < past.len() {
                                assert(oldest_at(m, past, i));
                            }
                        }
                        assert(self.wf()) by {
                            assert forall|k: Seq<char>| #[trigger] self.data@.contains_key(k) implies sized(self.data@[k]@) by {
                                assert(before.data@.contains_key(k));
                            }
                        }
                        assert forall|k: Seq<char>| #[trigger] self@.entries.contains_key(k) implies m.contains_key(k)
                            && self@.entries[k] == m[k] by {
                            assert(before@.entries.contains_key(k));
                        }
                    }
                    need = if need > size as u128 {
                        need - size as u128
                    } else {
                        0
                    };
                    evicted = evicted + 1;
                },
                None => {
                    done = true;
                },
            }
        }
        proof {
            assert(evicts(m, self@.entries, order, target as nat));
        }
        evicted
    }

    /// Notes that entries were forgotten: how many, how many are left, and their size.
    pub fn record_cleanup(&mut self, evicted: u64)
        requires
            old(self).wf(),
        ensures
            final(self).wf(),
            final(self)@ == (CacheView { stats: final(self)@.stats, ..old(self)@ }),
            noted(old(self)@.stats, final(self)@.stats, old(self)@.entries, evicted as nat),
    {
        let mut stats: CacheStats = self.stats;
        stats.eviction_count = stats.eviction_count.wrapping_add(evicted);
        stats.cleanup_count = count_up(stats.cleanup_count);
        stats.total_entries = self.len();
        stats.total_size_bytes = self.total_size();
        self.stats = stats;
    }

    /// Forgets what was not used for longer than the settings allow and then, where the cache
    /// is too full, what was not used for the longest. `measure` says how full it is, by the
    /// size of all entries before and the number of entries that are left.
    pub fn cleanup_expired<F: Fn(usize, usize) -> Fullness>(&mut self, now: u128, measure: &F)
        requires
            old(self).wf(),
            forall|total: usize, left: usize| #[trigger] call_requires(*measure, (total, left)),
        ensures
            final(self).wf(),
            exists|total: usize, left: usize, f: Fullness, order: Seq<Seq<char>>|
                #![trigger call_ensures(*measure, (total, left), f), cleaned(old(self)@, final(self)@, now, f, order)]
                stands_for(total, sum_of(entry_sizes(old(self)@.entries)) as int) && left == fresh(
                    old(self)@.entries,
                    nanos(old(self)@.config.ttl),
                    now,
                ).dom().len() && call_ensures(*measure, (total, left), f) && cleaned(
                    old(self)@,
                    final(self)@,
                    now,
                    f,
                    order,
                ),
    {
        let ghost before = self@;
        let all: usize = self.len();
        let (total, _) = self.expire(now);
        let left: usize = self.len();
        let f = measure(total, left);
        let target: u128 = match self.pressure(f.memory_usage, f.entry_usage) {
            Pressure::Memory => f.memory_target,
            Pressure::Entries => f.entry_target,
            Pressure::Low => 0,
        };
        let ghost kept = self@.entries;
        let evicted: usize = self.evict(target);
        let ghost order = choose|order: Seq<Seq<char>>| #[trigger]
            evicts(kept, self@.entries, order, target as nat) && order.len() == evicted;
        let gone: usize = all - self.len();
        self.record_cleanup(gone as u64);
        proof {
            assert(call_ensures(*measure, (total, left), f));
            assert(cleaned(before, self@, now, f, order));
        }
    }

    /// The size of an entry is the sum of the sizes of its values, where a machine number
    /// holds it.
    pub fn entry_size(&self, node_id: &str) -> (r: Option<usize>)
        requires
            self.wf(),
        ensures
            r is Some <==> self@.entries.contains_key(node_id@),
            r matches Some(size) ==> size == self@.entries[node_id@].size && {
                let sum = sum_of(value_sizes(self@.entries[node_id@].values));
                sum <= usize::MAX ==> size == sum
            },
    {
        match self.data.get(node_id) {
            Some(e) => {
                proof {
                    assert(self@.entries.contains_key(node_id@));
                    assert(sized(self.data@[node_id@]@));
                    let sum = sum_of(value_sizes(e@.values));
                    if sum <= usize::MAX {
                        lemma_stands_for_itself(e@.size, sum as int);
                    }
                }
                Some(e.size_bytes)
            },
            None => None,
        }
    }
}

proof fn lemma_order_push(m: Map<Seq<char>, EntryView>, order: Seq<Seq<char>>, key: Seq<char>)
    ensures
        forall|n: int| n <= order.len() ==> #[trigger] without(m, order.push(key), n) == without(m, order, n),
        forall|n: int| n <= order.len() ==> #[trigger] freed(m, order.push(key), n) == freed(m, order, n),
        forall|i: int|
            0 <= i < order.len() ==> #[trigger] oldest_at(m, order.push(key), i) == oldest_at(m, order, i),
{
    assert forall|n: int| n <= order.len() implies #[trigger] without(m, order.push(key), n) == without(m, order, n) by {
        lemma_without_same(m, order, key, n);
    }
    assert forall|n: int| n <= order.len() implies #[trigger] freed(m, order.push(key), n) == freed(m, order, n) by {
        lemma_without_same(m, order, key, n);
    }
    assert forall|i: int| 0 <= i < order.len() implies #[trigger] oldest_at(m, order.push(key), i) == oldest_at(m, order, i) by {
        reveal(oldest_at);
        lemma_without_same(m, order, key, i);
        assert(order.push(key)[i] == order[i]);
    }
}

proof fn lemma_without_same(m: Map<Seq<char>, EntryView>, order: Seq<Seq<char>>, key: Seq<char>, n: int)
    requires
        n <= order.len(),
    ensures
        without(m, order.push(key), n) == without(m, order, n),
        freed(m, order.push(key), n) == freed(m, order, n),
    decreases n,
{
    if n > 0 {
        lemma_without_same(m, order, key, n - 1);
        assert(order.push(key)[n - 1] == order[n - 1]);
    }
}

fn append(present: Option<Value>, value: Value) -> (r: Value)
    ensures
        r@ == appended(
            match present {
                Some(v) => Some(v@),
                None => None,
            },
            value@,
        ),
{
    let ghost v = value@;
    match present {
        Some(Value::Array(items)) => {
            let ghost all = (Value::Array(items))@->Array_0;
            let mut items: Vec<Value> = items;
            items.push(value);
            let r = Value::Array(items);
            proof {
                assert(r@->Array_0 =~= all.push(v));
            }
            r
        },
        Some(other) => {
            let ghost o = other@;
            let mut items: Vec<Value> = Vec::new();
            items.push(other);
            items.push(value);
            let r = Value::Array(items);
            proof {
                assert(r@->Array_0 =~= seq![o, v]);
            }
            r
        },
        None => {
            let mut items: Vec<Value> = Vec::new();
            items.push(value);
            let r = Value::Array(items);
            proof {
                assert(r@->Array_0 =~= seq![v]);
            }
            r
        },
    }
}

/// What was stored is found.
pub proof fn stored_value_is_found(m: Map<Seq<char>, EntryView>, node: Seq<char>, key: Seq<char>, v: Json, now: u128)
    ensures
        found(stored(m, node, key, v, now), node, key) == Some(v),
{
}

/// Storing a value changes no other.
pub proof fn storing_is_local(
    m: Map<Seq<char>, EntryView>,
    node: Seq<char>,
    key: Seq<char>,
    v: Json,
    now: u128,
    other_node: Seq<char>,
    other_key: Seq<char>,
)
    requires
        other_node != node || other_key != key,
    ensures
        found(stored(m, node, key, v, now), other_node, other_key) == found(m, other_node, other_key),
{
}

/// A value that was stored is what is read next, with the time of the reading, and counts as a
/// hit; what is under another node or key is read as before.
pub proof fn stored_value_is_read_back(
    a: &mut Cache,
    node: &str,
    key: &str,
    value: Value,
    now: u128,
    r: Result<(), DaggerError>,
    b: &mut Cache,
    other_node: &str,
    other_key: &str,
    later: u128,
    s: Option<Value>,
    c: &mut Cache,
    t: Option<Value>,
)
    requires
        call_ensures(Cache::insert_value, (a, node, key, value, now), r),
        call_ensures(Cache::get_value, (b, other_node, other_key, later), s),
        call_ensures(Cache::get_value, (c, other_node, other_key, later), t),
        json_size(value@) <= usize::MAX,
    ensures
        *old(b) == *final(a) && r is Ok && other_node@ == node@ && other_key@ == key@ ==> (s matches Some(v) && v@ == value@)
            && final(b)@.entries[node@].last_accessed == later,
        *old(b) == *final(a) && *old(c) == *old(a) && r is Ok && !(other_node@ == node@ && other_key@ == key@) ==> (s is Some
            <==> t is Some) && (s is Some ==> s->0@ == t->0@),
        *old(b) == *final(a) && *old(c) == *old(a) && r is Err ==> (s is Some <==> t is Some) && (s is Some ==> s->0@
            == t->0@),
        s is Some && old(b)@.stats.hit_count < u64::MAX ==> final(b)@.stats.hit_count == old(b)@.stats.hit_count + 1
            && final(b)@.stats.miss_count == old(b)@.stats.miss_count,
        s is None && old(b)@.stats.miss_count < u64::MAX ==> final(b)@.stats.miss_count == old(b)@.stats.miss_count + 1
            && final(b)@.stats.hit_count == old(b)@.stats.hit_count && final(b)@.entries == old(b)@.entries,
        s is Some <==> old(b)@.entries.contains_key(other_node@) && old(b)@.entries[other_node@].values.contains_key(other_key@),
        s matches Some(v) ==> v@ == old(b)@.entries[other_node@].values[other_key@],
{
}

/// A value is stored exactly where there is memory and room for it, and the cache counts its
/// bytes; where not, what is used up is named and nothing changes.
pub proof fn storing_keeps_within_limits(c: &mut Cache, node: &str, key: &str, value: Value, now: u128, r: Result<(), DaggerError>)
    requires
        call_ensures(Cache::insert_value, (c, node, key, value, now), r),
        json_size(value@) <= usize::MAX,
    ensures
        old(c)@.stats.total_size_bytes + json_size(value@) > old(c)@.config.max_memory_bytes ==> (r matches Err(
            DaggerError::ResourceExhaustion { resource, current, limit, .. },
        ) && resource@ == "cache_memory"@ && current == old(c)@.stats.total_size_bytes + json_size(value@) && limit == old(c)@.config.max_memory_bytes),
        old(c)@.stats.total_size_bytes + json_size(value@) <= old(c)@.config.max_memory_bytes && old(c)@.stats.total_entries >= old(c)@.config.max_entries ==> (r matches Err(DaggerError::ResourceExhaustion { resource, current, limit, .. }) && resource@
            == "cache_entries"@ && current == old(c)@.stats.total_entries && limit == old(c)@.config.max_entries),
        old(c)@.stats.total_size_bytes + json_size(value@) <= old(c)@.config.max_memory_bytes && old(c)@.stats.total_entries < old(c)@.config.max_entries ==> r is Ok,
        r is Err ==> final(c)@ == old(c)@,
        r is Ok && !old(c)@.entries.contains_key(node@) ==> final(c)@.stats.total_size_bytes == old(c)@.stats.total_size_bytes
            + json_size(value@) && final(c)@.entries[node@].size == json_size(value@) && final(c)@.entries[node@].created_at
            == now && final(c)@.entries[node@].last_accessed == now && final(c)@.entries[node@].access_count == 1,
        r is Ok && old(c)@.entries.contains_key(node@) && old(c)@.entries[node@].access_count < u64::MAX ==> final(c)@.entries[node@].last_accessed == now && final(c)@.entries[node@].access_count == old(c)@.entries[node@].access_count + 1 && final(c)@.entries[node@].created_at == old(c)@.entries[node@].created_at,
        r is Ok ==> final(c)@.config == old(c)@.config && final(c)@.stats.hit_count == old(c)@.stats.hit_count && final(c)@.stats.miss_count == old(c)@.stats.miss_count && final(c)@.stats.eviction_count == old(c)@.stats.eviction_count,
        r is Ok ==> forall|k: Seq<char>|
            k != node@ ==> (#[trigger] final(c)@.entries.contains_key(k) <==> old(c)@.entries.contains_key(k)) && final(c)@.entries[k] == old(c)@.entries[k],
{
}

/// How much memory values are taken to need: 8 bytes for nothing or a truth value, 16 for a
/// number, 24 and the bytes of its characters for a text, and 24 and what its parts need for an
/// array or an object.
pub proof fn sizes_of_values(text: Seq<char>, number: Seq<char>, items: Seq<Json>, members: Seq<(Seq<char>, Json)>, item: Json)
    ensures
        json_size(Json::Null) == 8,
        json_size(Json::Bool(true)) == 8 && json_size(Json::Bool(false)) == 8,
        json_size(Json::Number(number)) == 16,
        json_size(Json::String(text)) == 24 + byte_count(text),
        json_size(Json::Array(Seq::empty())) == 24,
        json_size(Json::Array(items.push(item))) == json_size(Json::Array(items)) + json_size(item),
        json_size(Json::Object(Seq::empty())) == 24,
        json_size(Json::Object(members.push((text, item)))) == json_size(Json::Object(members)) + byte_count(text) + json_size(item),
{
    lemma_items_prefix(items, items.push(item), items.len() as int);
    lemma_members_prefix(members, members.push((text, item)), members.len() as int);
}

proof fn lemma_items_prefix(items: Seq<Json>, all: Seq<Json>, n: int)
    requires
        n <= items.len() <= all.len(),
        forall|i: int| 0 <= i < items.len() ==> items[i] == all[i],
    ensures
        items_size(items, n) == items_size(all, n),
    decreases n,
{
    if n > 0 {
        lemma_items_prefix(items, all, n - 1);
    }
}

proof fn lemma_members_prefix(members: Seq<(Seq<char>, Json)>, all: Seq<(Seq<char>, Json)>, n: int)
    requires
        n <= members.len() <= all.len(),
        forall|i: int| 0 <= i < members.len() ==> members[i] == all[i],
    ensures
        members_size(members, n) == members_size(all, n),
    decreases n,
{
    if n > 0 {
        lemma_members_prefix(members, all, n - 1);
    }
}

/// What was used within the time that the settings give stays as it is, and all else goes.
pub proof fn only_unused_entries_expire(c: &mut Cache, now: u128, r: (usize, usize), k: Seq<char>)
    requires
        call_ensures(Cache::expire, (c, now), r),
    ensures
        final(c)@.entries.contains_key(k) <==> old(c)@.entries.contains_key(k) && now - old(c)@.entries[k].last_accessed <= nanos(
            old(c)@.config.ttl,
        ),
        final(c)@.entries.contains_key(k) ==> final(c)@.entries[k] == old(c)@.entries[k],
        r.1 == old(c)@.entries.dom().len() - final(c)@.entries.dom().len(),
{
}

proof fn lemma_left(m: Map<Seq<char>, EntryView>, order: Seq<Seq<char>>, i: int, n: int, k: Seq<char>)
    requires
        0 <= i <= n,
    ensures
        without(m, order, n).contains_key(k) ==> without(m, order, i).contains_key(k) && without(m, order, i)[k] == without(
            m,
            order,
            n,
        )[k],
    decreases n,
{
    if i < n {
        lemma_left(m, order, i, n - 1, k);
    }
}

proof fn lemma_gone(m: Map<Seq<char>, EntryView>, order: Seq<Seq<char>>, n: int, k: Seq<char>) -> (i: int)
    requires
        n >= 0,
        m.contains_key(k),
        !without(m, order, n).contains_key(k),
    ensures
        0 <= i < n,
        order[i] == k,
        without(m, order, i).contains_key(k),
        without(m, order, i)[k] == m[k],
    decreases n,
{
    if without(m, order, n - 1).contains_key(k) {
        lemma_left(m, order, 0, n - 1, k);
        n - 1
    } else {
        lemma_gone(m, order, n - 1, k)
    }
}

proof fn lemma_freed_sum(m: Map<Seq<char>, EntryView>, order: Seq<Seq<char>>, n: int)
    requires
        0 <= n <= order.len(),
        m.dom().finite(),
        forall|i: int| 0 <= i < order.len() ==> oldest_at(m, order, i),
    ensures
        without(m, order, n).dom().finite(),
        freed(m, order, n) + sum_of(entry_sizes(without(m, order, n))) == sum_of(entry_sizes(m)),
    decreases n,
{
    if n > 0 {
        lemma_freed_sum(m, order, n - 1);
        let left = without(m, order, n - 1);
        let k = order[n - 1];
        assert(oldest_at(m, order, n - 1));
        reveal(oldest_at);
        lemma_left(m, order, 0, n - 1, k);
        assert(entry_sizes(left).dom() =~= left.dom());
        lemma_sum_remove(entry_sizes(left), k);
        assert(entry_sizes(left).remove(k) =~= entry_sizes(left.remove(k)));
    }
}

/// Of two entries of which one goes and one stays, the one that goes was not used for at least
/// as long; what stays is unchanged; enough goes, or everything, and nothing where nothing is
/// to be freed.
pub proof fn longest_unused_go_first(c: &mut Cache, target: u128, r: usize, goes: Seq<char>, stays: Seq<char>)
    requires
        call_ensures(Cache::evict, (c, target), r),
        old(c)@.entries.dom().finite(),
    ensures
        old(c)@.entries.contains_key(goes) && !final(c)@.entries.contains_key(goes) && final(c)@.entries.contains_key(stays)
            ==> old(c)@.entries[goes].last_accessed <= old(c)@.entries[stays].last_accessed,
        final(c)@.entries.contains_key(stays) ==> old(c)@.entries.contains_key(stays) && final(c)@.entries[stays] == old(c)@.entries[stays],
        sum_of(entry_sizes(old(c)@.entries)) - sum_of(entry_sizes(final(c)@.entries)) >= target || final(c)@.entries.dom()
            =~= Set::<Seq<char>>::empty(),
        target == 0 ==> final(c)@.entries == old(c)@.entries && r == 0,
        r == old(c)@.entries.dom().len() - final(c)@.entries.dom().len(),
{
    let m = old(c)@.entries;
    let after = final(c)@.entries;
    let order = choose|order: Seq<Seq<char>>| #[trigger] evicts(m, after, order, target as nat) && order.len() == r;
    let n = order.len() as int;
    lemma_left(m, order, 0, n, stays);
    lemma_freed_sum(m, order, n);
    if m.contains_key(goes) && !after.contains_key(goes) && after.contains_key(stays) {
        let i = lemma_gone(m, order, n, goes);
        lemma_left(m, order, i, n, stays);
        assert(oldest_at(m, order, i));
        reveal(oldest_at);
    }
    if target == 0 && n > 0 {
        assert(freed(m, order, 0) < target);
    }
}

/// No more goes than has to: but for the last, what went was not enough.
pub proof fn no_more_goes_than_needed(c: &mut Cache, target: u128, r: usize)
    requires
        call_ensures(Cache::evict, (c, target), r),
        old(c)@.entries.dom().finite(),
        r > 0,
    ensures
        exists|last: Seq<char>| #[trigger]
            old(c)@.entries.contains_key(last) && !final(c)@.entries.contains_key(last) && sum_of(entry_sizes(old(c)@.entries))
                - sum_of(entry_sizes(final(c)@.entries)) - old(c)@.entries[last].size < target,
{
    let m = old(c)@.entries;
    let after = final(c)@.entries;
    let order = choose|order: Seq<Seq<char>>| #[trigger] evicts(m, after, order, target as nat) && order.len() == r;
    let n = order.len() as int;
    let last = order[n - 1];
    lemma_freed_sum(m, order, n);
    assert(freed(m, order, n - 1) < target);
    assert(oldest_at(m, order, n - 1));
    reveal(oldest_at);
    lemma_left(m, order, 0, n - 1, last);
    assert(m.contains_key(last));
}

/// A clean-up leaves nothing that was not used for too long and changes nothing that it leaves;
/// where the cache is not too full, it leaves all the rest.
pub proof fn clean_up_forgets_what_is_unused<F: Fn(usize, usize) -> Fullness>(c: &mut Cache, now: u128, measure: &F, k: Seq<char>)
    requires
        call_ensures(Cache::cleanup_expired::<F>, (c, now, measure), ()),
    ensures
        final(c)@.entries.contains_key(k) ==> old(c)@.entries.contains_key(k) && now - old(c)@.entries[k].last_accessed <= nanos(
            old(c)@.config.ttl,
        ) && final(c)@.entries[k] == old(c)@.entries[k],
        (forall|total: usize, left: usize, f: Fullness| #[trigger]
            call_ensures(*measure, (total, left), f) ==> !old(c)@.config.high_water_mark.below(f.memory_usage) && !old(c)@.config.high_water_mark.below(f.entry_usage)) ==> (final(c)@.entries.contains_key(k) <==> old(c)@.entries.contains_key(k) && now - old(c)@.entries[k].last_accessed <= nanos(old(c)@.config.ttl)),
        final(c)@.stats.total_entries == final(c)@.entries.dom().len(),
        old(c)@.stats.cleanup_count < u64::MAX ==> final(c)@.stats.cleanup_count == old(c)@.stats.cleanup_count + 1,
        final(c)@.config == old(c)@.config,
{
    let (total, left, f, order) = choose|total: usize, left: usize, f: Fullness, order: Seq<Seq<char>>|
        #![trigger call_ensures(*measure, (total, left), f), cleaned(old(c)@, final(c)@, now, f, order)]
        stands_for(total, sum_of(entry_sizes(old(c)@.entries)) as int) && left == fresh(
            old(c)@.entries,
            nanos(old(c)@.config.ttl),
            now,
        ).dom().len() && call_ensures(*measure, (total, left), f) && cleaned(old(c)@, final(c)@, now, f, order);
    let kept = fresh(old(c)@.entries, nanos(old(c)@.config.ttl), now);
    lemma_left(kept, order, 0, order.len() as int, k);
    if forall|total: usize, left: usize, f: Fullness| #[trigger]
        call_ensures(*measure, (total, left), f) ==> !old(c)@.config.high_water_mark.below(f.memory_usage) && !old(c)@.config.high_water_mark.below(f.entry_usage) {
        assert(to_free(old(c)@.config.high_water_mark, f) == 0);
        if order.len() > 0 {
            assert(freed(kept, order, 0) < 0);
        }
    }
}

/// Entries have to go where memory or entries are used beyond the mark, because of memory first.
pub proof fn pressure_is_over_the_mark(c: &Cache, memory: Double, entries: Double, r: Pressure)
    requires
        call_ensures(Cache::pressure, (c, memory, entries), r),
    ensures
        c@.config.high_water_mark.below(memory) ==> r == Pressure::Memory,
        !c@.config.high_water_mark.below(memory) && c@.config.high_water_mark.below(entries) ==> r == Pressure::Entries,
        !c@.config.high_water_mark.below(memory) && !c@.config.high_water_mark.below(entries) ==> r == Pressure::Low,
{
}

/// A node that was forgotten is gone with all its values, and its bytes no longer count; other
/// nodes stay.
pub proof fn forgotten_node_is_gone(c: &mut Cache, node: &str, r: Option<usize>, k: Seq<char>)
    requires
        call_ensures(Cache::remove_node, (c, node), r),
    ensures
        !final(c)@.entries.contains_key(node@),
        k != node@ ==> (final(c)@.entries.contains_key(k) <==> old(c)@.entries.contains_key(k)) && final(c)@.entries[k] == old(c)@.entries[k],
        r is Some <==> old(c)@.entries.contains_key(node@),
        r matches Some(size) ==> size == old(c)@.entries[node@].size && (size <= old(c)@.stats.total_size_bytes ==> final(c)@.stats.total_size_bytes == old(c)@.stats.total_size_bytes - size),
        final(c)@.stats.hit_count == old(c)@.stats.hit_count && final(c)@.stats.miss_count == old(c)@.stats.miss_count,
{
}

/// What is appended under a key of a workflow is the last item of what is read there: alone
/// where there was nothing, behind the items that were there, or behind the single value.
pub proof fn appended_value_is_read_last(
    a: &mut Cache,
    dag: &str,
    key: &str,
    value: Value,
    now: u128,
    b: &mut Cache,
    later: u128,
    r: Option<Value>,
)
    requires
        call_ensures(Cache::append_global_value, (a, dag, key, value, now), ()),
        call_ensures(Cache::get_global_value, (b, dag, key, later), r),
    ensures
        *old(b) == *final(a) ==> {
            let node = "global:"@ + dag@;
            let m = old(a)@.entries;
            &&& r matches Some(v) && v@ is Array && v@->Array_0.len() > 0 && v@->Array_0.last() == value@
            &&& !(m.contains_key(node) && m[node].values.contains_key(key@)) ==> r->0@->Array_0 == seq![value@]
            &&& m.contains_key(node) && m[node].values.contains_key(key@) && m[node].values[key@] is Array
                ==> r->0@->Array_0.drop_last() == m[node].values[key@]->Array_0
            &&& m.contains_key(node) && m[node].values.contains_key(key@) && !(m[node].values[key@] is Array)
                ==> r->0@->Array_0 == seq![m[node].values[key@], value@]
        },
{
    let node = global_key(dag@);
    let m = old(a)@.entries;
    if *old(b) == *final(a) {
        let next = appended(found(m, node, key@), value@);
        assert(found(final(a)@.entries, node, key@) == Some(next));
        if m.contains_key(node) && m[node].values.contains_key(key@) && m[node].values[key@] is Array {
            assert(m[node].values[key@]->Array_0.push(value@).drop_last() =~= m[node].values[key@]->Array_0);
        }
    }
}

/// Settings are accepted exactly where there may be memory and entries, and the lower mark lies
/// below the upper, both from 0 to 1.
pub proof fn cache_settings_are_checked(c: &CacheConfig, r: Result<(), DaggerError>, made: Result<Cache, DaggerError>)
    requires
        call_ensures(CacheConfig::validate, (c,), r),
        call_ensures(Cache::new, (*c,), made),
    ensures
        r is Ok <==> c.max_memory_bytes > 0 && c.max_entries > 0 && !c.high_water_mark.at_most(c.low_water_mark) && !(Double {
            bits: ONE,
        }).below(c.high_water_mark) && !c.low_water_mark.below(Double { bits: ZERO }),
        made is Ok <==> r is Ok,
        made matches Ok(x) ==> x@.config == c && x@.entries == Map::<Seq<char>, EntryView>::empty() && x@.stats.total_entries == 0
            && x@.stats.total_size_bytes == 0 && x@.stats.hit_count == 0 && x@.stats.miss_count == 0
            && x@.stats.eviction_count == 0 && x@.stats.cleanup_count == 0,
        c.max_memory_bytes == 0 ==> (r matches Err(DaggerError::Configuration { message, .. }) && message@
            == "max_memory_bytes cannot be zero"@),
        c.max_memory_bytes > 0 && c.max_entries == 0 ==> (r matches Err(DaggerError::Configuration { message, .. }) && message@
            == "max_entries cannot be zero"@),
{
}

/// Water marks that cross, or that are no shares, are named as what is wrong.
pub proof fn water_marks_are_checked(c: &CacheConfig, r: Result<(), DaggerError>)
    requires
        call_ensures(CacheConfig::validate, (c,), r),
        c.max_memory_bytes > 0,
        c.max_entries > 0,
    ensures
        c.high_water_mark.at_most(c.low_water_mark) ==> (r matches Err(DaggerError::Configuration { message, .. }) && message@
            == "low_water_mark must be less than high_water_mark"@),
        !c.high_water_mark.at_most(c.low_water_mark) && ((Double { bits: ONE }).below(c.high_water_mark)
            || c.low_water_mark.below(Double { bits: ZERO })) ==> (r matches Err(DaggerError::Configuration { message, .. })
            && message@ == "water marks must be between 0.0 and 1.0"@),
{
}

/// A cache that was cleared holds nothing and has counted nothing; its settings stay.
pub proof fn cleared_cache_is_empty(c: &mut Cache)
    requires
        call_ensures(Cache::clear, (c,), ()),
    ensures
        final(c)@.entries == Map::<Seq<char>, EntryView>::empty(),
        final(c)@.stats.total_entries == 0 && final(c)@.stats.total_size_bytes == 0 && final(c)@.stats.hit_count == 0
            && final(c)@.stats.miss_count == 0 && final(c)@.stats.eviction_count == 0 && final(c)@.stats.cleanup_count == 0,
        final(c)@.config == old(c)@.config,
{
}

/// A clean-up is counted, with as many evictions as there were; what is cached stays.
pub proof fn clean_ups_are_counted(c: &mut Cache, evicted: u64)
    requires
        call_ensures(Cache::record_cleanup, (c, evicted), ()),
    ensures
        final(c)@.entries == old(c)@.entries && final(c)@.config == old(c)@.config,
        old(c)@.stats.eviction_count + evicted <= u64::MAX ==> final(c)@.stats.eviction_count == old(c)@.stats.eviction_count
            + evicted,
        old(c)@.stats.cleanup_count < u64::MAX ==> final(c)@.stats.cleanup_count == old(c)@.stats.cleanup_count + 1,
        final(c)@.stats.total_entries == old(c)@.entries.dom().len(),
        final(c)@.stats.hit_count == old(c)@.stats.hit_count && final(c)@.stats.miss_count == old(c)@.stats.miss_count,
{
}

/// What holds of a cache unless told otherwise.
pub proof fn usual_cache_settings(c: CacheConfig)
    requires
        call_ensures(CacheConfig::default, (), c),
    ensures
        c.max_memory_bytes == 100 * 1024 * 1024 && c.max_entries == 10_000,
        nanos(c.ttl) == 3_600_000_000_000 && nanos(c.cleanup_interval) == 30_000_000_000,
        c.low_water_mark.bits == SEVEN_TENTHS && c.high_water_mark.bits == NINE_TENTHS,
{
}

} // verus!
