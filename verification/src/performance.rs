//! Batches, pools, shared values and timings.

use crate::dash_table::DashTable;
use crate::duration::nanos;
use crate::limits::{count_up, counted_up};
use crate::text::owned;
use std::time::Duration;
use vstd::prelude::*;

verus! {

/// Settings that trade memory for speed.
#[derive(Debug, Clone, Copy)]
pub struct PerformanceConfig {
    /// From which size on values are serialized in the background.
    pub async_serialization_threshold: usize,
    pub database_batch_size: usize,
    pub connection_pool_size: usize,
    pub background_task_interval: Duration,
    pub cache_prewarming_enabled: bool,
    pub object_pooling_enabled: bool,
    /// From which size on data is compressed.
    pub compression_threshold: usize,
}

impl Default for PerformanceConfig {
    fn default() -> (r: Self)
        ensures
            r.async_serialization_threshold == 100_000,
            r.database_batch_size == 100,
            r.connection_pool_size == 10,
            nanos(r.background_task_interval) == 30_000_000_000,
            r.cache_prewarming_enabled,
            r.object_pooling_enabled,
            r.compression_threshold == 1_000_000,
    {
        PerformanceConfig {
            async_serialization_threshold: 100_000,
            database_batch_size: 100,
            connection_pool_size: 10,
            background_task_interval: Duration::from_secs(30),
            cache_prewarming_enabled: true,
            object_pooling_enabled: true,
            compression_threshold: 1_000_000,
        }
    }
}

/// How much was serialized, and how.
#[derive(Debug, Clone, Copy, PartialEq, Eq, Structural)]
pub struct SerializationStats {
    pub total_operations: u64,
    pub async_operations: u64,
    pub sync_operations: u64,
    pub total_bytes_processed: u64,
}

impl SerializationStats {
    /// Nothing was serialized.
    pub fn new() -> (r: Self)
        ensures
            r == (SerializationStats {
                total_operations: 0,
                async_operations: 0,
                sync_operations: 0,
                total_bytes_processed: 0,
            }),
    {
        SerializationStats { total_operations: 0, async_operations: 0, sync_operations: 0, total_bytes_processed: 0 }
    }

    /// Every operation was done in the background or not.
    pub open spec fn wf(&self) -> bool {
        self.total_operations == self.async_operations + self.sync_operations
    }

    /// Counts an operation on so many bytes.
    pub fn update_stats(&mut self, bytes: usize, is_async: bool)
        requires
            old(self).wf(),
            old(self).total_operations < u64::MAX,
            old(self).total_bytes_processed + bytes <= u64::MAX,
        ensures
            final(self).wf(),
            final(self).total_operations == old(self).total_operations + 1,
            final(self).total_bytes_processed == old(self).total_bytes_processed + bytes,
            final(self).async_operations == old(self).async_operations + (if is_async {
                1int
            } else {
                0
            }),
    {
        self.total_operations = self.total_operations + 1;
        self.total_bytes_processed = self.total_bytes_processed + bytes as u64;
        if is_async {
            self.async_operations = self.async_operations + 1;
        } else {
            self.sync_operations = self.sync_operations + 1;
        }
    }
}

/// Whether something of this size is serialized in the background.
pub fn serialize_in_background(size: usize, threshold: usize) -> (r: bool)
    ensures
        r == (size > threshold),
{
    size > threshold
}

/// Collects operations into batches.
pub struct BatchProcessor<T> {
    pub batch_size: usize,
    pub pending: Vec<T>,
}

impl<T> BatchProcessor<T> {
    /// No operation waits.
    pub fn new(batch_size: usize) -> (r: Self)
        ensures
            r.batch_size == batch_size,
            r.pending@ == Seq::<T>::empty(),
    {
        BatchProcessor { batch_size, pending: Vec::new() }
    }

    fn take_all(&mut self) -> (r: Vec<T>)
        ensures
            r@ == old(self).pending@,
            final(self).pending@ == Seq::<T>::empty(),
            final(self).batch_size == old(self).batch_size,
    {
        let mut batch: Vec<T> = Vec::new();
        std::mem::swap(&mut batch, &mut self.pending);
        batch
    }

    /// Adds an operation; once there are enough, all that wait are returned, in order.
    pub fn add(&mut self, operation: T) -> (r: Option<Vec<T>>)
        ensures
            final(self).batch_size == old(self).batch_size,
            ({
                let all = old(self).pending@.push(operation);
                &&& r is Some <==> all.len() >= old(self).batch_size
                &&& r matches Some(batch) ==> batch@ == all && final(self).pending@ == Seq::<T>::empty()
                &&& r is None ==> final(self).pending@ == all
            }),
    {
        self.pending.push(operation);
        if self.pending.len() >= self.batch_size {
            Some(self.take_all())
        } else {
            None
        }
    }

    /// Returns all operations that wait, in order, where there are any.
    pub fn flush(&mut self) -> (r: Option<Vec<T>>)
        ensures
            final(self).batch_size == old(self).batch_size,
            final(self).pending@ == Seq::<T>::empty(),
            r is Some <==> old(self).pending@.len() > 0,
            r matches Some(batch) ==> batch@ == old(self).pending@,
    {
        if self.pending.len() > 0 {
            Some(self.take_all())
        } else {
            proof {
                assert(self.pending@ =~= Seq::<T>::empty());
            }
            None
        }
    }
}

/// What came out of a batch processor and what waits in it, after operations were added: `out`
/// are the batches one behind the other.
pub open spec fn batched<T>(size: nat, operations: Seq<T>) -> (Seq<T>, Seq<T>)
    decreases operations.len(),
{
    if operations.len() == 0 {
        (Seq::empty(), Seq::empty())
    } else {
        let (out, waiting) = batched(size, operations.drop_last());
        let all = waiting.push(operations.last());
        if all.len() >= size {
            (out + all, Seq::empty())
        } else {
            (out, all)
        }
    }
}

/// Batches hold every operation once and in order; what has not come out waits, and fewer
/// wait than make a batch.
pub proof fn no_operation_is_lost<T>(size: nat, operations: Seq<T>)
    requires
        size > 0,
    ensures
        batched(size, operations).0 + batched(size, operations).1 == operations,
        batched(size, operations).1.len() < size,
    decreases operations.len(),
{
    if operations.len() == 0 {
        assert(batched(size, operations).0 + batched(size, operations).1 =~= operations);
    } else {
        let rest = operations.drop_last();
        no_operation_is_lost(size, rest);
        let (out, waiting) = batched(size, rest);
        let all = waiting.push(operations.last());
        assert(out + all =~= (out + waiting).push(operations.last()));
        assert(rest.push(operations.last()) =~= operations);
        assert(out + all + Seq::<T>::empty() =~= out + all);
    }
}

/// How a pool was used.
#[derive(Debug, Clone, Copy, PartialEq, Eq, Structural)]
pub struct PoolStats {
    pub created_count: u64,
    pub reused_count: u64,
    pub current_size: usize,
    pub max_size: usize,
}

/// Keeps objects for later use.
pub struct ObjectPool<T> {
    objects: Vec<T>,
    max_size: usize,
    created_count: u64,
    reused_count: u64,
}

impl<T> ObjectPool<T> {
    /// The objects that are kept.
    pub closed spec fn objects(&self) -> Seq<T> {
        self.objects@
    }

    /// How many objects are kept at most.
    pub closed spec fn limit(&self) -> usize {
        self.max_size
    }

    /// How many objects were made.
    pub closed spec fn created(&self) -> u64 {
        self.created_count
    }

    /// How many objects were used again.
    pub closed spec fn reused(&self) -> u64 {
        self.reused_count
    }

    /// No more objects are kept than may be.
    pub open spec fn wf(&self) -> bool {
        self.objects().len() <= self.limit()
    }

    /// A pool that keeps nothing yet.
    pub fn new(max_size: usize) -> (r: Self)
        ensures
            r.wf(),
            r.objects() == Seq::<T>::empty(),
            r.limit() == max_size,
            r.created() == 0,
            r.reused() == 0,
    {
        ObjectPool { objects: Vec::new(), max_size, created_count: 0, reused_count: 0 }
    }

    /// An object that is kept, or a new one.
    pub fn get<F: Fn() -> T>(&mut self, factory: &F) -> (r: T)
        requires
            old(self).wf(),
            call_requires(*factory, ()),
        ensures
            final(self).wf(),
            final(self).limit() == old(self).limit(),
            old(self).objects().len() > 0 ==> {
                &&& r == old(self).objects().last()
                &&& final(self).objects() == old(self).objects().drop_last()
                &&& final(self).reused() == counted_up(old(self).reused())
                &&& final(self).created() == old(self).created()
            },
            old(self).objects().len() == 0 ==> {
                &&& call_ensures(*factory, (), r)
                &&& final(self).objects() == old(self).objects()
                &&& final(self).created() == counted_up(old(self).created())
                &&& final(self).reused() == old(self).reused()
            },
    {
        match self.objects.pop() {
            Some(object) => {
                self.reused_count = count_up(self.reused_count);
                object
            },
            None => {
                self.created_count = count_up(self.created_count);
                factory()
            },
        }
    }

    /// Keeps an object, where there is room.
    pub fn put_back(&mut self, object: T)
        requires
            old(self).wf(),
        ensures
            final(self).wf(),
            final(self).limit() == old(self).limit(),
            final(self).created() == old(self).created(),
            final(self).reused() == old(self).reused(),
            final(self).objects() == (if old(self).objects().len() < old(self).limit() {
                old(self).objects().push(object)
            } else {
                old(self).objects()
            }),
    {
        if self.objects.len() < self.max_size {
            self.objects.push(object);
        }
    }

    /// How the pool was used.
    pub fn get_stats(&self) -> (r: PoolStats)
        ensures
            r == (PoolStats {
                created_count: self.created(),
                reused_count: self.reused(),
                current_size: self.objects().len() as usize,
                max_size: self.limit(),
            }),
    {
        PoolStats {
            created_count: self.created_count,
            reused_count: self.reused_count,
            current_size: self.objects.len(),
            max_size: self.max_size,
        }
    }
}

/// How often values were found.
#[derive(Debug, Clone, Copy, PartialEq, Eq, Structural)]
pub struct CacheStats {
    pub hit_count: u64,
    pub miss_count: u64,
    pub entry_count: usize,
}

/// Values by name, with a count of how often they were found.
pub struct CowCache<V> {
    cache: DashTable<V>,
    hit_count: u64,
    miss_count: u64,
}

impl<V> View for CowCache<V> {
    type V = Map<Seq<char>, V>;

    closed spec fn view(&self) -> Map<Seq<char>, V> {
        self.cache@
    }
}

impl<V> CowCache<V> {
    /// How often a value was found.
    pub closed spec fn hits(&self) -> u64 {
        self.hit_count
    }

    /// How often no value was found.
    pub closed spec fn misses(&self) -> u64 {
        self.miss_count
    }

    /// A cache without values.
    pub fn new() -> (r: Self)
        ensures
            r@ == Map::<Seq<char>, V>::empty(),
            r.hits() == 0,
            r.misses() == 0,
    {
        CowCache { cache: DashTable::new(), hit_count: 0, miss_count: 0 }
    }

    /// The value of `key`.
    pub fn get_cow(&mut self, key: &str) -> (r: Option<&V>)
        ensures
            final(self)@ == old(self)@,
            r is Some <==> old(self)@.contains_key(key@),
            r matches Some(v) ==> *v == old(self)@[key@],
            final(self).hits() == (if r is Some {
                counted_up(old(self).hits())
            } else {
                old(self).hits()
            }),
            final(self).misses() == (if r is Some {
                old(self).misses()
            } else {
                counted_up(old(self).misses())
            }),
    {
        if self.cache.contains_key(key) {
            self.hit_count = count_up(self.hit_count);
        } else {
            self.miss_count = count_up(self.miss_count);
        }
        self.cache.get(key)
    }

    /// A copy of the value of `key`.
    pub fn get_owned(&mut self, key: &str) -> (r: Option<V>) where V: Clone
        ensures
            final(self)@ == old(self)@,
            r is Some <==> old(self)@.contains_key(key@),
            r matches Some(v) ==> cloned(old(self)@[key@], v),
            final(self).hits() == (if r is Some {
                counted_up(old(self).hits())
            } else {
                old(self).hits()
            }),
            final(self).misses() == (if r is Some {
                old(self).misses()
            } else {
                counted_up(old(self).misses())
            }),
    {
        match self.get_cow(key) {
            Some(v) => Some(v.clone()),
            None => None,
        }
    }

    /// Sets the value of `key`.
    pub fn insert(&mut self, key: String, value: V)
        ensures
            final(self)@ == old(self)@.insert(key@, value),
            final(self).hits() == old(self).hits(),
            final(self).misses() == old(self).misses(),
    {
        self.cache.insert(key, value);
    }

    /// Takes the value of `key` out.
    pub fn remove(&mut self, key: &str) -> (r: Option<V>)
        ensures
            final(self)@ == old(self)@.remove(key@),
            final(self).hits() == old(self).hits(),
            final(self).misses() == old(self).misses(),
            r == (if old(self)@.contains_key(key@) {
                Some(old(self)@[key@])
            } else {
                None
            }),
    {
        self.cache.remove(key)
    }

    /// How often values were found, and how many there are.
    pub fn get_cache_stats(&self) -> (r: CacheStats)
        ensures
            r.hit_count == self.hits(),
            r.miss_count == self.misses(),
            r.entry_count == self@.dom().len(),
    {
        CacheStats { hit_count: self.hit_count, miss_count: self.miss_count, entry_count: self.cache.len() }
    }

    /// Forgets all values.
    pub fn clear(&mut self)
        ensures
            final(self)@ == Map::<Seq<char>, V>::empty(),
            final(self).hits() == old(self).hits(),
            final(self).misses() == old(self).misses(),
    {
        self.cache.clear();
    }
}

impl<V> Default for CowCache<V> {
    fn default() -> (r: Self)
        ensures
            r@ == Map::<Seq<char>, V>::empty(),
            r.hits() == 0,
            r.misses() == 0,
    {
        CowCache::new()
    }
}

/// How long an operation takes and how often it fails.
#[derive(Debug)]
pub struct OperationMetrics {
    pub operation: String,
    pub count: u64,
    pub error_count: u64,
    pub avg_duration: Duration,
    pub p50_duration: Duration,
    pub p95_duration: Duration,
    pub p99_duration: Duration,
    pub min_duration: Duration,
    pub max_duration: Duration,
}

/// Lengths in nanoseconds.
pub open spec fn lengths(times: Seq<Duration>) -> Seq<nat> {
    Seq::new(times.len(), |i: int| nanos(times[i]))
}

/// Whether `s` goes up.
pub open spec fn ascending(s: Seq<nat>) -> bool {
    forall|i: int, j: int| 0 <= i <= j < s.len() ==> #[trigger] s[i] <= #[trigger] s[j]
}

/// Whether `s` holds the same numbers as `t`, in ascending order.
pub open spec fn sorted_from(t: Seq<nat>, s: Seq<nat>) -> bool {
    ascending(s) && s.to_multiset() == t.to_multiset()
}

/// The sum of the first `n` numbers.
pub open spec fn sum_first(s: Seq<nat>, n: int) -> nat
    decreases n,
{
    if n <= 0 {
        0
    } else {
        sum_first(s, n - 1) + s[n - 1]
    }
}

/// What the timings `times` come to.
pub open spec fn measures(m: OperationMetrics, times: Seq<Duration>) -> bool {
    exists|s: Seq<nat>| #[trigger] measured(m, lengths(times), s)
}

/// What timings come to that are `s` in ascending order.
pub open spec fn measured(m: OperationMetrics, t: Seq<nat>, s: Seq<nat>) -> bool {
    let n = t.len() as int;
    &&& sorted_from(t, s)
    &&& s.len() == n
    &&& nanos(m.avg_duration) == sum_first(t, n) / (n as nat)
    &&& nanos(m.p50_duration) == s[n / 2]
    &&& nanos(m.p95_duration) == s[n * 95 / 100]
    &&& nanos(m.p99_duration) == s[n * 99 / 100]
    &&& nanos(m.min_duration) == s[0]
    &&& nanos(m.max_duration) == s[n - 1]
}

/// Puts lengths in ascending order.
fn sort(times: &Vec<Duration>) -> (r: Vec<Duration>)
    ensures
        sorted_from(lengths(times@), lengths(r@)),
        r@.len() == times@.len(),
{
    let mut r: Vec<Duration> = Vec::new();
    let mut i: usize = 0;
    proof {
        assert(lengths(r@) =~= lengths(times@).take(0));
    }
    while i < times.len()
        invariant
            i <= times@.len(),
            r@.len() == i,
            ascending(lengths(r@)),
            lengths(r@).to_multiset() == lengths(times@).take(i as int).to_multiset(),
        decreases times.len() - i,
    {
        let d: Duration = times[i];
        let n: u128 = d.as_nanos();
        let mut at: usize = r.len();
        let ghost before = lengths(r@);
        while at > 0 && r[at - 1].as_nanos() > n
            invariant
                at <= r@.len(),
                before == lengths(r@),
                ascending(before),
                n == nanos(d),
                forall|j: int| at <= j < before.len() ==> #[trigger] before[j] > n,
            decreases at,
        {
            proof {
                assert(before[at - 1] == nanos(r@[at - 1]));
            }
            at = at - 1;
        }
        proof {
            if at > 0 {
                assert(before[at - 1] == nanos(r@[at - 1]));
            }
        }
        r.insert(at, d);
        proof {
            let after = lengths(r@);
            assert(after =~= before.insert(at as int, n as nat));
            vstd::seq_lib::to_multiset_insert(before, at as int, n as nat);
            let all = lengths(times@);
            assert(all.take(i + 1) =~= all.take(i as int).push(n as nat));
            all.take(i as int).to_multiset_ensures();
            assert forall|a: int, b: int| 0 <= a <= b < after.len() implies #[trigger] after[a] <= #[trigger] after[b] by {
                let x = if a < at {
                    a
                } else {
                    a - 1
                };
                let y = if b < at {
                    b
                } else {
                    b - 1
                };
                if a != at && b != at {
                    assert(before[x] <= before[y]);
                } else if a < at {
                    assert(before[a] <= before[at - 1]);
                } else if b > at {
                    assert(before[y] > n);
                }
            }
        }
        i = i + 1;
    }
    proof {
        assert(lengths(times@).take(i as int) =~= lengths(times@));
    }
    r
}

/// The history after one more length: the oldest goes where there are too many.
pub open spec fn remembered(times: Seq<Duration>, d: Duration, most: usize) -> Seq<Duration> {
    let all = times.push(d);
    if all.len() > most {
        all.drop_first()
    } else {
        all
    }
}

/// The lengths that are kept of an operation.
pub open spec fn history(m: Map<Seq<char>, Vec<Duration>>, operation: Seq<char>) -> Seq<Duration> {
    if m.contains_key(operation) {
        m[operation]@
    } else {
        Seq::empty()
    }
}

/// How often something is counted.
pub open spec fn tally(m: Map<Seq<char>, u64>, operation: Seq<char>) -> u64 {
    if m.contains_key(operation) {
        m[operation]
    } else {
        0
    }
}

/// Keeps timings of operations.
pub struct PerformanceMonitor {
    operation_times: DashTable<Vec<Duration>>,
    operation_counts: DashTable<u64>,
    error_counts: DashTable<u64>,
    max_history: usize,
}

fn count_one(table: &mut DashTable<u64>, key: &str)
    ensures
        final(table)@ == old(table)@.insert(key@, counted_up(tally(old(table)@, key@))),
{
    let n: u64 = match table.get(key) {
        Some(n) => *n,
        None => 0,
    };
    table.insert(owned(key), count_up(n));
}

impl PerformanceMonitor {
    /// The lengths that are kept.
    pub closed spec fn times(&self) -> Map<Seq<char>, Vec<Duration>> {
        self.operation_times@
    }

    /// How often operations were done.
    pub closed spec fn counts(&self) -> Map<Seq<char>, u64> {
        self.operation_counts@
    }

    /// How often operations failed.
    pub closed spec fn errors(&self) -> Map<Seq<char>, u64> {
        self.error_counts@
    }

    /// How many lengths are kept of an operation.
    pub closed spec fn most(&self) -> usize {
        self.max_history
    }

    /// No more lengths are kept of an operation than may be, and each was counted.
    pub open spec fn wf(&self) -> bool {
        &&& forall|k: Seq<char>| #[trigger] self.times().contains_key(k) ==> self.times()[k]@.len() <= self.most()
        &&& forall|k: Seq<char>| #[trigger] self.times().contains_key(k) <==> self.counts().contains_key(k)
    }

    /// Nothing was timed.
    pub fn new(max_history: usize) -> (r: Self)
        ensures
            r.wf(),
            r.times() == Map::<Seq<char>, Vec<Duration>>::empty(),
            r.counts() == Map::<Seq<char>, u64>::empty(),
            r.errors() == Map::<Seq<char>, u64>::empty(),
            r.most() == max_history,
    {
        PerformanceMonitor {
            operation_times: DashTable::new(),
            operation_counts: DashTable::new(),
            error_counts: DashTable::new(),
            max_history,
        }
    }

    /// Notes that an operation took so long.
    pub fn record_operation(&mut self, operation: &str, duration: Duration)
        requires
            old(self).wf(),
        ensures
            final(self).wf(),
            final(self).most() == old(self).most(),
            final(self).errors() == old(self).errors(),
            final(self).counts() == old(self).counts().insert(operation@, counted_up(tally(old(self).counts(), operation@))),
            final(self).times().contains_key(operation@),
            final(self).times()[operation@]@ == remembered(history(old(self).times(), operation@), duration, old(self).most()),
            final(self).times() == old(self).times().insert(operation@, final(self).times()[operation@]),
    {
        let ghost before = self.times();
        let mut times: Vec<Duration> = match self.operation_times.remove(operation) {
            Some(t) => t,
            None => Vec::new(),
        };
        times.push(duration);
        if times.len() > self.max_history {
            let ghost all = times@;
            times.remove(0);
            proof {
                assert(times@ =~= all.drop_first());
            }
        }
        self.operation_times.insert(owned(operation), times);
        count_one(&mut self.operation_counts, operation);
        proof {
            assert(self.times() =~= before.insert(operation@, times));
            assert forall|k: Seq<char>| #[trigger] self.times().contains_key(k) implies self.times()[k]@.len() <= self.most() by {
                if k != operation@ {
                    assert(before.contains_key(k));
                }
            }
        }
    }

    /// Notes that an operation failed.
    pub fn record_error(&mut self, operation: &str)
        requires
            old(self).wf(),
        ensures
            final(self).wf(),
            final(self).most() == old(self).most(),
            final(self).times() == old(self).times(),
            final(self).counts() == old(self).counts(),
            final(self).errors() == old(self).errors().insert(operation@, counted_up(tally(old(self).errors(), operation@))),
    {
        count_one(&mut self.error_counts, operation);
        proof {
            assert(self.times() == old(self).times());
            assert(self.counts() == old(self).counts());
        }
    }

    /// Notes that an operation took so long, and whether it succeeded.
    pub fn record_result(&mut self, operation: &str, duration: Duration, success: bool)
        requires
            old(self).wf(),
        ensures
            final(self).wf(),
            final(self).most() == old(self).most(),
            final(self).counts() == old(self).counts().insert(operation@, counted_up(tally(old(self).counts(), operation@))),
            final(self).times().contains_key(operation@),
            final(self).times()[operation@]@ == remembered(history(old(self).times(), operation@), duration, old(self).most()),
            final(self).times() == old(self).times().insert(operation@, final(self).times()[operation@]),
            final(self).errors() == (if success {
                old(self).errors()
            } else {
                old(self).errors().insert(operation@, counted_up(tally(old(self).errors(), operation@)))
            }),
    {
        self.record_operation(operation, duration);
        if !success {
            self.record_error(operation);
        }
    }

    /// What the lengths of an operation come to fits a `Duration`.
    pub open spec fn can_sum(&self, operation: Seq<char>) -> bool {
        let t = lengths(history(self.times(), operation));
        sum_first(t, t.len() as int) <= 18_446_744_073_709_551_615_999_999_999
    }

    /// How long an operation takes and how often it fails, where lengths are kept of it.
    pub fn get_operation_metrics(&self, operation: &str) -> (r: Option<OperationMetrics>)
        requires
            self.wf(),
            self.can_sum(operation@),
        ensures
            r is Some <==> history(self.times(), operation@).len() > 0,
            r matches Some(m) ==> {
                &&& m.operation@ == operation@
                &&& m.count == self.counts()[operation@]
                &&& m.error_count == tally(self.errors(), operation@)
                &&& measures(m, history(self.times(), operation@))
            },
    {
        let times: &Vec<Duration> = match self.operation_times.get(operation) {
            Some(t) => t,
            None => {
                return None;
            },
        };
        let count: u64 = match self.operation_counts.get(operation) {
            Some(n) => *n,
            None => {
                return None;
            },
        };
        let error_count: u64 = match self.error_counts.get(operation) {
            Some(n) => *n,
            None => 0,
        };
        if times.len() == 0 {
            return None;
        }
        let ghost t = lengths(times@);
        let n: usize = times.len();
        let mut total: u128 = 0;
        let mut i: usize = 0;
        while i < times.len()
            invariant
                i <= times@.len(),
                t == lengths(times@),
                total == sum_first(t, i as int),
                sum_first(t, t.len() as int) <= 18_446_744_073_709_551_615_999_999_999,
            decreases times.len() - i,
        {
            proof {
                lemma_sum_grows(t, i + 1, t.len() as int);
                assert(t[i as int] == nanos(times@[i as int]));
            }
            total = total + times[i].as_nanos();
            i = i + 1;
        }
        let avg: u128 = total / n as u128;
        proof {
            assert(avg <= total) by (nonlinear_arith)
                requires
                    avg == total / n as u128,
                    n > 0,
            ;
            assert(total as nat / n as nat == (total / n as u128) as nat);
        }
        let avg_duration: Duration = from_nanos(avg);
        let sorted = sort(times);
        let ghost s = lengths(sorted@);
        let p95: usize = (n as u128 * 95 / 100) as usize;
        let p99: usize = (n as u128 * 99 / 100) as usize;
        let m = OperationMetrics {
            operation: owned(operation),
            count,
            error_count,
            avg_duration,
            p50_duration: sorted[n / 2],
            p95_duration: sorted[p95],
            p99_duration: sorted[p99],
            min_duration: sorted[0],
            max_duration: sorted[n - 1],
        };
        proof {
            assert(measured(m, t, s));
        }
        Some(m)
    }

    /// How long operations take and how often they fail, for each of which lengths are kept.
    pub fn get_all_metrics(&self) -> (r: Vec<OperationMetrics>)
        requires
            self.wf(),
            forall|k: Seq<char>| #[trigger] self.counts().contains_key(k) ==> self.can_sum(k),
        ensures
            forall|i: int| 0 <= i < r@.len() ==> self.describes(#[trigger] r@[i]),
            forall|k: Seq<char>|
                self.counts().contains_key(k) && #[trigger] history(self.times(), k).len() > 0 ==> exists|i: int|
                    0 <= i < r@.len() && (#[trigger] r@[i]).operation@ == k,
            forall|i: int, j: int| 0 <= i < j < r@.len() ==> (#[trigger] r@[i]).operation@ != (#[trigger] r@[j]).operation@,
    {
        let n: usize = self.operation_counts.len();
        let ghost rows = self.operation_counts.pairs();
        let mut r: Vec<OperationMetrics> = Vec::new();
        let ghost mut from: Seq<int> = Seq::empty();
        let mut i: usize = 0;
        while i < n
            invariant
                i <= n,
                self.wf(),
                n == rows.len(),
                rows == self.operation_counts.pairs(),
                self.operation_counts.wf(),
                forall|k: Seq<char>| #[trigger] self.counts().contains_key(k) ==> self.can_sum(k),
                from.len() == r@.len(),
                forall|t: int| 0 <= t < from.len() ==> 0 <= #[trigger] from[t] < i && r@[t].operation@ == rows[from[t]].0@,
                forall|s: int, t: int| 0 <= s < t < from.len() ==> #[trigger] from[s] < #[trigger] from[t],
                forall|t: int| 0 <= t < r@.len() ==> self.describes(#[trigger] r@[t]),
                forall|j: int|
                    0 <= j < i && history(self.times(), (#[trigger] rows[j]).0@).len() > 0 ==> exists|t: int|
                        0 <= t < r@.len() && (#[trigger] r@[t]).operation@ == rows[j].0@,
            decreases n - i,
        {
            let key = self.operation_counts.key_at(i);
            proof {
                assert(self.counts().contains_key(key@));
            }
            let ghost before = r@;
            match self.get_operation_metrics(key.as_str()) {
                Some(m) => {
                    r.push(m);
                    proof {
                        from = from.push(i as int);
                        assert(r@[r@.len() - 1].operation@ == key@);
                    }
                },
                None => {},
            }
            proof {
                assert forall|j: int| 0 <= j < i + 1 && history(self.times(), (#[trigger] rows[j]).0@).len() > 0 implies exists|
                    t: int,
                | 0 <= t < r@.len() && (#[trigger] r@[t]).operation@ == rows[j].0@ by {
                    if j < i {
                        let t = choose|t: int| 0 <= t < before.len() && (#[trigger] before[t]).operation@ == rows[j].0@;
                        assert(r@[t].operation@ == rows[j].0@);
                    }
                }
            }
            i = i + 1;
        }
        proof {
            assert forall|a: int, b: int| 0 <= a < b < r@.len() implies (#[trigger] r@[a]).operation@ != (#[trigger] r@[b]).operation@ by {
                assert(from[a] < from[b]);
                assert(rows[from[a]].0@ != rows[from[b]].0@);
            }
            assert forall|k: Seq<char>|
                self.counts().contains_key(k) && #[trigger] history(self.times(), k).len() > 0 implies exists|t: int|
                0 <= t < r@.len() && (#[trigger] r@[t]).operation@ == k by {
                let j = crate::string_map::key_index(rows, k);
                assert(rows[j].0@ == k);
            }
        }
        r
    }

    /// Whether `m` says how long its operation takes and how often it fails.
    pub open spec fn describes(&self, m: OperationMetrics) -> bool {
        let k = m.operation@;
        &&& self.counts().contains_key(k)
        &&& history(self.times(), k).len() > 0
        &&& m.count == self.counts()[k]
        &&& m.error_count == tally(self.errors(), k)
        &&& measures(m, history(self.times(), k))
    }
}

fn from_nanos(n: u128) -> (r: Duration)
    requires
        n <= 18_446_744_073_709_551_615_999_999_999,
    ensures
        nanos(r) == n,
{
    Duration::new((n / 1_000_000_000) as u64, (n % 1_000_000_000) as u32)
}

proof fn lemma_sum_grows(s: Seq<nat>, m: int, n: int)
    requires
        0 <= m <= n,
    ensures
        sum_first(s, m) <= sum_first(s, n),
    decreases n,
{
    if m < n {
        lemma_sum_grows(s, m, n - 1);
    }
}

/// The lengths of an operation lie between the least and the greatest, in their order.
pub proof fn percentiles_are_ordered(m: OperationMetrics, times: Seq<Duration>)
    requires
        measures(m, times),
        times.len() > 0,
    ensures
        nanos(m.min_duration) <= nanos(m.p50_duration) <= nanos(m.p95_duration) <= nanos(m.p99_duration) <= nanos(
            m.max_duration,
        ),
{
    let s = choose|s: Seq<nat>| #[trigger] measured(m, lengths(times), s);
    let n = times.len() as int;
    assert(lengths(times).len() == n);
    assert(s[0] <= s[n / 2]);
    assert(s[n / 2] <= s[n * 95 / 100]);
    assert(s[n * 95 / 100] <= s[n * 99 / 100]);
    assert(s[n * 99 / 100] <= s[n - 1]);
}

/// The lengths that are kept of an operation are the latest, in order: one more stands last, and
/// the first goes only where there would be too many.
pub proof fn latest_lengths_are_kept(p: &mut PerformanceMonitor, operation: &str, duration: Duration)
    requires
        call_ensures(PerformanceMonitor::record_operation, (p, operation, duration), ()),
        old(p).wf(),
    ensures
        ({
            let before = if old(p).times().contains_key(operation@) {
                old(p).times()[operation@]@
            } else {
                Seq::empty()
            };
            let after = final(p).times()[operation@]@;
            &&& before.len() < old(p).most() ==> after == before.push(duration)
            &&& before.len() == old(p).most() && before.len() > 0 ==> after == before.drop_first().push(duration)
            &&& before.len() == 0 && old(p).most() == 0 ==> after.len() == 0
        }),
        old(p).counts().contains_key(operation@) && old(p).counts()[operation@] < u64::MAX ==> final(p).counts()[operation@] == old(p).counts()[operation@] + 1,
        !old(p).counts().contains_key(operation@) ==> final(p).counts().contains_key(operation@) && final(p).counts()[operation@] == 1,
        final(p).errors() == old(p).errors(),
        forall|k: Seq<char>|
            k != operation@ ==> (#[trigger] final(p).times().contains_key(k) <==> old(p).times().contains_key(k)) && final(p).times()[k] == old(p).times()[k],
{
    let before = history(old(p).times(), operation@);
    if before.len() > 0 {
        assert(before.push(duration).drop_first() =~= before.drop_first().push(duration));
    }
}

/// A failure counts once, with its operation alone; a success does not.
pub proof fn failures_are_counted(p: &mut PerformanceMonitor, operation: &str, duration: Duration, success: bool)
    requires
        call_ensures(PerformanceMonitor::record_result, (p, operation, duration, success), ()),
    ensures
        success ==> final(p).errors() == old(p).errors(),
        !success && old(p).errors().contains_key(operation@) && old(p).errors()[operation@] < u64::MAX ==> final(p).errors()[operation@] == old(p).errors()[operation@] + 1,
        !success && !old(p).errors().contains_key(operation@) ==> final(p).errors().contains_key(operation@) && final(p).errors()[operation@] == 1,
        forall|k: Seq<char>|
            k != operation@ ==> (#[trigger] final(p).errors().contains_key(k) <==> old(p).errors().contains_key(k)) && final(p).errors()[k] == old(p).errors()[k],
        final(p).times().contains_key(operation@),
{
}

/// What is said of an operation: the least and the greatest of its lengths are among them and
/// none lies outside; there is something to say exactly where lengths are kept.
pub proof fn least_and_greatest_are_found(p: &PerformanceMonitor, operation: &str, r: Option<OperationMetrics>, i: int)
    requires
        call_ensures(PerformanceMonitor::get_operation_metrics, (p, operation), r),
    ensures
        r is Some <==> p.times().contains_key(operation@) && p.times()[operation@]@.len() > 0,
        r matches Some(m) ==> m.operation@ == operation@ && m.count == p.counts()[operation@] && m.error_count == (
        if p.errors().contains_key(operation@) {
            p.errors()[operation@]
        } else {
            0
        }),
        r matches Some(m) ==> (0 <= i < p.times()[operation@]@.len() ==> nanos(m.min_duration) <= nanos(p.times()[operation@]@[i])
            <= nanos(m.max_duration)),
        r matches Some(m) ==> exists|k: int|
            0 <= k < p.times()[operation@]@.len() && nanos(#[trigger] p.times()[operation@]@[k]) == nanos(m.min_duration),
        r matches Some(m) ==> exists|k: int|
            0 <= k < p.times()[operation@]@.len() && nanos(#[trigger] p.times()[operation@]@[k]) == nanos(m.max_duration),
        r matches Some(m) ==> exists|k: int|
            0 <= k < p.times()[operation@]@.len() && nanos(#[trigger] p.times()[operation@]@[k]) == nanos(m.p50_duration),
        r matches Some(m) ==> p.times()[operation@]@.len() * nanos(m.avg_duration) <= sum_first(
            lengths(p.times()[operation@]@),
            p.times()[operation@]@.len() as int,
        ) < p.times()[operation@]@.len() * (nanos(m.avg_duration) + 1),
{
    if let Some(m) = r {
        let times = history(p.times(), operation@);
        let t = lengths(times);
        let n = t.len() as int;
        let s = choose|s: Seq<nat>| #[trigger] measured(m, t, s);
        broadcast use vstd::seq_lib::group_to_multiset_ensures;
        assert forall|x: nat| s.contains(x) <==> t.contains(x) by {
            assert(s.contains(x) <==> s.to_multiset().count(x) > 0);
            assert(t.contains(x) <==> t.to_multiset().count(x) > 0);
        }
        if 0 <= i < n {
            assert(t.contains(t[i]));
            let k = choose|k: int| 0 <= k < s.len() && s[k] == t[i];
            assert(s[0] <= s[k] <= s[n - 1]);
        }
        assert(s.contains(s[0]) && s.contains(s[n - 1]) && s.contains(s[n / 2]));
        let a = choose|k: int| 0 <= k < t.len() && t[k] == s[0];
        let b = choose|k: int| 0 <= k < t.len() && t[k] == s[n - 1];
        let c = choose|k: int| 0 <= k < t.len() && t[k] == s[n / 2];
        assert(nanos(times[a]) == nanos(m.min_duration));
        assert(nanos(times[b]) == nanos(m.max_duration));
        assert(nanos(times[c]) == nanos(m.p50_duration));
        let sum = sum_first(t, n);
        assert(n * (sum / (n as nat)) <= sum < n * (sum / (n as nat) + 1)) by (nonlinear_arith)
            requires
                n > 0,
        ;
    }
}

/// An object that is kept is used before a new one is made, the one that came back last first.
pub proof fn kept_objects_are_used_again<T, F: Fn() -> T>(a: &mut ObjectPool<T>, object: T, b: &mut ObjectPool<T>, factory: &F, r: T)
    requires
        call_ensures(ObjectPool::<T>::put_back, (a, object), ()),
        call_ensures(ObjectPool::<T>::get::<F>, (b, factory), r),
    ensures
        *old(b) == *final(a) && old(a).objects().len() < old(a).limit() ==> r == object && final(b).objects() == old(a).objects(),
        old(b).objects().len() > 0 && old(b).reused() < u64::MAX ==> final(b).reused() == old(b).reused() + 1 && final(b).created() == old(b).created(),
        old(b).objects().len() == 0 && old(b).created() < u64::MAX ==> final(b).created() == old(b).created() + 1 && final(b).reused() == old(b).reused(),
        final(a).objects().len() <= old(a).limit() || final(a).objects() == old(a).objects(),
{
    assert(old(a).objects().push(object).drop_last() =~= old(a).objects());
}

/// A batch comes out once enough wait, with all that waited and in order; until then all wait.
pub proof fn batch_comes_out_when_full<T>(b: &mut BatchProcessor<T>, operation: T, r: Option<Vec<T>>)
    requires
        call_ensures(BatchProcessor::<T>::add, (b, operation), r),
    ensures
        r is Some <==> old(b).pending@.len() + 1 >= old(b).batch_size,
        r matches Some(batch) ==> batch@.drop_last() == old(b).pending@ && batch@.last() == operation && final(b).pending@.len() == 0,
        r is None ==> final(b).pending@ == old(b).pending@.push(operation),
{
    assert(old(b).pending@.push(operation).drop_last() =~= old(b).pending@);
}

/// An error is counted for its operation, and nothing else changes.
pub proof fn errors_are_counted(p: &mut PerformanceMonitor, operation: &str)
    requires
        call_ensures(PerformanceMonitor::record_error, (p, operation), ()),
    ensures
        !old(p).errors().contains_key(operation@) ==> final(p).errors().contains_key(operation@) && final(p).errors()[operation@] == 1,
        old(p).errors().contains_key(operation@) && old(p).errors()[operation@] < u64::MAX ==> final(p).errors()[operation@] == old(p).errors()[operation@] + 1,
        forall|k: Seq<char>|
            k != operation@ ==> (#[trigger] final(p).errors().contains_key(k) <==> old(p).errors().contains_key(k))
                && final(p).errors()[k] == old(p).errors()[k],
        final(p).times() == old(p).times() && final(p).counts() == old(p).counts(),
{
}

/// What is said of all operations is said once of each, and of none that was not measured: how
/// often it ran and how often it failed.
pub proof fn all_operations_are_described(p: &PerformanceMonitor, r: Vec<OperationMetrics>, i: int, j: int)
    requires
        call_ensures(PerformanceMonitor::get_all_metrics, (p,), r),
    ensures
        0 <= i < r@.len() ==> p.counts().contains_key(r@[i].operation@) && r@[i].count == p.counts()[r@[i].operation@]
            && p.times().contains_key(r@[i].operation@) && p.times()[r@[i].operation@]@.len() > 0 && r@[i].error_count == (
        if p.errors().contains_key(r@[i].operation@) {
            p.errors()[r@[i].operation@]
        } else {
            0
        }),
        0 <= i < j < r@.len() ==> r@[i].operation@ != r@[j].operation@,
{
    if 0 <= i < r@.len() {
        assert(p.describes(r@[i]));
    }
}

/// A read is a hit where the key is there and a miss where not; what is cached stays.
pub proof fn reads_are_counted<V>(c: &mut CowCache<V>, key: &str, r: Option<&V>)
    requires
        call_ensures(CowCache::<V>::get_cow, (c, key), r),
    ensures
        final(c)@ == old(c)@,
        r is Some <==> old(c)@.contains_key(key@),
        r matches Some(v) ==> *v == old(c)@[key@],
        r is Some && old(c).hits() < u64::MAX ==> final(c).hits() == old(c).hits() + 1 && final(c).misses() == old(c).misses(),
        r is None && old(c).misses() < u64::MAX ==> final(c).misses() == old(c).misses() + 1 && final(c).hits() == old(c).hits(),
{
}

} // verus!
