use std::sync::atomic::{AtomicI64, Ordering};
use std::sync::Arc;
use vstd::prelude::*;
use vstd::rwlock::{RwLock, RwLockPredicate};

use crate::counters::{Counters, MetricsError};
use crate::text::{int_text, push_int};

verus! {

/// What a lock of counters keeps: well-formed counters.
pub struct CountersWf;

impl RwLockPredicate<Counters> for CountersWf {
    open spec fn inv(self, v: Counters) -> bool {
        v.wf()
    }
}

/// Counters shared between threads, updated under an exclusive lock.
#[derive(Clone)]
pub struct Metrics {
    data: Arc<RwLock<Counters, CountersWf>>,
}

/// Counters shared between threads, updated under the write side of a
/// reader-writer lock and read under its read side.
#[derive(Clone)]
pub struct RwLockMetrics {
    data: Arc<RwLock<Counters, CountersWf>>,
}

/// Takes the lock, adds `delta` to the counter of `key`, and releases it.
fn locked_add(lock: &RwLock<Counters, CountersWf>, key: &str, delta: i64) -> (r: Result<
    (),
    MetricsError,
>)
    ensures
        r is Err ==> r == Err::<(), MetricsError>(MetricsError::Overflow),
{
    let (mut counters, handle) = lock.acquire_write();
    let r = counters.add(key, delta);
    handle.release_write(counters);
    r
}

impl Metrics {
    /// The lock keeps well-formed counters.
    pub closed spec fn guards_counters(&self) -> bool {
        self.data.pred() == CountersWf
    }

    /// No counters yet.
    pub fn new() -> (r: Metrics)
        ensures
            r.guards_counters(),
    {
        Metrics { data: Arc::new(RwLock::new(Counters::new(), Ghost(CountersWf))) }
    }

    /// Adds one to the counter of `key`, which starts at zero; `Overflow`
    /// when it is already at `i64::MAX`, which leaves it there.
    pub fn inc(&self, key: &str) -> (r: Result<(), MetricsError>)
        ensures
            r is Err ==> r == Err::<(), MetricsError>(MetricsError::Overflow),
    {
        locked_add(&self.data, key, 1)
    }

    /// Takes one from the counter of `key`, which starts at zero; `Overflow`
    /// when it is already at `i64::MIN`, which leaves it there.
    pub fn desc(&self, key: &str) -> (r: Result<(), MetricsError>)
        ensures
            r is Err ==> r == Err::<(), MetricsError>(MetricsError::Overflow),
    {
        locked_add(&self.data, key, -1)
    }

    /// A copy of the counters as they stand.
    pub fn snapshot(&self) -> (r: Result<Counters, MetricsError>)
        ensures
            r matches Ok(c) ==> c.wf(),
            r is Ok,
    {
        let (counters, handle) = self.data.acquire_write();
        let copy = counters.duplicate();
        handle.release_write(counters);
        Ok(copy)
    }
}

impl Default for Metrics {
    /// The same as `Metrics::new`.
    fn default() -> (r: Metrics)
        ensures
            r.guards_counters(),
    {
        Metrics::new()
    }
}

impl RwLockMetrics {
    /// No counters yet.
    pub fn new() -> (r: RwLockMetrics) {
        RwLockMetrics { data: Arc::new(RwLock::new(Counters::new(), Ghost(CountersWf))) }
    }

    /// Adds one to the counter of `key`, which starts at zero; `Overflow`
    /// when it is already at `i64::MAX`, which leaves it there.
    pub fn inc(&self, key: &str) -> (r: Result<(), MetricsError>)
        ensures
            r is Err ==> r == Err::<(), MetricsError>(MetricsError::Overflow),
    {
        locked_add(&self.data, key, 1)
    }

    /// Takes one from the counter of `key`, which starts at zero; `Overflow`
    /// when it is already at `i64::MIN`, which leaves it there.
    pub fn desc(&self, key: &str) -> (r: Result<(), MetricsError>)
        ensures
            r is Err ==> r == Err::<(), MetricsError>(MetricsError::Overflow),
    {
        locked_add(&self.data, key, -1)
    }

    /// A copy of the counters as they stand, taken under the read lock.
    pub fn snapshot(&self) -> (r: Result<Counters, MetricsError>)
        ensures
            r matches Ok(c) ==> c.wf(),
            r is Ok,
    {
        let handle = self.data.acquire_read();
        let copy = handle.borrow().duplicate();
        handle.release_read();
        Ok(copy)
    }

    /// The counters as they stand, as `{"key1": 2, "key2": 1}`.
    pub fn to_string(&self) -> (r: String)
        ensures
            exists|c: Counters| c.wf() && r@ == c.text(),
    {
        let handle = self.data.acquire_read();
        let counters = handle.borrow();
        let text = counters.to_string();
        proof {
            assert(counters.wf() && text@ == counters.text());
        }
        handle.release_read();
        text
    }
}

/// Counters over a set of names fixed when they are made, each updated
/// atomically without a lock. A name outside the set is ignored.
#[derive(Clone)]
pub struct AtomicMetrics {
    data: Arc<Vec<(String, AtomicI64)>>,
}

/// The position of the counter named `key`, if there is one.
fn position(entries: &Vec<(String, AtomicI64)>, key: &String) -> (r: Option<usize>)
    ensures
        r matches Some(i) ==> i < entries@.len() && entries@[i as int].0@ == key@,
        r is None ==> forall|t: int| 0 <= t < entries@.len() ==> (#[trigger] entries@[t]).0@ != key@,
{
    let mut i: usize = 0;
    while i < entries.len()
        invariant
            i <= entries@.len(),
            forall|t: int| 0 <= t < i ==> (#[trigger] entries@[t]).0@ != key@,
        decreases entries@.len() - i,
    {
        if entries[i].0 == *key {
            return Some(i);
        }
        i = i + 1;
    }
    None
}

/// Each name followed by `: ` and its value, one after another with nothing
/// between them: the first `n` of them.
pub open spec fn named_values_text(names: Seq<Seq<char>>, values: Seq<i64>, n: nat) -> Seq<char>
    decreases n,
{
    if n == 0 {
        Seq::empty()
    } else {
        named_values_text(names, values, (n - 1) as nat) + names[n - 1] + ": "@ + int_text(
            values[n - 1] as int,
        )
    }
}

impl AtomicMetrics {
    /// The names, in the order first given, each once.
    pub closed spec fn names(self) -> Seq<Seq<char>> {
        self.data@.map_values(|e: (String, AtomicI64)| e.0@)
    }

    /// One counter at zero for each distinct name of `keys`.
    pub fn new(keys: &[&str]) -> (r: AtomicMetrics)
        ensures
            forall|k: int| 0 <= k < keys@.len() ==> r.names().contains(#[trigger] keys@[k]@),
            forall|n: int|
                0 <= n < r.names().len() ==> keys@.map_values(|s: &str| s@).contains(
                    #[trigger] r.names()[n],
                ),
    {
        let mut entries: Vec<(String, AtomicI64)> = Vec::new();
        // for each key seen so far, the position of its counter; for each
        // counter, the key it was made from
        let ghost mut name_of: Seq<int> = Seq::empty();
        let ghost mut key_of: Seq<int> = Seq::empty();
        let mut k: usize = 0;
        while k < keys.len()
            invariant
                k <= keys@.len(),
                name_of.len() == k,
                key_of.len() == entries@.len(),
                forall|t: int|
                    0 <= t < k ==> 0 <= #[trigger] name_of[t] < entries@.len()
                        && entries@[name_of[t]].0@ == keys@[t]@,
                forall|i: int|
                    0 <= i < entries@.len() ==> 0 <= #[trigger] key_of[i] < k && keys@[key_of[i]]@
                        == entries@[i].0@,
            decreases keys@.len() - k,
        {
            let name = keys[k].to_owned();
            match position(&entries, &name) {
                Some(i) => {
                    proof {
                        name_of = name_of.push(i as int);
                    }
                },
                None => {
                    proof {
                        name_of = name_of.push(entries@.len() as int);
                        key_of = key_of.push(k as int);
                    }
                    entries.push((name, AtomicI64::new(0)));
                },
            }
            k = k + 1;
        }
        let r = AtomicMetrics { data: Arc::new(entries) };
        proof {
            assert forall|k: int| 0 <= k < keys@.len() implies r.names().contains(
                #[trigger] keys@[k]@,
            ) by {
                assert(r.names()[name_of[k]] == keys@[k]@);
            }
            assert forall|n: int| 0 <= n < r.names().len() implies keys@.map_values(
                |s: &str| s@,
            ).contains(#[trigger] r.names()[n]) by {
                assert(keys@.map_values(|s: &str| s@)[key_of[n]] == r.names()[n]);
            }
        }
        r
    }

    /// Adds one to the counter of `key`, wrapping on overflow; nothing
    /// happens for a name that was not given at construction.
    pub fn incr(&self, key: &str) -> (r: Result<(), MetricsError>)
        ensures
            r is Ok,
    {
        let name = key.to_owned();
        if let Some(i) = position(&self.data, &name) {
            let _ = self.data[i].1.fetch_add(1, Ordering::Relaxed);
        }
        Ok(())
    }

    /// Takes one from the counter of `key`, wrapping on overflow; nothing
    /// happens for a name that was not given at construction.
    pub fn desc(&self, key: &str) -> (r: Result<(), MetricsError>)
        ensures
            r is Ok,
    {
        let name = key.to_owned();
        if let Some(i) = position(&self.data, &name) {
            let _ = self.data[i].1.fetch_sub(1, Ordering::Relaxed);
        }
        Ok(())
    }

    /// Each name followed by `: ` and the value its counter held when it was
    /// read, one after another.
    pub fn to_string(&self) -> (r: String)
        ensures
            exists|values: Seq<i64>|
                values.len() == self.names().len() && r@ == named_values_text(
                    self.names(),
                    values,
                    self.names().len(),
                ),
    {
        let ghost names = self.names();
        let ghost mut values: Seq<i64> = Seq::empty();
        let mut s = String::new();
        let mut i: usize = 0;
        while i < self.data.len()
            invariant
                names == self.names(),
                i <= self.data@.len(),
                values.len() == i,
                s@ == named_values_text(names, values, i as nat),
            decreases self.data@.len() - i,
        {
            let v = self.data[i].1.load(Ordering::Relaxed);
            s.append(self.data[i].0.as_str());
            proof {
                reveal_strlit(": ");
            }
            s.append(": ");
            push_int(&mut s, v);
            proof {
                let prev = values;
                values = values.push(v);
                assert(named_values_text(names, values, i as nat) == named_values_text(
                    names,
                    prev,
                    i as nat,
                )) by {
                    lemma_named_values_prefix(names, prev, values, i as nat);
                }
                assert(s@ =~= named_values_text(names, values, (i + 1) as nat));
            }
            i = i + 1;
        }
        proof {
            assert(names.len() == self.data@.len());
            assert(values.len() == names.len() && s@ == named_values_text(
                names,
                values,
                names.len(),
            ));
        }
        s
    }
}

/// The text of the first `n` counters depends on their first `n` values only.
proof fn lemma_named_values_prefix(names: Seq<Seq<char>>, v1: Seq<i64>, v2: Seq<i64>, n: nat)
    requires
        n <= v1.len(),
        n <= v2.len(),
        forall|t: int| 0 <= t < n ==> v1[t] == v2[t],
    ensures
        named_values_text(names, v1, n) == named_values_text(names, v2, n),
    decreases n,
{
    if n > 0 {
        lemma_named_values_prefix(names, v1, v2, (n - 1) as nat);
    }
}

} // verus!
