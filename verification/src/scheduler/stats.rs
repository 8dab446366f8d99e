//! Usage statistics of the deployed modules, fed by what the workers' module
//! caches report, and the memory the cached modules take together.
use vstd::prelude::*;

use crate::path_map::{distinct_paths, PathMap};
use crate::workers::model::CacherTelemetry;

verus! {

/// How a module has been used. Times are nanoseconds on the scheduler's
/// clock.
#[derive(Clone, Copy)]
pub struct ModuleStats {
    pub memory_usage: usize,
    pub invokations: u64,
    pub first_invocation: u64,
    pub last_invocation: u64,
    pub pre_last_invocation: Option<u64>,
    pub last_eviction: Option<u64>,
    pub cached_instances: u64,
}

/// The statistics of every module seen so far, and the memory the cached
/// modules take (a counter that wraps around as an atomic counter does).
pub struct StatsTable {
    stats: PathMap<ModuleStats>,
    memory: usize,
}

impl View for StatsTable {
    type V = Map<Seq<char>, ModuleStats>;

    closed spec fn view(&self) -> Map<Seq<char>, ModuleStats> {
        self.stats@
    }
}

impl StatsTable {
    /// No path is recorded twice.
    pub closed spec fn wf(&self) -> bool {
        self.stats.wf()
    }

    /// The memory counter.
    pub closed spec fn memory_in_use(&self) -> usize {
        self.memory
    }

    /// The entries, in the order the paths were first recorded.
    pub closed spec fn order(&self) -> Seq<(String, ModuleStats)> {
        self.stats.order()
    }

    /// The entries in order stand for the table.
    pub proof fn lemma_order(&self)
        requires
            self.wf(),
        ensures
            distinct_paths(self.order()),
            forall|k: Seq<char>|
                #![trigger self@.contains_key(k)]
                self@.contains_key(k) <==> exists|i: int|
                    0 <= i < self.order().len() && self.order()[i].0@ == k,
            forall|i: int|
                #![trigger self.order()[i]]
                0 <= i < self.order().len() ==> self@[self.order()[i].0@] == self.order()[i].1,
    {
        self.stats.lemma_order();
    }

    /// An empty table with the counter at zero.
    pub fn new() -> (t: StatsTable)
        ensures
            t.wf(),
            t@ == Map::<Seq<char>, ModuleStats>::empty(),
            t.memory_in_use() == 0,
    {
        StatsTable { stats: PathMap::new(), memory: 0 }
    }

    /// The memory counter.
    pub fn memory_usage(&self) -> (m: usize)
        ensures
            m == self.memory_in_use(),
    {
        self.memory
    }

    /// The statistics of the module at `path`, if it has any.
    pub fn get(&self, path: &String) -> (r: Option<ModuleStats>)
        requires
            self.wf(),
        ensures
            r == (if self@.contains_key(path@) {
                Some(self@[path@])
            } else {
                None::<ModuleStats>
            }),
    {
        match self.stats.get(path) {
            Some(s) => Some(*s),
            None => None,
        }
    }

    /// Records `stats` for the module at `path`, replacing what it had.
    pub fn set(&mut self, path: String, stats: ModuleStats)
        requires
            old(self).wf(),
        ensures
            final(self).wf(),
            final(self)@ == old(self)@.insert(path@, stats),
            final(self).memory_in_use() == old(self).memory_in_use(),
    {
        self.stats.set(path, stats);
    }

    /// Sets the memory counter.
    fn set_memory(&mut self, memory: usize)
        ensures
            final(self).stats == old(self).stats,
            final(self).memory == memory,
    {
        self.memory = memory;
    }

    /// The entries, in order, as (path, statistics) pairs.
    pub fn entries(&self) -> (r: Vec<(String, ModuleStats)>)
        ensures
            r@ == self.order(),
    {
        self.stats.entries()
    }
}

/// The statistics after one more instance of the module was cached.
pub open spec fn cached_once_more(s: ModuleStats) -> ModuleStats {
    ModuleStats { cached_instances: (s.cached_instances + 1) as u64, ..s }
}

/// The statistics after an instance of the module was evicted at `now`.
pub open spec fn evicted_once(s: ModuleStats, now: u64) -> ModuleStats {
    ModuleStats { last_eviction: Some(now), cached_instances: (s.cached_instances - 1) as u64, ..s }
}

/// The statistics after the module ran once more, at `now`.
pub open spec fn used_once_more(s: ModuleStats, now: u64) -> ModuleStats {
    ModuleStats {
        invokations: (s.invokations + 1) as u64,
        pre_last_invocation: Some(s.last_invocation),
        last_invocation: now,
        ..s
    }
}

/// A run counted at `now` adds one run, makes the last run the one before
/// and `now` the last; when the module first ran, the memory it needs, its
/// cached instances and its last eviction stay as they were.
pub proof fn lemma_used_once_more(s: ModuleStats, now: u64)
    requires
        s.invokations < u64::MAX,
    ensures
        used_once_more(s, now).invokations == s.invokations + 1,
        used_once_more(s, now).pre_last_invocation == Some(s.last_invocation),
        used_once_more(s, now).last_invocation == now,
        used_once_more(s, now).first_invocation == s.first_invocation,
        used_once_more(s, now).memory_usage == s.memory_usage,
        used_once_more(s, now).cached_instances == s.cached_instances,
        used_once_more(s, now).last_eviction == s.last_eviction,
{
}

/// One more cached instance changes nothing but the count of instances.
pub proof fn lemma_cached_once_more(s: ModuleStats)
    requires
        s.cached_instances < u64::MAX,
    ensures
        cached_once_more(s).cached_instances == s.cached_instances + 1,
        cached_once_more(s).invokations == s.invokations,
        cached_once_more(s).first_invocation == s.first_invocation,
        cached_once_more(s).last_invocation == s.last_invocation,
        cached_once_more(s).pre_last_invocation == s.pre_last_invocation,
        cached_once_more(s).memory_usage == s.memory_usage,
        cached_once_more(s).last_eviction == s.last_eviction,
{
}

/// An eviction at `now` removes one cached instance and records `now` as the
/// last eviction; the runs and the memory the module needs stay as they were.
pub proof fn lemma_evicted_once(s: ModuleStats, now: u64)
    requires
        s.cached_instances > 0,
    ensures
        evicted_once(s, now).cached_instances == s.cached_instances - 1,
        evicted_once(s, now).last_eviction == Some(now),
        evicted_once(s, now).invokations == s.invokations,
        evicted_once(s, now).first_invocation == s.first_invocation,
        evicted_once(s, now).last_invocation == s.last_invocation,
        evicted_once(s, now).pre_last_invocation == s.pre_last_invocation,
        evicted_once(s, now).memory_usage == s.memory_usage,
{
}

/// The statistics of a module first seen at `now`, needing `memory` bytes,
/// with one cached instance when `cached`.
pub open spec fn first_stats(memory: usize, cached: bool, now: u64) -> ModuleStats {
    ModuleStats {
        memory_usage: memory,
        invokations: 1,
        first_invocation: now,
        last_invocation: now,
        pre_last_invocation: None,
        last_eviction: None,
        cached_instances: if cached {
            1
        } else {
            0
        },
    }
}

/// A report may be handled: no counter of a recorded module would run past
/// its type, and an evicted module takes less memory than the counter holds.
pub open spec fn telemetry_allowed(
    t: Map<Seq<char>, ModuleStats>,
    memory: usize,
    signal: CacherTelemetry,
) -> bool {
    match signal {
        CacherTelemetry::ModuleCached { path } => t.contains_key(path@) ==> t[path@].cached_instances
            < u64::MAX,
        CacherTelemetry::ModuleEvicted { path } => t.contains_key(path@) ==> (t[path@].cached_instances
            > 0 && t[path@].memory_usage < memory),
        CacherTelemetry::ModuleUsed { path } => t.contains_key(path@) ==> t[path@].invokations
            < u64::MAX,
        CacherTelemetry::FailedToCache { .. } => true,
    }
}

/// What is left to do after a report of a module cache.
pub enum TelemetryAction {
    /// Nothing.
    Done,
    /// The module at `path` has no statistics yet: look up the memory it
    /// needs and hand it to `record_new_module`, with `cached`.
    LookUpMemory { path: String, cached: bool },
}

/// Handles one report of a worker's module cache, received at time `now`.
pub fn handle_telemetry(table: &mut StatsTable, signal: CacherTelemetry, now: u64) -> (r: TelemetryAction)
    requires
        old(table).wf(),
        telemetry_allowed(old(table)@, old(table).memory_in_use(), signal),
    ensures
        final(table).wf(),
        match signal {
            CacherTelemetry::ModuleCached { path } => if old(table)@.contains_key(path@) {
                &&& final(table)@ == old(table)@.insert(path@, cached_once_more(old(table)@[path@]))
                &&& final(table)@[path@].cached_instances == old(table)@[path@].cached_instances + 1
                &&& final(table)@[path@].invokations == old(table)@[path@].invokations
                &&& final(table)@[path@].first_invocation == old(table)@[path@].first_invocation
                &&& final(table)@[path@].last_invocation == old(table)@[path@].last_invocation
                &&& final(table)@[path@].pre_last_invocation == old(table)@[path@].pre_last_invocation
                &&& final(table)@[path@].memory_usage == old(table)@[path@].memory_usage
                &&& final(table)@[path@].last_eviction == old(table)@[path@].last_eviction
                &&& final(table).memory_in_use() == old(table).memory_in_use()
                &&& r is Done
            } else {
                &&& final(table)@ == old(table)@
                &&& final(table).memory_in_use() == old(table).memory_in_use()
                &&& r matches TelemetryAction::LookUpMemory { path: p, cached } && p@ == path@ && cached
            },
            CacherTelemetry::ModuleEvicted { path } => {
                &&& r is Done
                &&& if old(table)@.contains_key(path@) {
                    &&& final(table)@ == old(table)@.insert(path@, evicted_once(old(table)@[path@], now))
                    &&& final(table)@[path@].cached_instances == old(table)@[path@].cached_instances - 1
                    &&& final(table)@[path@].last_eviction == Some(now)
                    &&& final(table)@[path@].invokations == old(table)@[path@].invokations
                    &&& final(table)@[path@].first_invocation == old(table)@[path@].first_invocation
                    &&& final(table)@[path@].last_invocation == old(table)@[path@].last_invocation
                    &&& final(table)@[path@].pre_last_invocation == old(table)@[path@].pre_last_invocation
                    &&& final(table)@[path@].memory_usage == old(table)@[path@].memory_usage
                    &&& final(table).memory_in_use() == old(table).memory_in_use()
                        - old(table)@[path@].memory_usage
                } else {
                    &&& final(table)@ == old(table)@
                    &&& final(table).memory_in_use() == old(table).memory_in_use()
                }
            },
            CacherTelemetry::ModuleUsed { path } => if old(table)@.contains_key(path@) {
                &&& final(table)@ == old(table)@.insert(path@, used_once_more(old(table)@[path@], now))
                &&& final(table)@[path@].invokations == old(table)@[path@].invokations + 1
                &&& final(table)@[path@].pre_last_invocation == Some(old(table)@[path@].last_invocation)
                &&& final(table)@[path@].last_invocation == now
                &&& final(table)@[path@].first_invocation == old(table)@[path@].first_invocation
                &&& final(table)@[path@].memory_usage == old(table)@[path@].memory_usage
                &&& final(table)@[path@].cached_instances == old(table)@[path@].cached_instances
                &&& final(table)@[path@].last_eviction == old(table)@[path@].last_eviction
                &&& final(table).memory_in_use() == old(table).memory_in_use()
                &&& r is Done
            } else {
                &&& final(table)@ == old(table)@
                &&& final(table).memory_in_use() == old(table).memory_in_use()
                &&& r matches TelemetryAction::LookUpMemory { path: p, cached } && p@ == path@ && !cached
            },
            CacherTelemetry::FailedToCache { .. } => {
                &&& final(table)@ == old(table)@
                &&& final(table).memory_in_use() == old(table).memory_in_use()
                &&& r is Done
            },
        },
{
    match signal {
        CacherTelemetry::ModuleCached { path } => match table.get(&path) {
            Some(stats) => {
                let mut next = stats;
                next.cached_instances = stats.cached_instances + 1;
                table.set(path, next);
                TelemetryAction::Done
            },
            None => TelemetryAction::LookUpMemory { path, cached: true },
        },
        CacherTelemetry::ModuleEvicted { path } => match table.get(&path) {
            Some(stats) => {
                let mut next = stats;
                next.last_eviction = Some(now);
                next.cached_instances = stats.cached_instances - 1;
                let memory = table.memory - stats.memory_usage;
                table.set(path, next);
                table.set_memory(memory);
                TelemetryAction::Done
            },
            None => TelemetryAction::Done,
        },
        CacherTelemetry::ModuleUsed { path } => match table.get(&path) {
            Some(stats) => {
                let mut next = stats;
                next.invokations = stats.invokations + 1;
                next.pre_last_invocation = Some(stats.last_invocation);
                next.last_invocation = now;
                table.set(path, next);
                TelemetryAction::Done
            },
            None => TelemetryAction::LookUpMemory { path, cached: false },
        },
        CacherTelemetry::FailedToCache { .. } => TelemetryAction::Done,
    }
}

/// Records the first statistics of the module at `path`, seen at `now`, from
/// the memory it needs as the database gives it, and adds that memory to the
/// counter. A negative amount is refused and changes nothing. Gives whether
/// the module was recorded.
pub fn record_new_module(
    table: &mut StatsTable,
    path: String,
    memory_usage: i32,
    cached: bool,
    now: u64,
) -> (recorded: bool)
    requires
        old(table).wf(),
    ensures
        final(table).wf(),
        recorded == (memory_usage >= 0),
        recorded ==> final(table)@ == old(table)@.insert(
            path@,
            first_stats(memory_usage as usize, cached, now),
        ) && final(table).memory_in_use() == old(table).memory_in_use().wrapping_add(
            memory_usage as usize,
        ),
        !recorded ==> final(table)@ == old(table)@ && final(table).memory_in_use()
            == old(table).memory_in_use(),
{
    if memory_usage < 0 {
        return false;
    }
    let memory = memory_usage as usize;
    let stats = ModuleStats {
        memory_usage: memory,
        invokations: 1,
        first_invocation: now,
        last_invocation: now,
        pre_last_invocation: None,
        last_eviction: None,
        cached_instances: if cached {
            1
        } else {
            0
        },
    };
    table.set(path, stats);
    let total = table.memory.wrapping_add(memory);
    table.set_memory(total);
    true
}

/// Evicting the one cached instance of a module first seen when it was
/// cached takes back the memory its caching added to the counter (when the
/// counter did not wrap) and leaves no cached instance.
pub proof fn lemma_evict_undoes_first_cache(memory: usize, module_memory: usize, seen: u64, evicted: u64)
    requires
        memory + module_memory <= usize::MAX,
    ensures
        memory.wrapping_add(module_memory) - first_stats(module_memory, true, seen).memory_usage == memory,
        evicted_once(first_stats(module_memory, true, seen), evicted).cached_instances == 0,
        evicted_once(first_stats(module_memory, true, seen), evicted).last_eviction == Some(evicted),
{
}

/// Whether a report may be handled: `telemetry_allowed`.
pub fn telemetry_fits(table: &StatsTable, signal: &CacherTelemetry) -> (r: bool)
    requires
        table.wf(),
    ensures
        r == telemetry_allowed(table@, table.memory_in_use(), *signal),
{
    match signal {
        CacherTelemetry::ModuleCached { path } => match table.get(path) {
            Some(s) => s.cached_instances < u64::MAX,
            None => true,
        },
        CacherTelemetry::ModuleEvicted { path } => match table.get(path) {
            Some(s) => s.cached_instances > 0 && s.memory_usage < table.memory,
            None => true,
        },
        CacherTelemetry::ModuleUsed { path } => match table.get(path) {
            Some(s) => s.invokations < u64::MAX,
            None => true,
        },
        CacherTelemetry::FailedToCache { .. } => true,
    }
}

} // verus!
