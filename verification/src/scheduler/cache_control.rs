//! The cache controller's rules: which modules the workers should keep
//! compiled in their caches, which they should drop, and which may make room
//! for others.
use vstd::prelude::*;

use super::stats::ModuleStats;

verus! {

/// The cached modules may take at most this many bytes, over all workers.
pub const MAX_MEMORY_USAGE: usize = 512_000_000;

/// A module is worth caching when its last two runs were less than this
/// apart (60 s, in nanoseconds) and the last one is as recent.
pub const REUSE_WINDOW_NANOS: u64 = 60_000_000_000;

/// A module unused for longer than this (120 s, in nanoseconds) is dropped
/// from the caches.
pub const STALE_AFTER_NANOS: u64 = 120_000_000_000;

/// Nanoseconds in a second.
pub const NANOS_PER_SEC: u64 = 1_000_000_000;

/// Time from `earlier` to `later`, zero when `later` is not after it.
pub open spec fn since(later: u64, earlier: u64) -> int {
    if later > earlier {
        later - earlier
    } else {
        0
    }
}

/// The module ran twice within the reuse window, the last time within the
/// window before `now`.
pub open spec fn reuse_due(s: ModuleStats, now: u64) -> bool {
    &&& s.pre_last_invocation matches Some(pre) && since(s.last_invocation, pre) < REUSE_WINDOW_NANOS
    &&& since(now, s.last_invocation) < REUSE_WINDOW_NANOS
}

/// A module is due for caching exactly when it ran twice, its last two runs
/// were less than `REUSE_WINDOW_NANOS` apart (or the clock went back between
/// them), and its last run was less than `REUSE_WINDOW_NANOS` before `now`
/// (or after it): runs 60 s or more apart never make it due.
pub proof fn lemma_reuse_due_exactly(s: ModuleStats, now: u64)
    ensures
        reuse_due(s, now) <==> (s.pre_last_invocation is Some && s.last_invocation
            < s.pre_last_invocation->0 + REUSE_WINDOW_NANOS && now < s.last_invocation + REUSE_WINDOW_NANOS),
{
}

/// A module is stale exactly when its last run was more than
/// `STALE_AFTER_NANOS` before `now`.
pub proof fn lemma_stale_exactly(s: ModuleStats, now: u64)
    ensures
        stale(s, now) <==> now > s.last_invocation + STALE_AFTER_NANOS,
{
}

/// The memory caching the module on every worker takes, on top of what the
/// caches hold already.
pub open spec fn memory_needed(s: ModuleStats, workers: usize, memory_in_use: usize) -> int {
    s.memory_usage * workers + memory_in_use
}

/// Whole seconds since the module first ran.
pub open spec fn use_secs(s: ModuleStats, now: u64) -> int {
    since(now, s.first_invocation) / (NANOS_PER_SEC as int)
}

/// The module ran on average less than once every 20 seconds since it first
/// ran.
pub open spec fn rarely_used(s: ModuleStats, now: u64) -> bool {
    20 * s.invokations < use_secs(s, now)
}

/// The module has cached instances and is rarely used, so it may be evicted
/// to make room for another.
pub open spec fn candidate_due(s: ModuleStats, now: u64) -> bool {
    s.cached_instances > 0 && rarely_used(s, now)
}

/// The module was not used for longer than `STALE_AFTER_NANOS`.
pub open spec fn stale(s: ModuleStats, now: u64) -> bool {
    since(now, s.last_invocation) > STALE_AFTER_NANOS
}

/// The sums and products the plan computes fit in a `usize`.
pub open spec fn plan_allowed(s: ModuleStats, now: u64, workers: usize, memory_in_use: usize) -> bool {
    &&& reuse_due(s, now) ==> memory_needed(s, workers, memory_in_use) <= usize::MAX
    &&& s.cached_instances > 0 ==> s.cached_instances <= usize::MAX && s.memory_usage
        * s.cached_instances <= usize::MAX
}

/// What to do about caching a module.
pub enum CacheChoice {
    /// Nothing.
    Nothing,
    /// Tell every worker to cache it.
    Cache,
    /// It is worth caching but does not fit: `needed` bytes must be freed
    /// first.
    NeedsRoom { needed: usize },
}

/// What the cache controller does about one module in one pass.
pub struct ModulePlan {
    pub caching: CacheChoice,
    /// Tell every worker to drop it.
    pub evict_stale: bool,
    /// It may be evicted to make room; its cached instances take this many
    /// bytes.
    pub candidate: Option<usize>,
    /// Whole seconds since it first ran.
    pub use_secs: u64,
}

/// The plan for the module with statistics `stats` at time `now`, with
/// `workers` workers and `memory_in_use` bytes cached. A module whose path is
/// forbidden is left alone.
pub fn module_plan(
    stats: &ModuleStats,
    forbidden: bool,
    now: u64,
    workers: usize,
    memory_in_use: usize,
) -> (p: ModulePlan)
    requires
        plan_allowed(*stats, now, workers, memory_in_use),
    ensures
        p.use_secs == use_secs(*stats, now),
        forbidden ==> p.caching is Nothing && !p.evict_stale && p.candidate is None,
        !forbidden && !(stats.pre_last_invocation is Some && stats.last_invocation
            < stats.pre_last_invocation->0 + REUSE_WINDOW_NANOS && now < stats.last_invocation
            + REUSE_WINDOW_NANOS) ==> p.caching is Nothing,
        !forbidden && stats.pre_last_invocation is Some && stats.last_invocation
            < stats.pre_last_invocation->0 + REUSE_WINDOW_NANOS && now < stats.last_invocation
            + REUSE_WINDOW_NANOS ==> !(p.caching is Nothing),
        p.evict_stale <==> !forbidden && now > stats.last_invocation + STALE_AFTER_NANOS,
        p.candidate is Some <==> !forbidden && stats.cached_instances > 0 && 20 * stats.invokations < (if now
            > stats.first_invocation {
            (now - stats.first_invocation) / 1_000_000_000
        } else {
            0
        }),
        !forbidden ==> {
            &&& p.caching == if reuse_due(*stats, now) {
                if memory_needed(*stats, workers, memory_in_use) < MAX_MEMORY_USAGE {
                    CacheChoice::Cache
                } else {
                    CacheChoice::NeedsRoom {
                        needed: memory_needed(*stats, workers, memory_in_use) as usize,
                    }
                }
            } else {
                CacheChoice::Nothing
            }
            &&& p.evict_stale == stale(*stats, now)
            &&& p.candidate == if candidate_due(*stats, now) {
                Some((stats.memory_usage * stats.cached_instances) as usize)
            } else {
                None::<usize>
            }
        },
{
    let secs = elapsed_secs(stats, now);
    if forbidden {
        return ModulePlan { caching: CacheChoice::Nothing, evict_stale: false, candidate: None, use_secs: secs };
    }
    let since_last = now.saturating_sub(stats.last_invocation);
    let mut caching = CacheChoice::Nothing;
    match stats.pre_last_invocation {
        Some(pre) => {
            if stats.last_invocation.saturating_sub(pre) < REUSE_WINDOW_NANOS && since_last
                < REUSE_WINDOW_NANOS {
                proof {
                    assert(memory_needed(*stats, workers, memory_in_use) <= usize::MAX);
                    assert(stats.memory_usage * workers <= usize::MAX) by (nonlinear_arith)
                        requires
                            stats.memory_usage * workers + memory_in_use <= usize::MAX,
                            memory_in_use >= 0,
                    ;
                }
                let needed = stats.memory_usage * workers + memory_in_use;
                if needed < MAX_MEMORY_USAGE {
                    caching = CacheChoice::Cache;
                } else {
                    caching = CacheChoice::NeedsRoom { needed };
                }
            }
        },
        None => {},
    }
    let evict_stale = since_last > STALE_AFTER_NANOS;
    let mut candidate: Option<usize> = None;
    if stats.cached_instances > 0 {
        let invokations: u128 = stats.invokations as u128;
        if invokations * 20 < secs as u128 {
            let instances = stats.cached_instances as usize;
            candidate = Some(stats.memory_usage * instances);
        }
    }
    ModulePlan { caching, evict_stale, candidate, use_secs: secs }
}

/// Whole seconds since the module with statistics `stats` first ran, at
/// time `now`.
pub fn elapsed_secs(stats: &ModuleStats, now: u64) -> (r: u64)
    ensures
        r == use_secs(*stats, now),
{
    now.saturating_sub(stats.first_invocation) / NANOS_PER_SEC
}

/// Whether the plan for the module with statistics `stats` can be computed:
/// `plan_allowed`.
pub fn plan_fits(stats: &ModuleStats, now: u64, workers: usize, memory_in_use: usize) -> (r: bool)
    ensures
        r == plan_allowed(*stats, now, workers, memory_in_use),
{
    let memory: u128 = stats.memory_usage as u128;
    let reuse = match stats.pre_last_invocation {
        Some(pre) => stats.last_invocation.saturating_sub(pre) < REUSE_WINDOW_NANOS && now.saturating_sub(
            stats.last_invocation,
        ) < REUSE_WINDOW_NANOS,
        None => false,
    };
    if reuse {
        let w: u128 = workers as u128;
        proof {
            assert(memory * w <= 0xffff_ffff_ffff_ffffu128 * 0xffff_ffff_ffff_ffffu128) by (nonlinear_arith)
                requires
                    memory <= 0xffff_ffff_ffff_ffffu128,
                    w <= 0xffff_ffff_ffff_ffffu128,
            ;
        }
        let needed: u128 = memory * w + memory_in_use as u128;
        if needed > usize::MAX as u128 {
            return false;
        }
    }
    if stats.cached_instances > 0 {
        if stats.cached_instances as u128 > usize::MAX as u128 {
            return false;
        }
        let c: u128 = stats.cached_instances as u128;
        proof {
            assert(memory * c <= 0xffff_ffff_ffff_ffffu128 * 0xffff_ffff_ffff_ffffu128) by (nonlinear_arith)
                requires
                    memory <= 0xffff_ffff_ffff_ffffu128,
                    c <= 0xffff_ffff_ffff_ffffu128,
            ;
        }
        if memory * c > usize::MAX as u128 {
            return false;
        }
    }
    true
}

} // verus!
