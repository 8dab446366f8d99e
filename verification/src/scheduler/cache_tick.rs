//! One pass of the cache controller over every module it has statistics
//! for: which modules the workers are told to cache and to drop.
use vstd::prelude::*;

use super::cache_control::{
    candidate_due, lemma_reuse_due_exactly, memory_needed, module_plan, plan_allowed, reuse_due,
    stale, CacheChoice, MAX_MEMORY_USAGE, REUSE_WINDOW_NANOS,
};
use super::eviction::{
    head_evictable, priority_of, removed_alike, stuck_at, EvictionQueue, RoomOutcome,
    MAX_EVICTION_CANDIDATES,
};
use super::stats::ModuleStats;
use super::types::GCCSignal;

verus! {

/// A module as one pass of the cache controller sees it.
pub struct TickEntry {
    pub path: String,
    pub stats: ModuleStats,
    /// Its path is forbidden: the pass leaves it alone.
    pub forbidden: bool,
    /// The time at which the pass reaches it.
    pub now: u64,
    /// The bits of the rate at which it ran since it first ran.
    pub rate_bits: u64,
}

/// The path a signal names.
pub open spec fn signal_path(g: GCCSignal) -> Seq<char> {
    match g {
        GCCSignal::CacheModule { path } => path@,
        GCCSignal::EvictModule { path } => path@,
    }
}

/// `p` is the path of a module the pass does not leave alone.
pub open spec fn open_path(entries: Seq<TickEntry>, p: Seq<char>) -> bool {
    exists|i: int| 0 <= i < entries.len() && !entries[i].forbidden && #[trigger] entries[i].path@ == p
}

/// The signal tells the workers to cache `p`.
pub open spec fn caches(g: GCCSignal, p: Seq<char>) -> bool {
    match g {
        GCCSignal::CacheModule { path } => path@ == p,
        GCCSignal::EvictModule { .. } => false,
    }
}

/// The signal tells the workers to drop `p`.
pub open spec fn evicts(g: GCCSignal, p: Seq<char>) -> bool {
    match g {
        GCCSignal::EvictModule { path } => path@ == p,
        GCCSignal::CacheModule { .. } => false,
    }
}

/// Among the signals `out`, one tells the workers to cache `p`.
pub open spec fn sends_cache(out: Seq<GCCSignal>, p: Seq<char>) -> bool {
    exists|k: int| 0 <= k < out.len() && caches(#[trigger] out[k], p)
}

/// Among the signals `out`, one tells the workers to drop `p`.
pub open spec fn sends_evict(out: Seq<GCCSignal>, p: Seq<char>) -> bool {
    exists|k: int| 0 <= k < out.len() && evicts(#[trigger] out[k], p)
}

/// Every plan in the pass can be computed: `plan_allowed` for each module
/// that is not left alone.
pub open spec fn tick_allowed(entries: Seq<TickEntry>, workers: usize, memory_in_use: usize) -> bool {
    forall|i: int|
        0 <= i < entries.len() && !entries[i].forbidden ==> plan_allowed(
            #[trigger] entries[i].stats,
            entries[i].now,
            workers,
            memory_in_use,
        )
}

/// A signal as plain values: whether it says to cache (else to drop), and
/// the path it names.
pub open spec fn signal_view(g: GCCSignal) -> (bool, Seq<char>) {
    match g {
        GCCSignal::CacheModule { path } => (true, path@),
        GCCSignal::EvictModule { path } => (false, path@),
    }
}

/// Signals as plain values.
pub open spec fn signal_views(out: Seq<GCCSignal>) -> Seq<(bool, Seq<char>)> {
    out.map_values(|g: GCCSignal| signal_view(g))
}

/// What the pass does about caching module `e` whose plan says it is due
/// (with `workers` workers and `memory_in_use` bytes cached), the eviction
/// candidates going from `before` to `after`, with signals `sig`, and
/// whether the pass gets stuck there. A module not due for reuse gets
/// nothing; one that fits is cached; one that does not fit needs room: with
/// no candidates it gets nothing; else the candidate first in line is
/// evicted and the module cached, or, where that candidate cannot be
/// evicted, the pass is stuck.
pub open spec fn room_step(
    e: TickEntry,
    workers: usize,
    memory_in_use: usize,
    before: Map<(Seq<char>, usize), u64>,
    after: Map<(Seq<char>, usize), u64>,
    sig: Seq<(bool, Seq<char>)>,
    stuck: bool,
) -> bool {
    let needed = memory_needed(e.stats, workers, memory_in_use);
    if !reuse_due(e.stats, e.now) {
        sig == Seq::<(bool, Seq<char>)>::empty() && after == before && !stuck
    } else if needed < MAX_MEMORY_USAGE {
        sig == seq![(true, e.path@)] && after == before && !stuck
    } else {
        ||| before.dom() == Set::<(Seq<char>, usize)>::empty() && sig == Seq::<(bool, Seq<char>)>::empty()
            && after == before && !stuck
        ||| !stuck && exists|x: (Seq<char>, usize), y: (Seq<char>, usize)|
            head_evictable(before, x, needed as usize, e.rate_bits) && #[trigger] removed_alike(before, after, x, y)
                && sig == seq![(false, x.0), (true, e.path@)]
        ||| stuck && sig == Seq::<(bool, Seq<char>)>::empty() && exists|x: (Seq<char>, usize)|
            #[trigger] stuck_at(before, x, needed as usize, e.rate_bits)
    }
}

/// What the pass does about module `e`, the eviction candidates going from
/// `before` to `after`, with signals `sig`, and whether it gets stuck there:
/// a module left alone gets nothing; else its caching is decided
/// (`room_step`), then a stale module is dropped, and a rarely used cached
/// module is offered as a candidate (while fewer than
/// `MAX_EVICTION_CANDIDATES` are queued).
pub open spec fn entry_step(
    e: TickEntry,
    workers: usize,
    memory_in_use: usize,
    before: Map<(Seq<char>, usize), u64>,
    after: Map<(Seq<char>, usize), u64>,
    sig: Seq<(bool, Seq<char>)>,
    stuck: bool,
) -> bool {
    if e.forbidden {
        sig == Seq::<(bool, Seq<char>)>::empty() && after == before && !stuck
    } else {
        exists|mid: Map<(Seq<char>, usize), u64>, sig1: Seq<(bool, Seq<char>)>|
            #[trigger] room_step(e, workers, memory_in_use, before, mid, sig1, stuck) && if stuck {
                sig == sig1
            } else {
                &&& sig == sig1 + if stale(e.stats, e.now) {
                    seq![(false, e.path@)]
                } else {
                    Seq::<(bool, Seq<char>)>::empty()
                }
                &&& after == if candidate_due(e.stats, e.now) && mid.len() < MAX_EVICTION_CANDIDATES {
                    mid.insert(
                        (e.path@, (e.stats.memory_usage * e.stats.cached_instances) as usize),
                        priority_of(e.rate_bits),
                    )
                } else {
                    mid
                }
            }
    }
}

/// The signals of the modules one after the other.
pub open spec fn concat_all(sigs: Seq<Seq<(bool, Seq<char>)>>) -> Seq<(bool, Seq<char>)>
    decreases sigs.len(),
{
    if sigs.len() == 0 {
        Seq::<(bool, Seq<char>)>::empty()
    } else {
        concat_all(sigs.drop_last()) + sigs.last()
    }
}

/// A pass sends nothing that says to cache, and never gets stuck, for a
/// module that is not due for caching: one that ran only once, whose last
/// two runs were `REUSE_WINDOW_NANOS` or more apart, or whose last run was
/// that long before the pass reached it.
pub proof fn lemma_no_cache_unless_due(
    e: TickEntry,
    workers: usize,
    memory_in_use: usize,
    before: Map<(Seq<char>, usize), u64>,
    after: Map<(Seq<char>, usize), u64>,
    sig: Seq<(bool, Seq<char>)>,
    stuck: bool,
)
    requires
        entry_step(e, workers, memory_in_use, before, after, sig, stuck),
        !(e.stats.pre_last_invocation is Some && e.stats.last_invocation < e.stats.pre_last_invocation->0
            + REUSE_WINDOW_NANOS && e.now < e.stats.last_invocation + REUSE_WINDOW_NANOS),
    ensures
        !stuck,
        forall|k: int| 0 <= k < sig.len() ==> !(#[trigger] sig[k]).0,
{
    lemma_reuse_due_exactly(e.stats, e.now);
    if !e.forbidden {
        let (mid, sig1) = choose|mid: Map<(Seq<char>, usize), u64>, sig1: Seq<(bool, Seq<char>)>|
            #[trigger] room_step(e, workers, memory_in_use, before, mid, sig1, stuck) && if stuck {
                sig == sig1
            } else {
                &&& sig == sig1 + if stale(e.stats, e.now) {
                    seq![(false, e.path@)]
                } else {
                    Seq::<(bool, Seq<char>)>::empty()
                }
                &&& after == if candidate_due(e.stats, e.now) && mid.len() < MAX_EVICTION_CANDIDATES {
                    mid.insert(
                        (e.path@, (e.stats.memory_usage * e.stats.cached_instances) as usize),
                        priority_of(e.rate_bits),
                    )
                } else {
                    mid
                }
            };
        assert(sig1.len() == 0);
        assert forall|k: int| 0 <= k < sig.len() implies !(#[trigger] sig[k]).0 by {
            assert(sig[k] == (false, e.path@));
        }
    }
}

/// Passing over `es` in order without getting stuck, module `j` sending the
/// signals `sigs[j]` and taking the candidates from `qs[j]` to `qs[j + 1]`,
/// starting with none.
pub open spec fn tick_runs(
    es: Seq<TickEntry>,
    workers: usize,
    memory_in_use: usize,
    sigs: Seq<Seq<(bool, Seq<char>)>>,
    qs: Seq<Map<(Seq<char>, usize), u64>>,
) -> bool {
    &&& sigs.len() == es.len()
    &&& qs.len() == es.len() + 1
    &&& qs[0] == Map::<(Seq<char>, usize), u64>::empty()
    &&& forall|j: int|
        #![trigger sigs[j]]
        0 <= j < es.len() ==> entry_step(es[j], workers, memory_in_use, qs[j], qs[j + 1], sigs[j], false)
}

/// Passing over `es` in order, from no candidates and without getting
/// stuck, may send the signals `sig`.
pub open spec fn tick_of(es: Seq<TickEntry>, workers: usize, memory_in_use: usize, sig: Seq<(bool, Seq<char>)>) -> bool {
    exists|sigs: Seq<Seq<(bool, Seq<char>)>>, qs: Seq<Map<(Seq<char>, usize), u64>>|
        #[trigger] tick_runs(es, workers, memory_in_use, sigs, qs) && concat_all(sigs) == sig
}

/// Passing over `es` in order, from no candidates and without getting
/// stuck, may send the signals `sig` and leave the candidates `q`.
pub open spec fn tick_leaves(
    es: Seq<TickEntry>,
    workers: usize,
    memory_in_use: usize,
    sig: Seq<(bool, Seq<char>)>,
    q: Map<(Seq<char>, usize), u64>,
) -> bool {
    exists|sigs: Seq<Seq<(bool, Seq<char>)>>, qs: Seq<Map<(Seq<char>, usize), u64>>|
        #[trigger] tick_runs(es, workers, memory_in_use, sigs, qs) && concat_all(sigs) == sig && qs.last() == q
}

proof fn lemma_tick_step(
    es: Seq<TickEntry>,
    workers: usize,
    memory_in_use: usize,
    sigs: Seq<Seq<(bool, Seq<char>)>>,
    qs: Seq<Map<(Seq<char>, usize), u64>>,
    e: TickEntry,
    sig1: Seq<(bool, Seq<char>)>,
    q: Map<(Seq<char>, usize), u64>,
)
    requires
        tick_runs(es, workers, memory_in_use, sigs, qs),
        entry_step(e, workers, memory_in_use, qs.last(), q, sig1, false),
    ensures
        tick_runs(es.push(e), workers, memory_in_use, sigs.push(sig1), qs.push(q)),
        concat_all(sigs.push(sig1)) == concat_all(sigs) + sig1,
{
    let es2 = es.push(e);
    let sigs2 = sigs.push(sig1);
    let qs2 = qs.push(q);
    assert(sigs2.drop_last() =~= sigs);
    assert forall|j: int| #![trigger sigs2[j]] 0 <= j < es2.len() implies entry_step(
        es2[j],
        workers,
        memory_in_use,
        qs2[j],
        qs2[j + 1],
        sigs2[j],
        false,
    ) by {
        if j < es.len() {
            assert(sigs2[j] == sigs[j]);
            assert(entry_step(es[j], workers, memory_in_use, qs[j], qs[j + 1], sigs[j], false));
        }
    }
}

/// Appends a signal.
fn push_signal(out: &mut Vec<GCCSignal>, g: GCCSignal)
    ensures
        final(out)@ == old(out)@.push(g),
        signal_views(final(out)@) == signal_views(old(out)@).push(signal_view(g)),
        forall|p: Seq<char>| sends_cache(old(out)@, p) ==> sends_cache(final(out)@, p),
        forall|p: Seq<char>| sends_evict(old(out)@, p) ==> sends_evict(final(out)@, p),
        caches(g, signal_path(g)) ==> sends_cache(final(out)@, signal_path(g)),
        evicts(g, signal_path(g)) ==> sends_evict(final(out)@, signal_path(g)),
{
    let ghost before = out@;
    out.push(g);
    proof {
        assert(signal_views(out@) =~= signal_views(before).push(signal_view(g)));
        assert(out@[before.len() as int] == g);
        assert forall|p: Seq<char>| sends_cache(before, p) implies sends_cache(out@, p) by {
            let k = choose|k: int| 0 <= k < before.len() && caches(#[trigger] before[k], p);
            assert(out@[k] == before[k]);
        }
        assert forall|p: Seq<char>| sends_evict(before, p) implies sends_evict(out@, p) by {
            let k = choose|k: int| 0 <= k < before.len() && evicts(#[trigger] before[k], p);
            assert(out@[k] == before[k]);
        }
    }
}

/// The signals of one pass of the cache controller over `entries`, with
/// `workers` workers and `memory_in_use` bytes cached, in the order they are
/// sent, and whether the pass got stuck. A pass that is not stuck is one
/// that `tick_of` allows over all of `entries`; a stuck one went as
/// `tick_of` allows up to some module, which is due for reuse, needs room,
/// and meets a candidate first in line that cannot be evicted for it. Every
/// signal names a module that is not left alone; a pass that is not stuck
/// drops every stale module and caches every module due for reuse that fits.
pub fn cache_tick(entries: &Vec<TickEntry>, workers: usize, memory_in_use: usize) -> (r: (Vec<GCCSignal>, bool))
    requires
        tick_allowed(entries@, workers, memory_in_use),
    ensures
        !r.1 ==> tick_of(entries@, workers, memory_in_use, signal_views(r.0@)),
        r.1 ==> exists|n: int, q0: Map<(Seq<char>, usize), u64>, q1: Map<(Seq<char>, usize), u64>|
            0 <= n < entries@.len() && tick_leaves(entries@.take(n), workers, memory_in_use, signal_views(r.0@), q0)
                && #[trigger] entry_step(
                entries@[n],
                workers,
                memory_in_use,
                q0,
                q1,
                Seq::<(bool, Seq<char>)>::empty(),
                true,
            ),
        forall|k: int| 0 <= k < r.0@.len() ==> open_path(entries@, signal_path(#[trigger] r.0@[k])),
        !r.1 ==> forall|i: int|
            0 <= i < entries@.len() && !entries@[i].forbidden && stale(entries@[i].stats, entries@[i].now)
                ==> sends_evict(r.0@, #[trigger] entries@[i].path@),
        !r.1 ==> forall|i: int|
            0 <= i < entries@.len() && !entries@[i].forbidden && reuse_due(entries@[i].stats, entries@[i].now)
                && memory_needed(entries@[i].stats, workers, memory_in_use) < MAX_MEMORY_USAGE
                ==> sends_cache(r.0@, #[trigger] entries@[i].path@),
{
    let mut queue = EvictionQueue::new();
    let mut out: Vec<GCCSignal> = Vec::new();
    let mut i: usize = 0;
    let ghost mut sigs: Seq<Seq<(bool, Seq<char>)>> = Seq::empty();
    let ghost mut qs: Seq<Map<(Seq<char>, usize), u64>> = seq![Map::<(Seq<char>, usize), u64>::empty()];
    proof {
        assert(signal_views(out@) =~= Seq::<(bool, Seq<char>)>::empty());
        assert(entries@.take(0) =~= Seq::<TickEntry>::empty());
    }
    while i < entries.len()
        invariant
            tick_allowed(entries@, workers, memory_in_use),
            i <= entries@.len(),
            queue.wf(),
            tick_runs(entries@.take(i as int), workers, memory_in_use, sigs, qs),
            concat_all(sigs) == signal_views(out@),
            qs.last() == queue.contents(),
            forall|x: (Seq<char>, usize)| #[trigger] queue.contents().contains_key(x) ==> open_path(entries@, x.0),
            forall|k: int| 0 <= k < out@.len() ==> open_path(entries@, signal_path(#[trigger] out@[k])),
            forall|j: int|
                0 <= j < i && !entries@[j].forbidden && stale(entries@[j].stats, entries@[j].now)
                    ==> sends_evict(out@, #[trigger] entries@[j].path@),
            forall|j: int|
                0 <= j < i && !entries@[j].forbidden && reuse_due(entries@[j].stats, entries@[j].now)
                    && memory_needed(entries@[j].stats, workers, memory_in_use) < MAX_MEMORY_USAGE
                    ==> sends_cache(out@, #[trigger] entries@[j].path@),
        decreases entries@.len() - i,
    {
        let e = &entries[i];
        let ghost q0 = queue.contents();
        let ghost sig0 = signal_views(out@);
        let ghost mut sig1: Seq<(bool, Seq<char>)> = Seq::empty();
        if !e.forbidden {
            assert(open_path(entries@, e.path@)) by {
                assert(entries@[i as int].path@ == e.path@);
            }
            assert(plan_allowed(entries@[i as int].stats, entries@[i as int].now, workers, memory_in_use));
            let plan = module_plan(&e.stats, false, e.now, workers, memory_in_use);
            let ghost mut room: Seq<(bool, Seq<char>)> = Seq::empty();
            match plan.caching {
                CacheChoice::Nothing => {},
                CacheChoice::Cache => {
                    push_signal(&mut out, GCCSignal::CacheModule { path: e.path.clone() });
                    proof {
                        room = seq![(true, e.path@)];
                    }
                },
                CacheChoice::NeedsRoom { needed } => {
                    match queue.make_room(needed, e.rate_bits) {
                        RoomOutcome::Fits => {
                            push_signal(&mut out, GCCSignal::CacheModule { path: e.path.clone() });
                        },
                        RoomOutcome::Evicted { path, total } => {
                            let ghost x = (path@, total);
                            proof {
                                assert(open_path(entries@, path@));
                                let y = choose|y: (Seq<char>, usize)| removed_alike(q0, queue.contents(), x, y);
                                assert(removed_alike(q0, queue.contents(), x, y));
                                room = seq![(false, path@), (true, e.path@)];
                            }
                            push_signal(&mut out, GCCSignal::EvictModule { path });
                            push_signal(&mut out, GCCSignal::CacheModule { path: e.path.clone() });
                        },
                        RoomOutcome::GiveUp => {},
                        RoomOutcome::Stuck => {
                            proof {
                                let x = choose|x: (Seq<char>, usize)| stuck_at(q0, x, needed, e.rate_bits);
                                assert(room_step(entries@[i as int], workers, memory_in_use, q0, q0, Seq::<(bool, Seq<char>)>::empty(), true));
                                assert(entry_step(entries@[i as int], workers, memory_in_use, q0, q0, Seq::<(bool, Seq<char>)>::empty(), true));
                                assert(tick_runs(entries@.take(i as int), workers, memory_in_use, sigs, qs));
                            }
                            return (out, true);
                        },
                    }
                },
            }
            let ghost mid = queue.contents();
            proof {
                assert(signal_views(out@) =~= sig0 + room);
                assert(room_step(entries@[i as int], workers, memory_in_use, q0, mid, room, false));
            }
            let ghost mut tail: Seq<(bool, Seq<char>)> = Seq::empty();
            if plan.evict_stale {
                push_signal(&mut out, GCCSignal::EvictModule { path: e.path.clone() });
                proof {
                    tail = seq![(false, e.path@)];
                }
            }
            proof {
                assert(signal_views(out@) =~= sig0 + (room + tail));
            }
            match plan.candidate {
                Some(total) => {
                    let _ = queue.offer(e.path.clone(), total, e.rate_bits);
                },
                None => {},
            }
            proof {
                assert(entry_step(entries@[i as int], workers, memory_in_use, q0, queue.contents(), room + tail, false));
                sig1 = room + tail;
            }
        } else {
            proof {
                assert(signal_views(out@) =~= sig0 + Seq::<(bool, Seq<char>)>::empty());
                assert(entry_step(entries@[i as int], workers, memory_in_use, q0, q0, Seq::<(bool, Seq<char>)>::empty(), false));
            }
        }
        proof {
            assert(entries@.take(i + 1) =~= entries@.take(i as int).push(entries@[i as int]));
            lemma_tick_step(entries@.take(i as int), workers, memory_in_use, sigs, qs, entries@[i as int], sig1, queue.contents());
            sigs = sigs.push(sig1);
            qs = qs.push(queue.contents());
            assert(signal_views(out@) =~= concat_all(sigs));
        }
        i = i + 1;
    }
    proof {
        assert(entries@.take(i as int) =~= entries@);
        assert(tick_runs(entries@, workers, memory_in_use, sigs, qs));
        assert(tick_of(entries@, workers, memory_in_use, signal_views(out@)));
    }
    (out, false)
}

} // verus!
