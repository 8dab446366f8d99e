//! The two periodic monitors of the scheduler: the load monitor, which asks
//! for more workers when most are busy and for fewer when many are idle, and
//! the heartbeat monitor, which asks to drop workers that stopped reporting.
use vstd::prelude::*;

use super::pool::{distinct_keys, lemma_pairs_map_index, lemma_pairs_map_len, pairs_map, HeartbeatMap, LoadMap};
use super::types::SchedulerCommand;
use super::utils::{id_range, lemma_members, members_in, members_not_in, pool_consistent};

verus! {

/// A worker with at least this many jobs counts as busy.
pub const BUSY_LOAD: usize = 4;

/// How many workers one command adds or removes.
pub const STEP_WORKERS: usize = 4;

/// The pool is shrunk only while it has at least this many workers.
pub const MIN_POOL_FOR_DOWNGRADE: usize = 8;

/// A worker is dead when its last heartbeat is older than this (6 s, in
/// nanoseconds).
pub const HEARTBEAT_TIMEOUT_NANOS: u64 = 6_000_000_000;

/// How many entries of `s` have a load of at least `BUSY_LOAD`.
pub open spec fn busy_count(s: Seq<(usize, usize)>) -> nat
    decreases s.len(),
{
    if s.len() == 0 {
        0
    } else {
        busy_count(s.drop_last()) + if s.last().1 >= BUSY_LOAD {
            1nat
        } else {
            0nat
        }
    }
}

/// The ids of the entries of `s` with no load, in order.
pub open spec fn idle_ids(s: Seq<(usize, usize)>) -> Seq<usize>
    decreases s.len(),
{
    if s.len() == 0 {
        seq![]
    } else if s.last().1 == 0 {
        idle_ids(s.drop_last()).push(s.last().0)
    } else {
        idle_ids(s.drop_last())
    }
}

/// The pool should shrink: at least `STEP_WORKERS` idle workers out of at
/// least `MIN_POOL_FOR_DOWNGRADE`.
pub open spec fn downgrade_due(s: Seq<(usize, usize)>) -> bool {
    idle_ids(s).len() >= STEP_WORKERS && s.len() >= MIN_POOL_FOR_DOWNGRADE
}

/// The pool should grow: at least three quarters of the workers are busy,
/// and `STEP_WORKERS` more stay within `max_workers`.
pub open spec fn upgrade_due(s: Seq<(usize, usize)>, max_workers: int) -> bool {
    4 * busy_count(s) >= 3 * s.len() && s.len() + STEP_WORKERS <= max_workers
}

proof fn lemma_counts_bounded(s: Seq<(usize, usize)>)
    ensures
        busy_count(s) <= s.len(),
        idle_ids(s).len() <= s.len(),
    decreases s.len(),
{
    if s.len() > 0 {
        lemma_counts_bounded(s.drop_last());
    }
}

/// Idle ids are ids of entries with no load.
pub proof fn lemma_idle_ids_are_idle(s: Seq<(usize, usize)>, k: int)
    requires
        0 <= k < idle_ids(s).len(),
    ensures
        exists|i: int| 0 <= i < s.len() && s[i].0 == idle_ids(s)[k] && s[i].1 == 0,
    decreases s.len(),
{
    let t = s.drop_last();
    if s.last().1 == 0 && k == idle_ids(t).len() {
        assert(s[s.len() - 1].0 == idle_ids(s)[k]);
    } else {
        lemma_idle_ids_are_idle(t, k);
        let i = choose|i: int| 0 <= i < t.len() && t[i].0 == idle_ids(t)[k] && t[i].1 == 0;
        assert(s[i] == t[i]);
    }
}

/// `r` is what the load monitor asks for, seeing the load map entries `s`.
pub open spec fn commanded(s: Seq<(usize, usize)>, max_workers: usize, r: Option<SchedulerCommand>) -> bool {
    match r {
        None => !downgrade_due(s) && !upgrade_due(s, max_workers as int),
        Some(SchedulerCommand::Downgrade(ids)) => downgrade_due(s) && ids@ == idle_ids(s).take(
            STEP_WORKERS as int,
        ),
        Some(SchedulerCommand::Upgrade(n)) => !downgrade_due(s) && upgrade_due(s, max_workers as int)
            && n == STEP_WORKERS,
        Some(SchedulerCommand::DropDeadWorker(_)) => false,
    }
}

/// What the load monitor asks for, seeing the load map: the first
/// `STEP_WORKERS` idle workers (in map order) are stopped when the pool should
/// shrink; otherwise `STEP_WORKERS` workers are added when it should grow;
/// otherwise nothing.
pub fn load_command(loads: &LoadMap, max_workers: usize) -> (r: Option<SchedulerCommand>)
    requires
        loads.wf(),
    ensures
        commanded(loads.order(), max_workers, r),
{
    let entries = loads.entries();
    let ghost s = entries@;
    let mut busy: usize = 0;
    let mut idle: Vec<usize> = Vec::new();
    let mut i: usize = 0;
    while i < entries.len()
        invariant
            s == entries@,
            i <= s.len(),
            busy == busy_count(s.take(i as int)),
            idle@ == idle_ids(s.take(i as int)),
        decreases s.len() - i,
    {
        proof {
            assert(s.take(i + 1).drop_last() =~= s.take(i as int));
            lemma_counts_bounded(s.take(i as int));
        }
        let (id, load) = entries[i];
        if load >= BUSY_LOAD {
            busy = busy + 1;
        }
        if load == 0 {
            idle.push(id);
        }
        i = i + 1;
    }
    proof {
        assert(s.take(i as int) =~= s);
    }
    let n = entries.len();
    if idle.len() >= STEP_WORKERS && n >= MIN_POOL_FOR_DOWNGRADE {
        let mut ids: Vec<usize> = Vec::new();
        let mut k: usize = 0;
        while k < STEP_WORKERS
            invariant
                idle@.len() >= STEP_WORKERS,
                k <= STEP_WORKERS,
                ids@ == idle@.take(k as int),
            decreases STEP_WORKERS - k,
        {
            ids.push(idle[k]);
            k = k + 1;
            proof {
                assert(ids@ =~= idle@.take(k as int));
            }
        }
        return Some(SchedulerCommand::Downgrade(ids));
    }
    let busy_wide: u128 = busy as u128;
    let n_wide: u128 = n as u128;
    if busy_wide * 4 >= n_wide * 3 && max_workers >= STEP_WORKERS && n <= max_workers - STEP_WORKERS {
        return Some(SchedulerCommand::Upgrade(STEP_WORKERS));
    }
    None
}

/// The ids of the entries of `beats` older than the timeout at time `now`, in
/// order. A heartbeat recorded after `now` counts as fresh.
pub open spec fn dead_ids(beats: Seq<(usize, u64)>, now: u64) -> Seq<usize>
    decreases beats.len(),
{
    if beats.len() == 0 {
        seq![]
    } else if now > beats.last().1 && now - beats.last().1 > HEARTBEAT_TIMEOUT_NANOS {
        dead_ids(beats.drop_last(), now).push(beats.last().0)
    } else {
        dead_ids(beats.drop_last(), now)
    }
}

/// The workers the heartbeat monitor asks to drop at time `now`, in map
/// order: those whose last heartbeat is more than 6 s old.
pub fn dead_workers(beats: &HeartbeatMap, now: u64) -> (r: Vec<usize>)
    requires
        beats.wf(),
    ensures
        r@ == dead_ids(beats.order(), now),
{
    let entries = beats.entries();
    let ghost s = entries@;
    let mut dead: Vec<usize> = Vec::new();
    let mut i: usize = 0;
    while i < entries.len()
        invariant
            s == entries@,
            i <= s.len(),
            dead@ == dead_ids(s.take(i as int), now),
        decreases s.len() - i,
    {
        proof {
            assert(s.take(i + 1).drop_last() =~= s.take(i as int));
        }
        let (id, last) = entries[i];
        if now.saturating_sub(last) > HEARTBEAT_TIMEOUT_NANOS {
            dead.push(id);
        }
        i = i + 1;
    }
    proof {
        assert(s.take(i as int) =~= s);
    }
    dead
}

proof fn lemma_split_len(s: Seq<usize>, r: Seq<usize>)
    ensures
        members_in(s, r).len() + members_not_in(s, r).len() == s.len(),
    decreases s.len(),
{
    if s.len() > 0 {
        lemma_split_len(s.drop_last(), r);
    }
}

proof fn lemma_members_in_distinct(s: Seq<usize>, r: Seq<usize>)
    requires
        s.no_duplicates(),
    ensures
        members_in(s, r).no_duplicates(),
    decreases s.len(),
{
    if s.len() > 0 {
        let t = s.drop_last();
        assert(t.no_duplicates());
        lemma_members_in_distinct(t, r);
        if r.contains(s.last()) {
            let m = members_in(t, r);
            let m2 = m.push(s.last());
            assert forall|i: int, j: int| 0 <= i < m2.len() && 0 <= j < m2.len() && i != j implies m2[i] != m2[j] by {
                if i == m.len() || j == m.len() {
                    let k = if i == m.len() { j } else { i };
                    lemma_members(t, r, s.last());
                    if m2[k] == s.last() {
                        assert(m[k] == s.last());
                        assert(m.contains(s.last()));
                        let q = choose|q: int| 0 <= q < t.len() && t[q] == s.last();
                        assert(s[q] == t[q]);
                        assert(s[q] == s[s.len() - 1]);
                    }
                } else {
                    assert(m2[i] == m[i] && m2[j] == m[j]);
                }
            }
            assert(members_in(s, r) == m2);
        } else {
            assert(members_in(s, r) == members_in(t, r));
        }
    }
}

proof fn lemma_idle_ids_distinct(s: Seq<(usize, usize)>)
    requires
        distinct_keys(s),
    ensures
        idle_ids(s).no_duplicates(),
    decreases s.len(),
{
    if s.len() > 0 {
        let t = s.drop_last();
        assert(distinct_keys(t));
        lemma_idle_ids_distinct(t);
        if s.last().1 == 0 {
            let m = idle_ids(t);
            let m2 = m.push(s.last().0);
            assert forall|i: int, j: int| 0 <= i < m2.len() && 0 <= j < m2.len() && i != j implies m2[i] != m2[j] by {
                if i == m.len() || j == m.len() {
                    let k = if i == m.len() { j } else { i };
                    if m2[k] == s.last().0 {
                        assert(m[k] == s.last().0);
                        lemma_idle_ids_are_idle(t, k);
                        let q = choose|q: int| 0 <= q < t.len() && t[q].0 == idle_ids(t)[k] && t[q].1 == 0;
                        assert(s[q] == t[q]);
                        assert(s[q].0 == s[s.len() - 1].0);
                    }
                } else {
                    assert(m2[i] == m[i] && m2[j] == m[j]);
                }
            }
            assert(idle_ids(s) == m2);
        } else {
            assert(idle_ids(s) == idle_ids(t));
        }
    }
}

/// A consistent pool has as many workers as the load map has entries.
proof fn lemma_pool_size(s: Seq<(usize, usize)>, ids: Seq<usize>)
    requires
        distinct_keys(s),
        pool_consistent(ids, pairs_map(s)),
    ensures
        ids.len() == s.len(),
{
    lemma_pairs_map_len(s);
    assert(ids.no_duplicates()) by {
        assert forall|i: int, j: int| 0 <= i < ids.len() && 0 <= j < ids.len() && i != j implies ids[i] != ids[j] by {
            if i > j {
                assert(ids[j] != ids[i]);
            }
        }
    }
    ids.unique_seq_to_set();
    assert(ids.to_set() =~= pairs_map(s).dom()) by {
        assert forall|k: usize| ids.to_set().contains(k) <==> pairs_map(s).dom().contains(k) by {
            assert(pairs_map(s).contains_key(k) <==> ids.contains(k));
        }
    }
}

/// Carrying out the load monitor's command keeps a consistent pool within
/// its bounds: an upgrade adds `STEP_WORKERS` workers and stays within
/// `max_workers`; a downgrade stops exactly `STEP_WORKERS` idle workers and
/// leaves at least `MIN_POOL_FOR_DOWNGRADE - STEP_WORKERS`.
pub proof fn lemma_load_command_bounds(
    s: Seq<(usize, usize)>,
    ids: Seq<usize>,
    max_workers: usize,
    cmd: SchedulerCommand,
    new_ids: Seq<usize>,
)
    requires
        distinct_keys(s),
        pool_consistent(ids, pairs_map(s)),
        commanded(s, max_workers, Some(cmd)),
        cmd matches SchedulerCommand::Upgrade(n) ==> new_ids == ids + id_range(ids.len() + 1int, n as int),
        cmd matches SchedulerCommand::Downgrade(r) ==> new_ids == members_not_in(ids, r@),
    ensures
        cmd is Upgrade ==> new_ids.len() == ids.len() + STEP_WORKERS && new_ids.len() <= max_workers,
        cmd is Downgrade ==> new_ids.len() == ids.len() - STEP_WORKERS && new_ids.len()
            >= MIN_POOL_FOR_DOWNGRADE - STEP_WORKERS,
{
    lemma_pool_size(s, ids);
    match cmd {
        SchedulerCommand::Upgrade(n) => {},
        SchedulerCommand::Downgrade(r) => {
            let idle = idle_ids(s);
            let picked = r@;
            assert(picked == idle.take(STEP_WORKERS as int));
            lemma_idle_ids_distinct(s);
            assert(picked.no_duplicates()) by {
                assert forall|i: int, j: int| 0 <= i < picked.len() && 0 <= j < picked.len() && i != j implies picked[i]
                    != picked[j] by {
                    assert(picked[i] == idle[i] && picked[j] == idle[j]);
                }
            }
            assert forall|k: usize| picked.contains(k) implies ids.contains(k) by {
                let i = choose|i: int| 0 <= i < picked.len() && picked[i] == k;
                assert(idle[i] == k);
                lemma_idle_ids_are_idle(s, i);
                let q = choose|q: int| 0 <= q < s.len() && s[q].0 == idle_ids(s)[i] && s[q].1 == 0;
                lemma_order_key(s, q);
                assert(pairs_map(s).contains_key(k));
            }
            let m = members_in(ids, picked);
            assert(ids.no_duplicates()) by {
                assert forall|i: int, j: int| 0 <= i < ids.len() && 0 <= j < ids.len() && i != j implies ids[i] != ids[j] by {
                    if i > j {
                        assert(ids[j] != ids[i]);
                    }
                }
            }
            lemma_members_in_distinct(ids, picked);
            m.unique_seq_to_set();
            picked.unique_seq_to_set();
            assert(m.to_set() =~= picked.to_set()) by {
                assert forall|k: usize| m.to_set().contains(k) <==> picked.to_set().contains(k) by {
                    lemma_members(ids, picked, k);
                }
            }
            lemma_split_len(ids, picked);
        },
        SchedulerCommand::DropDeadWorker(_) => {},
    }
}

/// The load monitor's law for one pass over the load map `s`: it asks for
/// at most one change (its result is one `Option`); a downgrade comes only
/// from a pool of at least `MIN_POOL_FOR_DOWNGRADE` workers and stops
/// exactly `STEP_WORKERS` workers, no worker twice, each of them one with no
/// load; an upgrade comes only when no downgrade is due, at least three
/// quarters of the workers are busy, and it adds `STEP_WORKERS` workers
/// without growing the pool past `max_workers`; it never drops a worker.
pub proof fn lemma_load_command_picks(s: Seq<(usize, usize)>, max_workers: usize, r: Option<SchedulerCommand>)
    requires
        distinct_keys(s),
        commanded(s, max_workers, r),
    ensures
        r matches Some(SchedulerCommand::Downgrade(ids)) ==> {
            &&& ids@.len() == STEP_WORKERS
            &&& ids@.no_duplicates()
            &&& forall|k: int| 0 <= k < ids@.len() ==> pairs_map(s).contains_key(#[trigger] ids@[k])
                && pairs_map(s)[ids@[k]] == 0
            &&& s.len() >= MIN_POOL_FOR_DOWNGRADE
        },
        r matches Some(SchedulerCommand::Upgrade(n)) ==> {
            &&& n == STEP_WORKERS
            &&& !downgrade_due(s)
            &&& 4 * busy_count(s) >= 3 * s.len()
            &&& s.len() + n <= max_workers
        },
        !(r matches Some(SchedulerCommand::DropDeadWorker(_))),
{
    if let Some(SchedulerCommand::Downgrade(ids)) = r {
        let idle = idle_ids(s);
        let picked = ids@;
        lemma_idle_ids_distinct(s);
        assert forall|i: int, j: int| 0 <= i < picked.len() && 0 <= j < picked.len() && i != j implies picked[i]
            != picked[j] by {
            assert(picked[i] == idle[i] && picked[j] == idle[j]);
        }
        assert forall|k: int| 0 <= k < picked.len() implies pairs_map(s).contains_key(#[trigger] picked[k])
            && pairs_map(s)[picked[k]] == 0 by {
            assert(picked[k] == idle[k]);
            lemma_idle_ids_are_idle(s, k);
            let q = choose|q: int| 0 <= q < s.len() && s[q].0 == idle_ids(s)[k] && s[q].1 == 0;
            lemma_pairs_map_index(s, q);
        }
    }
}

/// The key of an entry is a key of the map the entries stand for.
proof fn lemma_order_key(s: Seq<(usize, usize)>, q: int)
    requires
        0 <= q < s.len(),
    ensures
        pairs_map(s).contains_key(s[q].0),
    decreases s.len(),
{
    if q < s.len() - 1 {
        lemma_order_key(s.drop_last(), q);
        assert(s.drop_last()[q] == s[q]);
    }
}

} // verus!
