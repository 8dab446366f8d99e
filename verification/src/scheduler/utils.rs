//! Growing and shrinking the worker pool, picking a worker for a job, and
//! numbering jobs.
use vstd::prelude::*;

use super::pool::LoadMap;
use super::types::SchedulerCommand;

verus! {

/// The elements of `s` that `r` holds, in order.
pub open spec fn members_in(s: Seq<usize>, r: Seq<usize>) -> Seq<usize>
    decreases s.len(),
{
    if s.len() == 0 {
        seq![]
    } else if r.contains(s.last()) {
        members_in(s.drop_last(), r).push(s.last())
    } else {
        members_in(s.drop_last(), r)
    }
}

/// The elements of `s` that `r` does not hold, in order.
pub open spec fn members_not_in(s: Seq<usize>, r: Seq<usize>) -> Seq<usize>
    decreases s.len(),
{
    if s.len() == 0 {
        seq![]
    } else if r.contains(s.last()) {
        members_not_in(s.drop_last(), r)
    } else {
        members_not_in(s.drop_last(), r).push(s.last())
    }
}

/// The ids `first`, `first + 1`, ..., `count` of them.
pub open spec fn id_range(first: int, count: int) -> Seq<usize> {
    Seq::new(count as nat, |k: int| (first + k) as usize)
}

/// Every worker in the pool has a load entry and every load entry a
/// worker, and no id is in the pool twice.
pub open spec fn pool_consistent(ids: Seq<usize>, loads: Map<usize, usize>) -> bool {
    &&& forall|k: usize| #[trigger] loads.contains_key(k) <==> ids.contains(k)
    &&& forall|i: int, j: int| 0 <= i < j < ids.len() ==> ids[i] != ids[j]
}

/// No worker id exceeds the number of workers, so the ids an upgrade hands
/// out are new.
pub open spec fn ids_within_size(ids: Seq<usize>) -> bool {
    forall|i: int| 0 <= i < ids.len() ==> ids[i] <= ids.len()
}

proof fn lemma_push_contains(s: Seq<usize>, x: usize, k: usize)
    ensures
        s.push(x).contains(k) <==> s.contains(k) || x == k,
{
    if s.contains(k) {
        let i = choose|i: int| 0 <= i < s.len() && s[i] == k;
        assert(s.push(x)[i] == k);
    }
    if s.push(x).contains(k) && x != k {
        let i = choose|i: int| 0 <= i < s.push(x).len() && s.push(x)[i] == k;
        assert(s[i] == k);
    }
    assert(s.push(x)[s.len() as int] == x);
}

/// Which ids the two parts of a split hold.
pub proof fn lemma_members(s: Seq<usize>, r: Seq<usize>, k: usize)
    ensures
        members_in(s, r).contains(k) <==> s.contains(k) && r.contains(k),
        members_not_in(s, r).contains(k) <==> s.contains(k) && !r.contains(k),
    decreases s.len(),
{
    if s.len() > 0 {
        let t = s.drop_last();
        lemma_members(t, r, k);
        assert(s =~= t.push(s.last()));
        lemma_push_contains(t, s.last(), k);
        lemma_push_contains(members_in(t, r), s.last(), k);
        lemma_push_contains(members_not_in(t, r), s.last(), k);
    }
}

proof fn lemma_members_not_in_distinct(s: Seq<usize>, r: Seq<usize>)
    requires
        forall|i: int, j: int| 0 <= i < j < s.len() ==> s[i] != s[j],
    ensures
        forall|i: int, j: int|
            0 <= i < j < members_not_in(s, r).len() ==> members_not_in(s, r)[i] != members_not_in(s, r)[j],
    decreases s.len(),
{
    if s.len() > 0 {
        let t = s.drop_last();
        lemma_members_not_in_distinct(t, r);
        if !r.contains(s.last()) {
            let m = members_not_in(t, r);
            let m2 = m.push(s.last());
            assert(members_not_in(s, r) == m2);
            assert forall|i: int, j: int| 0 <= i < j < m2.len() implies m2[i] != m2[j] by {
                if j == m.len() {
                    lemma_members(t, r, s.last());
                    if m2[i] == m2[j] {
                        assert(m[i] == s.last());
                        assert(m.contains(s.last()));
                        let q = choose|q: int| 0 <= q < t.len() && t[q] == s.last();
                        assert(s[q] == t[q]);
                        assert(s[q] == s[s.len() - 1]);
                    }
                } else {
                    assert(m2[i] == m[i]);
                    assert(m2[j] == m[j]);
                }
            }
        } else {
            assert(members_not_in(s, r) == members_not_in(t, r));
        }
    }
}

/// Upgrading a consistent pool whose ids do not exceed its size keeps it
/// consistent.
pub proof fn lemma_upgrade_consistent(
    old_ids: Seq<usize>,
    old_loads: Map<usize, usize>,
    added: Seq<usize>,
    new_ids: Seq<usize>,
    new_loads: Map<usize, usize>,
)
    requires
        pool_consistent(old_ids, old_loads),
        ids_within_size(old_ids),
        added == id_range(old_ids.len() + 1int, added.len() as int),
        old_ids.len() + added.len() < usize::MAX,
        new_ids == old_ids + added,
        forall|k: usize| #[trigger] new_loads.contains_key(k) <==> (old_loads.contains_key(k) || added.contains(k)),
    ensures
        pool_consistent(new_ids, new_loads),
{
    assert forall|k: usize| #[trigger] new_loads.contains_key(k) <==> new_ids.contains(k) by {
        if new_ids.contains(k) {
            let i = choose|i: int| 0 <= i < new_ids.len() && new_ids[i] == k;
            if i < old_ids.len() {
                assert(old_ids[i] == k);
            } else {
                assert(added[i - old_ids.len()] == k);
            }
        }
        if old_ids.contains(k) {
            let i = choose|i: int| 0 <= i < old_ids.len() && old_ids[i] == k;
            assert(new_ids[i] == k);
        }
        if added.contains(k) {
            let i = choose|i: int| 0 <= i < added.len() && added[i] == k;
            assert(new_ids[old_ids.len() + i] == k);
        }
    }
    assert forall|i: int, j: int| 0 <= i < j < new_ids.len() implies new_ids[i] != new_ids[j] by {
        if j >= old_ids.len() {
            assert(new_ids[j] == added[j - old_ids.len()]);
            if i < old_ids.len() {
                assert(new_ids[i] == old_ids[i]);
            } else {
                assert(new_ids[i] == added[i - old_ids.len()]);
            }
        }
    }
}

/// Downgrading a consistent pool keeps it consistent.
pub proof fn lemma_downgrade_consistent(
    old_ids: Seq<usize>,
    old_loads: Map<usize, usize>,
    to_remove: Seq<usize>,
    stopped: Seq<usize>,
    new_ids: Seq<usize>,
    new_loads: Map<usize, usize>,
)
    requires
        pool_consistent(old_ids, old_loads),
        stopped == members_in(old_ids, to_remove),
        new_ids == members_not_in(old_ids, to_remove),
        new_loads == old_loads.remove_keys(stopped.to_set()),
    ensures
        pool_consistent(new_ids, new_loads),
{
    assert forall|k: usize| #[trigger] new_loads.contains_key(k) <==> new_ids.contains(k) by {
        lemma_members(old_ids, to_remove, k);
        assert(old_loads.contains_key(k) <==> old_ids.contains(k));
    }
    lemma_members_not_in_distinct(old_ids, to_remove);
}

/// Dropping a worker from a consistent pool keeps it consistent.
pub proof fn lemma_drop_consistent(
    old_ids: Seq<usize>,
    old_loads: Map<usize, usize>,
    id: usize,
    p: int,
    new_ids: Seq<usize>,
    new_loads: Map<usize, usize>,
)
    requires
        pool_consistent(old_ids, old_loads),
        0 <= p < old_ids.len(),
        old_ids[p] == id,
        new_ids == old_ids.remove(p),
        new_loads == old_loads.remove(id),
    ensures
        pool_consistent(new_ids, new_loads),
{
    assert forall|k: usize| #[trigger] new_loads.contains_key(k) <==> new_ids.contains(k) by {
        assert(old_loads.contains_key(k) <==> old_ids.contains(k));
        if new_ids.contains(k) {
            let i = choose|i: int| 0 <= i < new_ids.len() && new_ids[i] == k;
            let i2 = if i < p { i } else { i + 1 };
            assert(old_ids[i2] == k);
            assert(i2 != p);
        }
        if old_ids.contains(k) && k != id {
            let i = choose|i: int| 0 <= i < old_ids.len() && old_ids[i] == k;
            assert(i != p);
            let i2 = if i < p { i } else { i - 1 };
            assert(new_ids[i2] == k);
        }
    }
    assert forall|i: int, j: int| 0 <= i < j < new_ids.len() implies new_ids[i] != new_ids[j] by {
        let i2 = if i < p { i } else { i + 1 };
        let j2 = if j < p { j } else { j + 1 };
        assert(new_ids[i] == old_ids[i2]);
        assert(new_ids[j] == old_ids[j2]);
    }
}

/// The worker pool: worker ids in the order the workers were started, and
/// the number of jobs each worker runs.
pub struct WorkerRegistry {
    pub ids: Vec<usize>,
    pub loads: LoadMap,
}

impl WorkerRegistry {
    /// The registry's load map is well formed.
    pub open spec fn wf(&self) -> bool {
        self.loads.wf()
    }

    /// A pool of workers `1..=count`, each idle.
    pub fn initial(count: usize) -> (r: WorkerRegistry)
        requires
            count < usize::MAX,
        ensures
            r.wf(),
            r.ids@ == id_range(1, count as int),
            forall|k: usize| r.loads@.contains_key(k) <==> 1 <= k <= count,
            forall|k: usize| r.loads@.contains_key(k) ==> r.loads@[k] == 0,
            pool_consistent(r.ids@, r.loads@),
            ids_within_size(r.ids@),
    {
        let mut r = WorkerRegistry { ids: Vec::new(), loads: LoadMap::new() };
        let added = r.upgrade(count);
        assert(r.ids@ =~= id_range(1, count as int));
        assert forall|k: usize| added@.contains(k) <==> 1 <= k <= count by {
            if 1 <= k <= count {
                assert(added@[k - 1] == k);
            }
        }
        assert forall|k: usize| r.loads@.contains_key(k) <==> 1 <= k <= count by {
            assert(r.loads@.contains_key(k) <==> added@.contains(k));
        }
        assert forall|k: usize| #[trigger] r.loads@.contains_key(k) <==> r.ids@.contains(k) by {
            assert(r.ids@ == added@);
        }
        r
    }

    /// Adds `amount` workers, numbered after the current number of workers,
    /// each with no load (replacing any load recorded under its id). Gives
    /// the new ids.
    pub fn upgrade(&mut self, amount: usize) -> (added: Vec<usize>)
        requires
            old(self).wf(),
            old(self).ids@.len() + amount < usize::MAX,
        ensures
            final(self).wf(),
            added@ == id_range(old(self).ids@.len() + 1int, amount as int),
            final(self).ids@ == old(self).ids@ + added@,
            forall|k: usize|
                #[trigger] final(self).loads@.contains_key(k) <==> (old(self).loads@.contains_key(k)
                    || added@.contains(k)),
            forall|k: usize|
                final(self).loads@.contains_key(k) ==> final(self).loads@[k] == if added@.contains(k) {
                    0
                } else {
                    old(self).loads@[k]
                },
    {
        let last_id = self.ids.len();
        let ghost old_ids = self.ids@;
        let ghost old_loads = self.loads@;
        let mut added: Vec<usize> = Vec::new();
        let mut k: usize = 0;
        while k < amount
            invariant
                self.wf(),
                last_id == old_ids.len(),
                last_id + amount < usize::MAX,
                k <= amount,
                added@ == id_range(last_id + 1, k as int),
                self.ids@ == old_ids + added@,
                forall|x: usize|
                    self.loads@.contains_key(x) <==> (old_loads.contains_key(x) || added@.contains(x)),
                forall|x: usize|
                    self.loads@.contains_key(x) ==> self.loads@[x] == if added@.contains(x) {
                        0
                    } else {
                        old_loads[x]
                    },
            decreases amount - k,
        {
            let id = last_id + 1 + k;
            self.ids.push(id);
            let ghost loads_before = self.loads@;
            self.loads.insert(id, 0);
            let ghost before = added@;
            added.push(id);
            assert(added@ =~= id_range(last_id + 1, (k + 1) as int));
            assert(self.ids@ =~= old_ids + added@);
            assert forall|x: usize| added@.contains(x) <==> (before.contains(x) || x == id) by {
                if x == id {
                    assert(added@[k as int] == x);
                }
                if before.contains(x) {
                    let j = choose|j: int| 0 <= j < before.len() && before[j] == x;
                    assert(added@[j] == x);
                }
                if added@.contains(x) && x != id {
                    let j = choose|j: int| 0 <= j < added@.len() && added@[j] == x;
                    assert(before[j] == x);
                }
            }
            assert forall|x: usize| self.loads@.contains_key(x) implies self.loads@[x] == if added@.contains(x) {
                0
            } else {
                old_loads[x]
            } by {
                if x != id {
                    assert(added@.contains(x) == before.contains(x));
                    assert(loads_before.contains_key(x));
                    assert(self.loads@[x] == loads_before[x]);
                } else {
                    assert(added@[k as int] == x);
                    assert(added@.contains(x));
                }
            }
            k = k + 1;
        }
        added
    }

    /// Stops the workers whose ids `to_remove` holds: drops them from the
    /// pool and their loads from the load map. Gives their ids, in pool order.
    pub fn downgrade(&mut self, to_remove: &Vec<usize>) -> (stopped: Vec<usize>)
        requires
            old(self).wf(),
        ensures
            final(self).wf(),
            stopped@ == members_in(old(self).ids@, to_remove@),
            final(self).ids@ == members_not_in(old(self).ids@, to_remove@),
            final(self).loads@ == old(self).loads@.remove_keys(stopped@.to_set()),
    {
        let ghost old_ids = self.ids@;
        let ghost old_loads = self.loads@;
        let mut stopped: Vec<usize> = Vec::new();
        let mut kept: Vec<usize> = Vec::new();
        let mut i: usize = 0;
        assert(old_ids.take(0) =~= Seq::<usize>::empty());
        while i < self.ids.len()
            invariant
                self.wf(),
                self.ids@ == old_ids,
                i <= old_ids.len(),
                stopped@ == members_in(old_ids.take(i as int), to_remove@),
                kept@ == members_not_in(old_ids.take(i as int), to_remove@),
                self.loads@ == old_loads.remove_keys(stopped@.to_set()),
            decreases old_ids.len() - i,
        {
            let id = self.ids[i];
            assert(old_ids.take(i + 1).drop_last() =~= old_ids.take(i as int));
            if contains_id(to_remove, id) {
                self.loads.remove(id);
                let ghost before = stopped@;
                stopped.push(id);
                proof {
                    before.lemma_push_to_set_commute(id);
                }
                assert(self.loads@ =~= old_loads.remove_keys(stopped@.to_set()));
            } else {
                kept.push(id);
            }
            i = i + 1;
        }
        assert(old_ids.take(i as int) =~= old_ids);
        self.ids = kept;
        stopped
    }

    /// Drops the first worker with id `id`, and its load. Gives whether
    /// there was one.
    pub fn drop_dead_worker(&mut self, id: usize) -> (dropped: bool)
        requires
            old(self).wf(),
        ensures
            final(self).wf(),
            dropped <==> old(self).ids@.contains(id),
            !dropped ==> final(self).ids@ == old(self).ids@ && final(self).loads@ == old(self).loads@,
            dropped ==> exists|p: int|
                0 <= p < old(self).ids@.len() && old(self).ids@[p] == id && (forall|q: int|
                    0 <= q < p ==> old(self).ids@[q] != id) && final(self).ids@ == old(self).ids@.remove(p),
            dropped ==> final(self).loads@ == old(self).loads@.remove(id),
    {
        let ghost old_ids = self.ids@;
        let ghost old_loads = self.loads@;
        let mut p: usize = 0;
        while p < self.ids.len()
            invariant
                self.wf(),
                self.ids@ == old_ids,
                self.loads@ == old_loads,
                old_ids == old(self).ids@,
                old_loads == old(self).loads@,
                p <= self.ids@.len(),
                forall|q: int| 0 <= q < p ==> self.ids@[q] != id,
            decreases self.ids@.len() - p,
        {
            if self.ids[p] == id {
                let ghost before = self.ids@;
                self.ids.remove(p);
                self.loads.remove(id);
                assert(before[p as int] == id);
                return true;
            }
            p = p + 1;
        }
        assert(!old_ids.contains(id));
        false
    }

    /// The worker that should take the next job: the first, in load map
    /// order, among those with the fewest jobs; `None` when the map is empty.
    pub fn least_loaded(&self) -> (r: Option<usize>)
        requires
            self.wf(),
        ensures
            r is None <==> self.loads.order().len() == 0,
            r matches Some(id) ==> exists|i: int|
                0 <= i < self.loads.order().len() && #[trigger] self.loads.order()[i].0 == id && (
                forall|j: int|
                    0 <= j < self.loads.order().len() ==> self.loads.order()[i].1 <= #[trigger] self.loads.order()[j].1)
                    && (forall|j: int| 0 <= j < i ==> self.loads.order()[i].1 < #[trigger] self.loads.order()[j].1),
    {
        let entries = self.loads.entries();
        if entries.len() == 0 {
            return None;
        }
        let mut best: usize = 0;
        let mut i: usize = 1;
        while i < entries.len()
            invariant
                entries@ == self.loads.order(),
                entries@.len() > 0,
                best < i <= entries@.len(),
                forall|j: int| 0 <= j < i ==> entries@[best as int].1 <= #[trigger] entries@[j].1,
                forall|j: int| 0 <= j < best ==> entries@[best as int].1 < #[trigger] entries@[j].1,
            decreases entries@.len() - i,
        {
            if entries[i].1 < entries[best].1 {
                best = i;
            }
            i = i + 1;
        }
        Some(entries[best].0)
    }
}

/// What the pool did to carry out a command, for the caller to act on.
pub enum PoolChange {
    /// Workers with these ids were added: start them.
    Started(Vec<usize>),
    /// Workers with these ids were removed: stop them.
    Stopped(Vec<usize>),
    /// A dead worker with this id was removed (`found`), or none had the id.
    Dropped { id: usize, found: bool },
}

/// A command may be carried out: an upgrade keeps the ids within `usize`.
pub open spec fn command_allowed(ids_len: int, cmd: SchedulerCommand) -> bool {
    match cmd {
        SchedulerCommand::Upgrade(n) => ids_len + n < usize::MAX,
        _ => true,
    }
}

/// Carries out a command of the load or heartbeat monitor on the pool.
pub fn handle_load(registry: &mut WorkerRegistry, cmd: SchedulerCommand) -> (r: PoolChange)
    requires
        old(registry).wf(),
        command_allowed(old(registry).ids@.len() as int, cmd),
    ensures
        final(registry).wf(),
        pool_consistent(old(registry).ids@, old(registry).loads@) && (cmd is Upgrade ==> ids_within_size(
            old(registry).ids@,
        )) ==> pool_consistent(final(registry).ids@, final(registry).loads@),
        match cmd {
            SchedulerCommand::Upgrade(n) => r matches PoolChange::Started(added) && added@ == id_range(
                old(registry).ids@.len() + 1int,
                n as int,
            ) && final(registry).ids@ == old(registry).ids@ + added@,
            SchedulerCommand::Downgrade(to_remove) => r matches PoolChange::Stopped(stopped) && stopped@
                == members_in(old(registry).ids@, to_remove@) && final(registry).ids@ == members_not_in(
                old(registry).ids@,
                to_remove@,
            ) && final(registry).loads@ == old(registry).loads@.remove_keys(stopped@.to_set()),
            SchedulerCommand::DropDeadWorker(id) => r matches PoolChange::Dropped { id: d, found } && d
                == id && found == old(registry).ids@.contains(id) && (found ==> final(registry).loads@
                == old(registry).loads@.remove(id)) && (!found ==> final(registry).ids@ == old(
                registry,
            ).ids@ && final(registry).loads@ == old(registry).loads@),
        },
{
    let ghost old_ids = registry.ids@;
    let ghost old_loads = registry.loads@;
    match cmd {
        SchedulerCommand::Upgrade(n) => {
            let added = registry.upgrade(n);
            proof {
                if pool_consistent(old_ids, old_loads) && ids_within_size(old_ids) {
                    lemma_upgrade_consistent(old_ids, old_loads, added@, registry.ids@, registry.loads@);
                }
            }
            PoolChange::Started(added)
        },
        SchedulerCommand::Downgrade(to_remove) => {
            let stopped = registry.downgrade(&to_remove);
            proof {
                if pool_consistent(old_ids, old_loads) {
                    lemma_downgrade_consistent(
                        old_ids,
                        old_loads,
                        to_remove@,
                        stopped@,
                        registry.ids@,
                        registry.loads@,
                    );
                }
            }
            PoolChange::Stopped(stopped)
        },
        SchedulerCommand::DropDeadWorker(id) => {
            let found = registry.drop_dead_worker(id);
            proof {
                if pool_consistent(old_ids, old_loads) && found {
                    let p = choose|p: int|
                        0 <= p < old_ids.len() && old_ids[p] == id && (forall|q: int|
                            0 <= q < p ==> old_ids[q] != id) && registry.ids@ == old_ids.remove(p);
                    lemma_drop_consistent(old_ids, old_loads, id, p, registry.ids@, registry.loads@);
                }
            }
            PoolChange::Dropped { id, found }
        },
    }
}

/// Whether `v` holds `id`.
pub fn contains_id(v: &Vec<usize>, id: usize) -> (r: bool)
    ensures
        r == v@.contains(id),
{
    let mut i: usize = 0;
    while i < v.len()
        invariant
            i <= v@.len(),
            forall|j: int| 0 <= j < i ==> v@[j] != id,
        decreases v@.len() - i,
    {
        if v[i] == id {
            assert(v@[i as int] == id);
            return true;
        }
        i = i + 1;
    }
    false
}

/// Numbers jobs, from 1 on.
/// The number after `n`, wrapping around at the top of `usize`.
pub open spec fn next_after(n: usize) -> usize {
    if n == usize::MAX {
        0
    } else {
        (n + 1) as usize
    }
}

/// The number handed out by the call after `i` others, numbering having
/// stood at `start`.
pub open spec fn issued_id(start: usize, i: nat) -> usize
    decreases i,
{
    if i == 0 {
        start
    } else {
        next_after(issued_id(start, (i - 1) as nat))
    }
}

/// Job numbers from a fresh counter grow: while fewer than `usize::MAX`
/// numbers have been handed out, the call after `i` others gets `1 + i`, so
/// a later call gets a larger number and no two calls get the same one.
pub proof fn lemma_job_ids_grow(i: nat, j: nat)
    requires
        i < j < usize::MAX,
    ensures
        issued_id(1, i) == 1 + i,
        issued_id(1, j) == 1 + j,
        issued_id(1, i) < issued_id(1, j),

{
    lemma_issued_from_one(i);
    lemma_issued_from_one(j);
}

proof fn lemma_issued_from_one(i: nat)
    requires
        i < usize::MAX,
    ensures
        issued_id(1, i) == 1 + i,
    decreases i,
{
    if i > 0 {
        lemma_issued_from_one((i - 1) as nat);
    }
}

pub struct JobIds {
    next: usize,
}

impl JobIds {
    /// The number the next job gets.
    pub closed spec fn next_id(&self) -> usize {
        self.next
    }

    /// Numbering that starts at 1.
    pub fn new() -> (r: JobIds)
        ensures
            r.next_id() == 1,
    {
        JobIds { next: 1 }
    }

    /// A number for a new job: the next one, after which numbering moves on
    /// by one (wrapping around at the top of `usize`).
    pub fn generate_job_id(&mut self) -> (id: usize)
        ensures
            id == old(self).next_id(),
            final(self).next_id() == next_after(old(self).next_id()),
    {
        let id = self.next;
        self.next = self.next.wrapping_add(1);
        id
    }
}

} // verus!
