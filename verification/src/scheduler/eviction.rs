//! The cache controller's eviction candidates: cached modules that are
//! rarely used, queued so that the least used comes first, and evicted to
//! make room for a module worth caching.
use vstd::prelude::*;

use super::types::ModuleEvictionStats;
use priority_queue::PriorityQueue;

verus! {

/// Declares `priority_queue::PriorityQueue`.
#[verifier::external_type_specification]
#[verifier::external_body]
#[verifier::reject_recursive_types(I)]
#[verifier::reject_recursive_types(P)]
#[verifier::reject_recursive_types(H)]
pub struct ExPriorityQueue<I, P, H>(PriorityQueue<I, P, H>);

/// What a queue of candidates holds: the priority of each item. An item is
/// a candidate's number and the bytes its cached instances take.
pub uninterp spec fn queued(q: PriorityQueue<(usize, usize), u64>) -> Map<(usize, usize), u64>;

/// The priority `p` is the greatest in `m`.
pub open spec fn greatest(m: Map<(usize, usize), u64>, p: u64) -> bool {
    forall|j: (usize, usize)| #[trigger] m.contains_key(j) ==> m[j] <= p
}

/// A queue with no items.
pub open spec fn no_items() -> Map<(usize, usize), u64> {
    Map::empty()
}

/// Calls `PriorityQueue::new`: an empty queue.
#[verifier::external_body]
fn queue_new() -> (q: PriorityQueue<(usize, usize), u64>)
    ensures
        queued(q) == no_items(),
{
    PriorityQueue::new()
}

/// Calls `PriorityQueue::len`: how many items the queue holds.
#[verifier::external_body]
fn queue_len(q: &PriorityQueue<(usize, usize), u64>) -> (n: usize)
    ensures
        n == queued(*q).len(),
{
    q.len()
}

/// Calls `PriorityQueue::peek`, copying the pair out: an item with the
/// greatest priority and that priority, or `None` when the queue is empty.
/// Which of several items with the greatest priority comes is left unsaid.
#[verifier::external_body]
fn queue_peek(q: &PriorityQueue<(usize, usize), u64>) -> (r: Option<((usize, usize), u64)>)
    ensures
        r is None <==> queued(*q).dom() =~= Set::<(usize, usize)>::empty(),
        r matches Some((i, p)) ==> queued(*q).contains_key(i) && queued(*q)[i] == p && greatest(queued(*q), p),
{
    match q.peek() {
        Some((i, p)) => Some((*i, *p)),
        None => None,
    }
}

/// Calls `PriorityQueue::pop`: removes an item with the greatest priority
/// and gives it with its priority, or `None` when the queue is empty. Which
/// of several items with the greatest priority goes is left unsaid.
#[verifier::external_body]
fn queue_pop(q: &mut PriorityQueue<(usize, usize), u64>) -> (r: Option<((usize, usize), u64)>)
    ensures
        r is None ==> queued(*old(q)).dom() =~= Set::<(usize, usize)>::empty() && queued(*final(q)) == queued(*old(q)),
        r matches Some((i, p)) ==> {
            &&& queued(*old(q)).contains_key(i)
            &&& queued(*old(q))[i] == p
            &&& greatest(queued(*old(q)), p)
            &&& queued(*final(q)) == queued(*old(q)).remove(i)
        },
{
    q.pop()
}

/// Calls `PriorityQueue::push`: inserts the item with the priority, or
/// updates the priority of an equal item, giving its old priority.
#[verifier::external_body]
fn queue_push(q: &mut PriorityQueue<(usize, usize), u64>, item: (usize, usize), priority: u64) -> (r: Option<u64>)
    ensures
        queued(*final(q)) == queued(*old(q)).insert(item, priority),
        r == (if queued(*old(q)).contains_key(item) {
            Some(queued(*old(q))[item])
        } else {
            None::<u64>
        }),
{
    q.push(item, priority)
}

/// Calls `PriorityQueue::clear`: drops every item.
#[verifier::external_body]
fn queue_clear(q: &mut PriorityQueue<(usize, usize), u64>)
    ensures
        queued(*final(q)) == no_items(),
{
    q.clear()
}

/// At most this many candidates are queued in one pass of the controller.
pub const MAX_EVICTION_CANDIDATES: usize = 10000;

/// The priority of a candidate used at the rate whose bits are `rate_bits`:
/// the less used, the greater.
pub open spec fn priority_of(rate_bits: u64) -> u64 {
    (u64::MAX - rate_bits) as u64
}

/// Rarely used cached modules that may be evicted, least used first. Each
/// is a module's path and the bytes its cached instances take; it is queued
/// at the rate the module is used, given as the bits of a non-negative
/// floating-point number (which order as the numbers do).
pub struct EvictionQueue {
    queue: PriorityQueue<(usize, usize), u64>,
    items: Vec<ModuleEvictionStats>,
}

/// A candidate as plain values: its path and the bytes its instances take.
pub open spec fn item_view(m: ModuleEvictionStats) -> (Seq<char>, usize) {
    (m.path@, m.total_memory_usage)
}

/// The candidates `items` lists are distinct.
pub open spec fn distinct_items(items: Seq<ModuleEvictionStats>) -> bool {
    forall|a: int, b: int|
        0 <= a < items.len() && 0 <= b < items.len() && a != b ==> item_view(items[a]) != item_view(items[b])
}

impl EvictionQueue {
    /// Every queued item names a listed candidate, and no candidate is
    /// listed twice.
    pub closed spec fn wf(&self) -> bool {
        &&& queued(self.queue).dom().finite()
        &&& distinct_items(self.items@)
        &&& forall|i: (usize, usize)|
            #[trigger] queued(self.queue).contains_key(i) ==> i.0 < self.items@.len() && self.items@[i.0
                as int].total_memory_usage == i.1
    }

    /// The candidate an item names.
    pub closed spec fn candidate(&self, i: (usize, usize)) -> (Seq<char>, usize) {
        (self.items@[i.0 as int].path@, i.1)
    }

    /// The queued candidates with their priorities.
    pub closed spec fn contents(&self) -> Map<(Seq<char>, usize), u64> {
        Map::new(
            |x: (Seq<char>, usize)|
                exists|i: (usize, usize)| #[trigger] queued(self.queue).contains_key(i) && self.candidate(i) == x,
            |x: (Seq<char>, usize)|
                queued(self.queue)[choose|i: (usize, usize)|
                    #[trigger] queued(self.queue).contains_key(i) && self.candidate(i) == x],
        )
    }

    proof fn lemma_candidate_unique(&self, i: (usize, usize), j: (usize, usize))
        requires
            self.wf(),
            queued(self.queue).contains_key(i),
            queued(self.queue).contains_key(j),
            self.candidate(i) == self.candidate(j),
        ensures
            i == j,
    {
        if i.0 != j.0 {
            assert(item_view(self.items@[i.0 as int]) != item_view(self.items@[j.0 as int]));
        }
    }

    proof fn lemma_contents_at(&self, i: (usize, usize))
        requires
            self.wf(),
            queued(self.queue).contains_key(i),
        ensures
            self.contents().contains_key(self.candidate(i)),
            self.contents()[self.candidate(i)] == queued(self.queue)[i],
    {
        let x = self.candidate(i);
        let c = choose|k: (usize, usize)| #[trigger] queued(self.queue).contains_key(k) && self.candidate(k) == x;
        self.lemma_candidate_unique(c, i);
    }

    /// No candidates.
    pub fn new() -> (q: EvictionQueue)
        ensures
            q.wf(),
            q.contents() == Map::<(Seq<char>, usize), u64>::empty(),
    {
        let q = EvictionQueue { queue: queue_new(), items: Vec::new() };
        assert(q.contents() =~= Map::<(Seq<char>, usize), u64>::empty());
        q
    }

    /// How many candidates are queued.
    pub fn len(&self) -> (n: usize)
        requires
            self.wf(),
        ensures
            n == self.contents().len(),
    {
        proof {
            self.lemma_len();
        }
        queue_len(&self.queue)
    }

    proof fn lemma_len(&self)
        requires
            self.wf(),
        ensures
            self.contents().len() == queued(self.queue).len(),
            self.contents().dom().finite(),
    {
        let m = queued(self.queue);
        let f = |i: (usize, usize)| self.candidate(i);
        assert(self.contents().dom() =~= m.dom().map(f)) by {
            assert forall|x: (Seq<char>, usize)| self.contents().dom().contains(x) implies m.dom().map(f).contains(x) by {
                let i = choose|i: (usize, usize)| #[trigger] m.contains_key(i) && self.candidate(i) == x;
                assert(m.dom().contains(i) && f(i) == x);
            }
        }
        assert(vstd::relations::injective_on(f, m.dom())) by {
            assert forall|a: (usize, usize), b: (usize, usize)| m.dom().contains(a) && m.dom().contains(b) && #[trigger] f(a)
                == #[trigger] f(b) implies a == b by {
                self.lemma_candidate_unique(a, b);
            }
        }
        vstd::set_lib::lemma_map_size(m.dom(), m.dom().map(f), f);
    }

    /// Queues the module at `path`, whose cached instances take `total` bytes,
    /// at the rate whose bits are `rate_bits`, unless `MAX_EVICTION_CANDIDATES`
    /// are queued already. A candidate queued before gets the new rate. Gives
    /// whether it was queued.
    pub fn offer(&mut self, path: String, total: usize, rate_bits: u64) -> (queued_now: bool)
        requires
            old(self).wf(),
        ensures
            final(self).wf(),
            queued_now == (old(self).contents().len() < MAX_EVICTION_CANDIDATES),
            queued_now ==> final(self).contents() == old(self).contents().insert((path@, total), priority_of(rate_bits)),
            !queued_now ==> final(self).contents() == old(self).contents(),
    {
        proof {
            self.lemma_len();
        }
        if queue_len(&self.queue) >= MAX_EVICTION_CANDIDATES {
            return false;
        }
        let ghost before = *self;
        let ghost key = (path@, total);
        let k = self.find_item(&path, total);
        if k == self.items.len() {
            self.items.push(ModuleEvictionStats { path, total_memory_usage: total });
        }
        let priority = u64::MAX - rate_bits;
        let _ = queue_push(&mut self.queue, (k, total), priority);
        proof {
            assert(self.items@[k as int].total_memory_usage == total);
            assert(self.candidate((k, total)) == key);
            assert(distinct_items(self.items@)) by {
                if k == before.items@.len() {
                    assert forall|a: int, b: int|
                        0 <= a < self.items@.len() && 0 <= b < self.items@.len() && a != b implies item_view(
                        self.items@[a],
                    ) != item_view(self.items@[b]) by {
                        if a < before.items@.len() && b < before.items@.len() {
                            assert(self.items@[a] == before.items@[a] && self.items@[b] == before.items@[b]);
                        } else if a < before.items@.len() {
                            assert(self.items@[a] == before.items@[a]);
                        } else {
                            assert(self.items@[b] == before.items@[b]);
                        }
                    }
                }
            }
            assert forall|i: (usize, usize)| #[trigger] queued(self.queue).contains_key(i) implies self.candidate(i)
                == before.candidate(i) || i == (k, total) by {
                if i != (k, total) {
                    assert(queued(before.queue).contains_key(i));
                    assert(self.items@[i.0 as int] == before.items@[i.0 as int]);
                }
            }
            let c = final(self).contents();
            let d = before.contents().insert(key, priority_of(rate_bits));
            assert forall|x: (Seq<char>, usize)| #[trigger] c.contains_key(x) <==> d.contains_key(x) by {
                if c.contains_key(x) {
                    let i = choose|i: (usize, usize)| #[trigger] queued(self.queue).contains_key(i) && self.candidate(i) == x;
                    if i != (k, total) {
                        assert(queued(before.queue).contains_key(i) && before.candidate(i) == x);
                    }
                }
                if before.contents().contains_key(x) {
                    let i = choose|i: (usize, usize)| #[trigger] queued(before.queue).contains_key(i) && before.candidate(i) == x;
                    assert(i.0 < before.items@.len());
                    assert(self.items@[i.0 as int] == before.items@[i.0 as int]);
                    assert(queued(self.queue).contains_key(i) && self.candidate(i) == x);
                }
                if x == key {
                    assert(queued(self.queue).contains_key((k, total)));
                }
            }
            assert forall|x: (Seq<char>, usize)| #[trigger] c.contains_key(x) implies c[x] == d[x] by {
                let i = choose|i: (usize, usize)| #[trigger] queued(self.queue).contains_key(i) && self.candidate(i) == x;
                self.lemma_contents_at(i);
                if i != (k, total) {
                    assert(queued(before.queue).contains_key(i));
                    assert(before.candidate(i) == x);
                    before.lemma_contents_at(i);
                    if x == key {
                        self.lemma_candidate_unique(i, (k, total));
                    }
                }
            }
            assert(c =~= d);
        }
        true
    }

    fn find_item(&self, path: &String, total: usize) -> (k: usize)
        ensures
            k <= self.items@.len(),
            k < self.items@.len() ==> item_view(self.items@[k as int]) == (path@, total),
            k == self.items@.len() ==> forall|j: int|
                0 <= j < self.items@.len() ==> item_view(self.items@[j]) != (path@, total),
    {
        let mut k: usize = 0;
        while k < self.items.len()
            invariant
                k <= self.items@.len(),
                forall|j: int| 0 <= j < k ==> item_view(self.items@[j]) != (path@, total),
            decreases self.items@.len() - k,
        {
            if self.items[k].total_memory_usage == total && self.items[k].path == *path {
                return k;
            }
            k = k + 1;
        }
        k
    }

    /// Drops every candidate.
    pub fn clear(&mut self)
        ensures
            final(self).wf(),
            final(self).contents() == Map::<(Seq<char>, usize), u64>::empty(),
    {
        queue_clear(&mut self.queue);
        self.items = Vec::new();
        assert(self.contents() =~= Map::<(Seq<char>, usize), u64>::empty());
    }

    /// Makes room for a module that needs `needed` bytes and is used at the
    /// rate whose bits are `rate_bits`: nothing is needed when `needed` is
    /// zero; otherwise the candidate first in line is evicted when its
    /// instances take at least `needed` bytes and it is used less often,
    /// after which the module fits. When several candidates share the
    /// greatest priority, the one reported and the one taken off the queue
    /// are each one of them.
    pub fn make_room(&mut self, needed: usize, rate_bits: u64) -> (r: RoomOutcome)
        requires
            old(self).wf(),
        ensures
            final(self).wf(),
            r is Fits <==> needed == 0,
            r is GiveUp <==> needed > 0 && old(self).contents().dom() =~= Set::empty(),
            !(r is Evicted) ==> final(self).contents() == old(self).contents(),
            r matches RoomOutcome::Evicted { path, total } ==> head_evictable(
                old(self).contents(),
                (path@, total),
                needed,
                rate_bits,
            ),
            r matches RoomOutcome::Evicted { path, total } ==> exists|y: (Seq<char>, usize)|
                removed_alike(old(self).contents(), final(self).contents(), (path@, total), y),
            r is Stuck ==> exists|x: (Seq<char>, usize)| stuck_at(old(self).contents(), x, needed, rate_bits),
    {
        if needed == 0 {
            return RoomOutcome::Fits;
        }
        let ghost before = *self;
        assert(before == *old(self));
        match queue_peek(&self.queue) {
            None => {
                proof {
                    assert(self.contents().dom() =~= Set::<(Seq<char>, usize)>::empty()) by {
                        assert forall|x: (Seq<char>, usize)| !self.contents().dom().contains(x) by {
                            if self.contents().dom().contains(x) {
                                let i = choose|i: (usize, usize)| #[trigger] queued(self.queue).contains_key(i)
                                    && self.candidate(i) == x;
                                assert(queued(self.queue).dom().contains(i));
                            }
                        }
                    }
                }
                RoomOutcome::GiveUp
            },
            Some((item, priority)) => {
                proof {
                    self.lemma_contents_at(item);
                    self.lemma_greatest(item);
                    assert(!(self.contents().dom() =~= Set::<(Seq<char>, usize)>::empty())) by {
                        assert(self.contents().dom().contains(self.candidate(item)));
                    }
                }
                let (index, total) = item;
                if needed <= total && u64::MAX - priority < rate_bits {
                    let path = self.items[index].path.clone();
                    let popped = queue_pop(&mut self.queue);
                    proof {
                        assert(queued(before.queue).dom().contains(item));
                        match popped {
                            Some((gone, p)) => {
                                assert(p == priority);
                                self.lemma_pop(before, gone);
                                before.lemma_contents_at(gone);
                                assert(head_evictable(before.contents(), (path@, total), needed, rate_bits));
                                assert(removed_alike(
                                    old(self).contents(),
                                    self.contents(),
                                    (path@, total),
                                    before.candidate(gone),
                                ));
                            },
                            None => {
                                assert(queued(before.queue).dom().contains(item));
                                assert(false);
                            },
                        }
                        assert(exists|y: (Seq<char>, usize)|
                            removed_alike(old(self).contents(), final(self).contents(), (path@, total), y));
                    }
                    RoomOutcome::Evicted { path, total }
                } else {
                    proof {
                        assert(stuck_at(before.contents(), before.candidate(item), needed, rate_bits));
                    }
                    RoomOutcome::Stuck
                }
            },
        }
    }

    proof fn lemma_greatest(&self, item: (usize, usize))
        requires
            self.wf(),
            queued(self.queue).contains_key(item),
            greatest(queued(self.queue), queued(self.queue)[item]),
        ensures
            greatest_candidate(self.contents(), queued(self.queue)[item]),
    {
        assert forall|x: (Seq<char>, usize)| #[trigger] self.contents().contains_key(x) implies self.contents()[x]
            <= queued(self.queue)[item] by {
            let i = choose|i: (usize, usize)| #[trigger] queued(self.queue).contains_key(i) && self.candidate(i) == x;
            self.lemma_contents_at(i);
        }
    }

    proof fn lemma_pop(&self, before: EvictionQueue, item: (usize, usize))
        requires
            before.wf(),
            queued(before.queue).contains_key(item),
            self.items == before.items,
            queued(self.queue) == queued(before.queue).remove(item),
        ensures
            self.wf(),
            self.contents() == before.contents().remove(before.candidate(item)),
    {
        let c = self.contents();
        let d = before.contents().remove(before.candidate(item));
        assert(queued(self.queue).dom() =~= queued(before.queue).dom().remove(item));
        assert forall|x: (Seq<char>, usize)| #[trigger] c.contains_key(x) <==> d.contains_key(x) by {
            if c.contains_key(x) {
                let i = choose|i: (usize, usize)| #[trigger] queued(self.queue).contains_key(i) && self.candidate(i) == x;
                assert(queued(before.queue).contains_key(i) && before.candidate(i) == x);
                if x == before.candidate(item) {
                    before.lemma_candidate_unique(i, item);
                }
            }
            if d.contains_key(x) {
                let i = choose|i: (usize, usize)| #[trigger] queued(before.queue).contains_key(i) && before.candidate(i) == x;
                assert(i != item);
                assert(queued(self.queue).contains_key(i) && self.candidate(i) == x);
            }
        }
        assert forall|x: (Seq<char>, usize)| #[trigger] c.contains_key(x) implies c[x] == d[x] by {
            let i = choose|i: (usize, usize)| #[trigger] queued(self.queue).contains_key(i) && self.candidate(i) == x;
            self.lemma_contents_at(i);
            before.lemma_contents_at(i);
        }
        assert(c =~= d);
    }
}

/// The candidate `x`, first in line among `m`, may be evicted for a module
/// that needs `needed` bytes and is used at the rate with bits `rate_bits`:
/// its instances take enough and it is used less often.
pub open spec fn head_evictable(m: Map<(Seq<char>, usize), u64>, x: (Seq<char>, usize), needed: usize, rate_bits: u64) -> bool {
    &&& m.contains_key(x)
    &&& greatest_candidate(m, m[x])
    &&& 0 < needed <= x.1
    &&& (u64::MAX - m[x]) < rate_bits
}

/// `after` is `before` without `y`, a candidate first in line just as `x`
/// (the same, unless several share the greatest priority).
pub open spec fn removed_alike(
    before: Map<(Seq<char>, usize), u64>,
    after: Map<(Seq<char>, usize), u64>,
    x: (Seq<char>, usize),
    y: (Seq<char>, usize),
) -> bool {
    &&& before.contains_key(y)
    &&& before[y] == before[x]
    &&& after == before.remove(y)
}

/// The candidate `x`, first in line among `m`, cannot be evicted for a
/// module that needs `needed` bytes and is used at the rate with bits
/// `rate_bits`.
pub open spec fn stuck_at(m: Map<(Seq<char>, usize), u64>, x: (Seq<char>, usize), needed: usize, rate_bits: u64) -> bool {
    &&& m.contains_key(x)
    &&& greatest_candidate(m, m[x])
    &&& needed > 0
    &&& !(needed <= x.1 && (u64::MAX - m[x]) < rate_bits)
}

/// The priority `p` is the greatest among the candidates `m`.
pub open spec fn greatest_candidate(m: Map<(Seq<char>, usize), u64>, p: u64) -> bool {
    forall|x: (Seq<char>, usize)| #[trigger] m.contains_key(x) ==> m[x] <= p
}

/// What making room for a module came to.
pub enum RoomOutcome {
    /// The module fits as it is: cache it.
    Fits,
    /// The module at `path`, whose cached instances take `total` bytes, is
    /// evicted; then the module fits: cache it.
    Evicted { path: String, total: usize },
    /// No candidates are queued.
    GiveUp,
    /// The candidate first in line cannot be evicted for the module.
    Stuck,
}

} // verus!
