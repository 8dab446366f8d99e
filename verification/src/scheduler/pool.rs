//! Per-worker tables of the scheduler: a value for each worker id, kept in
//! the order the ids were first recorded.
use vstd::prelude::*;

verus! {

/// A value per worker id, kept in the order the ids were first recorded;
/// at most one entry per id.
pub struct IdMap<V> {
    entries: Vec<(usize, V)>,
}

/// The keys of a list of pairs are distinct.
pub open spec fn distinct_keys<V>(e: Seq<(usize, V)>) -> bool {
    forall|i: int, j: int| 0 <= i < e.len() && 0 <= j < e.len() && i != j ==> e[i].0 != e[j].0
}

/// The map a list of pairs with distinct keys stands for.
pub open spec fn pairs_map<V>(e: Seq<(usize, V)>) -> Map<usize, V>
    decreases e.len(),
{
    if e.len() == 0 {
        Map::empty()
    } else {
        pairs_map(e.drop_last()).insert(e.last().0, e.last().1)
    }
}

pub proof fn lemma_pairs_map_index<V>(e: Seq<(usize, V)>, i: int)
    requires
        distinct_keys(e),
        0 <= i < e.len(),
    ensures
        pairs_map(e).contains_key(e[i].0),
        pairs_map(e)[e[i].0] == e[i].1,
    decreases e.len(),
{
    if i < e.len() - 1 {
        assert(distinct_keys(e.drop_last()));
        lemma_pairs_map_index(e.drop_last(), i);
        assert(e.drop_last()[i] == e[i]);
    }
}

proof fn lemma_pairs_map_keys<V>(e: Seq<(usize, V)>, k: usize)
    ensures
        pairs_map(e).contains_key(k) <==> exists|i: int| 0 <= i < e.len() && e[i].0 == k,
    decreases e.len(),
{
    if e.len() > 0 {
        lemma_pairs_map_keys(e.drop_last(), k);
        if pairs_map(e.drop_last()).contains_key(k) {
            let i = choose|i: int| 0 <= i < e.drop_last().len() && e.drop_last()[i].0 == k;
            assert(e[i].0 == k);
        }
        if exists|i: int| 0 <= i < e.len() && e[i].0 == k {
            let i = choose|i: int| 0 <= i < e.len() && e[i].0 == k;
            if i < e.len() - 1 {
                assert(e.drop_last()[i].0 == k);
            }
        }
    }
}

proof fn lemma_pairs_map_dom<V>(e: Seq<(usize, V)>)
    requires
        distinct_keys(e),
    ensures
        forall|k: usize|
            #![trigger pairs_map(e).contains_key(k)]
            pairs_map(e).contains_key(k) <==> exists|i: int| 0 <= i < e.len() && e[i].0 == k,
        forall|i: int| #![trigger e[i]] 0 <= i < e.len() ==> pairs_map(e)[e[i].0] == e[i].1,
{
    assert forall|k: usize|
        #![trigger pairs_map(e).contains_key(k)]
        pairs_map(e).contains_key(k) <==> exists|i: int| 0 <= i < e.len() && e[i].0 == k by {
        lemma_pairs_map_keys(e, k);
    }
    assert forall|i: int| #![trigger e[i]] 0 <= i < e.len() implies pairs_map(e)[e[i].0] == e[i].1 by {
        lemma_pairs_map_index(e, i);
    }
}

/// A list of pairs with distinct keys stands for a map with as many keys.
pub proof fn lemma_pairs_map_len<V>(e: Seq<(usize, V)>)
    requires
        distinct_keys(e),
    ensures
        pairs_map(e).dom().finite(),
        pairs_map(e).len() == e.len(),
    decreases e.len(),
{
    if e.len() > 0 {
        assert(distinct_keys(e.drop_last()));
        lemma_pairs_map_len(e.drop_last());
        lemma_pairs_map_keys(e.drop_last(), e.last().0);
        if pairs_map(e.drop_last()).contains_key(e.last().0) {
            let i = choose|i: int| 0 <= i < e.drop_last().len() && e.drop_last()[i].0 == e.last().0;
            assert(e[i].0 == e[e.len() - 1].0);
        }
    }
}

impl<V> View for IdMap<V> {
    type V = Map<usize, V>;

    closed spec fn view(&self) -> Map<usize, V> {
        pairs_map(self.entries@)
    }
}

impl<V: Copy> IdMap<V> {
    /// The entries have distinct ids.
    pub closed spec fn wf(&self) -> bool {
        distinct_keys(self.entries@)
    }

    /// The entries, in the order the map keeps them.
    pub closed spec fn order(&self) -> Seq<(usize, V)> {
        self.entries@
    }

    /// The entries in order stand for the map.
    pub proof fn lemma_order(&self)
        requires
            self.wf(),
        ensures
            distinct_keys(self.order()),
            forall|k: usize|
                #![trigger self@.contains_key(k)]
                self@.contains_key(k) <==> exists|i: int|
                    0 <= i < self.order().len() && self.order()[i].0 == k,
            forall|i: int|
                #![trigger self.order()[i]]
                0 <= i < self.order().len() ==> self@[self.order()[i].0] == self.order()[i].1,
            self@.dom().finite(),
            self@.len() == self.order().len(),
    {
        lemma_pairs_map_dom(self.entries@);
        lemma_pairs_map_len(self.entries@);
    }

    /// An empty map.
    pub fn new() -> (m: IdMap<V>)
        ensures
            m.wf(),
            m@ == Map::<usize, V>::empty(),
            m.order() == Seq::<(usize, V)>::empty(),
    {
        IdMap { entries: Vec::new() }
    }

    /// How many workers the map has an entry for.
    pub fn len(&self) -> (n: usize)
        requires
            self.wf(),
        ensures
            n == self@.len(),
            n == self.order().len(),
    {
        proof {
            self.lemma_order();
        }
        self.entries.len()
    }

    fn position(&self, id: usize) -> (r: Option<usize>)
        ensures
            r matches Some(i) ==> i < self.entries@.len() && self.entries@[i as int].0 == id,
            r is None ==> forall|i: int| 0 <= i < self.entries@.len() ==> self.entries@[i].0 != id,
    {
        let mut i: usize = 0;
        while i < self.entries.len()
            invariant
                i <= self.entries@.len(),
                forall|j: int| 0 <= j < i ==> self.entries@[j].0 != id,
            decreases self.entries@.len() - i,
        {
            if self.entries[i].0 == id {
                return Some(i);
            }
            i = i + 1;
        }
        None
    }

    /// The value recorded for worker `id`, if the map has one.
    pub fn get(&self, id: usize) -> (r: Option<V>)
        requires
            self.wf(),
        ensures
            r == (if self@.contains_key(id) {
                Some(self@[id])
            } else {
                None::<V>
            }),
    {
        proof {
            self.lemma_order();
        }
        match self.position(id) {
            Some(i) => Some(self.entries[i].1),
            None => None,
        }
    }

    /// Records `load` for worker `id`, adding an entry at the end if it has none.
    pub fn insert(&mut self, id: usize, load: V)
        requires
            old(self).wf(),
        ensures
            final(self).wf(),
            final(self)@ == old(self)@.insert(id, load),
            old(self)@.contains_key(id) ==> final(self).order().len() == old(self).order().len(),
            !old(self)@.contains_key(id) ==> final(self).order() == old(self).order().push((id, load)),
    {
        proof {
            self.lemma_order();
        }
        let ghost before = self.entries@;
        match self.position(id) {
            Some(i) => {
                self.entries.set(i, (id, load));
                proof {
                    let after = self.entries@;
                    assert(distinct_keys(after));
                    lemma_pairs_map_dom(after);
                    lemma_pairs_map_dom(before);
                    assert forall|k: usize| #![auto] pairs_map(after).contains_key(k) <==> pairs_map(before).insert(id, load).contains_key(k) by {
                        if k != id && pairs_map(before).contains_key(k) {
                            let j = choose|j: int| 0 <= j < before.len() && before[j].0 == k;
                            assert(after[j].0 == k);
                        }
                        if k != id && pairs_map(after).contains_key(k) {
                            let j = choose|j: int| 0 <= j < after.len() && after[j].0 == k;
                            assert(before[j].0 == k);
                        }
                        if k == id {
                            assert(after[i as int].0 == id);
                        }
                    }
                    assert forall|k: usize| #![auto] pairs_map(after).contains_key(k) implies pairs_map(after)[k] == pairs_map(before).insert(id, load)[k] by {
                        let j = choose|j: int| 0 <= j < after.len() && after[j].0 == k;
                        if j != i {
                            assert(before[j] == after[j]);
                        }
                    }
                    assert(pairs_map(after) =~= pairs_map(before).insert(id, load));
                }
            },
            None => {
                self.entries.push((id, load));
                proof {
                    let after = self.entries@;
                    assert(after.drop_last() =~= before);
                    assert(distinct_keys(after));
                }
            },
        }
    }

    /// Removes the entry of worker `id`, if there is one.
    pub fn remove(&mut self, id: usize)
        requires
            old(self).wf(),
        ensures
            final(self).wf(),
            final(self)@ == old(self)@.remove(id),
    {
        proof {
            self.lemma_order();
        }
        let ghost before = self.entries@;
        match self.position(id) {
            Some(i) => {
                self.entries.remove(i);
                proof {
                    let after = self.entries@;
                    assert(after =~= before.subrange(0, i as int) + before.subrange(i + 1, before.len() as int));
                    assert forall|a: int, b: int| 0 <= a < after.len() && 0 <= b < after.len() && a != b implies after[a].0 != after[b].0 by {
                        let a2 = if a < i { a } else { a + 1 };
                        let b2 = if b < i { b } else { b + 1 };
                        assert(after[a] == before[a2]);
                        assert(after[b] == before[b2]);
                    }
                    lemma_pairs_map_dom(after);
                    lemma_pairs_map_dom(before);
                    assert forall|k: usize| #![auto] pairs_map(after).contains_key(k) <==> pairs_map(before).remove(id).contains_key(k) by {
                        if pairs_map(after).contains_key(k) {
                            let j = choose|j: int| 0 <= j < after.len() && after[j].0 == k;
                            let j2 = if j < i { j } else { j + 1 };
                            assert(before[j2] == after[j]);
                            assert(j2 != i);
                        }
                        if k != id && pairs_map(before).contains_key(k) {
                            let j = choose|j: int| 0 <= j < before.len() && before[j].0 == k;
                            assert(j != i);
                            let j2 = if j < i { j } else { j - 1 };
                            assert(after[j2] == before[j]);
                        }
                    }
                    assert forall|k: usize| #![auto] pairs_map(after).contains_key(k) implies pairs_map(after)[k] == pairs_map(before)[k] by {
                        let j = choose|j: int| 0 <= j < after.len() && after[j].0 == k;
                        let j2 = if j < i { j } else { j + 1 };
                        assert(before[j2] == after[j]);
                    }
                    assert(pairs_map(after) =~= pairs_map(before).remove(id));
                }
            },
            None => {
                proof {
                    lemma_pairs_map_dom(before);
                    assert(pairs_map(before) =~= pairs_map(before).remove(id));
                }
            },
        }
    }

    /// The entries, in order, as (worker id, value) pairs.
    pub fn entries(&self) -> (r: Vec<(usize, V)>)
        ensures
            r@ == self.order(),
    {
        let mut r: Vec<(usize, V)> = Vec::new();
        let mut i: usize = 0;
        while i < self.entries.len()
            invariant
                i <= self.entries@.len(),
                r@ == self.entries@.take(i as int),
            decreases self.entries@.len() - i,
        {
            r.push(self.entries[i]);
            i = i + 1;
            assert(r@ =~= self.entries@.take(i as int));
        }
        assert(self.entries@.take(i as int) =~= self.entries@);
        r
    }
}

/// Jobs each worker is running, by worker id.
pub type LoadMap = IdMap<usize>;

/// When each worker last reported that it is alive (nanoseconds on the
/// scheduler's clock), by worker id.
pub type HeartbeatMap = IdMap<u64>;

} // verus!
