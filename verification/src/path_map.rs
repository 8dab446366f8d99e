//! A small map from paths to values, kept in the order the paths were first
//! recorded.
use vstd::prelude::*;

verus! {

/// The paths of a list of entries are distinct.
pub open spec fn distinct_paths<V>(e: Seq<(String, V)>) -> bool {
    forall|i: int, j: int| 0 <= i < e.len() && 0 <= j < e.len() && i != j ==> e[i].0@ != e[j].0@
}

/// The map, by path, that a list of entries stands for.
pub open spec fn entries_map<V>(e: Seq<(String, V)>) -> Map<Seq<char>, V>
    decreases e.len(),
{
    if e.len() == 0 {
        Map::empty()
    } else {
        entries_map(e.drop_last()).insert(e.last().0@, e.last().1)
    }
}

proof fn lemma_entries_map_keys<V>(e: Seq<(String, V)>, k: Seq<char>)
    ensures
        entries_map(e).contains_key(k) <==> exists|i: int| 0 <= i < e.len() && e[i].0@ == k,
    decreases e.len(),
{
    if e.len() > 0 {
        lemma_entries_map_keys(e.drop_last(), k);
        if entries_map(e.drop_last()).contains_key(k) {
            let i = choose|i: int| 0 <= i < e.drop_last().len() && e.drop_last()[i].0@ == k;
            assert(e[i].0@ == k);
        }
        if exists|i: int| 0 <= i < e.len() && e[i].0@ == k {
            let i = choose|i: int| 0 <= i < e.len() && e[i].0@ == k;
            if i < e.len() - 1 {
                assert(e.drop_last()[i].0@ == k);
            }
        }
    }
}

proof fn lemma_entries_map_index<V>(e: Seq<(String, V)>, i: int)
    requires
        distinct_paths(e),
        0 <= i < e.len(),
    ensures
        entries_map(e).contains_key(e[i].0@),
        entries_map(e)[e[i].0@] == e[i].1,
    decreases e.len(),
{
    if i < e.len() - 1 {
        assert(distinct_paths(e.drop_last()));
        lemma_entries_map_index(e.drop_last(), i);
        assert(e.drop_last()[i] == e[i]);
    }
}

proof fn lemma_entries_map<V>(e: Seq<(String, V)>)
    requires
        distinct_paths(e),
    ensures
        forall|k: Seq<char>|
            #![trigger entries_map(e).contains_key(k)]
            entries_map(e).contains_key(k) <==> exists|i: int| 0 <= i < e.len() && e[i].0@ == k,
        forall|i: int| #![trigger e[i]] 0 <= i < e.len() ==> entries_map(e)[e[i].0@] == e[i].1,
{
    assert forall|k: Seq<char>|
        #![trigger entries_map(e).contains_key(k)]
        entries_map(e).contains_key(k) <==> exists|i: int| 0 <= i < e.len() && e[i].0@ == k by {
        lemma_entries_map_keys(e, k);
    }
    assert forall|i: int| #![trigger e[i]] 0 <= i < e.len() implies entries_map(e)[e[i].0@] == e[i].1 by {
        lemma_entries_map_index(e, i);
    }
}

/// Values by path; at most one entry per path.
pub struct PathMap<V> {
    entries: Vec<(String, V)>,
}

impl<V> View for PathMap<V> {
    type V = Map<Seq<char>, V>;

    closed spec fn view(&self) -> Map<Seq<char>, V> {
        entries_map(self.entries@)
    }
}

impl<V> PathMap<V> {
    /// No path is recorded twice.
    pub closed spec fn wf(&self) -> bool {
        distinct_paths(self.entries@)
    }

    /// The entries, in the order the paths were first recorded.
    pub closed spec fn order(&self) -> Seq<(String, V)> {
        self.entries@
    }

    /// The entries in order stand for the map.
    pub proof fn lemma_order(&self)
        requires
            self.wf(),
        ensures
            distinct_paths(self.order()),
            forall|k: Seq<char>|
                #![trigger self@.contains_key(k)]
                self@.contains_key(k) <==> exists|i: int|
                    0 <= i < self.order().len() && self.order()[i].0@ == k,
            forall|i: int|
                #![trigger self.order()[i]]
                0 <= i < self.order().len() ==> self@[self.order()[i].0@] == self.order()[i].1,
    {
        lemma_entries_map(self.entries@);
        assert forall|k: Seq<char>|
            #![trigger self@.contains_key(k)]
            self@.contains_key(k) <==> exists|i: int|
                0 <= i < self.order().len() && self.order()[i].0@ == k by {
            if self@.contains_key(k) {
                let i = choose|i: int| 0 <= i < self.entries@.len() && self.entries@[i].0@ == k;
                assert(self.order()[i].0@ == k);
            }
        }
    }

    /// An empty map.
    pub fn new() -> (m: PathMap<V>)
        ensures
            m.wf(),
            m@ == Map::<Seq<char>, V>::empty(),
    {
        PathMap { entries: Vec::new() }
    }

    fn position(&self, path: &String) -> (r: Option<usize>)
        ensures
            r matches Some(i) ==> i < self.entries@.len() && self.entries@[i as int].0@ == path@,
            r is None ==> forall|i: int| 0 <= i < self.entries@.len() ==> self.entries@[i].0@ != path@,
    {
        let mut i: usize = 0;
        while i < self.entries.len()
            invariant
                i <= self.entries@.len(),
                forall|j: int| 0 <= j < i ==> self.entries@[j].0@ != path@,
            decreases self.entries@.len() - i,
        {
            if self.entries[i].0 == *path {
                return Some(i);
            }
            i = i + 1;
        }
        None
    }

    /// Whether the map has an entry for `path`.
    pub fn contains_key(&self, path: &String) -> (r: bool)
        requires
            self.wf(),
        ensures
            r == self@.contains_key(path@),
    {
        proof {
            self.lemma_order();
        }
        self.position(path).is_some()
    }

    /// The value recorded for `path`, if any.
    pub fn get(&self, path: &String) -> (r: Option<&V>)
        requires
            self.wf(),
        ensures
            r matches Some(v) ==> self@.contains_key(path@) && *v == self@[path@],
            r is None ==> !self@.contains_key(path@),
    {
        proof {
            self.lemma_order();
        }
        match self.position(path) {
            Some(i) => Some(&self.entries[i].1),
            None => None,
        }
    }

    /// Records `value` for `path`, replacing what it had; a new path goes
    /// last.
    pub fn set(&mut self, path: String, value: V)
        requires
            old(self).wf(),
        ensures
            final(self).wf(),
            final(self)@ == old(self)@.insert(path@, value),
    {
        proof {
            self.lemma_order();
        }
        let ghost before = self.entries@;
        let ghost key = path@;
        match self.position(&path) {
            Some(i) => {
                self.entries.set(i, (path, value));
                proof {
                    let after = self.entries@;
                    assert(distinct_paths(after));
                    lemma_entries_map(after);
                    lemma_entries_map(before);
                    assert forall|k: Seq<char>| #![auto]
                        entries_map(after).contains_key(k) <==> entries_map(before).insert(key, value).contains_key(k) by {
                        if k != key && entries_map(before).contains_key(k) {
                            let j = choose|j: int| 0 <= j < before.len() && before[j].0@ == k;
                            assert(after[j].0@ == k);
                        }
                        if k != key && entries_map(after).contains_key(k) {
                            let j = choose|j: int| 0 <= j < after.len() && after[j].0@ == k;
                            assert(before[j].0@ == k);
                        }
                        if k == key {
                            assert(after[i as int].0@ == key);
                        }
                    }
                    assert forall|k: Seq<char>| #![auto] entries_map(after).contains_key(k) implies entries_map(after)[k]
                        == entries_map(before).insert(key, value)[k] by {
                        let j = choose|j: int| 0 <= j < after.len() && after[j].0@ == k;
                        if j != i {
                            assert(before[j] == after[j]);
                        }
                    }
                    assert(entries_map(after) =~= entries_map(before).insert(key, value));
                }
            },
            None => {
                self.entries.push((path, value));
                proof {
                    let after = self.entries@;
                    assert(after.drop_last() =~= before);
                    assert(distinct_paths(after));
                }
            },
        }
    }

    /// Removes the entry of `path`, if there is one.
    pub fn remove(&mut self, path: &String)
        requires
            old(self).wf(),
        ensures
            final(self).wf(),
            final(self)@ == old(self)@.remove(path@),
    {
        proof {
            self.lemma_order();
        }
        let ghost before = self.entries@;
        let ghost key = path@;
        match self.position(path) {
            Some(i) => {
                self.entries.remove(i);
                proof {
                    let after = self.entries@;
                    assert(after =~= before.subrange(0, i as int) + before.subrange(i + 1, before.len() as int));
                    assert forall|a: int, b: int| 0 <= a < after.len() && 0 <= b < after.len() && a != b implies after[a].0@
                        != after[b].0@ by {
                        let a2 = if a < i { a } else { a + 1 };
                        let b2 = if b < i { b } else { b + 1 };
                        assert(after[a] == before[a2]);
                        assert(after[b] == before[b2]);
                    }
                    lemma_entries_map(after);
                    lemma_entries_map(before);
                    assert forall|k: Seq<char>| #![auto]
                        entries_map(after).contains_key(k) <==> entries_map(before).remove(key).contains_key(k) by {
                        if entries_map(after).contains_key(k) {
                            let j = choose|j: int| 0 <= j < after.len() && after[j].0@ == k;
                            let j2 = if j < i { j } else { j + 1 };
                            assert(before[j2] == after[j]);
                            assert(j2 != i);
                        }
                        if k != key && entries_map(before).contains_key(k) {
                            let j = choose|j: int| 0 <= j < before.len() && before[j].0@ == k;
                            assert(j != i);
                            let j2 = if j < i { j } else { j - 1 };
                            assert(after[j2] == before[j]);
                        }
                    }
                    assert forall|k: Seq<char>| #![auto] entries_map(after).contains_key(k) implies entries_map(after)[k]
                        == entries_map(before)[k] by {
                        let j = choose|j: int| 0 <= j < after.len() && after[j].0@ == k;
                        let j2 = if j < i { j } else { j + 1 };
                        assert(before[j2] == after[j]);
                    }
                    assert(entries_map(after) =~= entries_map(before).remove(key));
                }
            },
            None => {
                proof {
                    lemma_entries_map(before);
                    assert(entries_map(before) =~= entries_map(before).remove(key));
                }
            },
        }
    }
}

impl<V: Copy> PathMap<V> {
    /// The entries, in order, as (path, value) pairs.
    pub fn entries(&self) -> (r: Vec<(String, V)>)
        ensures
            r@ == self.order(),
    {
        let mut r: Vec<(String, V)> = Vec::new();
        let mut i: usize = 0;
        while i < self.entries.len()
            invariant
                i <= self.entries@.len(),
                r@ == self.entries@.take(i as int),
            decreases self.entries@.len() - i,
        {
            let path = self.entries[i].0.clone();
            r.push((path, self.entries[i].1));
            i = i + 1;
            assert(r@ =~= self.entries@.take(i as int));
        }
        assert(self.entries@.take(i as int) =~= self.entries@);
        r
    }
}

} // verus!
