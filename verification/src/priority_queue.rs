use vstd::prelude::*;
use crate::cost::Cost;
use crate::label::Label;
use crate::network::VertexId;

verus! {

/// Keys of a priority queue: copyable values whose equality can be tested.
pub trait QueueKey: Copy + Sized {
    /// Whether the two keys are equal.
    fn same(&self, other: &Self) -> (b: bool)
        ensures
            b == (*self == *other);
}

impl QueueKey for Label {
    fn same(&self, other: &Self) -> (b: bool) {
        *self == *other
    }
}

impl QueueKey for VertexId {
    fn same(&self, other: &Self) -> (b: bool) {
        self.0 == other.0
    }
}

/// The keys of a sequence of queue entries.
pub open spec fn entry_keys<K>(s: Seq<(K, Cost)>) -> Seq<K> {
    s.map_values(|e: (K, Cost)| e.0)
}

/// The cost of each key of a sequence of entries with distinct keys.
spec fn items_map<K>(items: Seq<(K, Cost)>) -> Map<K, Cost> {
    Map::new(|k: K| entry_keys(items).contains(k), |k: K| items[entry_keys(items).index_of(k)].1)
}

/// A priority queue of keys ranked by cost, cheapest first; each key is held at most once.
#[derive(Debug)]
pub struct InternalPriorityQueue<K: QueueKey> {
    items: Vec<(K, Cost)>,
}

impl<K: QueueKey> View for InternalPriorityQueue<K> {
    type V = Map<K, Cost>;

    /// The cost of each key in the queue.
    closed spec fn view(&self) -> Map<K, Cost> {
        items_map(self.items@)
    }
}

impl<K: QueueKey> InternalPriorityQueue<K> {
    #[verifier::type_invariant]
    closed spec fn inv(self) -> bool {
        entry_keys(self.items@).no_duplicates()
    }

    proof fn lemma_view_at(items: Seq<(K, Cost)>, i: int)
        requires
            entry_keys(items).no_duplicates(),
            0 <= i < items.len(),
        ensures
            items_map(items).contains_key(items[i].0),
            items_map(items)[items[i].0] == items[i].1,
    {
        let ks = entry_keys(items);
        assert(ks[i] == items[i].0);
        assert(ks.contains(ks[i]));
        let j = ks.index_of(ks[i]);
        assert(ks[j] == ks[i]);
    }

    /// An empty queue.
    pub fn new() -> (q: Self)
        ensures
            q@ == Map::<K, Cost>::empty(),
    {
        let q = InternalPriorityQueue { items: Vec::new() };
        assert(q@ =~= Map::<K, Cost>::empty());
        q
    }


    fn take_items(&mut self) -> (r: Vec<(K, Cost)>)
        ensures
            entry_keys(r@).no_duplicates(),
            items_map(r@) == old(self)@,
            final(self)@ == Map::<K, Cost>::empty(),
    {
        proof { use_type_invariant(&*self); }
        let mut items: Vec<(K, Cost)> = Vec::new();
        std::mem::swap(&mut items, &mut self.items);
        proof {
            assert(entry_keys(self.items@) =~= Seq::<K>::empty());
            assert(self@ =~= Map::<K, Cost>::empty());
        }
        items
    }

    proof fn lemma_set_entry(items: Seq<(K, Cost)>, i: int, c: Cost)
        requires
            entry_keys(items).no_duplicates(),
            0 <= i < items.len(),
        ensures
            entry_keys(items.update(i, (items[i].0, c))) == entry_keys(items),
            items_map(items.update(i, (items[i].0, c))) == items_map(items).insert(items[i].0, c),
    {
        let n = items.update(i, (items[i].0, c));
        let ks = entry_keys(items);
        assert(entry_keys(n) =~= ks);
        assert forall|k: K| #[trigger] items_map(n).contains_key(k) implies items_map(n)[k] == items_map(items).insert(items[i].0, c)[k] by {
            assert(ks.contains(k));
            let j = ks.index_of(k);
            assert(0 <= j < ks.len() && ks[j] == k);
            assert(items_map(n)[k] == n[j].1);
            if j == i {
                assert(n[j].1 == c);
            } else {
                assert(ks[i] != ks[j]);
                assert(n[j] == items[j]);
                assert(items_map(items)[k] == items[j].1);
            }
        }
        Self::lemma_view_at(items, i);
        assert(items_map(n) =~= items_map(items).insert(items[i].0, c));
    }

    proof fn lemma_push_entry(items: Seq<(K, Cost)>, k: K, c: Cost)
        requires
            entry_keys(items).no_duplicates(),
            !entry_keys(items).contains(k),
        ensures
            entry_keys(items.push((k, c))).no_duplicates(),
            items_map(items.push((k, c))) == items_map(items).insert(k, c),
    {
        let n = items.push((k, c));
        assert(entry_keys(n) =~= entry_keys(items).push(k));
        assert forall|k2: K| #[trigger] items_map(n).contains_key(k2) implies items_map(n)[k2] == items_map(items).insert(k, c)[k2] by {
            let j = entry_keys(n).index_of(k2);
            assert(entry_keys(n)[j] == k2);
            Self::lemma_view_at(n, j);
            if j < items.len() {
                Self::lemma_view_at(items, j);
            }
        }
        assert forall|k2: K| #[trigger] items_map(items).insert(k, c).contains_key(k2) implies items_map(n).contains_key(k2) by {
            if k2 != k {
                let j = entry_keys(items).index_of(k2);
                assert(entry_keys(n)[j] == k2);
            } else {
                assert(entry_keys(n)[items.len() as int] == k);
            }
        }
        assert(items_map(n) =~= items_map(items).insert(k, c));
    }

    /// Puts `key` in the queue with cost `cost`, replacing any cost it had.
    pub fn push(&mut self, key: K, cost: Cost)
        ensures
            final(self)@ == old(self)@.insert(key, cost),
    {
        let mut items = self.take_items();
        match find_position(&items, &key) {
            Some(i) => {
                proof { Self::lemma_set_entry(items@, i as int, cost); }
                items.set(i, (key, cost));
            },
            None => {
                proof { Self::lemma_push_entry(items@, key, cost); }
                items.push((key, cost));
            },
        }
        self.items = items;
    }

    /// Puts `key` in the queue with cost `cost` if it is absent or `cost` is cheaper than
    /// its present cost (a higher priority); otherwise the queue is unchanged.
    pub fn push_increase(&mut self, key: K, cost: Cost)
        ensures
            (!old(self)@.contains_key(key) || cost.0 < old(self)@[key].0) ==> final(self)@ == old(self)@.insert(key, cost),
            (old(self)@.contains_key(key) && cost.0 >= old(self)@[key].0) ==> final(self)@ == old(self)@,
    {
        let mut items = self.take_items();
        match find_position(&items, &key) {
            Some(i) => {
                proof { Self::lemma_view_at(items@, i as int); }
                if cost.0 < items[i].1.0 {
                    proof { Self::lemma_set_entry(items@, i as int, cost); }
                    items.set(i, (key, cost));
                }
            },
            None => {
                proof { Self::lemma_push_entry(items@, key, cost); }
                items.push((key, cost));
            },
        }
        self.items = items;
    }

    /// Removes and returns a cheapest entry; `None` if the queue is empty.
    pub fn pop(&mut self) -> (r: Option<(K, Cost)>)
        ensures
            old(self)@.len() == 0 ==> r is None && final(self)@ == old(self)@,
            old(self)@.len() > 0 ==> final(self)@.len() == old(self)@.len() - 1,
            final(self)@.dom().finite(),
            old(self)@.len() > 0 ==> (r matches Some(e) && old(self)@.contains_key(e.0) && old(self)@[e.0] == e.1
                && final(self)@ == old(self)@.remove(e.0)
                && forall|k: K| #[trigger] old(self)@.contains_key(k) ==> e.1.0 <= old(self)@[k].0),
    {
        let mut items = self.take_items();
        proof { Self::lemma_map_len(items@); }
        if items.len() == 0 {
            self.items = items;
            return None;
        }
        let mut best: usize = 0;
        let mut i: usize = 1;
        while i < items.len()
            invariant
                items@.len() > 0,
                1 <= i <= items@.len(),
                best < i,
                forall|j: int| 0 <= j < i ==> items@[best as int].1.0 <= #[trigger] items@[j].1.0,
            decreases items@.len() - i,
        {
            if items[i].1.0 < items[best].1.0 {
                best = i;
            }
            i = i + 1;
        }
        let ghost before = items@;
        let e = items.swap_remove(best);
        proof {
            Self::lemma_view_at(before, best as int);
            let ks = entry_keys(before);
            let nks = entry_keys(items@);
            assert forall|a: int, b: int| 0 <= a < b < nks.len() implies nks[a] != nks[b] by {
                let last = before.len() - 1;
                let fa = if a == best { last } else { a };
                let fb = if b == best { last } else { b };
                assert(nks[a] == ks[fa]);
                assert(nks[b] == ks[fb]);
            }
            assert(ks[best as int] == e.0);
            assert forall|k: K| #[trigger] items_map(items@).contains_key(k) == items_map(before).remove(e.0).contains_key(k) by {
                let last = before.len() - 1;
                if nks.contains(k) {
                    let j = nks.index_of(k);
                    assert(0 <= j < nks.len() && nks[j] == k);
                    let fj = if j == best { last } else { j };
                    assert(nks[j] == ks[fj]);
                    assert(fj != best);
                    assert(ks.contains(k));
                    assert(k != e.0);
                }
                if ks.contains(k) && k != e.0 {
                    let j = ks.index_of(k);
                    assert(0 <= j < ks.len() && ks[j] == k);
                    assert(j != best);
                    if j == last {
                        assert(nks[best as int] == k);
                    } else {
                        assert(nks[j] == k);
                    }
                    assert(nks.contains(k));
                }
            }
            assert forall|k: K| #[trigger] items_map(items@).contains_key(k) implies items_map(items@)[k] == items_map(before)[k] by {
                let j = entry_keys(items@).index_of(k);
                assert(entry_keys(items@)[j] == k);
                Self::lemma_view_at(items@, j);
                let last = before.len() - 1;
                let fj = if j == best { last } else { j };
                assert(items@[j] == before[fj]);
                Self::lemma_view_at(before, fj);
            }
            assert(items_map(items@) =~= items_map(before).remove(e.0));
            assert forall|k: K| #[trigger] items_map(before).contains_key(k) implies e.1.0 <= items_map(before)[k].0 by {
                let j = ks.index_of(k);
                assert(ks[j] == k);
                Self::lemma_view_at(before, j);
            }
        }
        proof {
            Self::lemma_map_len(items@);
            Self::lemma_map_len(before);
        }
        self.items = items;
        Some(e)
    }

    proof fn lemma_map_len(items: Seq<(K, Cost)>)
        requires
            entry_keys(items).no_duplicates(),
        ensures
            items_map(items).len() == items.len(),
            items_map(items).dom().finite(),
    {
        assert(items_map(items).dom() =~= entry_keys(items).to_set());
        entry_keys(items).unique_seq_to_set();
    }

    /// The cost of `key`, if the queue holds it.
    pub fn get(&self, key: &K) -> (r: Option<Cost>)
        ensures
            self@.contains_key(*key) ==> r == Some(self@[*key]),
            !self@.contains_key(*key) ==> r is None,
    {
        proof { use_type_invariant(self); }
        match find_position(&self.items, key) {
            Some(i) => {
                proof { Self::lemma_view_at(self.items@, i as int); }
                Some(self.items[i].1)
            },
            None => None,
        }
    }

    /// The number of keys in the queue.
    pub fn len(&self) -> (n: usize)
        ensures
            n == self@.len(),
            self@.dom().finite(),
    {
        proof {
            use_type_invariant(self);
            Self::lemma_map_len(self.items@);
        }
        self.items.len()
    }

    /// Whether the queue is empty.
    pub fn is_empty(&self) -> (b: bool)
        ensures
            b == (self@.len() == 0),
    {
        self.len() == 0
    }

}

/// Finds the position of `key` among the entries.
fn find_position<K: QueueKey>(items: &Vec<(K, Cost)>, key: &K) -> (r: Option<usize>)
    ensures
        match r {
            Some(i) => i < items@.len() && items@[i as int].0 == *key,
            None => !entry_keys(items@).contains(*key),
        },
{
        let mut i: usize = 0;
        while i < items.len()
            invariant
                0 <= i <= items@.len(),
                forall|j: int| 0 <= j < i ==> items@[j].0 != *key,
            decreases items@.len() - i,
        {
            if items[i].0.same(key) {
                return Some(i);
            }
            i = i + 1;
        }
        proof {
            let ks = entry_keys(items@);
            if ks.contains(*key) {
                let j = ks.index_of(*key);
                assert(ks[j] == items@[j].0);
            }
        }
        None
}

} // verus!
