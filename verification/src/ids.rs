//! Identifiers of panes and terminals, and maps that are keyed by them.
use std::collections::HashMap;
use vstd::prelude::*;
use vstd::std_specs::iter::IteratorSpec;

verus! {

broadcast use vstd::std_specs::hash::group_hash_axioms;

/// The identity of a pane.
#[derive(Debug, Clone, Copy, PartialEq, Eq, Structural)]
pub struct PaneId {
    pub raw: u64,
}

/// The identity of a terminal.
#[derive(Debug, Clone, Copy, PartialEq, Eq, Structural)]
pub struct TerminalId {
    pub raw: u64,
}

impl PaneId {
    /// The pane with the given number.
    pub fn from_raw(raw: u64) -> (id: PaneId)
        ensures
            id.raw == raw,
    {
        PaneId { raw }
    }
}

impl TerminalId {
    /// The terminal with the given number.
    pub fn from_raw(raw: u64) -> (id: TerminalId)
        ensures
            id.raw == raw,
    {
        TerminalId { raw }
    }
}

/// A map from identifiers to values.
pub struct IdMap<V> {
    entries: HashMap<u64, V>,
}

impl<V> View for IdMap<V> {
    type V = Map<u64, V>;

    closed spec fn view(&self) -> Map<u64, V> {
        self.entries@
    }
}

impl<V> IdMap<V> {
    /// A map without entries.
    pub fn new() -> (map: IdMap<V>)
        ensures
            map@ == Map::<u64, V>::empty(),
    {
        IdMap { entries: HashMap::new() }
    }

    /// The value at `id`, if there is one.
    pub fn get(&self, id: u64) -> (value: Option<&V>)
        ensures
            value is Some <==> self@.contains_key(id),
            value matches Some(v) ==> *v == self@[id],
    {
        self.entries.get(&id)
    }

    /// Whether there is a value at `id`.
    pub fn contains_key(&self, id: u64) -> (r: bool)
        ensures
            r == self@.contains_key(id),
    {
        self.entries.contains_key(&id)
    }

    /// The number of entries.
    pub fn len(&self) -> (n: usize)
        ensures
            self@.dom().finite(),
            n == self@.dom().len(),
    {
        self.entries.len()
    }

    /// The keys, each once, in some order.
    pub fn ids(&self) -> (ids: Vec<u64>)
        ensures
            ids@.no_duplicates(),
            forall|k: u64| #[trigger] ids@.contains(k) <==> self@.contains_key(k),
    {
        let mut ids: Vec<u64> = Vec::new();
        let ghost all = self.entries.keys().remaining().unref();
        for id in it: self.entries.keys()
            invariant
                it.seq().unref() == all,
                it.seq().len() == all.len(),
                ids@ == all.take(it.index()),
        {
            ids.push(*id);
        }
        proof {
            assert(all.take(all.len() as int) =~= all);
            assert forall|k: u64| #[trigger] ids@.contains(k) <==> self@.contains_key(k) by {
                assert(all.to_set().contains(k) <==> all.contains(k));
            }
        }
        ids
    }

    /// Removes the value at `id` and returns it.
    pub fn remove(&mut self, id: u64) -> (value: Option<V>)
        ensures
            final(self)@ == old(self)@.remove(id),
            value is Some <==> old(self)@.contains_key(id),
            value matches Some(v) ==> v == old(self)@[id],
    {
        self.entries.remove(&id)
    }

    /// Sets the value at `id`.
    pub fn insert(&mut self, id: u64, value: V)
        ensures
            final(self)@ == old(self)@.insert(id, value),
    {
        let _ = self.entries.insert(id, value);
    }
}

/// What a table of numbers becomes when the number `removed` is closed up.
pub open spec fn closed_up(numbers: Map<u64, usize>, removed: usize) -> Map<u64, usize> {
    numbers.map_values(
        |n: usize|
            if n > removed {
                (n - 1) as usize
            } else {
                n
            },
    )
}

impl IdMap<usize> {
    /// Lowers every number above `removed` by one.
    pub fn close_up(&mut self, removed: usize)
        ensures
            final(self)@ == closed_up(old(self)@, removed),
    {
        let ids = self.ids();
        let ghost before = self@;
        let ghost target = closed_up(before, removed);
        let mut i: usize = 0;
        while i < ids.len()
            invariant
                i <= ids@.len(),
                ids@.no_duplicates(),
                forall|k: u64| #[trigger] ids@.contains(k) <==> before.contains_key(k),
                target == closed_up(before, removed),
                self@.dom() == before.dom(),
                forall|j: int| 0 <= j < i ==> self@[#[trigger] ids@[j]] == target[ids@[j]],
                forall|j: int| i <= j < ids@.len() ==> self@[#[trigger] ids@[j]] == before[ids@[j]],
            decreases ids@.len() - i,
        {
            let id: u64 = ids[i];
            assert(ids@.contains(id));
            if let Some(number) = self.get(id) {
                let number: usize = *number;
                if number > removed {
                    self.insert(id, number - 1);
                    assert(self@.dom() =~= before.dom());
                }
            }
            i += 1;
        }
        assert(self@ =~= target) by {
            assert forall|k: u64| before.contains_key(k) implies self@[k] == target[k] by {
                assert(ids@.contains(k));
            }
        }
    }
}

/// Closing up a number leaves the table free of gaps there: the numbers below stay, those above
/// come one lower, and nothing is added or lost.
pub proof fn law_numbers_close_up(numbers: Map<u64, usize>, removed: usize, id: u64)
    ensures
        closed_up(numbers, removed).contains_key(id) <==> numbers.contains_key(id),
        numbers.contains_key(id) && numbers[id] <= removed ==> closed_up(numbers, removed)[id]
            == numbers[id],
        numbers.contains_key(id) && numbers[id] > removed ==> closed_up(numbers, removed)[id] + 1
            == numbers[id],
{
}

} // verus!
