//! Collections keyed by what a path names: two spellings of one path are one
//! key.
use crate::path::{path_key, same_path, FsPath, PathKey};
use vstd::prelude::*;

verus! {

/// A map from paths to values.
pub struct PathMap<T> {
    entries: Vec<(FsPath, T)>,
}

/// The map that a list of entries spells, a later entry over an earlier one.
pub closed spec fn entries_map<T>(entries: Seq<(FsPath, T)>) -> Map<PathKey, T>
    decreases entries.len(),
{
    if entries.len() == 0 {
        Map::empty()
    } else {
        entries_map(entries.drop_last()).insert(path_key(entries.last().0@), entries.last().1)
    }
}

spec fn distinct_keys<T>(entries: Seq<(FsPath, T)>) -> bool {
    forall|i: int, j: int|
        #![trigger entries[i], entries[j]]
        0 <= i < j < entries.len() ==> path_key(entries[i].0@) != path_key(entries[j].0@)
}

proof fn lemma_entries_map<T>(entries: Seq<(FsPath, T)>)
    requires
        distinct_keys(entries),
    ensures
        forall|i: int|
            0 <= i < entries.len() ==> entries_map(entries).contains_key(
                path_key((#[trigger] entries[i]).0@),
            ) && entries_map(entries)[path_key(entries[i].0@)] == entries[i].1,
        forall|k: PathKey| #[trigger]
            entries_map(entries).contains_key(k) ==> exists|i: int|
                0 <= i < entries.len() && path_key((#[trigger] entries[i]).0@) == k,
        entries_map(entries).dom().finite(),
        entries_map(entries).dom().len() == entries.len(),
    decreases entries.len(),
{
    if entries.len() > 0 {
        let init = entries.drop_last();
        assert forall|i: int, j: int|
            #![trigger init[i], init[j]]
            0 <= i < j < init.len() implies path_key(init[i].0@) != path_key(init[j].0@) by {
            assert(entries[i] == init[i] && entries[j] == init[j]);
        }
        lemma_entries_map(init);
        let last_key = path_key(entries.last().0@);
        assert(!entries_map(init).contains_key(last_key)) by {
            if entries_map(init).contains_key(last_key) {
                let i = choose|i: int|
                    0 <= i < init.len() && path_key((#[trigger] init[i]).0@) == last_key;
                assert(entries[i] == init[i]);
                assert(entries[entries.len() - 1] == entries.last());
            }
        }
        assert forall|i: int| 0 <= i < entries.len() implies entries_map(entries).contains_key(
            path_key((#[trigger] entries[i]).0@),
        ) && entries_map(entries)[path_key(entries[i].0@)] == entries[i].1 by {
            if i < entries.len() - 1 {
                assert(init[i] == entries[i]);
                assert(entries[entries.len() - 1] == entries.last());
            }
        }
        assert forall|k: PathKey| #[trigger] entries_map(entries).contains_key(k) implies exists|
            i: int,
        |
            0 <= i < entries.len() && path_key((#[trigger] entries[i]).0@) == k by {
            if k == last_key {
                assert(path_key(entries[entries.len() - 1].0@) == k);
            } else {
                let i = choose|i: int| 0 <= i < init.len() && path_key((#[trigger] init[i]).0@) == k;
                assert(entries[i] == init[i]);
            }
        }
    } else {
        assert(entries_map(entries).dom() == Set::<PathKey>::empty());
    }
}

/// Replacing the value of an entry.
proof fn lemma_entries_update<T>(entries: Seq<(FsPath, T)>, at: int, value: T)
    requires
        distinct_keys(entries),
        0 <= at < entries.len(),
    ensures
        distinct_keys(entries.update(at, (entries[at].0, value))),
        entries_map(entries.update(at, (entries[at].0, value))) == entries_map(entries).insert(
            path_key(entries[at].0@),
            value,
        ),
{
    let changed = entries.update(at, (entries[at].0, value));
    assert forall|i: int, j: int|
        #![trigger changed[i], changed[j]]
        0 <= i < j < changed.len() implies path_key(changed[i].0@) != path_key(changed[j].0@) by {
        assert(entries[i].0 == changed[i].0 && entries[j].0 == changed[j].0);
    }
    lemma_entries_map(entries);
    lemma_entries_map(changed);
    let left = entries_map(changed);
    let right = entries_map(entries).insert(path_key(entries[at].0@), value);
    assert(changed[at].0 == entries[at].0);
    assert forall|k: PathKey| #[trigger] left.dom().contains(k) implies right.dom().contains(k)
        && left[k] == right[k] by {
        assert(left.contains_key(k));
        let i = choose|i: int| 0 <= i < changed.len() && path_key((#[trigger] changed[i]).0@) == k;
        assert(entries[i].0 == changed[i].0);
    }
    assert forall|k: PathKey| #[trigger] right.dom().contains(k) implies left.dom().contains(k) by {
        if k != path_key(entries[at].0@) {
            assert(entries_map(entries).contains_key(k));
            let i = choose|i: int|
                0 <= i < entries.len() && path_key((#[trigger] entries[i]).0@) == k;
            assert(entries[i].0 == changed[i].0);
        }
    }
    assert(left =~= right);
}

impl<T> View for PathMap<T> {
    type V = Map<PathKey, T>;

    closed spec fn view(&self) -> Map<PathKey, T> {
        entries_map(self.entries@)
    }
}

impl<T> PathMap<T> {
    #[verifier::type_invariant]
    spec fn well_formed(self) -> bool {
        distinct_keys(self.entries@)
    }

    /// A map without entries.
    pub fn new() -> (map: PathMap<T>)
        ensures
            map@ == Map::<PathKey, T>::empty(),
    {
        PathMap { entries: Vec::new() }
    }

    fn position(entries: &Vec<(FsPath, T)>, path: &FsPath) -> (at: usize)
        ensures
            at <= entries@.len(),
            forall|i: int| 0 <= i < at ==> path_key((#[trigger] entries@[i]).0@) != path_key(path@),
            at < entries@.len() ==> path_key(entries@[at as int].0@) == path_key(path@),
    {
        let mut i: usize = 0;
        while i < entries.len() && !same_path(&entries[i].0, path)
            invariant
                i <= entries@.len(),
                forall|j: int|
                    0 <= j < i ==> path_key((#[trigger] entries@[j]).0@) != path_key(path@),
            decreases entries@.len() - i,
        {
            i += 1;
        }
        i
    }

    /// The value at `path`, if there is one.
    pub fn get(&self, path: &FsPath) -> (value: Option<&T>)
        ensures
            value is Some <==> self@.contains_key(path_key(path@)),
            value matches Some(v) ==> *v == self@[path_key(path@)],
    {
        proof {
            use_type_invariant(self);
            lemma_entries_map(self.entries@);
        }
        let at: usize = Self::position(&self.entries, path);
        if at < self.entries.len() {
            Some(&self.entries[at].1)
        } else {
            None
        }
    }

    /// Whether there is a value at `path`.
    pub fn contains_key(&self, path: &FsPath) -> (r: bool)
        ensures
            r == self@.contains_key(path_key(path@)),
    {
        self.get(path).is_some()
    }

    /// The number of entries.
    pub fn len(&self) -> (n: usize)
        ensures
            self@.dom().finite(),
            n == self@.dom().len(),
    {
        proof {
            use_type_invariant(self);
            lemma_entries_map(self.entries@);
        }
        self.entries.len()
    }

    /// Sets the value at `path`.
    pub fn insert(&mut self, path: FsPath, value: T)
        ensures
            final(self)@ == old(self)@.insert(path_key(path@), value),
    {
        proof {
            use_type_invariant(&*self);
        }
        let mut entries: Vec<(FsPath, T)> = Vec::new();
        std::mem::swap(&mut entries, &mut self.entries);
        let at: usize = Self::position(&entries, &path);
        let ghost before = entries@;
        if at < entries.len() {
            let (spelling, _) = entries.remove(at);
            entries.insert(at, (spelling, value));
            proof {
                lemma_entries_update(before, at as int, value);
                assert(entries@ == before.update(at as int, (before[at as int].0, value)));
            }
        } else {
            entries.push((path, value));
            proof {
                assert(entries@.drop_last() == before);
            }
        }
        self.entries = entries;
    }

    /// Removes every entry.
    pub fn clear(&mut self)
        ensures
            final(self)@ == Map::<PathKey, T>::empty(),
    {
        self.entries = Vec::new();
    }
}

/// A set of paths.
pub struct PathSet {
    items: Vec<FsPath>,
}

/// The keys of a list of paths.
pub open spec fn keys_of(items: Seq<FsPath>) -> Seq<PathKey> {
    items.map_values(|path: FsPath| path_key(path@))
}

impl View for PathSet {
    type V = Set<PathKey>;

    closed spec fn view(&self) -> Set<PathKey> {
        keys_of(self.items@).to_set()
    }
}

/// What a list of paths without repetition says of the set of its keys.
proof fn lemma_keys_of(items: Seq<FsPath>)
    requires
        keys_of(items).no_duplicates(),
    ensures
        keys_of(items).to_set().finite(),
        keys_of(items).to_set().len() == items.len(),
        forall|i: int|
            0 <= i < items.len() ==> keys_of(items).to_set().contains(
                path_key((#[trigger] items[i])@),
            ),
        forall|k: PathKey| #[trigger]
            keys_of(items).to_set().contains(k) ==> exists|i: int|
                0 <= i < items.len() && path_key((#[trigger] items[i])@) == k,
{
    keys_of(items).unique_seq_to_set();
    assert forall|i: int| 0 <= i < items.len() implies keys_of(items).to_set().contains(
        path_key((#[trigger] items[i])@),
    ) by {
        assert(keys_of(items)[i] == path_key(items[i]@));
    }
    assert forall|k: PathKey| #[trigger] keys_of(items).to_set().contains(k) implies exists|i: int|
        0 <= i < items.len() && path_key((#[trigger] items[i])@) == k by {
        let i = choose|i: int| 0 <= i < keys_of(items).len() && keys_of(items)[i] == k;
        assert(path_key(items[i]@) == k);
    }
}

impl PathSet {
    #[verifier::type_invariant]
    spec fn well_formed(self) -> bool {
        keys_of(self.items@).no_duplicates()
    }

    /// A set without members.
    pub fn new() -> (set: PathSet)
        ensures
            set@ == Set::<PathKey>::empty(),
    {
        let items: Vec<FsPath> = Vec::new();
        assert(keys_of(items@).to_set() == Set::<PathKey>::empty());
        PathSet { items }
    }

    fn position(items: &Vec<FsPath>, path: &FsPath) -> (at: usize)
        ensures
            at <= items@.len(),
            forall|i: int| 0 <= i < at ==> path_key((#[trigger] items@[i])@) != path_key(path@),
            at < items@.len() ==> path_key(items@[at as int]@) == path_key(path@),
    {
        let mut i: usize = 0;
        while i < items.len() && !same_path(&items[i], path)
            invariant
                i <= items@.len(),
                forall|j: int| 0 <= j < i ==> path_key((#[trigger] items@[j])@) != path_key(path@),
            decreases items@.len() - i,
        {
            i += 1;
        }
        i
    }

    /// The members, in the order in which they came.
    pub fn members(&self) -> (items: &Vec<FsPath>)
        ensures
            keys_of(items@).to_set() == self@,
            keys_of(items@).no_duplicates(),
    {
        proof {
            use_type_invariant(self);
        }
        &self.items
    }

    /// Whether `path` is a member.
    pub fn contains(&self, path: &FsPath) -> (r: bool)
        ensures
            r == self@.contains(path_key(path@)),
    {
        proof {
            use_type_invariant(self);
            lemma_keys_of(self.items@);
        }
        Self::position(&self.items, path) < self.items.len()
    }

    /// The number of members.
    pub fn len(&self) -> (n: usize)
        ensures
            self@.finite(),
            n == self@.len(),
    {
        proof {
            use_type_invariant(self);
            lemma_keys_of(self.items@);
        }
        self.items.len()
    }

    /// Whether there is no member.
    pub fn is_empty(&self) -> (r: bool)
        ensures
            r == (self@ == Set::<PathKey>::empty()),
    {
        proof {
            use_type_invariant(self);
            lemma_keys_of(self.items@);
            if self.items@.len() == 0 {
                assert(self@ == Set::<PathKey>::empty());
            } else {
                assert(self@.contains(path_key(self.items@[0]@)));
            }
        }
        self.items.len() == 0
    }

    /// Adds `path`; says whether it was not a member before.
    pub fn insert(&mut self, path: FsPath) -> (added: bool)
        ensures
            final(self)@ == old(self)@.insert(path_key(path@)),
            added == !old(self)@.contains(path_key(path@)),
    {
        proof {
            use_type_invariant(&*self);
            lemma_keys_of(self.items@);
        }
        if Self::position(&self.items, &path) < self.items.len() {
            assert(self@.insert(path_key(path@)) == self@);
            return false;
        }
        let mut items: Vec<FsPath> = Vec::new();
        std::mem::swap(&mut items, &mut self.items);
        let ghost before = items@;
        items.push(path);
        proof {
            assert(keys_of(items@) == keys_of(before).push(path_key(path@)));
            assert(keys_of(items@).to_set() =~= keys_of(before).to_set().insert(path_key(path@))) by {
                broadcast use vstd::seq_lib::group_seq_properties;

            }
            assert forall|i: int, j: int|
                0 <= i < j < keys_of(items@).len() implies keys_of(items@)[i] != keys_of(items@)[j] by {
                assert(keys_of(before)[i] == path_key(before[i]@));
            }
        }
        self.items = items;
        true
    }

    /// Removes `path`; says whether it was a member.
    pub fn remove(&mut self, path: &FsPath) -> (removed: bool)
        ensures
            final(self)@ == old(self)@.remove(path_key(path@)),
            removed == old(self)@.contains(path_key(path@)),
    {
        proof {
            use_type_invariant(&*self);
            lemma_keys_of(self.items@);
        }
        let at: usize = Self::position(&self.items, path);
        if at == self.items.len() {
            assert(self@.remove(path_key(path@)) == self@);
            return false;
        }
        let mut items: Vec<FsPath> = Vec::new();
        std::mem::swap(&mut items, &mut self.items);
        let ghost before = items@;
        items.remove(at);
        proof {
            let was = keys_of(before);
            let now = keys_of(items@);
            assert(now == was.remove(at as int));
            assert forall|i: int, j: int| 0 <= i < j < now.len() implies now[i] != now[j] by {
                let a = if i < at { i } else { i + 1 };
                let b = if j < at { j } else { j + 1 };
                assert(now[i] == was[a] && now[j] == was[b]);
            }
            let key = path_key(path@);
            assert(was[at as int] == key);
            assert forall|k: PathKey| now.to_set().contains(k) == was.to_set().remove(key).contains(
                k,
            ) by {
                if now.to_set().contains(k) {
                    let i = choose|i: int| 0 <= i < now.len() && now[i] == k;
                    let a = if i < at { i } else { i + 1 };
                    assert(was[a] == k && a != at);
                }
                if was.to_set().remove(key).contains(k) {
                    let a = choose|a: int| 0 <= a < was.len() && was[a] == k;
                    let i = if a < at { a } else { a - 1 };
                    assert(now[i] == k);
                }
            }
            assert(now.to_set() =~= was.to_set().remove(key));
        }
        self.items = items;
        true
    }

    /// Removes every member.
    pub fn clear(&mut self)
        ensures
            final(self)@ == Set::<PathKey>::empty(),
    {
        let items: Vec<FsPath> = Vec::new();
        assert(keys_of(items@).to_set() == Set::<PathKey>::empty());
        self.items = items;
    }
}

impl Clone for PathSet {
    fn clone(&self) -> (r: Self)
        ensures
            r@ == self@,
    {
        proof {
            use_type_invariant(self);
        }
        let mut items: Vec<FsPath> = Vec::new();
        for i in 0..self.items.len()
            invariant
                keys_of(items@) == keys_of(self.items@).take(i as int),
        {
            let ghost before = items@;
            let path = self.items[i].clone();
            items.push(path);
            assert(keys_of(items@) == keys_of(before).push(path_key(path@)));
            assert(keys_of(self.items@).take(i + 1) == keys_of(self.items@).take(i as int).push(
                keys_of(self.items@)[i as int],
            ));
        }
        assert(keys_of(items@) == keys_of(self.items@));
        PathSet { items }
    }
}

} // verus!
