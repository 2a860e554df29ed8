//! Public pane numbers: panes are numbered from one without gaps, a new pane gets
//! the next number, and when a pane goes the higher numbers move down.
use crate::ids::{closed_up, IdMap};
use vstd::prelude::*;

verus! {

/// The numbers are different, lie between one and the number of panes, and
/// `next` is the one that follows.
pub open spec fn is_compact(numbers: Map<u64, usize>, next: usize) -> bool {
    &&& numbers.dom().finite()
    &&& next == numbers.dom().len() + 1
    &&& forall|k: u64|
        numbers.contains_key(k) ==> 1 <= #[trigger] numbers[k] <= numbers.dom().len()
    &&& forall|a: u64, b: u64|
        numbers.contains_key(a) && numbers.contains_key(b) && a != b ==> #[trigger] numbers[a]
            != #[trigger] numbers[b]
}

/// `after` numbers the panes of `before` that are not `gone`, without gaps and in
/// the same order.
pub open spec fn is_compaction(
    before: Map<u64, usize>,
    after: Map<u64, usize>,
    next: usize,
    gone: Set<u64>,
) -> bool {
    &&& is_compact(after, next)
    &&& after.dom() == before.dom().difference(gone)
    &&& forall|a: u64, b: u64|
        after.contains_key(a) && after.contains_key(b) ==> (#[trigger] after[a]
            < #[trigger] after[b] <==> before[a] < before[b])
}

/// A pane that is new to the table can be given the next number.
pub proof fn lemma_register(numbers: Map<u64, usize>, next: usize, id: u64)
    requires
        is_compact(numbers, next),
        !numbers.contains_key(id),
        next < usize::MAX,
    ensures
        is_compact(numbers.insert(id, next), (next + 1) as usize),
{
    let after = numbers.insert(id, next);
    assert(after.dom() == numbers.dom().insert(id));
    assert forall|k: u64| after.contains_key(k) implies 1 <= #[trigger] after[k]
        <= after.dom().len() by {
        if k != id {
            assert(numbers.contains_key(k));
        }
    }
    assert forall|a: u64, b: u64|
        after.contains_key(a) && after.contains_key(b) && a != b implies #[trigger] after[a]
        != #[trigger] after[b] by {
        if a != id {
            assert(1 <= numbers[a] <= numbers.dom().len());
        }
        if b != id {
            assert(1 <= numbers[b] <= numbers.dom().len());
        }
    }
}

/// Taking out a pane and closing up the gap keeps the numbers compact and in
/// order.
pub proof fn lemma_unregister(numbers: Map<u64, usize>, next: usize, id: u64)
    requires
        is_compact(numbers, next),
        numbers.contains_key(id),
    ensures
        is_compaction(
            numbers,
            closed_up(numbers.remove(id), numbers[id]),
            (next - 1) as usize,
            Set::empty().insert(id),
        ),
{
    let gap = numbers[id];
    let rest = numbers.remove(id);
    let after = closed_up(rest, gap);
    assert(after.dom() =~= numbers.dom().remove(id));
    assert(numbers.dom().remove(id) =~= numbers.dom().difference(Set::empty().insert(id)));
    assert forall|k: u64| after.contains_key(k) implies 1 <= #[trigger] after[k]
        <= after.dom().len() by {
        assert(numbers[k] != gap);
        assert(1 <= numbers[k] <= numbers.dom().len());
    }
    assert forall|a: u64, b: u64|
        after.contains_key(a) && after.contains_key(b) && a != b implies #[trigger] after[a]
        != #[trigger] after[b] by {
        assert(numbers[a] != gap && numbers[b] != gap && numbers[a] != numbers[b]);
    }
    assert forall|a: u64, b: u64|
        after.contains_key(a) && after.contains_key(b) implies (#[trigger] after[a]
        < #[trigger] after[b] <==> numbers[a] < numbers[b]) by {
        assert(numbers[a] != gap && numbers[b] != gap);
    }
}

/// Two compactions in a row make one.
pub proof fn lemma_compactions_chain(
    first: Map<u64, usize>,
    second: Map<u64, usize>,
    third: Map<u64, usize>,
    next2: usize,
    next3: usize,
    gone1: Set<u64>,
    gone2: Set<u64>,
)
    requires
        is_compaction(first, second, next2, gone1),
        is_compaction(second, third, next3, gone2),
    ensures
        is_compaction(first, third, next3, gone1.union(gone2)),
{
    assert(third.dom() =~= first.dom().difference(gone1.union(gone2)));
    assert forall|a: u64, b: u64|
        third.contains_key(a) && third.contains_key(b) implies (#[trigger] third[a]
        < #[trigger] third[b] <==> first[a] < first[b]) by {
        assert(second.contains_key(a) && second.contains_key(b));
        assert(second[a] < second[b] <==> first[a] < first[b]);
    }
}

/// The panes that have a number below `n`.
spec fn below(numbers: Map<u64, usize>, n: int) -> Set<u64> {
    numbers.dom().filter(|k: u64| numbers[k] < n)
}

/// As many panes as there are numbers for have a number up to `n`.
proof fn lemma_at_most_below(numbers: Map<u64, usize>, next: usize, n: int)
    requires
        is_compact(numbers, next),
        1 <= n <= next,
    ensures
        below(numbers, n).finite(),
        below(numbers, n).len() <= n - 1,
    decreases n,
{
    numbers.dom().lemma_len_filter(|k: u64| numbers[k] < n);
    let all = below(numbers, n);
    if n == 1 {
        assert(all =~= Set::empty()) by {
            assert forall|k: u64| !all.contains(k) by {
                if all.contains(k) {
                    assert(1 <= numbers[k]);
                }
            }
        }
    } else {
        lemma_at_most_below(numbers, next, n - 1);
        let lower = below(numbers, n - 1);
        if exists|k: u64| numbers.contains_key(k) && #[trigger] numbers[k] == n - 1 {
            let k = choose|k: u64| numbers.contains_key(k) && #[trigger] numbers[k] == n - 1;
            assert(all =~= lower.insert(k)) by {
                assert forall|x: u64| all.contains(x) <==> lower.insert(k).contains(x) by {
                    if all.contains(x) && x != k {
                        assert(numbers[x] != numbers[k]);
                    }
                }
            }
        } else {
            assert(all =~= lower);
        }
    }
}

/// Exactly `n - 1` panes have a number below `n`.
proof fn lemma_below(numbers: Map<u64, usize>, next: usize, n: int)
    requires
        is_compact(numbers, next),
        1 <= n <= next,
    ensures
        below(numbers, n).finite(),
        below(numbers, n).len() == n - 1,
    decreases next - n,
{
    numbers.dom().lemma_len_filter(|k: u64| numbers[k] < n);
    if n == next {
        assert(below(numbers, n) =~= numbers.dom()) by {
            assert forall|k: u64| numbers.contains_key(k) implies below(numbers, n).contains(k) by {
                assert(numbers[k] <= numbers.dom().len());
            }
        }
    } else {
        lemma_below(numbers, next, n + 1);
        lemma_at_most_below(numbers, next, n);
        let all = below(numbers, n + 1);
        let lower = below(numbers, n);
        if exists|k: u64| numbers.contains_key(k) && #[trigger] numbers[k] == n {
            let k = choose|k: u64| numbers.contains_key(k) && #[trigger] numbers[k] == n;
            assert(all =~= lower.insert(k)) by {
                assert forall|x: u64| all.contains(x) <==> lower.insert(k).contains(x) by {
                    if all.contains(x) && x != k {
                        assert(numbers[x] != numbers[k]);
                    }
                }
            }
            assert(!lower.contains(k));
        } else {
            assert(all =~= lower);
        }
    }
}

/// Every number from one up to the number of panes is in use.
pub proof fn law_numbers_have_no_gaps(numbers: Map<u64, usize>, next: usize, n: int)
    requires
        is_compact(numbers, next),
        1 <= n < next,
    ensures
        exists|k: u64| numbers.contains_key(k) && #[trigger] numbers[k] == n,
{
    lemma_below(numbers, next, n);
    lemma_below(numbers, next, n + 1);
    let lower = below(numbers, n);
    let upper = below(numbers, n + 1);
    if forall|k: u64| numbers.contains_key(k) ==> #[trigger] numbers[k] != n {
        assert(upper =~= lower);
    }
}

/// What is left after panes have gone can be numbered without gaps and in order in
/// one way only.
pub proof fn law_compaction_unique(
    before: Map<u64, usize>,
    after1: Map<u64, usize>,
    next1: usize,
    after2: Map<u64, usize>,
    next2: usize,
    gone: Set<u64>,
)
    requires
        is_compaction(before, after1, next1, gone),
        is_compaction(before, after2, next2, gone),
    ensures
        after1 == after2,
        next1 == next2,
{
    assert forall|k: u64| after1.contains_key(k) implies after1[k] == after2[k] by {
        assert(after2.contains_key(k));
        assert(1 <= after1[k] <= after1.dom().len());
        assert(1 <= after2[k] <= after2.dom().len());
        lemma_below(after1, next1, after1[k] as int);
        lemma_below(after2, next2, after2[k] as int);
        let lower1 = below(after1, after1[k] as int);
        let lower2 = below(after2, after2[k] as int);
        assert forall|x: u64| lower1.contains(x) <==> lower2.contains(x) by {
            if after1.contains_key(x) {
                assert(after1[x] < after1[k] <==> before[x] < before[k]);
                assert(after2[x] < after2[k] <==> before[x] < before[k]);
            }
        }
        assert(lower1 =~= lower2);
    }
    assert(after1 =~= after2);
}

/// Gives a pane the next number.
pub fn register_pane(numbers: &mut IdMap<usize>, next: &mut usize, id: u64)
    requires
        *old(next) < usize::MAX,
    ensures
        final(numbers)@ == old(numbers)@.insert(id, *old(next)),
        *final(next) == *old(next) + 1,
{
    numbers.insert(id, *next);
    *next = *next + 1;
}

/// Takes a pane out of the table and closes up the gap.
pub fn unregister_pane(numbers: &mut IdMap<usize>, next: &mut usize, id: u64)
    ensures
        !old(numbers)@.contains_key(id) ==> final(numbers)@ == old(numbers)@ && *final(next)
            == *old(next),
        old(numbers)@.contains_key(id) ==> final(numbers)@ == closed_up(
            old(numbers)@.remove(id),
            old(numbers)@[id],
        ) && *final(next) == old(numbers)@.dom().len(),
{
    let count: usize = numbers.len();
    if let Some(removed) = numbers.remove(id) {
        numbers.close_up(removed);
        *next = count;
    } else {
        assert(old(numbers)@.remove(id) =~= old(numbers)@);
    }
}

/// When a pane goes, the panes with higher numbers move down by one and those with lower
/// numbers keep theirs.
pub proof fn law_numbers_move_down(
    before: Map<u64, usize>,
    next_before: usize,
    after: Map<u64, usize>,
    next_after: usize,
    id: u64,
    k: u64,
)
    requires
        is_compact(before, next_before),
        is_compaction(before, after, next_after, Set::empty().insert(id)),
        before.contains_key(id),
        before.contains_key(k),
        k != id,
    ensures
        after.contains_key(k),
        !after.contains_key(id),
        before[k] < before[id] ==> after[k] == before[k],
        before[k] > before[id] ==> after[k] + 1 == before[k],
        next_after + 1 == next_before,
{
    lemma_unregister(before, next_before, id);
    law_compaction_unique(
        before,
        after,
        next_after,
        closed_up(before.remove(id), before[id]),
        (next_before - 1) as usize,
        Set::empty().insert(id),
    );
    assert(before.dom().difference(Set::empty().insert(id)).contains(k));
    assert(before[k] != before[id]);
}

/// A new pane has the highest number, and the others keep theirs.
pub proof fn law_new_number(before: Map<u64, usize>, next: usize, id: u64, k: u64)
    requires
        is_compact(before, next),
        !before.contains_key(id),
        before.contains_key(k),
    ensures
        before.insert(id, next)[id] == before.dom().len() + 1,
        before.insert(id, next)[k] == before[k],
        before[k] < before.insert(id, next)[id],
{
}

/// Numbers without gaps start at one and are one apart: as many panes have a lower number
/// as the number says.
pub proof fn law_number_counts_lower_ones(numbers: Map<u64, usize>, next: usize, k: u64)
    requires
        is_compact(numbers, next),
        numbers.contains_key(k),
    ensures
        numbers.dom().filter(|other: u64| numbers[other] < numbers[k]).len() + 1 == numbers[k],
{
    assert(1 <= numbers[k] <= numbers.dom().len());
    lemma_below(numbers, next, numbers[k] as int);
    assert(numbers.dom().filter(|other: u64| numbers[other] < numbers[k]) =~= below(
        numbers,
        numbers[k] as int,
    ));
}

} // verus!
