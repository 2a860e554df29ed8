//! Lexicographic keys and the stable order that sorts a list by them.
use vstd::prelude::*;

verus! {

/// Whether `a` comes before `b`: at the first position where they differ `a`
/// has the smaller number, or `a` is a proper prefix of `b`.
pub open spec fn row_before(a: Seq<u32>, b: Seq<u32>) -> bool
    decreases a.len(),
{
    if b.len() == 0 {
        false
    } else if a.len() == 0 {
        true
    } else if a[0] != b[0] {
        a[0] < b[0]
    } else {
        row_before(a.skip(1), b.skip(1))
    }
}

/// Whether the key `a` comes before the key `b`: at the first position where
/// they differ the row of `a` comes first, or `a` is a proper prefix of `b`.
pub open spec fn key_before(a: Seq<Seq<u32>>, b: Seq<Seq<u32>>) -> bool
    decreases a.len(),
{
    if b.len() == 0 {
        false
    } else if a.len() == 0 {
        true
    } else if a[0] != b[0] {
        row_before(a[0], b[0])
    } else {
        key_before(a.skip(1), b.skip(1))
    }
}

/// No row comes before itself, and of two different rows exactly one comes
/// before the other.
pub proof fn lemma_row_total(a: Seq<u32>, b: Seq<u32>)
    ensures
        a == b ==> !row_before(a, b),
        a != b ==> row_before(a, b) != row_before(b, a),
    decreases a.len(),
{
    if a.len() > 0 && b.len() > 0 {
        lemma_row_total(a.skip(1), b.skip(1));
        if a[0] == b[0] && a.skip(1) == b.skip(1) {
            assert(a == seq![a[0]] + a.skip(1));
            assert(b == seq![b[0]] + b.skip(1));
        }
    } else if a.len() == 0 && b.len() == 0 {
        assert(a == b);
    }
}

pub proof fn lemma_row_transitive(a: Seq<u32>, b: Seq<u32>, c: Seq<u32>)
    requires
        row_before(a, b),
        row_before(b, c),
    ensures
        row_before(a, c),
    decreases a.len(),
{
    if a.len() > 0 && b.len() > 0 && c.len() > 0 && a[0] == b[0] && b[0] == c[0] {
        lemma_row_transitive(a.skip(1), b.skip(1), c.skip(1));
    }
}

/// No key comes before itself, and of two different keys exactly one comes
/// before the other.
pub proof fn lemma_key_total(a: Seq<Seq<u32>>, b: Seq<Seq<u32>>)
    ensures
        a == b ==> !key_before(a, b),
        a != b ==> key_before(a, b) != key_before(b, a),
    decreases a.len(),
{
    if a.len() > 0 && b.len() > 0 {
        lemma_key_total(a.skip(1), b.skip(1));
        lemma_row_total(a[0], b[0]);
        if a[0] == b[0] && a.skip(1) == b.skip(1) {
            assert(a == seq![a[0]] + a.skip(1));
            assert(b == seq![b[0]] + b.skip(1));
        }
    } else if a.len() == 0 && b.len() == 0 {
        assert(a == b);
    }
}

pub proof fn lemma_key_transitive(a: Seq<Seq<u32>>, b: Seq<Seq<u32>>, c: Seq<Seq<u32>>)
    requires
        key_before(a, b),
        key_before(b, c),
    ensures
        key_before(a, c),
    decreases a.len(),
{
    if a.len() > 0 && b.len() > 0 && c.len() > 0 {
        if a[0] == b[0] && b[0] == c[0] {
            lemma_key_transitive(a.skip(1), b.skip(1), c.skip(1));
        } else if a[0] != b[0] && b[0] != c[0] {
            lemma_row_transitive(a[0], b[0], c[0]);
            lemma_row_total(a[0], c[0]);
        }
    }
}

/// The rows of a key.
pub open spec fn rows(key: Seq<Vec<u32>>) -> Seq<Seq<u32>> {
    key.map_values(|row: Vec<u32>| row@)
}

/// The keys of a list.
pub open spec fn keys(list: Seq<Vec<Vec<u32>>>) -> Seq<Seq<Seq<u32>>> {
    list.map_values(|key: Vec<Vec<u32>>| rows(key@))
}

fn row_is_before(a: &Vec<u32>, b: &Vec<u32>) -> (r: bool)
    ensures
        r == row_before(a@, b@),
{
    let mut i: usize = 0;
    assert(a@.skip(0) == a@);
    assert(b@.skip(0) == b@);
    while i < a.len() && i < b.len() && a[i] == b[i]
        invariant
            i <= a@.len(),
            i <= b@.len(),
            row_before(a@, b@) == row_before(a@.skip(i as int), b@.skip(i as int)),
        decreases a@.len() - i,
    {
        i += 1;
        assert(a@.skip(i - 1).skip(1) == a@.skip(i as int));
        assert(b@.skip(i - 1).skip(1) == b@.skip(i as int));
    }
    i < b.len() && (i == a.len() || a[i] < b[i])
}

fn rows_equal(a: &Vec<u32>, b: &Vec<u32>) -> (r: bool)
    ensures
        r == (a@ == b@),
{
    if a.len() != b.len() {
        return false;
    }
    let mut i: usize = 0;
    while i < a.len()
        invariant
            i <= a@.len(),
            a@.len() == b@.len(),
            forall|j: int| 0 <= j < i ==> a@[j] == b@[j],
        decreases a@.len() - i,
    {
        if a[i] != b[i] {
            return false;
        }
        i += 1;
    }
    assert(a@ == b@);
    true
}

/// Whether the key `a` comes before the key `b`.
pub fn is_before(a: &Vec<Vec<u32>>, b: &Vec<Vec<u32>>) -> (r: bool)
    ensures
        r == key_before(rows(a@), rows(b@)),
{
    let mut i: usize = 0;
    assert(rows(a@).skip(0) == rows(a@));
    assert(rows(b@).skip(0) == rows(b@));
    while i < a.len() && i < b.len() && rows_equal(&a[i], &b[i])
        invariant
            i <= a@.len(),
            i <= b@.len(),
            key_before(rows(a@), rows(b@)) == key_before(
                rows(a@).skip(i as int),
                rows(b@).skip(i as int),
            ),
        decreases a@.len() - i,
    {
        i += 1;
        assert(rows(a@).skip(i - 1).skip(1) == rows(a@).skip(i as int));
        assert(rows(b@).skip(i - 1).skip(1) == rows(b@).skip(i as int));
    }
    i < b.len() && (i == a.len() || row_is_before(&a[i], &b[i]))
}

/// `order` lists every position of a list of `n` items exactly once.
pub open spec fn is_permutation(order: Seq<int>, n: int) -> bool {
    &&& order.len() == n
    &&& forall|i: int| 0 <= i < n ==> 0 <= #[trigger] order[i] < n
    &&& forall|i: int, j: int| 0 <= i < j < n ==> order[i] != order[j]
}

/// The item at position `a` belongs before the item at position `b`: by its
/// key, or with equal keys because it already comes first.
pub open spec fn placed_before(list: Seq<Seq<Seq<u32>>>, a: int, b: int) -> bool {
    key_before(list[a], list[b]) || (list[a] == list[b] && a < b)
}

/// `order` is the stable sorting of `list`: each position once, by key, and
/// items with equal keys in the order they already have.
pub open spec fn is_stable_order(list: Seq<Seq<Seq<u32>>>, order: Seq<int>) -> bool {
    &&& is_permutation(order, list.len() as int)
    &&& forall|i: int, j: int|
        0 <= i < j < list.len() ==> #[trigger] placed_before(list, order[i], order[j])
}

/// A list of positions as integers.
pub open spec fn positions(order: Seq<usize>) -> Seq<int> {
    order.map_values(|i: usize| i as int)
}

/// Where the item at `n` goes among the sorted positions before it: behind
/// every item whose key is not greater.
fn insertion_point(list: &Vec<Vec<Vec<u32>>>, order: &Vec<usize>, n: usize) -> (at: usize)
    requires
        n < list@.len(),
        forall|i: int| 0 <= i < order@.len() ==> #[trigger] order@[i] < n,
        forall|i: int, j: int|
            0 <= i < j < order@.len() ==> #[trigger] placed_before(
                keys(list@),
                order@[i] as int,
                order@[j] as int,
            ),
    ensures
        at <= order@.len(),
        forall|i: int|
            0 <= i < at ==> !key_before(keys(list@)[n as int], keys(list@)[#[trigger] order@[i] as int]),
        forall|i: int|
            at <= i < order@.len() ==> key_before(
                keys(list@)[n as int],
                keys(list@)[#[trigger] order@[i] as int],
            ),
{
    let mut lo: usize = 0;
    let mut hi: usize = order.len();
    let ghost k = keys(list@);
    while lo < hi
        invariant
            n < list@.len(),
            k == keys(list@),
            lo <= hi <= order@.len(),
            forall|i: int| 0 <= i < order@.len() ==> #[trigger] order@[i] < n,
            forall|i: int, j: int|
                0 <= i < j < order@.len() ==> #[trigger] placed_before(
                    k,
                    order@[i] as int,
                    order@[j] as int,
                ),
            forall|i: int| 0 <= i < lo ==> !key_before(k[n as int], k[#[trigger] order@[i] as int]),
            forall|i: int|
                hi <= i < order@.len() ==> key_before(
                    k[n as int],
                    k[#[trigger] order@[i] as int],
                ),
        decreases hi - lo,
    {
        let mid: usize = lo + (hi - lo) / 2;
        let ghost at_mid = k[order@[mid as int] as int];
        if is_before(&list[n], &list[order[mid]]) {
            proof {
                assert forall|i: int| mid <= i < order@.len() implies key_before(
                    k[n as int],
                    k[#[trigger] order@[i] as int],
                ) by {
                    if i > mid {
                        assert(placed_before(k, order@[mid as int] as int, order@[i] as int));
                        if key_before(at_mid, k[order@[i] as int]) {
                            lemma_key_transitive(k[n as int], at_mid, k[order@[i] as int]);
                        }
                    }
                }
            }
            hi = mid;
        } else {
            proof {
                assert forall|i: int| 0 <= i < mid + 1 implies !key_before(
                    k[n as int],
                    k[#[trigger] order@[i] as int],
                ) by {
                    if i < mid {
                        assert(placed_before(k, order@[i] as int, order@[mid as int] as int));
                        if key_before(k[n as int], k[order@[i] as int]) && key_before(
                            k[order@[i] as int],
                            at_mid,
                        ) {
                            lemma_key_transitive(k[n as int], k[order@[i] as int], at_mid);
                        }
                    }
                }
            }
            lo = mid + 1;
        }
    }
    lo
}

/// The stable sorting of `list`, as the positions of its items in sorted order.
pub fn stable_order(list: &Vec<Vec<Vec<u32>>>) -> (order: Vec<usize>)
    ensures
        is_stable_order(keys(list@), positions(order@)),
{
    let mut order: Vec<usize> = Vec::new();
    let ghost k = keys(list@);
    let mut n: usize = 0;
    while n < list.len()
        invariant
            k == keys(list@),
            n <= list@.len(),
            order@.len() == n,
            forall|i: int| 0 <= i < n ==> #[trigger] order@[i] < n,
            forall|i: int, j: int| 0 <= i < j < n ==> order@[i] != order@[j],
            forall|i: int, j: int|
                0 <= i < j < n ==> #[trigger] placed_before(
                    k,
                    order@[i] as int,
                    order@[j] as int,
                ),
        decreases list@.len() - n,
    {
        let at: usize = insertion_point(list, &order, n);
        let ghost before = order@;
        order.insert(at, n);
        proof {
            assert forall|i: int, j: int| 0 <= i < j < n + 1 implies #[trigger] placed_before(
                k,
                order@[i] as int,
                order@[j] as int,
            ) by {
                if j == at {
                    assert(order@[i] == before[i]);
                    lemma_key_total(k[order@[i] as int], k[n as int]);
                } else if i == at {
                    assert(order@[j] == before[j - 1]);
                } else {
                    let a = if i < at { i } else { i - 1 };
                    let b = if j < at { j } else { j - 1 };
                    assert(placed_before(k, before[a] as int, before[b] as int));
                }
            }
        }
        n += 1;
    }
    order
}

/// Every position of the list stands somewhere in the order.
pub proof fn lemma_permutation_covers(order: Seq<int>, n: int, a: int) -> (at: int)
    requires
        is_permutation(order, n),
        0 <= a < n,
    ensures
        0 <= at < n,
        order[at] == a,
{
    let members = order.to_set();
    let range = vstd::set_lib::set_int_range(0, n);
    assert(order.no_duplicates());
    order.unique_seq_to_set();
    vstd::set_lib::lemma_int_range(0, n);
    assert(members.subset_of(range));
    vstd::set_lib::lemma_subset_equality(members, range);
    assert(members.contains(a));
    choose|i: int| 0 <= i < n && order[i] == a
}

proof fn lemma_stable_orders_agree(
    list: Seq<Seq<Seq<u32>>>,
    order1: Seq<int>,
    order2: Seq<int>,
    n: int,
)
    requires
        is_stable_order(list, order1),
        is_stable_order(list, order2),
        0 <= n <= list.len(),
    ensures
        forall|i: int| 0 <= i < n ==> order1[i] == order2[i],
    decreases n,
{
    if n > 0 {
        lemma_stable_orders_agree(list, order1, order2, n - 1);
        let a = order1[n - 1];
        let b = order2[n - 1];
        if a != b {
            let i = lemma_permutation_covers(order2, list.len() as int, a);
            let j = lemma_permutation_covers(order1, list.len() as int, b);
            assert(i > n - 1 && j > n - 1);
            assert(placed_before(list, order2[n - 1], order2[i]));
            assert(placed_before(list, order1[n - 1], order1[j]));
            lemma_key_total(list[a], list[b]);
        }
    }
}

/// A list has one stable sorting only.
pub proof fn law_stable_order_unique(
    list: Seq<Seq<Seq<u32>>>,
    order1: Seq<int>,
    order2: Seq<int>,
)
    requires
        is_stable_order(list, order1),
        is_stable_order(list, order2),
    ensures
        order1 == order2,
{
    lemma_stable_orders_agree(list, order1, order2, list.len() as int);
}

/// Of two different rows the one comes first that has the smaller number where they
/// differ first, or that the other one continues.
pub proof fn law_row_order(a: Seq<u32>, b: Seq<u32>, k: int)
    requires
        0 <= k <= a.len(),
        k <= b.len(),
        forall|i: int| 0 <= i < k ==> a[i] == b[i],
        k < a.len() && k < b.len() ==> a[k] != b[k],
    ensures
        row_before(a, b) <==> k < b.len() && (k == a.len() || a[k] < b[k]),
    decreases k,
{
    if k > 0 {
        let x = a.skip(1);
        let y = b.skip(1);
        assert forall|i: int| 0 <= i < k - 1 implies x[i] == y[i] by {
            assert(x[i] == a[i + 1] && y[i] == b[i + 1]);
        }
        assert(a[0] == b[0]);
        law_row_order(x, y, k - 1);
    }
}

/// Of two different keys the one comes first whose row comes first where they differ
/// first, or that the other one continues.
pub proof fn law_key_order(a: Seq<Seq<u32>>, b: Seq<Seq<u32>>, k: int)
    requires
        0 <= k <= a.len(),
        k <= b.len(),
        forall|i: int| 0 <= i < k ==> a[i] == b[i],
        k < a.len() && k < b.len() ==> a[k] != b[k],
    ensures
        key_before(a, b) <==> k < b.len() && (k == a.len() || row_before(a[k], b[k])),
    decreases k,
{
    if k > 0 {
        let x = a.skip(1);
        let y = b.skip(1);
        assert forall|i: int| 0 <= i < k - 1 implies x[i] == y[i] by {
            assert(x[i] == a[i + 1] && y[i] == b[i + 1]);
        }
        assert(a[0] == b[0]);
        law_key_order(x, y, k - 1);
    }
}

/// Where two sequences differ first.
pub proof fn lemma_first_difference<T>(a: Seq<T>, b: Seq<T>) -> (k: int)
    ensures
        0 <= k <= a.len(),
        k <= b.len(),
        forall|i: int| 0 <= i < k ==> a[i] == b[i],
        k < a.len() && k < b.len() ==> a[k] != b[k],
    decreases a.len(),
{
    if a.len() == 0 || b.len() == 0 || a[0] != b[0] {
        0
    } else {
        let x = a.skip(1);
        let y = b.skip(1);
        let k = lemma_first_difference(x, y);
        assert forall|i: int| 0 <= i < k + 1 implies a[i] == b[i] by {
            if i > 0 {
                assert(x[i - 1] == y[i - 1]);
            }
        }
        if k + 1 < a.len() && k + 1 < b.len() {
            assert(x[k] != y[k]);
        }
        k + 1
    }
}

/// Sorting lists every position once, puts no item before one with a smaller key, and
/// leaves items with the same key in the order that they have.
pub proof fn law_stable_order_sorts(list: Seq<Seq<Seq<u32>>>, order: Seq<int>)
    requires
        is_stable_order(list, order),
    ensures
        order.len() == list.len(),
        forall|a: int| 0 <= a < list.len() ==> #[trigger] order.contains(a),
        forall|i: int, j: int|
            0 <= i < j < order.len() ==> !key_before(
                list[#[trigger] order[j]],
                list[#[trigger] order[i]],
            ),
        forall|i: int, j: int|
            0 <= i < j < order.len() && list[#[trigger] order[i]] == list[#[trigger] order[j]]
                ==> order[i] < order[j],
{
    assert forall|a: int| 0 <= a < list.len() implies #[trigger] order.contains(a) by {
        let at = lemma_permutation_covers(order, list.len() as int, a);
        assert(order[at] == a);
    }
    assert forall|i: int, j: int| 0 <= i < j < order.len() implies !key_before(
        list[#[trigger] order[j]],
        list[#[trigger] order[i]],
    ) && (list[order[i]] == list[order[j]] ==> order[i] < order[j]) by {
        assert(placed_before(list, order[i], order[j]));
        lemma_key_total(list[order[i]], list[order[j]]);
    }
}

} // verus!
