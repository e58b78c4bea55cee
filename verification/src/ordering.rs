use vstd::prelude::*;

verus! {

/// Whether the ranks of `items` never fall from one item to the next.
pub open spec fn is_sorted<T>(items: Seq<T>, rank: spec_fn(T) -> int) -> bool {
    forall|i: int, j: int| 0 <= i < j < items.len() ==> rank(items[i]) <= rank(items[j])
}

/// Where an item of rank `r` enters the sorted sequence `sorted`: behind
/// every item whose rank is at most `r`.
pub open spec fn insert_position<T>(sorted: Seq<T>, rank: spec_fn(T) -> int, r: int) -> int
    decreases sorted.len(),
{
    if sorted.len() == 0 || rank(sorted.last()) <= r {
        sorted.len() as int
    } else {
        insert_position(sorted.drop_last(), rank, r)
    }
}

/// The items in the order of their ranks, lowest first; items of equal
/// rank stay in the order in which they stood.
pub open spec fn stable_sort<T>(items: Seq<T>, rank: spec_fn(T) -> int) -> Seq<T>
    decreases items.len(),
{
    if items.len() == 0 {
        Seq::empty()
    } else {
        let sorted = stable_sort(items.drop_last(), rank);
        sorted.insert(insert_position(sorted, rank, rank(items.last())), items.last())
    }
}

/// The position lies in the sequence; from it on every rank is above `r`,
/// and in a sorted sequence every rank before it is at most `r`.
pub proof fn lemma_insert_position<T>(sorted: Seq<T>, rank: spec_fn(T) -> int, r: int)
    ensures
        0 <= insert_position(sorted, rank, r) <= sorted.len(),
        forall|k: int|
            insert_position(sorted, rank, r) <= k < sorted.len() ==> rank(#[trigger] sorted[k])
                > r,
        is_sorted(sorted, rank) ==> forall|k: int|
            0 <= k < insert_position(sorted, rank, r) ==> rank(#[trigger] sorted[k]) <= r,
    decreases sorted.len(),
{
    if sorted.len() == 0 || rank(sorted.last()) <= r {
        if is_sorted(sorted, rank) {
            assert forall|k: int| 0 <= k < sorted.len() implies rank(#[trigger] sorted[k])
                <= r by {
                if k < sorted.len() - 1 {
                    assert(rank(sorted[k]) <= rank(sorted[sorted.len() - 1]));
                }
            }
        }
    } else {
        let shorter = sorted.drop_last();
        lemma_insert_position(shorter, rank, r);
        assert forall|k: int|
            insert_position(sorted, rank, r) <= k < sorted.len() implies rank(
            #[trigger] sorted[k],
        ) > r by {
            if k < shorter.len() {
                assert(shorter[k] == sorted[k]);
            }
        }
        if is_sorted(sorted, rank) {
            assert(is_sorted(shorter, rank)) by {
                assert forall|i: int, j: int| 0 <= i < j < shorter.len() implies rank(shorter[i])
                    <= rank(shorter[j]) by {
                    assert(shorter[i] == sorted[i] && shorter[j] == sorted[j]);
                }
            }
            assert forall|k: int| 0 <= k < insert_position(sorted, rank, r) implies rank(
                #[trigger] sorted[k],
            ) <= r by {
                assert(shorter[k] == sorted[k]);
            }
        }
    }
}

/// Sorting keeps the number of items.
pub proof fn lemma_stable_sort_len<T>(items: Seq<T>, rank: spec_fn(T) -> int)
    ensures
        stable_sort(items, rank).len() == items.len(),
    decreases items.len(),
{
    if items.len() > 0 {
        let sorted = stable_sort(items.drop_last(), rank);
        lemma_stable_sort_len(items.drop_last(), rank);
        lemma_insert_position(sorted, rank, rank(items.last()));
    }
}

/// What comes out of the sort is sorted.
pub proof fn lemma_stable_sort_is_sorted<T>(items: Seq<T>, rank: spec_fn(T) -> int)
    ensures
        is_sorted(stable_sort(items, rank), rank),
    decreases items.len(),
{
    if items.len() > 0 {
        let sorted = stable_sort(items.drop_last(), rank);
        let r = rank(items.last());
        let p = insert_position(sorted, rank, r);
        lemma_stable_sort_is_sorted(items.drop_last(), rank);
        lemma_insert_position(sorted, rank, r);
        let out = sorted.insert(p, items.last());
        assert forall|i: int, j: int| 0 <= i < j < out.len() implies rank(out[i]) <= rank(
            out[j],
        ) by {
            if j < p {
                assert(out[i] == sorted[i] && out[j] == sorted[j]);
            } else if j == p {
                assert(out[i] == sorted[i]);
            } else if i < p {
                assert(out[i] == sorted[i] && out[j] == sorted[j - 1]);
                assert(rank(sorted[i]) <= r);
                assert(rank(sorted[j - 1]) > r);
            } else if i == p {
                assert(out[j] == sorted[j - 1]);
                assert(rank(sorted[j - 1]) > r);
            } else {
                assert(out[i] == sorted[i - 1] && out[j] == sorted[j - 1]);
            }
        }
    }
}

/// What comes out of the sort holds the same items, each as often as
/// before.
pub proof fn lemma_stable_sort_is_permutation<T>(items: Seq<T>, rank: spec_fn(T) -> int)
    ensures
        stable_sort(items, rank).to_multiset() == items.to_multiset(),
    decreases items.len(),
{
    broadcast use vstd::seq_lib::group_to_multiset_ensures;

    if items.len() > 0 {
        let sorted = stable_sort(items.drop_last(), rank);
        let p = insert_position(sorted, rank, rank(items.last()));
        lemma_stable_sort_is_permutation(items.drop_last(), rank);
        lemma_insert_position(sorted, rank, rank(items.last()));
        vstd::seq_lib::to_multiset_insert(sorted, p, items.last());
        vstd::seq_lib::to_multiset_build(items.drop_last(), items.last());
        assert(items.drop_last().push(items.last()) == items);
        assert(stable_sort(items, rank).to_multiset() =~= items.to_multiset());
    } else {
        assert(stable_sort(items, rank) == items);
    }
}

/// Sorting a sorted sequence changes nothing.
pub proof fn lemma_stable_sort_of_sorted<T>(items: Seq<T>, rank: spec_fn(T) -> int)
    requires
        is_sorted(items, rank),
    ensures
        stable_sort(items, rank) == items,
    decreases items.len(),
{
    if items.len() > 0 {
        let shorter = items.drop_last();
        assert(is_sorted(shorter, rank)) by {
            assert forall|i: int, j: int| 0 <= i < j < shorter.len() implies rank(shorter[i])
                <= rank(shorter[j]) by {
                assert(shorter[i] == items[i] && shorter[j] == items[j]);
            }
        }
        lemma_stable_sort_of_sorted(shorter, rank);
        if shorter.len() > 0 {
            assert(shorter.last() == items[items.len() - 2]);
            assert(rank(shorter.last()) <= rank(items.last()));
        }
        assert(insert_position(shorter, rank, rank(items.last())) == shorter.len());
        assert(shorter.insert(shorter.len() as int, items.last()) =~= items);
    } else {
        assert(stable_sort(items, rank) =~= items);
    }
}

/// A part of a sorted sequence, from `from` on, is sorted.
pub proof fn lemma_skip_of_sorted<T>(items: Seq<T>, rank: spec_fn(T) -> int, from: int)
    requires
        is_sorted(items, rank),
        0 <= from <= items.len(),
    ensures
        is_sorted(items.skip(from), rank),
{
    let rest = items.skip(from);
    assert forall|i: int, j: int| 0 <= i < j < rest.len() implies rank(rest[i]) <= rank(
        rest[j],
    ) by {
        assert(rest[i] == items[i + from] && rest[j] == items[j + from]);
    }
}

/// What holds of every item holds of every item after the sort.
pub proof fn lemma_stable_sort_keeps<T>(
    items: Seq<T>,
    rank: spec_fn(T) -> int,
    holds: spec_fn(T) -> bool,
)
    requires
        forall|i: int| 0 <= i < items.len() ==> holds(#[trigger] items[i]),
    ensures
        forall|i: int|
            0 <= i < stable_sort(items, rank).len()
                ==> holds(#[trigger] stable_sort(items, rank)[i]),
    decreases items.len(),
{
    if items.len() > 0 {
        let shorter = items.drop_last();
        assert forall|i: int| 0 <= i < shorter.len() implies holds(#[trigger] shorter[i]) by {
            assert(shorter[i] == items[i]);
        }
        lemma_stable_sort_keeps(shorter, rank, holds);
        let sorted = stable_sort(shorter, rank);
        let p = insert_position(sorted, rank, rank(items.last()));
        lemma_insert_position(sorted, rank, rank(items.last()));
        let out = sorted.insert(p, items.last());
        assert forall|i: int| 0 <= i < out.len() implies holds(#[trigger] out[i]) by {
            if i < p {
                assert(out[i] == sorted[i]);
            } else if i == p {
                assert(out[i] == items[items.len() - 1]);
            } else {
                assert(out[i] == sorted[i - 1]);
            }
        }
    }
}

/// The rank of a pair by its first part.
pub open spec fn first_rank() -> spec_fn((u128, usize)) -> int {
    |pair: (u128, usize)| pair.0 as int
}

/// Orders the pairs by their first parts, the least first; pairs with
/// equal first parts stay in the order in which they stood.
pub fn sort_by_first(list: &mut Vec<(u128, usize)>)
    ensures
        final(list)@ == stable_sort(old(list)@, first_rank()),
{
    let ghost rank = first_rank();
    let ghost start = list@;
    let mut i: usize = 0;
    proof {
        assert(start.take(0) =~= Seq::empty());
        assert(stable_sort(start.take(0), rank) + start.skip(0) =~= start);
    }
    while i < list.len()
        invariant
            i <= list.len(),
            list.len() == start.len(),
            rank == first_rank(),
            list@ == stable_sort(start.take(i as int), rank) + start.skip(i as int),
        decreases list.len() - i,
    {
        let ghost sorted = stable_sort(start.take(i as int), rank);
        let ghost before = list@;
        proof {
            lemma_stable_sort_len(start.take(i as int), rank);
            assert(before.take(i as int) =~= sorted);
            assert(before[i as int] == start[i as int]);
        }
        let item = list.remove(i);
        let ghost r = rank(item);
        proof {
            assert(list@ =~= sorted + start.skip(i + 1));
            assert(list@.take(i as int) =~= sorted);
            assert(sorted.take(i as int) =~= sorted);
        }
        let mut p: usize = i;
        while p > 0 && list[p - 1].0 > item.0
            invariant
                p <= i <= list.len(),
                rank == first_rank(),
                r == item.0,
                list@.take(i as int) == sorted,
                insert_position(sorted, rank, r) == insert_position(sorted.take(p as int), rank, r),
            decreases p,
        {
            proof {
                let part = sorted.take(p as int);
                assert(part.last() == list@[p - 1]);
                assert(rank(part.last()) > r);
                assert(part.drop_last() =~= sorted.take(p - 1));
            }
            p = p - 1;
        }
        proof {
            let part = sorted.take(p as int);
            if p > 0 {
                assert(part.last() == list@[p - 1]);
                assert(rank(part.last()) <= r);
            }
            assert(insert_position(sorted, rank, r) == p);
            let whole = start.take(i + 1);
            assert(whole.drop_last() =~= start.take(i as int));
            assert(whole.last() == item);
            assert(stable_sort(whole, rank) == sorted.insert(p as int, item));
        }
        let ghost removed = list@;
        list.insert(p, item);
        proof {
            assert(list@ =~= sorted.insert(p as int, item) + start.skip(i + 1));
        }
        i = i + 1;
    }
    proof {
        assert(start.take(i as int) =~= start);
        assert(stable_sort(start, rank) + start.skip(i as int) =~= stable_sort(start, rank));
    }
}

} // verus!
