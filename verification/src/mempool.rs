use crate::custom_types::GasPrice;
use crate::ordering::{insert_position, lemma_stable_sort_len, stable_sort};
use crate::receipt::{receipt_option_view, ReceiptView};
use crate::transaction::{TransactionAndReceipt, TransactionView};
use vstd::prelude::*;

verus! {

/// An entry of a mempool, as mathematical values.
pub type EntryView = (TransactionView, Option<ReceiptView>);

/// The view of an entry of a mempool.
pub open spec fn entry_view(entry: TransactionAndReceipt) -> EntryView {
    (entry.0@, receipt_option_view(entry.1))
}

/// The views of the entries of a mempool.
pub open spec fn entries_view(entries: Seq<TransactionAndReceipt>) -> Seq<EntryView> {
    entries.map_values(|e: TransactionAndReceipt| entry_view(e))
}

/// The rank by which a mempool is ordered at `base_fee`: the higher the
/// effective priority of an entry, the lower its rank.
pub open spec fn priority_rank(base_fee: GasPrice) -> spec_fn(EntryView) -> int {
    |e: EntryView| -(e.0.effective_priority(base_fee) as int)
}

/// The mempool in the order in which a block at `base_fee` takes from it:
/// highest effective priority first, equal priorities in order of arrival.
pub open spec fn sorted_mempool(entries: Seq<EntryView>, base_fee: GasPrice) -> Seq<EntryView> {
    stable_sort(entries, priority_rank(base_fee))
}

/// A copy of an entry of a mempool.
pub fn clone_entry(entry: &TransactionAndReceipt) -> (copy: TransactionAndReceipt)
    ensures
        entry_view(copy) == entry_view(*entry),
{
    let transaction = entry.0.clone();
    let receipt = match &entry.1 {
        Some(r) => Some(r.clone()),
        None => None,
    };
    (transaction, receipt)
}

/// Orders the mempool for a block at `base_fee`.
pub fn sort_mempool(pool: &mut Vec<TransactionAndReceipt>, base_fee: GasPrice)
    ensures
        entries_view(final(pool)@) == sorted_mempool(entries_view(old(pool)@), base_fee),
{
    let ghost rank = priority_rank(base_fee);
    let ghost start = entries_view(pool@);
    let mut i: usize = 0;
    proof {
        assert(start.take(0) =~= Seq::empty());
        assert(stable_sort(start.take(0), rank) + start.skip(0) =~= start);
    }
    while i < pool.len()
        invariant
            i <= pool.len(),
            pool.len() == start.len(),
            rank == priority_rank(base_fee),
            entries_view(pool@) == stable_sort(start.take(i as int), rank) + start.skip(i as int),
        decreases pool.len() - i,
    {
        let ghost sorted = stable_sort(start.take(i as int), rank);
        let ghost before = entries_view(pool@);
        let ghost item = before[i as int];
        let ghost r = rank(item);
        let priority = pool[i].0.effective_priority(base_fee);
        proof {
            lemma_stable_sort_len(start.take(i as int), rank);
            assert(before.take(i as int) =~= sorted);
            assert(item == start[i as int]);
            assert(item == entry_view(pool@[i as int]));
            assert(sorted.take(i as int) =~= sorted);
        }
        let mut p: usize = i;
        while p > 0 && pool[p - 1].0.effective_priority(base_fee) < priority
            invariant
                p <= i < pool.len(),
                rank == priority_rank(base_fee),
                r == -(priority as int),
                before == entries_view(pool@),
                before.take(i as int) == sorted,
                insert_position(sorted, rank, r) == insert_position(sorted.take(p as int), rank, r),
            decreases p,
        {
            proof {
                let part = sorted.take(p as int);
                assert(part.last() == before[p - 1]);
                assert(rank(part.last()) > r);
                assert(part.drop_last() =~= sorted.take(p - 1));
            }
            p = p - 1;
        }
        proof {
            let part = sorted.take(p as int);
            if p > 0 {
                assert(part.last() == before[p - 1]);
                assert(rank(part.last()) <= r);
            }
            assert(insert_position(sorted, rank, r) == p);
            let whole = start.take(i + 1);
            assert(whole.drop_last() =~= start.take(i as int));
            assert(whole.last() == item);
            assert(stable_sort(whole, rank) == sorted.insert(p as int, item));
        }
        if p < i {
            // The entry moves up to its place; one that stands right stays.
            let entry = pool.remove(i);
            proof {
                assert(entries_view(pool@) =~= before.remove(i as int));
                assert(entries_view(pool@) =~= sorted + start.skip(i + 1));
            }
            let ghost removed = entries_view(pool@);
            pool.insert(p, entry);
            proof {
                assert(entries_view(pool@) =~= removed.insert(p as int, item));
            }
        }
        proof {
            assert(entries_view(pool@) =~= sorted.insert(p as int, item) + start.skip(i + 1));
        }
        i = i + 1;
    }
    proof {
        assert(start.take(i as int) =~= start);
        assert(stable_sort(start, rank) + start.skip(i as int) =~= stable_sort(start, rank));
    }
}

} // verus!
