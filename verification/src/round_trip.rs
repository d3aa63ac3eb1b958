//! Writing a list out and reading it back.

use crate::mod_data::EntryView;
use crate::mod_file::{by_order, by_order_up_to, exported, imported, with_order, RecordView};
use crate::seq_facts::{lemma_filter_counts, lemma_filter_permutes, lemma_short_run};
use vstd::multiset::group_multiset_axioms;
use vstd::prelude::*;
use vstd::seq_lib::{group_filter_ensures, group_to_multiset_ensures, lemma_multiset_commutative};

verus! {

/// Among the first `m` records written for a list, the order `k` is that of
/// the `k`-th record and of no other.
proof fn lemma_exported_prefix(entries: Seq<EntryView>, m: int, k: int)
    requires
        0 <= m <= entries.len(),
    ensures
        exported(entries).take(m).filter(with_order(k)) == if 1 <= k <= m {
            seq![exported(entries)[k - 1]]
        } else {
            Seq::empty()
        },
    decreases m,
{
    let records = exported(entries);
    if m == 0 {
        assert(records.take(m).filter(with_order(k)) =~= Seq::<RecordView>::empty()) by {
            records.take(m).lemma_filter_len(with_order(k));
        }
    } else {
        lemma_exported_prefix(entries, m - 1, k);
        assert(records.take(m) =~= records.take(m - 1).push(records[m - 1]));
        records.take(m - 1).lemma_filter_push(records[m - 1], with_order(k));
        assert(records[m - 1].order == m);
        assert(Seq::<RecordView>::empty().push(records[m - 1]) =~= seq![records[m - 1]]);
    }
}

/// The records written for a list are in ascending order already.
proof fn lemma_exported_in_order(entries: Seq<EntryView>, k: int)
    requires
        k >= -1,
    ensures
        by_order_up_to(exported(entries), k) == exported(entries).take(
            if k < 0 {
                0
            } else if k <= entries.len() {
                k
            } else {
                entries.len() as int
            },
        ),
    decreases k + 1,
{
    let records = exported(entries);
    if k < 0 {
        assert(by_order_up_to(records, k) =~= records.take(0));
    } else {
        lemma_exported_in_order(entries, k - 1);
        lemma_exported_prefix(entries, entries.len() as int, k);
        assert(records.take(entries.len() as int) =~= records);
        if 1 <= k <= entries.len() {
            assert(records.take(k - 1) + seq![records[k - 1]] =~= records.take(k));
        } else {
            assert(by_order_up_to(records, k - 1) + Seq::<RecordView>::empty()
                =~= by_order_up_to(records, k - 1));
        }
    }
}

/// Records that agree order by order are sorted alike.
proof fn lemma_by_order_alike(a: Seq<RecordView>, b: Seq<RecordView>, k: int)
    requires
        forall|j: int| a.filter(#[trigger] with_order(j)) == b.filter(with_order(j)),
    ensures
        by_order_up_to(a, k) == by_order_up_to(b, k),
    decreases k + 1,
{
    if k >= 0 {
        lemma_by_order_alike(a, b, k - 1);
        assert(a.filter(with_order(k)) == b.filter(with_order(k)));
    }
}

/// Records with the same members as those written for a list hold, for each
/// order, what those hold.
proof fn lemma_same_at_order(records: Seq<RecordView>, entries: Seq<EntryView>, k: int)
    requires
        records.to_multiset() == exported(entries).to_multiset(),
    ensures
        records.filter(with_order(k)) == exported(entries).filter(with_order(k)),
{
    let written = exported(entries);
    lemma_filter_permutes(records, written, with_order(k));
    lemma_exported_prefix(entries, entries.len() as int, k);
    assert(written.take(entries.len() as int) =~= written);
    lemma_short_run(records.filter(with_order(k)), written.filter(with_order(k)));
}

/// The records written for a list describe its entries, one by one.
proof fn lemma_exported_entries(entries: Seq<EntryView>)
    ensures
        exported(entries).map_values(|r: RecordView| r.entry) == entries,
{
    assert(exported(entries).map_values(|r: RecordView| r.entry) =~= entries);
}

/// Reading back the records written for a list gives the list, in whatever
/// sequence the records are read.
pub proof fn lemma_import_any_order(records: Seq<RecordView>, entries: Seq<EntryView>)
    requires
        entries.len() <= usize::MAX,
        records.to_multiset() == exported(entries).to_multiset(),
    ensures
        imported(records) == entries,
{
    let written = exported(entries);
    assert forall|j: int| records.filter(#[trigger] with_order(j)) == written.filter(
        with_order(j),
    ) by {
        lemma_same_at_order(records, entries, j);
    }
    lemma_by_order_alike(records, written, usize::MAX as int);
    lemma_exported_in_order(entries, usize::MAX as int);
    assert(written.take(entries.len() as int) =~= written);
    assert(by_order(records) == written);
    lemma_exported_entries(entries);
}

/// Writing a list out and reading it back gives the list.
pub proof fn lemma_round_trip(entries: Seq<EntryView>)
    requires
        entries.len() <= usize::MAX,
    ensures
        imported(exported(entries)) == entries,
{
    lemma_import_any_order(exported(entries), entries);
}

/// No record written for a list has the order zero, and no two have the
/// same order.
pub proof fn lemma_exported_orders(entries: Seq<EntryView>)
    ensures
        exported(entries).len() == entries.len(),
        forall|i: int| 0 <= i < entries.len() ==> (#[trigger] exported(entries)[i]).order == i + 1,
        forall|i: int| 0 <= i < entries.len() ==> (#[trigger] exported(entries)[i]).order != 0,
        forall|i: int, j: int|
            0 <= i < j < entries.len() ==> (#[trigger] exported(entries)[i]).order != (
            #[trigger] exported(entries)[j]).order,
{
}

/// How often a record occurs among those sorted up to the order `k`.
proof fn lemma_by_order_counts(records: Seq<RecordView>, k: int, r: RecordView)
    requires
        k >= -1,
    ensures
        by_order_up_to(records, k).to_multiset().count(r) == if 0 <= r.order <= k {
            records.to_multiset().count(r)
        } else {
            0
        },
    decreases k + 1,
{
    broadcast use {group_to_multiset_ensures, group_multiset_axioms};
    broadcast use lemma_multiset_commutative;

    if k < 0 {
        assert(!by_order_up_to(records, k).contains(r));
    } else {
        lemma_by_order_counts(records, k - 1, r);
        lemma_filter_counts(records, with_order(k), r);
    }
}

/// Sorting up to the order `k` yields records of order `k` at most, in
/// ascending order.
proof fn lemma_by_order_ascends(records: Seq<RecordView>, k: int)
    requires
        k >= -1,
    ensures
        forall|i: int|
            0 <= i < by_order_up_to(records, k).len() ==> (#[trigger] by_order_up_to(
                records,
                k,
            )[i]).order <= k,
        forall|i: int, j: int|
            0 <= i <= j < by_order_up_to(records, k).len() ==> (#[trigger] by_order_up_to(
                records,
                k,
            )[i]).order <= (#[trigger] by_order_up_to(records, k)[j]).order,
    decreases k + 1,
{
    broadcast use group_filter_ensures;

    if k >= 0 {
        lemma_by_order_ascends(records, k - 1);
        let front = by_order_up_to(records, k - 1);
        let last = records.filter(with_order(k));
        let all = by_order_up_to(records, k);
        assert(all == front + last);
        assert forall|i: int| 0 <= i < all.len() implies (#[trigger] all[i]).order <= k by {
            if i >= front.len() {
                assert(with_order(k)(last[i - front.len()]));
            }
        }
        assert forall|i: int, j: int| 0 <= i <= j < all.len() implies (#[trigger] all[i]).order <= (
        #[trigger] all[j]).order by {
            if j >= front.len() {
                assert(with_order(k)(last[j - front.len()]));
            }
        }
    }
}

/// Sorting records by order rearranges them, and puts them in ascending
/// order.
pub proof fn lemma_by_order_sorts(records: Seq<RecordView>)
    requires
        forall|i: int| 0 <= i < records.len() ==> 0 <= (#[trigger] records[i]).order <= usize::MAX,
    ensures
        by_order(records).to_multiset() == records.to_multiset(),
        by_order(records).len() == records.len(),
        forall|i: int, j: int|
            0 <= i <= j < by_order(records).len() ==> (#[trigger] by_order(records)[i]).order <= (
            #[trigger] by_order(records)[j]).order,
{
    broadcast use {group_to_multiset_ensures, group_multiset_axioms};

    lemma_by_order_ascends(records, usize::MAX as int);
    assert forall|r: RecordView|
        by_order(records).to_multiset().count(r) == records.to_multiset().count(r) by {
        lemma_by_order_counts(records, usize::MAX as int, r);
        if records.to_multiset().count(r) > 0 {
            assert(records.contains(r));
        }
    }
    assert(by_order(records).to_multiset() =~= records.to_multiset());
    vstd::seq_lib::to_multiset_len(by_order(records));
    vstd::seq_lib::to_multiset_len(records);
}

} // verus!
