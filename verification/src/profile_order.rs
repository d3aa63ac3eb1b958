//! When the entries that a profile names come out in the profile's order.

use crate::mod_data::EntryView;
use crate::permutation::lemma_draw_permutes;
use crate::reconcile::{
    applied, claimed, counts_agree, identifiers, leftover, named_by, occurrences, placed,
    present_in,
};
use crate::seq_facts::lemma_filter_agree;
use vstd::multiset::group_multiset_axioms;
use vstd::prelude::*;
use vstd::seq_lib::group_to_multiset_ensures;

verus! {

/// How often an identifier occurs among the entries that a profile names.
proof fn lemma_claimed_occurrences(entries: Seq<EntryView>, ids: Seq<Seq<char>>, id: Seq<char>)
    ensures
        occurrences(identifiers(claimed(entries, ids)), id) == if ids.contains(id) {
            occurrences(identifiers(entries), id)
        } else {
            0
        },
    decreases entries.len(),
{
    broadcast use {group_to_multiset_ensures, group_multiset_axioms};

    if entries.len() == 0 {
        assert(claimed(entries, ids) =~= Seq::<EntryView>::empty()) by {
            entries.lemma_filter_len(named_by(ids));
        }
        assert(identifiers(entries) =~= Seq::<Seq<char>>::empty());
        assert(identifiers(claimed(entries, ids)) =~= Seq::<Seq<char>>::empty());
        assert(!Seq::<Seq<char>>::empty().contains(id));
    } else {
        let front = entries.drop_last();
        let e = entries.last();
        assert(entries =~= front.push(e));
        lemma_claimed_occurrences(front, ids, id);
        front.lemma_filter_push(e, named_by(ids));
        assert(identifiers(entries) =~= identifiers(front).push(e.uuid));
        if ids.contains(e.uuid) {
            assert(identifiers(claimed(entries, ids)) =~= identifiers(claimed(front, ids)).push(
                e.uuid,
            ));
        } else {
            assert(claimed(entries, ids) =~= claimed(front, ids));
        }
    }
}

/// Where every identifier of the pool occurs as often in `ids` as in the
/// pool, the draw empties the pool, and the identifiers drawn are those of
/// `ids` that the pool holds, in the order of `ids`.
proof fn lemma_draw_in_order(pool: Seq<EntryView>, ids: Seq<Seq<char>>)
    requires
        forall|id: Seq<char>| #[trigger]
            occurrences(identifiers(pool), id) > 0 ==> occurrences(identifiers(pool), id)
                == occurrences(ids, id),
    ensures
        identifiers(placed(pool, ids)) == ids.filter(present_in(pool)),
        leftover(pool, ids).len() == 0,
    decreases ids.len(),
{
    broadcast use {group_to_multiset_ensures, group_multiset_axioms};

    let held = identifiers(pool);
    if ids.len() == 0 {
        assert(ids.filter(present_in(pool)) =~= Seq::<Seq<char>>::empty()) by {
            ids.lemma_filter_len(present_in(pool));
        }
        assert(identifiers(placed(pool, ids)) =~= Seq::<Seq<char>>::empty());
        if pool.len() > 0 {
            assert(held.contains(held[0]));
            assert(occurrences(held, held[0]) > 0);
            assert(ids.to_multiset().len() == 0);
        }
    } else {
        let id0 = ids[0];
        let tail = ids.drop_first();
        held.index_of_first_ensures(id0);
        assert(ids =~= seq![id0] + tail);
        tail.lemma_filter_prepend(id0, present_in(pool));
        assert(ids.contains(id0));
        assert(ids.remove(0) =~= tail);
        assert(tail.to_multiset() =~= ids.to_multiset().remove(id0));
        match held.index_of_first(id0) {
            Some(k) => {
                let rest = pool.remove(k);
                assert(identifiers(rest) =~= held.remove(k));
                assert(identifiers(rest).to_multiset() =~= held.to_multiset().remove(id0));
                assert forall|id: Seq<char>| #[trigger]
                    occurrences(identifiers(rest), id) > 0 implies occurrences(
                    identifiers(rest),
                    id,
                ) == occurrences(tail, id) by {
                    assert(occurrences(held, id) > 0);
                }
                lemma_draw_in_order(rest, tail);
                assert forall|i: int| 0 <= i < tail.len() implies present_in(pool)(
                    #[trigger] tail[i],
                ) == present_in(rest)(tail[i]) by {
                    let x = tail[i];
                    assert(tail.contains(x));
                    assert(occurrences(tail, x) > 0);
                    assert(held.contains(x) <==> occurrences(held, x) > 0);
                    assert(identifiers(rest).contains(x) <==> occurrences(identifiers(rest), x)
                        > 0);
                }
                lemma_filter_agree(tail, present_in(pool), present_in(rest));
                assert(identifiers(placed(pool, ids)) =~= seq![id0] + identifiers(
                    placed(rest, tail),
                ));
            },
            None => {
                assert(occurrences(held, id0) == 0);
                assert forall|id: Seq<char>| #[trigger]
                    occurrences(held, id) > 0 implies occurrences(held, id) == occurrences(
                    tail,
                    id,
                ) by {
                    assert(id != id0);
                }
                lemma_draw_in_order(pool, tail);
                assert(ids.filter(present_in(pool)) =~= tail.filter(present_in(pool)));
            },
        }
    }
}

/// A list and a profile that each hold no identifier twice agree in their
/// counts.
pub proof fn lemma_distinct_counts_agree(entries: Seq<EntryView>, ids: Seq<Seq<char>>)
    requires
        identifiers(entries).no_duplicates(),
        ids.no_duplicates(),
    ensures
        counts_agree(entries, ids),
{
    broadcast use {group_to_multiset_ensures, group_multiset_axioms};

    identifiers(entries).lemma_multiset_has_no_duplicates();
    ids.lemma_multiset_has_no_duplicates();
}

/// Where every identifier that the list and the profile share occurs as often
/// in the one as in the other, the entries that the profile names stand in the
/// result in the profile's order: their identifiers are the profile's, without
/// those that the list does not hold.
pub proof fn lemma_applied_follows_profile(entries: Seq<EntryView>, ids: Seq<Seq<char>>)
    requires
        counts_agree(entries, ids),
    ensures
        identifiers(applied(entries, ids).take(claimed(entries, ids).len() as int)) == ids.filter(
            present_in(entries),
        ),
{
    broadcast use {group_to_multiset_ensures, group_multiset_axioms};

    let pool = claimed(entries, ids);
    assert forall|id: Seq<char>| #[trigger]
        occurrences(identifiers(pool), id) > 0 implies occurrences(identifiers(pool), id)
        == occurrences(ids, id) by {
        lemma_claimed_occurrences(entries, ids, id);
        assert(ids.contains(id));
        assert(occurrences(ids, id) > 0);
    }
    lemma_draw_in_order(pool, ids);
    lemma_draw_permutes(pool, ids);
    assert(applied(entries, ids).take(pool.len() as int) =~= placed(pool, ids));
    assert forall|i: int| 0 <= i < ids.len() implies present_in(pool)(#[trigger] ids[i])
        == present_in(entries)(ids[i]) by {
        let x = ids[i];
        lemma_claimed_occurrences(entries, ids, x);
        assert(ids.contains(x));
        assert(identifiers(pool).contains(x) <==> occurrences(identifiers(pool), x) > 0);
        assert(identifiers(entries).contains(x) <==> occurrences(identifiers(entries), x) > 0);
    }
    lemma_filter_agree(ids, present_in(pool), present_in(entries));
}

} // verus!
