//! Applying a profile twice is applying it once.

use crate::mod_data::EntryView;
use crate::permutation::{lemma_draw_permutes, lemma_drawn_are_claimed, lemma_halves};
use crate::reconcile::{
    applied, claimed, identifiers, leftover, named_by, not_named_by, placed, unclaimed,
};
use crate::seq_facts::lemma_filter_uniform;
use vstd::multiset::group_multiset_axioms;
use vstd::prelude::*;
use vstd::seq_lib::group_to_multiset_ensures;

verus! {

/// Drawing again, with the same identifiers, from what a draw produced
/// produces it again.
proof fn lemma_redraw(pool: Seq<EntryView>, ids: Seq<Seq<char>>)
    ensures
        placed(placed(pool, ids) + leftover(pool, ids), ids) == placed(pool, ids),
        leftover(placed(pool, ids) + leftover(pool, ids), ids) == leftover(pool, ids),
    decreases ids.len(),
{
    broadcast use {group_to_multiset_ensures, group_multiset_axioms};

    let drawn = placed(pool, ids) + leftover(pool, ids);
    if ids.len() == 0 {
        assert(drawn =~= pool);
    } else {
        let tail = ids.drop_first();
        identifiers(pool).index_of_first_ensures(ids[0]);
        identifiers(drawn).index_of_first_ensures(ids[0]);
        match identifiers(pool).index_of_first(ids[0]) {
            Some(k) => {
                let rest = pool.remove(k);
                let inner = placed(rest, tail) + leftover(rest, tail);
                lemma_redraw(rest, tail);
                assert(drawn =~= seq![pool[k]] + inner);
                assert(identifiers(drawn)[0] == ids[0]);
                assert(identifiers(drawn).index_of_first(ids[0]) == Some(0int));
                assert(drawn.remove(0) =~= inner);
            },
            None => {
                lemma_redraw(pool, tail);
                lemma_draw_permutes(pool, tail);
                if identifiers(drawn).contains(ids[0]) {
                    let i = choose|i: int|
                        0 <= i < identifiers(drawn).len() && identifiers(drawn)[i] == ids[0];
                    assert(drawn.contains(drawn[i]));
                    assert(pool.to_multiset().count(drawn[i]) > 0);
                    assert(pool.contains(drawn[i]));
                    let j = choose|j: int| 0 <= j < pool.len() && pool[j] == drawn[i];
                    assert(identifiers(pool)[j] == ids[0]);
                }
            },
        }
    }
}

/// A list whose first part is named and switched on, and whose second part
/// is neither, splits into just these parts.
proof fn lemma_resplit(first: Seq<EntryView>, second: Seq<EntryView>, ids: Seq<Seq<char>>)
    requires
        forall|i: int|
            0 <= i < first.len() ==> ids.contains((#[trigger] first[i]).uuid) && first[i].active,
        forall|i: int|
            0 <= i < second.len() ==> !ids.contains((#[trigger] second[i]).uuid)
                && !second[i].active,
    ensures
        claimed(first + second, ids) == first,
        unclaimed(first + second, ids) == second,
{
    Seq::filter_distributes_over_add(first, second, named_by(ids));
    Seq::filter_distributes_over_add(first, second, not_named_by(ids));
    lemma_filter_uniform(first, named_by(ids));
    lemma_filter_uniform(second, named_by(ids));
    lemma_filter_uniform(first, not_named_by(ids));
    lemma_filter_uniform(second, not_named_by(ids));
    assert((first + second).filter(named_by(ids)) =~= first);
    assert((first + second).filter(not_named_by(ids)) =~= second);
    assert(claimed(first + second, ids) =~= first);
    assert(unclaimed(first + second, ids) =~= second);
}

/// Applying a profile a second time changes nothing.
pub proof fn lemma_applied_twice(entries: Seq<EntryView>, ids: Seq<Seq<char>>)
    ensures
        applied(applied(entries, ids), ids) == applied(entries, ids),
{
    let pool = claimed(entries, ids);
    let drawn = placed(pool, ids) + leftover(pool, ids);
    let others = unclaimed(entries, ids);
    lemma_halves(entries, ids);
    lemma_drawn_are_claimed(entries, ids);
    lemma_resplit(drawn, others, ids);
    lemma_redraw(pool, ids);
}

} // verus!
