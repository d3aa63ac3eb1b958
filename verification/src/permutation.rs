//! Applying a profile loses no entry and invents none, switches on exactly
//! what the profile names, and leaves the rest in the order it had.

use crate::mod_data::EntryView;
use crate::reconcile::{
    applied, claimed, flagged, identifiers, leftover, named_by, not_named_by, placed, unclaimed,
};
use crate::seq_facts::{lemma_filter_uniform, lemma_map_values_permutes};
use vstd::multiset::group_multiset_axioms;
use vstd::prelude::*;
use vstd::seq_lib::{group_filter_ensures, group_to_multiset_ensures};

verus! {

/// Drawing from a pool only rearranges it.
pub proof fn lemma_draw_permutes(pool: Seq<EntryView>, ids: Seq<Seq<char>>)
    ensures
        (placed(pool, ids) + leftover(pool, ids)).to_multiset() == pool.to_multiset(),
        (placed(pool, ids) + leftover(pool, ids)).len() == pool.len(),
    decreases ids.len(),
{
    broadcast use {group_to_multiset_ensures, group_multiset_axioms};

    if ids.len() == 0 {
        assert(placed(pool, ids) + leftover(pool, ids) =~= pool);
    } else {
        let tail = ids.drop_first();
        identifiers(pool).index_of_first_ensures(ids[0]);
        match identifiers(pool).index_of_first(ids[0]) {
            Some(k) => {
                let rest = pool.remove(k);
                lemma_draw_permutes(rest, tail);
                let drawn = placed(rest, tail) + leftover(rest, tail);
                assert(placed(pool, ids) + leftover(pool, ids) =~= drawn.insert(0, pool[k]));
                assert(drawn.insert(0, pool[k]).to_multiset() =~= pool.to_multiset());
            },
            None => {
                lemma_draw_permutes(pool, tail);
            },
        }
    }
}

/// The two halves of a list split by a profile hold the list between them.
proof fn lemma_split_permutes(entries: Seq<EntryView>, ids: Seq<Seq<char>>)
    ensures
        (entries.filter(named_by(ids)) + entries.filter(not_named_by(ids))).to_multiset()
            == entries.to_multiset(),
    decreases entries.len(),
{
    broadcast use {group_to_multiset_ensures, group_multiset_axioms};
    broadcast use vstd::seq_lib::lemma_multiset_commutative;

    if entries.len() == 0 {
        assert(entries.filter(named_by(ids)) + entries.filter(not_named_by(ids)) =~= entries);
    } else {
        let front = entries.drop_last();
        let e = entries.last();
        assert(entries =~= front.push(e));
        lemma_split_permutes(front, ids);
        front.lemma_filter_push(e, named_by(ids));
        front.lemma_filter_push(e, not_named_by(ids));
        let a = front.filter(named_by(ids));
        let b = front.filter(not_named_by(ids));
        if ids.contains(e.uuid) {
            assert((a.push(e) + b).to_multiset() =~= (a + b).to_multiset().insert(e));
        } else {
            assert(a + b.push(e) =~= (a + b).push(e));
        }
    }
}

/// What the profile names in the list is named and switched on; what it does
/// not name is not named and switched off.
pub proof fn lemma_halves(entries: Seq<EntryView>, ids: Seq<Seq<char>>)
    ensures
        forall|i: int|
            0 <= i < claimed(entries, ids).len() ==> {
                &&& ids.contains((#[trigger] claimed(entries, ids)[i]).uuid)
                &&& claimed(entries, ids)[i].active
            },
        forall|i: int|
            0 <= i < unclaimed(entries, ids).len() ==> {
                &&& !ids.contains((#[trigger] unclaimed(entries, ids)[i]).uuid)
                &&& !unclaimed(entries, ids)[i].active
            },
{
    broadcast use group_filter_ensures;

    assert forall|i: int| 0 <= i < claimed(entries, ids).len() implies ids.contains(
        (#[trigger] claimed(entries, ids)[i]).uuid,
    ) && claimed(entries, ids)[i].active by {
        assert(named_by(ids)(entries.filter(named_by(ids))[i]));
    }
    assert forall|i: int| 0 <= i < unclaimed(entries, ids).len() implies !ids.contains(
        (#[trigger] unclaimed(entries, ids)[i]).uuid,
    ) && !unclaimed(entries, ids)[i].active by {
        assert(not_named_by(ids)(entries.filter(not_named_by(ids))[i]));
    }
}

/// What was drawn from the named entries, and what was left of them, is
/// named and switched on.
pub proof fn lemma_drawn_are_claimed(entries: Seq<EntryView>, ids: Seq<Seq<char>>)
    ensures
        ({
            let pool = claimed(entries, ids);
            let drawn = placed(pool, ids) + leftover(pool, ids);
            &&& drawn.len() == pool.len()
            &&& forall|i: int|
                0 <= i < drawn.len() ==> ids.contains((#[trigger] drawn[i]).uuid) && drawn[i].active
        }),
{
    broadcast use {group_to_multiset_ensures, group_multiset_axioms};

    let pool = claimed(entries, ids);
    let drawn = placed(pool, ids) + leftover(pool, ids);
    lemma_draw_permutes(pool, ids);
    lemma_halves(entries, ids);
    assert forall|i: int| 0 <= i < drawn.len() implies ids.contains((#[trigger] drawn[i]).uuid)
        && drawn[i].active by {
        assert(drawn.contains(drawn[i]));
        assert(pool.to_multiset().count(drawn[i]) > 0);
        assert(pool.contains(drawn[i]));
        let j = choose|j: int| 0 <= j < pool.len() && pool[j] == drawn[i];
        assert(ids.contains(pool[j].uuid));
    }
}

/// Applying a profile keeps every entry: the result is as long as the list
/// and holds the same entries as often, with nothing changed in them but the
/// activation flag. In particular it holds the same identifiers as often.
pub proof fn lemma_applied_permutes(entries: Seq<EntryView>, ids: Seq<Seq<char>>)
    ensures
        applied(entries, ids).len() == entries.len(),
        applied(entries, ids).map_values(flagged(false)).to_multiset() == entries.map_values(
            flagged(false),
        ).to_multiset(),
        identifiers(applied(entries, ids)).to_multiset() == identifiers(entries).to_multiset(),
{
    broadcast use {group_to_multiset_ensures, group_multiset_axioms};
    broadcast use vstd::seq_lib::lemma_multiset_commutative;

    let off = flagged(false);
    let inside = entries.filter(named_by(ids));
    let outside = entries.filter(not_named_by(ids));
    let pool = claimed(entries, ids);
    let drawn = placed(pool, ids) + leftover(pool, ids);
    let others = unclaimed(entries, ids);
    let result = applied(entries, ids);
    assert(result == drawn + others);

    lemma_draw_permutes(pool, ids);
    lemma_map_values_permutes(drawn, pool, off);
    assert(pool.map_values(off) =~= inside.map_values(off));
    assert(others.map_values(off) =~= outside.map_values(off));
    assert(result.map_values(off) =~= drawn.map_values(off) + others.map_values(off));
    assert((inside + outside).map_values(off) =~= inside.map_values(off) + outside.map_values(off));
    lemma_split_permutes(entries, ids);
    lemma_map_values_permutes(inside + outside, entries, off);
    assert(result.map_values(off).to_multiset() =~= entries.map_values(off).to_multiset());

    let id_of = |e: EntryView| e.uuid;
    lemma_map_values_permutes(result.map_values(off), entries.map_values(off), id_of);
    assert(result.map_values(off).map_values(id_of) =~= identifiers(result));
    assert(entries.map_values(off).map_values(id_of) =~= identifiers(entries));
    assert(result.len() == entries.len()) by {
        assert(result.map_values(off).to_multiset().len() == entries.map_values(
            off,
        ).to_multiset().len());
    }
}

/// After a profile is applied, an entry is switched on exactly when the
/// profile names it.
pub proof fn lemma_applied_activates(entries: Seq<EntryView>, ids: Seq<Seq<char>>)
    ensures
        forall|i: int|
            0 <= i < applied(entries, ids).len() ==> (#[trigger] applied(entries, ids)[i]).active
                == ids.contains(applied(entries, ids)[i].uuid),
{
    lemma_halves(entries, ids);
    lemma_drawn_are_claimed(entries, ids);
}

/// After a profile is applied, the entries it names come first and all the
/// others follow, in the order in which the list had them.
pub proof fn lemma_applied_splits(entries: Seq<EntryView>, ids: Seq<Seq<char>>)
    ensures
        claimed(entries, ids).len() <= applied(entries, ids).len(),
        forall|i: int|
            0 <= i < applied(entries, ids).len() ==> (#[trigger] applied(entries, ids)[i]).active
                == (i < claimed(entries, ids).len()),
        applied(entries, ids).skip(claimed(entries, ids).len() as int) == unclaimed(
            entries,
            ids,
        ),
{
    lemma_halves(entries, ids);
    lemma_drawn_are_claimed(entries, ids);
    assert(applied(entries, ids).skip(claimed(entries, ids).len() as int) =~= unclaimed(
        entries,
        ids,
    ));
}

/// An identifier that the list does not hold is not in the result either,
/// though the profile may name it.
pub proof fn lemma_applied_adds_nothing(entries: Seq<EntryView>, ids: Seq<Seq<char>>, id: Seq<char>)
    requires
        !identifiers(entries).contains(id),
    ensures
        !identifiers(applied(entries, ids)).contains(id),
{
    broadcast use {group_to_multiset_ensures, group_multiset_axioms};

    lemma_applied_permutes(entries, ids);
    assert(identifiers(entries).to_multiset().count(id) == 0);
    assert(identifiers(applied(entries, ids)).to_multiset().count(id) == 0);
}

/// A profile that names nothing in the list, as an empty one does, switches
/// every entry off and moves none.
pub proof fn lemma_applied_nothing_named(entries: Seq<EntryView>, ids: Seq<Seq<char>>)
    requires
        forall|i: int| 0 <= i < entries.len() ==> !ids.contains((#[trigger] entries[i]).uuid),
    ensures
        applied(entries, ids) == entries.map_values(flagged(false)),
{
    let pool = claimed(entries, ids);
    lemma_filter_uniform(entries, named_by(ids));
    lemma_filter_uniform(entries, not_named_by(ids));
    assert(pool =~= Seq::<EntryView>::empty());
    lemma_draw_permutes(pool, ids);
    assert(placed(pool, ids) + leftover(pool, ids) =~= Seq::<EntryView>::empty());
    assert(applied(entries, ids) =~= entries.map_values(flagged(false)));
}

} // verus!
