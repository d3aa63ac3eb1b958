//! What applying a profile to a mod list yields.
//!
//! A profile is an ordered run of identifiers. Applying it splits the list in
//! two: the entries it names, switched on, and all the others, switched off.
//! The named entries are then drawn in the profile's order; any of them that
//! the profile's run did not reach follow, and the others close the list in
//! the order they had.

use crate::mod_data::EntryView;
use vstd::prelude::*;

verus! {

/// The identifiers of a run of entries, in order.
pub open spec fn identifiers(entries: Seq<EntryView>) -> Seq<Seq<char>> {
    entries.map_values(|e: EntryView| e.uuid)
}

/// The test "`ids` names this entry".
pub open spec fn named_by(ids: Seq<Seq<char>>) -> spec_fn(EntryView) -> bool {
    |e: EntryView| ids.contains(e.uuid)
}

/// The test "`ids` does not name this entry".
pub open spec fn not_named_by(ids: Seq<Seq<char>>) -> spec_fn(EntryView) -> bool {
    |e: EntryView| !ids.contains(e.uuid)
}

/// The step that sets an entry's activation flag to `active`.
pub open spec fn flagged(active: bool) -> spec_fn(EntryView) -> EntryView {
    |e: EntryView| e.with_active(active)
}

/// The entries that `ids` names, switched on, in the order they had.
pub open spec fn claimed(entries: Seq<EntryView>, ids: Seq<Seq<char>>) -> Seq<EntryView> {
    entries.filter(named_by(ids)).map_values(flagged(true))
}

/// The entries that `ids` does not name, switched off, in the order they had.
pub open spec fn unclaimed(entries: Seq<EntryView>, ids: Seq<Seq<char>>) -> Seq<EntryView> {
    entries.filter(not_named_by(ids)).map_values(flagged(false))
}

/// The entries drawn from `pool` by going through `ids` in order: each
/// identifier draws the first entry still in the pool that carries it, and
/// draws nothing when none is left.
pub open spec fn placed(pool: Seq<EntryView>, ids: Seq<Seq<char>>) -> Seq<EntryView>
    decreases ids.len(),
{
    if ids.len() == 0 {
        Seq::empty()
    } else {
        match identifiers(pool).index_of_first(ids[0]) {
            Some(k) => seq![pool[k]] + placed(pool.remove(k), ids.drop_first()),
            None => placed(pool, ids.drop_first()),
        }
    }
}

/// What is still in `pool` once every identifier of `ids` has drawn from it.
pub open spec fn leftover(pool: Seq<EntryView>, ids: Seq<Seq<char>>) -> Seq<EntryView>
    decreases ids.len(),
{
    if ids.len() == 0 {
        pool
    } else {
        match identifiers(pool).index_of_first(ids[0]) {
            Some(k) => leftover(pool.remove(k), ids.drop_first()),
            None => leftover(pool, ids.drop_first()),
        }
    }
}

/// The list that results from applying the profile `ids` to `entries`.
pub open spec fn applied(entries: Seq<EntryView>, ids: Seq<Seq<char>>) -> Seq<EntryView> {
    let pool = claimed(entries, ids);
    placed(pool, ids) + leftover(pool, ids) + unclaimed(entries, ids)
}

/// How often `id` occurs in `ids`.
pub open spec fn occurrences(ids: Seq<Seq<char>>, id: Seq<char>) -> nat {
    ids.to_multiset().count(id)
}

/// The test "one of `entries` carries this identifier".
pub open spec fn present_in(entries: Seq<EntryView>) -> spec_fn(Seq<char>) -> bool {
    |id: Seq<char>| identifiers(entries).contains(id)
}

/// Every identifier that the list and the profile share occurs as often in
/// the one as in the other. It holds in particular when neither repeats an
/// identifier.
pub open spec fn counts_agree(entries: Seq<EntryView>, ids: Seq<Seq<char>>) -> bool {
    forall|id: Seq<char>|
        occurrences(identifiers(entries), id) > 0 && #[trigger] occurrences(ids, id) > 0
            ==> occurrences(identifiers(entries), id) == occurrences(ids, id)
}

} // verus!
