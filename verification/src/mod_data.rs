//! The mod list, its entries and the profiles taken from it.

use crate::error::Error;
use crate::permutation::{lemma_applied_activates, lemma_applied_permutes};
use crate::reconcile::{
    applied, claimed, flagged, identifiers, leftover, named_by, not_named_by, placed, unclaimed,
};
use vstd::prelude::*;

verus! {

/// The key that names one mod, in a list and in every profile.
#[derive(Debug, Eq, PartialOrd, Ord)]
pub struct ModUUID(pub String);

impl View for ModUUID {
    type V = Seq<char>;

    open spec fn view(&self) -> Seq<char> {
        self.0@
    }
}

impl PartialEq for ModUUID {
    fn eq(&self, other: &Self) -> (same: bool) {
        self.0 == other.0
    }
}

impl vstd::std_specs::cmp::PartialEqSpecImpl for ModUUID {
    open spec fn obeys_eq_spec() -> bool {
        true
    }

    open spec fn eq_spec(&self, other: &Self) -> bool {
        self.0@ == other.0@
    }
}

impl Clone for ModUUID {
    fn clone(&self) -> (copy: Self)
        ensures
            copy == *self,
    {
        ModUUID(self.0.clone())
    }
}

/// What an entry is to the contracts: its fields as plain values.
pub struct EntryView {
    pub uuid: Seq<char>,
    pub name: Seq<char>,
    pub active: bool,
    pub category: Seq<char>,
    pub game: Seq<char>,
    pub owned: bool,
    pub packfile: Seq<char>,
    pub short: Seq<char>,
}

impl EntryView {
    /// The same entry with its activation flag set to `active`.
    pub open spec fn with_active(self, active: bool) -> EntryView {
        EntryView { active, ..self }
    }
}

/// One mod: what describes it, and whether it is switched on.
#[derive(Debug)]
pub struct ModEntry {
    pub uuid: ModUUID,
    pub name: String,
    pub active: bool,
    pub category: String,
    pub game: String,
    pub owned: bool,
    pub packfile: String,
    pub short: String,
}

impl View for ModEntry {
    type V = EntryView;

    open spec fn view(&self) -> EntryView {
        EntryView {
            uuid: self.uuid@,
            name: self.name@,
            active: self.active,
            category: self.category@,
            game: self.game@,
            owned: self.owned,
            packfile: self.packfile@,
            short: self.short@,
        }
    }
}

impl Clone for ModEntry {
    fn clone(&self) -> (copy: Self)
        ensures
            copy == *self,
    {
        ModEntry {
            uuid: self.uuid.clone(),
            name: self.name.clone(),
            active: self.active,
            category: self.category.clone(),
            game: self.game.clone(),
            owned: self.owned,
            packfile: self.packfile.clone(),
            short: self.short.clone(),
        }
    }
}

/// The path under which a packfile is looked for: a path that starts with
/// the drive `Z:` and a slash, as a compatibility layer writes it, goes
/// without the two characters of the drive; any other path stays as it is.
pub open spec fn without_drive(path: Seq<char>) -> Seq<char> {
    if path.len() >= 3 && path[0] == 'Z' && path[1] == ':' && path[2] == '/' {
        path.skip(2)
    } else {
        path
    }
}

/// Asks the file system, through std's `Path::exists`, whether `path` leads
/// to anything. The answer depends on what is on disk when the call is made,
/// so nothing is claimed of it.
#[verifier::external_body]
pub(crate) fn path_exists(path: &str) -> (present: bool) {
    std::path::Path::new(path).exists()
}

impl ModEntry {
    /// The path under which this entry's packfile is looked for.
    pub fn resolved_packfile(&self) -> (path: &str)
        ensures
            path@ == without_drive(self@.packfile),
    {
        let whole = self.packfile.as_str();
        let n = whole.unicode_len();
        if n >= 3 && whole.get_char(0) == 'Z' && whole.get_char(1) == ':' && whole.get_char(2)
            == '/' {
            let tail = whole.substring_char(2, n);
            assert(tail@ == whole@.skip(2));
            tail
        } else {
            whole
        }
    }

    /// Whether the packfile is on disk now, under `resolved_packfile`. The
    /// answer is the file system's, and may differ from one call to the next.
    pub fn file_exists(&self) -> (present: bool) {
        path_exists(self.resolved_packfile())
    }

    /// Sets the activation flag, and nothing else.
    fn set_active(&mut self, t: bool)
        ensures
            *final(self) == (ModEntry { active: t, ..*old(self) }),
    {
        self.active = t
    }
}

/// The views of a run of entries, in order.
pub open spec fn entry_views(entries: Seq<ModEntry>) -> Seq<EntryView> {
    entries.map_values(|e: ModEntry| e@)
}

/// The views of a run of borrowed entries, in order.
pub open spec fn ref_views(entries: Seq<&ModEntry>) -> Seq<EntryView> {
    entries.map_values(|e: &ModEntry| e@)
}

/// The test "this entry is switched on".
pub open spec fn switched_on() -> spec_fn(EntryView) -> bool {
    |e: EntryView| e.active
}

/// The entries that are switched on, in the order of the list.
pub open spec fn active_entries(entries: Seq<EntryView>) -> Seq<EntryView> {
    entries.filter(switched_on())
}

/// Whether `present` vouches for the entry at `at`: it has a flag for that
/// place, and the flag is set.
pub open spec fn vouched(present: Seq<bool>, at: int) -> bool {
    0 <= at < present.len() && present[at]
}

/// The entries that `present` does not vouch for, in the order of the list.
pub open spec fn missing_entries(entries: Seq<EntryView>, present: Seq<bool>) -> Seq<EntryView>
    decreases entries.len(),
{
    if entries.len() == 0 {
        Seq::empty()
    } else {
        let before = missing_entries(entries.drop_last(), present);
        if vouched(present, entries.len() - 1) {
            before
        } else {
            before.push(entries.last())
        }
    }
}

/// The whole collection of mods. An entry's place in it is its launch priority.
#[derive(Debug)]
pub struct ModList(pub Vec<ModEntry>);

impl View for ModList {
    type V = Seq<EntryView>;

    open spec fn view(&self) -> Seq<EntryView> {
        entry_views(self.0@)
    }
}

impl Clone for ModList {
    fn clone(&self) -> (copy: Self)
        ensures
            copy@ == self@,
    {
        let entries = self.0.clone();
        assert(entry_views(entries@) == entry_views(self.0@));
        ModList(entries)
    }
}

/// The views of a run of identifiers, in order.
pub open spec fn id_views(ids: Seq<ModUUID>) -> Seq<Seq<char>> {
    ids.map_values(|u: ModUUID| u@)
}

/// What a profile is to the contracts.
pub struct ProfileView {
    pub name: Seq<char>,
    pub active_mods: Seq<Seq<char>>,
}

/// A named choice of mods, in the order in which they are to load.
#[derive(Debug)]
pub struct ModProfile {
    pub name: String,
    pub active_mods: Vec<ModUUID>,
}

impl View for ModProfile {
    type V = ProfileView;

    open spec fn view(&self) -> ProfileView {
        ProfileView { name: self.name@, active_mods: id_views(self.active_mods@) }
    }
}

impl Clone for ModProfile {
    fn clone(&self) -> (copy: Self)
        ensures
            copy@ == self@,
    {
        let active_mods = self.active_mods.clone();
        assert(id_views(active_mods@) == id_views(self.active_mods@));
        ModProfile { name: self.name.clone(), active_mods }
    }
}

impl ModProfile {
    /// The profile `name` of what is switched on in `mod_list` now: the
    /// identifiers of its active entries, in the order of the list.
    pub fn new_from_mod_list(name: String, mod_list: &ModList) -> (profile: Self)
        ensures
            profile@.name == name@,
            profile@.active_mods == identifiers(active_entries(mod_list@)),
    {
        let active = mod_list.get_active();
        let n = active.len();
        let mut active_mods: Vec<ModUUID> = Vec::new();
        let mut i: usize = 0;
        while i < n
            invariant
                n == active.len(),
                i <= n,
                id_views(active_mods@) == identifiers(ref_views(active@).take(i as int)),
            decreases n - i,
        {
            let ghost before = id_views(active_mods@);
            active_mods.push(active[i].uuid.clone());
            assert(id_views(active_mods@) == before.push(active[i as int]@.uuid));
            assert(identifiers(ref_views(active@).take(i + 1)) == identifiers(
                ref_views(active@).take(i as int),
            ).push(active[i as int]@.uuid));
            i += 1;
        }
        assert(ref_views(active@).take(n as int) == ref_views(active@));
        ModProfile { name, active_mods }
    }
}

/// Whether `ids` holds `id`.
fn names(ids: &Vec<ModUUID>, id: &ModUUID) -> (found: bool)
    ensures
        found == id_views(ids@).contains(id@),
{
    let n = ids.len();
    let mut i: usize = 0;
    while i < n
        invariant
            n == ids.len(),
            i <= n,
            forall|j: int| 0 <= j < i ==> id_views(ids@)[j] != id@,
        decreases n - i,
    {
        if ids[i].0 == id.0 {
            assert(id_views(ids@)[i as int] == id@);
            return true;
        }
        i += 1;
    }
    false
}

/// Where the first entry of `pool` with the identifier `id` stands.
fn position_of(pool: &Vec<ModEntry>, id: &ModUUID) -> (at: Option<usize>)
    ensures
        match at {
            Some(k) => k < pool.len() && identifiers(entry_views(pool@)).index_of_first(id@)
                == Some(k as int),
            None => identifiers(entry_views(pool@)).index_of_first(id@) is None,
        },
{
    let ghost found = identifiers(entry_views(pool@));
    let n = pool.len();
    let mut i: usize = 0;
    while i < n
        invariant
            n == pool.len(),
            i <= n,
            found == identifiers(entry_views(pool@)),
            forall|j: int| 0 <= j < i ==> found[j] != id@,
        decreases n - i,
    {
        if pool[i].uuid.0 == id.0 {
            proof {
                assert(found[i as int] == id@);
                found.index_of_first_ensures(id@);
            }
            return Some(i);
        }
        i += 1;
    }
    proof {
        found.index_of_first_ensures(id@);
    }
    None
}

impl ModList {
    /// Every entry, in the order of the list.
    pub fn mods(&self) -> (all: Vec<&ModEntry>)
        ensures
            ref_views(all@) == self@,
    {
        let n = self.0.len();
        let mut all: Vec<&ModEntry> = Vec::new();
        let mut i: usize = 0;
        while i < n
            invariant
                n == self.0.len(),
                i <= n,
                ref_views(all@) == self@.take(i as int),
            decreases n - i,
        {
            let ghost before = ref_views(all@);
            all.push(&self.0[i]);
            assert(ref_views(all@) == before.push(self@[i as int]));
            assert(self@.take(i + 1) == self@.take(i as int).push(self@[i as int]));
            i += 1;
        }
        assert(self@.take(n as int) == self@);
        all
    }

    /// The entries that `present` does not vouch for, in the order of the
    /// list. `present` holds, place by place, whether the entry's packfile
    /// was found; an entry without a flag counts as not found.
    pub fn missing_given(&self, present: &Vec<bool>) -> (missing: Vec<&ModEntry>)
        ensures
            ref_views(missing@) == missing_entries(self@, present@),
    {
        let n = self.0.len();
        let mut missing: Vec<&ModEntry> = Vec::new();
        let mut i: usize = 0;
        while i < n
            invariant
                n == self.0.len(),
                i <= n,
                ref_views(missing@) == missing_entries(self@.take(i as int), present@),
            decreases n - i,
        {
            let ghost before = ref_views(missing@);
            assert(self@.take(i + 1).drop_last() == self@.take(i as int));
            assert(self@.take(i + 1).last() == self@[i as int]);
            if !(i < present.len() && present[i]) {
                missing.push(&self.0[i]);
                assert(ref_views(missing@) == before.push(self@[i as int]));
            }
            i += 1;
        }
        assert(self@.take(n as int) == self@);
        missing
    }

    /// The entries whose packfile is not on disk now, in the order of the
    /// list. Which they are is the file system's word: the result is what
    /// `missing_given` yields for the answers it gave.
    pub fn get_missing(&self) -> (missing: Vec<&ModEntry>)
        ensures
            exists|present: Seq<bool>|
                present.len() == self@.len() && ref_views(missing@) == #[trigger] missing_entries(
                    self@,
                    present,
                ),
    {
        let n = self.0.len();
        let mut present: Vec<bool> = Vec::new();
        let mut i: usize = 0;
        while i < n
            invariant
                n == self.0.len(),
                i <= n,
                present.len() == i,
            decreases n - i,
        {
            present.push(self.0[i].file_exists());
            i += 1;
        }
        self.missing_given(&present)
    }

    /// The entries that are switched on, in the order of the list.
    pub fn get_active(&self) -> (active: Vec<&ModEntry>)
        ensures
            ref_views(active@) == active_entries(self@),
    {
        let n = self.0.len();
        let mut active: Vec<&ModEntry> = Vec::new();
        let mut i: usize = 0;
        while i < n
            invariant
                n == self.0.len(),
                i <= n,
                ref_views(active@) == active_entries(self@.take(i as int)),
            decreases n - i,
        {
            let ghost before = ref_views(active@);
            proof {
                assert(self@.take(i + 1) == self@.take(i as int).push(self@[i as int]));
                self@.take(i as int).lemma_filter_push(self@[i as int], switched_on());
            }
            if self.0[i].active {
                active.push(&self.0[i]);
                assert(ref_views(active@) == before.push(self@[i as int]));
            }
            i += 1;
        }
        assert(self@.take(n as int) == self@);
        active
    }

    /// Switches every entry off.
    pub fn deactivate_all(&mut self)
        ensures
            final(self)@ == old(self)@.map_values(flagged(false)),
    {
        let n = self.0.len();
        let mut i: usize = 0;
        while i < n
            invariant
                self.0.len() == n,
                i <= n,
                forall|j: int|
                    0 <= j < i ==> self@[j] == #[trigger] old(self)@[j].with_active(false),
                forall|j: int| i <= j < n ==> self@[j] == #[trigger] old(self)@[j],
            decreases n - i,
        {
            self.0[i].set_active(false);
            i += 1;
        }
    }

    /// Brings the list in line with `profile`: the entries it names are
    /// switched on and come first, in the profile's order; all the others
    /// are switched off and follow in the order they had. No entry is lost
    /// and none is made: an identifier of the profile that the list does not
    /// hold is passed over.
    pub fn apply_profile(&mut self, profile: ModProfile)
        ensures
            final(self)@ == applied(old(self)@, profile@.active_mods),
            final(self)@.len() == old(self)@.len(),
            identifiers(final(self)@).to_multiset() == identifiers(old(self)@).to_multiset(),
            forall|i: int|
                0 <= i < final(self)@.len() ==> (#[trigger] final(self)@[i]).active
                    == profile@.active_mods.contains(final(self)@[i].uuid),
    {
        proof {
            lemma_applied_permutes(self@, profile@.active_mods);
            lemma_applied_activates(self@, profile@.active_mods);
        }
        let ghost before = self@;
        let ghost ids = profile@.active_mods;
        let mut mods: Vec<ModEntry> = Vec::new();
        mods.append(&mut self.0);

        let mut in_profile: Vec<ModEntry> = Vec::new();
        let mut outside_profile: Vec<ModEntry> = Vec::new();
        for m in it: mods.into_iter()
            invariant
                ids == profile@.active_mods,
                entry_views(it.seq()) == before,
                entry_views(in_profile@) == claimed(before.take(it.index()), ids),
                entry_views(outside_profile@) == unclaimed(before.take(it.index()), ids),
        {
            let ghost seen = before.take(it.index());
            let ghost entry = before[it.index()];
            let ghost inside = entry_views(in_profile@);
            let ghost outside = entry_views(outside_profile@);
            let mut m = m;
            m.active = names(&profile.active_mods, &m.uuid);
            proof {
                assert(entry == it.seq()[it.index()]@);
                assert(m@ == entry.with_active(ids.contains(entry.uuid)));
                assert(before.take(it.index() + 1) == seen.push(entry));
                seen.lemma_filter_push(entry, named_by(ids));
                seen.lemma_filter_push(entry, not_named_by(ids));
            }
            if m.active {
                in_profile.push(m);
                assert(entry_views(in_profile@) == inside.push(entry.with_active(true)));
            } else {
                outside_profile.push(m);
                assert(entry_views(outside_profile@) == outside.push(entry.with_active(false)));
            }
        }

        let ghost pool = entry_views(in_profile@);
        let mut in_profile_ordered: Vec<ModEntry> = Vec::new();
        let n = profile.active_mods.len();
        let mut i: usize = 0;
        assert(ids.skip(0) == ids);
        assert(entry_views(in_profile_ordered@) + placed(pool, ids) == placed(pool, ids));
        while i < n
            invariant
                n == profile.active_mods.len(),
                i <= n,
                ids == profile@.active_mods,
                placed(pool, ids) == entry_views(in_profile_ordered@) + placed(
                    entry_views(in_profile@),
                    ids.skip(i as int),
                ),
                leftover(pool, ids) == leftover(entry_views(in_profile@), ids.skip(i as int)),
            decreases n - i,
        {
            let ghost rest = entry_views(in_profile@);
            let ghost drawn = entry_views(in_profile_ordered@);
            assert(ids.skip(i as int)[0] == profile.active_mods[i as int]@);
            assert(ids.skip(i as int).drop_first() == ids.skip(i + 1));
            match position_of(&in_profile, &profile.active_mods[i]) {
                Some(k) => {
                    let m = in_profile.remove(k);
                    in_profile_ordered.push(m);
                    assert(entry_views(in_profile@) == rest.remove(k as int));
                    assert(entry_views(in_profile_ordered@) == drawn.push(rest[k as int]));
                    assert(drawn.push(rest[k as int]) + placed(
                        rest.remove(k as int),
                        ids.skip(i + 1),
                    ) == drawn + (seq![rest[k as int]] + placed(
                        rest.remove(k as int),
                        ids.skip(i + 1),
                    )));
                },
                None => {},
            }
            i += 1;
        }

        let ghost first = entry_views(in_profile_ordered@);
        let ghost second = entry_views(in_profile@);
        let ghost third = entry_views(outside_profile@);
        self.0.append(&mut in_profile_ordered);
        self.0.append(&mut in_profile);
        self.0.append(&mut outside_profile);
        assert(before.take(before.len() as int) == before);
        assert(self@ == first + second + third);
    }

    /// Sets the activation flag of the entry at `index`. A position past the
    /// end is refused, and the list stays as it was.
    pub fn set_mod_active_state(&mut self, index: usize, b: bool) -> (done: Result<(), Error>)
        ensures
            done is Err <==> index >= old(self)@.len(),
            index < old(self)@.len() ==> done is Ok && final(self)@ == old(self)@.update(
                index as int,
                old(self)@[index as int].with_active(b),
            ),
            index >= old(self)@.len() ==> done == Err::<(), Error>(
                Error::IndexError { index, len: old(self)@.len() as usize },
            ) && final(self)@ == old(self)@,
    {
        let len = self.0.len();
        if index < len {
            self.0[index].set_active(b);
            Ok(())
        } else {
            Err(Error::IndexError { index, len })
        }
    }
}

} // verus!
