//! The flat records of the mod file, and the way between them and a mod list.
//!
//! A mod list keeps its order by position alone. The file keeps one record
//! per mod, and each record says where it stands: `order` counts from one,
//! and zero is kept free, since the launcher reads it as "last".

use crate::mod_data::{entry_views, EntryView, ModEntry, ModList, ModUUID};
use vstd::prelude::*;
use vstd::std_specs::convert::FromSpecImpl;

verus! {

/// What a record is to the contracts: the entry it describes and its order.
pub struct RecordView {
    pub entry: EntryView,
    pub order: int,
}

/// One record of the mod file.
#[derive(Debug)]
pub struct ModEntryDTO {
    pub uuid: ModUUID,
    pub name: String,
    pub active: bool,
    pub category: String,
    pub game: String,
    pub order: usize,
    pub owned: bool,
    pub packfile: String,
    pub short: String,
}

impl View for ModEntryDTO {
    type V = RecordView;

    open spec fn view(&self) -> RecordView {
        RecordView {
            entry: EntryView {
                uuid: self.uuid@,
                name: self.name@,
                active: self.active,
                category: self.category@,
                game: self.game@,
                owned: self.owned,
                packfile: self.packfile@,
                short: self.short@,
            },
            order: self.order as int,
        }
    }
}

/// The views of a run of records, in order.
pub open spec fn record_views(records: Seq<ModEntryDTO>) -> Seq<RecordView> {
    records.map_values(|r: ModEntryDTO| r@)
}

/// The mod file: its records, in the order in which the file holds them.
#[derive(Debug)]
pub struct ModFileDTO(pub Vec<ModEntryDTO>);

impl View for ModFileDTO {
    type V = Seq<RecordView>;

    open spec fn view(&self) -> Seq<RecordView> {
        record_views(self.0@)
    }
}

/// The records that stand for `entries`: one for each entry, in the list's
/// order, numbered from one.
pub open spec fn exported(entries: Seq<EntryView>) -> Seq<RecordView> {
    Seq::new(entries.len(), |i: int| RecordView { entry: entries[i], order: i + 1 })
}

/// The test "this record has the order `k`".
pub open spec fn with_order(k: int) -> spec_fn(RecordView) -> bool {
    |r: RecordView| r.order == k
}

/// The records of order zero, as they follow one another in `records`, then
/// those of order one, and so on up to the order `k`.
pub open spec fn by_order_up_to(records: Seq<RecordView>, k: int) -> Seq<RecordView>
    decreases k + 1,
{
    if k < 0 {
        Seq::empty()
    } else {
        by_order_up_to(records, k - 1) + records.filter(with_order(k))
    }
}

/// The records in ascending order of `order`; records of the same order keep
/// the sequence they had.
pub open spec fn by_order(records: Seq<RecordView>) -> Seq<RecordView> {
    by_order_up_to(records, usize::MAX as int)
}

/// The entries that `records` describe, in the records' order of `order`.
pub open spec fn imported(records: Seq<RecordView>) -> Seq<EntryView> {
    by_order(records).map_values(|r: RecordView| r.entry)
}

/// Sorts the records by `order` with std's `sort_by_key`. std documents that
/// sort as ascending in the key and stable: elements of equal key keep the
/// sequence they had. The contract states this and nothing else.
#[verifier::external_body]
fn sort_by_order(records: &mut Vec<ModEntryDTO>)
    ensures
        record_views(final(records)@) == by_order(record_views(old(records)@)),
{
    records.sort_by_key(|m| m.order);
}

impl FromSpecImpl<ModList> for ModFileDTO {
    open spec fn obeys_from_spec() -> bool {
        false
    }

    open spec fn from_spec(modlist: ModList) -> Self {
        choose|dto: ModFileDTO| dto@ == exported(modlist@)
    }
}

impl From<ModList> for ModFileDTO {
    /// Writes a list out as records, numbered from one in the list's order.
    fn from(modlist: ModList) -> (dto: Self)
        ensures
            dto@ == exported(modlist@),
    {
        let ghost entries = modlist@;
        let n = modlist.0.len();
        let mut records: Vec<ModEntryDTO> = Vec::new();
        let mut i: usize = 0;
        for m in it: modlist.0.into_iter()
            invariant
                i == it.index(),
                it.seq().len() == n,
                entries == entry_views(it.seq()),
                record_views(records@) == exported(entries.take(i as int)),
        {
            let ghost done = record_views(records@);
            records.push(
                ModEntryDTO {
                    uuid: m.uuid,
                    active: m.active,
                    category: m.category,
                    game: m.game,
                    name: m.name,
                    order: i + 1,
                    owned: m.owned,
                    packfile: m.packfile,
                    short: m.short,
                },
            );
            assert(record_views(records@) == done.push(
                RecordView { entry: entries[i as int], order: i + 1 },
            ));
            assert(exported(entries.take(i + 1)) == exported(entries.take(i as int)).push(
                RecordView { entry: entries[i as int], order: i + 1 },
            ));
            i += 1;
        }
        assert(entries.take(n as int) == entries);
        ModFileDTO(records)
    }
}

impl FromSpecImpl<ModFileDTO> for ModList {
    open spec fn obeys_from_spec() -> bool {
        false
    }

    open spec fn from_spec(dto: ModFileDTO) -> Self {
        choose|list: ModList| list@ == imported(dto@)
    }
}

impl From<ModFileDTO> for ModList {
    /// Reads records in as a list: sorted by `order`, ascending, and then
    /// without it.
    fn from(dto: ModFileDTO) -> (list: Self)
        ensures
            list@ == imported(dto@),
    {
        let mut dto = dto;
        sort_by_order(&mut dto.0);
        let ghost sorted = dto@;
        let mut mods: Vec<ModEntry> = Vec::new();
        for m in it: dto.0.into_iter()
            invariant
                sorted == record_views(it.seq()),
                entry_views(mods@) == sorted.take(it.index()).map_values(
                    |r: RecordView| r.entry,
                ),
        {
            let ghost done = entry_views(mods@);
            mods.push(
                ModEntry {
                    uuid: m.uuid,
                    active: m.active,
                    category: m.category,
                    game: m.game,
                    name: m.name,
                    owned: m.owned,
                    packfile: m.packfile,
                    short: m.short,
                },
            );
            assert(entry_views(mods@) == done.push(sorted[it.index()].entry));
            assert(sorted.take(it.index() + 1) == sorted.take(it.index()).push(
                sorted[it.index()],
            ));
        }
        assert(sorted.take(sorted.len() as int) == sorted);
        ModList(mods)
    }
}

} // verus!
