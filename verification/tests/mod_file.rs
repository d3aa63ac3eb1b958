use jankloada_lib::mod_data::{ModEntry, ModList, ModUUID};
use jankloada_lib::mod_file::{ModEntryDTO, ModFileDTO};

fn entry(id: &str, active: bool) -> ModEntry {
    ModEntry {
        uuid: ModUUID(id.to_string()),
        name: id.to_uppercase(),
        active,
        category: format!("category of {id}"),
        game: "warhammer3".to_string(),
        owned: active,
        packfile: format!("/{id}.pack"),
        short: format!("the {id} mod"),
    }
}

fn record(id: &str, order: usize) -> ModEntryDTO {
    ModEntryDTO {
        uuid: ModUUID(id.to_string()),
        name: id.to_uppercase(),
        active: false,
        category: "foo".to_string(),
        game: "warhammer3".to_string(),
        order,
        owned: true,
        packfile: format!("/{id}.pack"),
        short: String::new(),
    }
}

fn ids(list: &ModList) -> Vec<String> {
    list.0.iter().map(|m| m.uuid.0.clone()).collect()
}

#[test]
fn export_numbers_from_one() {
    let list = ModList(vec![entry("a", true), entry("b", false), entry("c", true)]);
    let dto = ModFileDTO::from(list);
    let orders: Vec<usize> = dto.0.iter().map(|r| r.order).collect();
    assert_eq!(orders, vec![1, 2, 3]);
    let ids: Vec<&str> = dto.0.iter().map(|r| r.uuid.0.as_str()).collect();
    assert_eq!(ids, vec!["a", "b", "c"]);
}

#[test]
fn export_never_writes_order_zero() {
    let list = ModList(vec![entry("a", true)]);
    let dto: ModFileDTO = list.into();
    assert!(dto.0.iter().all(|r| r.order != 0));
    assert_eq!(dto.0[0].order, 1);
    let empty: ModFileDTO = ModList(Vec::new()).into();
    assert!(empty.0.is_empty());
}

#[test]
fn export_carries_every_field() {
    let dto = ModFileDTO::from(ModList(vec![entry("a", true)]));
    let r = &dto.0[0];
    assert_eq!(r.uuid.0, "a");
    assert_eq!(r.name, "A");
    assert!(r.active);
    assert_eq!(r.category, "category of a");
    assert_eq!(r.game, "warhammer3");
    assert!(r.owned);
    assert_eq!(r.packfile, "/a.pack");
    assert_eq!(r.short, "the a mod");
}

#[test]
fn import_sorts_by_order() {
    let dto = ModFileDTO(vec![record("c", 3), record("a", 1), record("b", 2)]);
    let list = ModList::from(dto);
    assert_eq!(ids(&list), vec!["a", "b", "c"]);
}

#[test]
fn import_of_any_array_order_gives_list_order() {
    let arrangements: [[usize; 3]; 6] =
        [[1, 2, 3], [1, 3, 2], [2, 1, 3], [2, 3, 1], [3, 1, 2], [3, 2, 1]];
    for arrangement in arrangements {
        let names = ["a", "b", "c"];
        let records = arrangement.iter().map(|&o| record(names[o - 1], o)).collect();
        let list: ModList = ModFileDTO(records).into();
        assert_eq!(ids(&list), vec!["a", "b", "c"]);
    }
}

#[test]
fn import_keeps_equal_orders_in_file_sequence() {
    let dto = ModFileDTO(vec![
        record("x", 2),
        record("y", 1),
        record("z", 2),
        record("w", 1),
    ]);
    let list = ModList::from(dto);
    assert_eq!(ids(&list), vec!["y", "w", "x", "z"]);
}

#[test]
fn import_puts_order_zero_first() {
    let dto = ModFileDTO(vec![record("a", 1), record("last", 0), record("b", 2)]);
    let list = ModList::from(dto);
    assert_eq!(ids(&list), vec!["last", "a", "b"]);
}

#[test]
fn import_carries_every_field() {
    let mut r = record("a", 7);
    r.active = true;
    r.short = "short".to_string();
    let list = ModList::from(ModFileDTO(vec![r]));
    let m = &list.0[0];
    assert_eq!(m.uuid.0, "a");
    assert_eq!(m.name, "A");
    assert!(m.active);
    assert_eq!(m.category, "foo");
    assert_eq!(m.game, "warhammer3");
    assert!(m.owned);
    assert_eq!(m.packfile, "/a.pack");
    assert_eq!(m.short, "short");
}

#[test]
fn round_trip_gives_the_list_back() {
    let list = ModList(vec![
        entry("d", true),
        entry("a", false),
        entry("c", true),
        entry("b", false),
    ]);
    let back = ModList::from(ModFileDTO::from(ModList(list.0.clone())));
    assert_eq!(ids(&back), vec!["d", "a", "c", "b"]);
    for (m, n) in back.0.iter().zip(list.0.iter()) {
        assert_eq!(m.uuid, n.uuid);
        assert_eq!(m.name, n.name);
        assert_eq!(m.active, n.active);
        assert_eq!(m.category, n.category);
        assert_eq!(m.game, n.game);
        assert_eq!(m.owned, n.owned);
        assert_eq!(m.packfile, n.packfile);
        assert_eq!(m.short, n.short);
    }
}

#[test]
fn round_trip_holds_with_repeated_identifiers() {
    let mut first = entry("dup", true);
    first.name = "first".to_string();
    let mut second = entry("dup", false);
    second.name = "second".to_string();
    let back = ModList::from(ModFileDTO::from(ModList(vec![second, first])));
    let names: Vec<&str> = back.0.iter().map(|m| m.name.as_str()).collect();
    assert_eq!(names, vec!["second", "first"]);
}

#[test]
fn round_trip_of_reversed_records() {
    let list = ModList(vec![entry("a", true), entry("b", false), entry("c", true)]);
    let mut dto = ModFileDTO::from(list);
    dto.0.reverse();
    let back = ModList::from(dto);
    assert_eq!(ids(&back), vec!["a", "b", "c"]);
}
