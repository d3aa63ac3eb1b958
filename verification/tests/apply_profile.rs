use jankloada_lib::mod_data::{ModEntry, ModList, ModProfile, ModUUID};

#[test]
fn applying_profile_works() {
    let mut mod_list = ModList(vec![
        ModEntry {
            uuid: ModUUID("one".to_string()),
            name: "One".to_string(),
            active: false,
            category: "foo".to_string(),
            game: "foo".to_string(),
            owned: true,
            packfile: "/foo.pack".to_string(),
            short: "the foo mod".to_string(),
        },
        ModEntry {
            uuid: ModUUID("two".to_string()),
            name: "Two".to_string(),
            active: true,
            category: "foo".to_string(),
            game: "foo".to_string(),
            owned: true,
            packfile: "/foo.pack".to_string(),
            short: "the foo mod".to_string(),
        },
    ]);
    let mod_profile = ModProfile {
        name: "some_profile".to_string(),
        active_mods: vec![ModUUID("one".to_string())],
    };
    mod_list.apply_profile(mod_profile);

    assert!(mod_list.0[0].active);
    assert_eq!("One".to_string(), mod_list.0[0].name);
    assert!(!mod_list.0[1].active);
    assert_eq!(2, mod_list.0.len())
}

fn entry(id: &str, active: bool) -> ModEntry {
    ModEntry {
        uuid: ModUUID(id.to_string()),
        name: format!("name of {id}"),
        active,
        category: "foo".to_string(),
        game: "warhammer3".to_string(),
        owned: true,
        packfile: format!("/{id}.pack"),
        short: format!("the {id} mod"),
    }
}

fn profile(ids: &[&str]) -> ModProfile {
    ModProfile {
        name: "some_profile".to_string(),
        active_mods: ids.iter().map(|id| ModUUID(id.to_string())).collect(),
    }
}

fn ids(list: &ModList) -> Vec<String> {
    list.0.iter().map(|m| m.uuid.0.clone()).collect()
}

fn flags(list: &ModList) -> Vec<bool> {
    list.0.iter().map(|m| m.active).collect()
}

fn sample() -> ModList {
    ModList(vec![
        entry("a", true),
        entry("b", false),
        entry("c", true),
        entry("d", false),
        entry("e", true),
    ])
}

#[test]
fn named_entries_come_first_in_profile_order() {
    let mut list = sample();
    list.apply_profile(profile(&["d", "a", "c"]));
    assert_eq!(ids(&list), vec!["d", "a", "c", "b", "e"]);
    assert_eq!(flags(&list), vec![true, true, true, false, false]);
}

#[test]
fn result_is_a_permutation() {
    let mut list = sample();
    list.apply_profile(profile(&["e", "x", "b", "b"]));
    assert_eq!(list.0.len(), 5);
    let mut after = ids(&list);
    after.sort();
    assert_eq!(after, vec!["a", "b", "c", "d", "e"]);
}

#[test]
fn descriptive_fields_are_untouched() {
    let mut list = sample();
    list.apply_profile(profile(&["c"]));
    let c = &list.0[0];
    assert_eq!(c.uuid.0, "c");
    assert_eq!(c.name, "name of c");
    assert_eq!(c.category, "foo");
    assert_eq!(c.game, "warhammer3");
    assert!(c.owned);
    assert_eq!(c.packfile, "/c.pack");
    assert_eq!(c.short, "the c mod");
}

#[test]
fn active_exactly_when_named() {
    let mut list = sample();
    let named = ["b", "e", "zz"];
    list.apply_profile(profile(&named));
    for m in list.0.iter() {
        assert_eq!(m.active, named.contains(&m.uuid.0.as_str()));
    }
}

#[test]
fn unnamed_entries_keep_their_order() {
    let mut list = sample();
    list.apply_profile(profile(&["e", "b"]));
    assert_eq!(ids(&list), vec!["e", "b", "a", "c", "d"]);
    assert_eq!(flags(&list), vec![true, true, false, false, false]);
}

#[test]
fn applying_twice_changes_nothing() {
    let mut once = sample();
    once.apply_profile(profile(&["d", "x", "a", "a"]));
    let mut twice = sample();
    twice.apply_profile(profile(&["d", "x", "a", "a"]));
    twice.apply_profile(profile(&["d", "x", "a", "a"]));
    assert_eq!(ids(&once), ids(&twice));
    assert_eq!(flags(&once), flags(&twice));
    assert_eq!(ids(&once), vec!["d", "a", "b", "c", "e"]);
}

#[test]
fn empty_profile_switches_all_off_in_place() {
    let mut list = sample();
    list.apply_profile(profile(&[]));
    assert_eq!(ids(&list), vec!["a", "b", "c", "d", "e"]);
    assert_eq!(flags(&list), vec![false; 5]);
}

#[test]
fn profile_of_strangers_is_deactivate_all() {
    let mut applied = sample();
    applied.apply_profile(profile(&["x", "y"]));
    let mut off = sample();
    off.deactivate_all();
    assert_eq!(ids(&applied), ids(&off));
    assert_eq!(flags(&applied), flags(&off));
    assert_eq!(flags(&off), vec![false; 5]);
}

#[test]
fn absent_identifier_is_passed_over() {
    let mut list = ModList(vec![entry("one", false), entry("two", true)]);
    list.apply_profile(profile(&["ghost", "two"]));
    assert_eq!(ids(&list), vec!["two", "one"]);
    assert_eq!(flags(&list), vec![true, false]);
    assert!(list.0.iter().all(|m| m.uuid.0 != "ghost"));
}

#[test]
fn scenario_one_of_two() {
    let mut list = ModList(vec![entry("one", false), entry("two", true)]);
    list.apply_profile(profile(&["one"]));
    assert_eq!(list.0.len(), 2);
    assert_eq!(ids(&list), vec!["one", "two"]);
    assert_eq!(flags(&list), vec![true, false]);
}

#[test]
fn repeated_identifier_in_list_is_kept_as_leftover() {
    let mut first = entry("dup", false);
    first.name = "first".to_string();
    let mut second = entry("dup", false);
    second.name = "second".to_string();
    let mut list = ModList(vec![entry("a", false), first, entry("b", true), second]);
    list.apply_profile(profile(&["b", "dup"]));
    let names: Vec<&str> = list.0.iter().map(|m| m.name.as_str()).collect();
    assert_eq!(names, vec!["name of b", "first", "second", "name of a"]);
    assert_eq!(flags(&list), vec![true, true, true, false]);
}

#[test]
fn repeated_identifier_in_profile_draws_in_turn() {
    let mut first = entry("dup", false);
    first.name = "first".to_string();
    let mut second = entry("dup", false);
    second.name = "second".to_string();
    let mut list = ModList(vec![first, entry("a", true), second]);
    list.apply_profile(profile(&["dup", "a", "dup", "dup"]));
    let names: Vec<&str> = list.0.iter().map(|m| m.name.as_str()).collect();
    assert_eq!(names, vec!["first", "name of a", "second"]);
    assert_eq!(flags(&list), vec![true, true, true]);
}

#[test]
fn empty_list_stays_empty() {
    let mut list = ModList(Vec::new());
    list.apply_profile(profile(&["a"]));
    assert!(list.0.is_empty());
}
