use jankloada_lib::error::Error;
use jankloada_lib::mod_data::{ModEntry, ModList, ModProfile, ModUUID};

fn entry(id: &str, active: bool, packfile: &str) -> ModEntry {
    ModEntry {
        uuid: ModUUID(id.to_string()),
        name: id.to_uppercase(),
        active,
        category: "foo".to_string(),
        game: "warhammer3".to_string(),
        owned: false,
        packfile: packfile.to_string(),
        short: String::new(),
    }
}

fn sample() -> ModList {
    ModList(vec![
        entry("a", true, "/a.pack"),
        entry("b", false, "/b.pack"),
        entry("c", true, "/c.pack"),
    ])
}

fn names(entries: &[&ModEntry]) -> Vec<String> {
    entries.iter().map(|m| m.name.clone()).collect()
}

#[test]
fn mods_lists_every_entry_in_order() {
    let list = sample();
    assert_eq!(names(&list.mods()), vec!["A", "B", "C"]);
    assert!(ModList(Vec::new()).mods().is_empty());
}

#[test]
fn get_active_keeps_list_order() {
    let list = sample();
    assert_eq!(names(&list.get_active()), vec!["A", "C"]);
}

#[test]
fn get_active_of_nothing_active_is_empty() {
    let mut list = sample();
    list.deactivate_all();
    assert!(list.get_active().is_empty());
}

#[test]
fn deactivate_all_switches_every_entry_off() {
    let mut list = sample();
    list.deactivate_all();
    assert_eq!(list.0.len(), 3);
    assert!(list.0.iter().all(|m| !m.active));
    assert_eq!(names(&list.mods()), vec!["A", "B", "C"]);
}

#[test]
fn set_active_in_bounds() {
    let mut list = sample();
    assert_eq!(list.set_mod_active_state(1, true), Ok(()));
    assert!(list.0[1].active);
    assert_eq!(list.set_mod_active_state(0, false), Ok(()));
    assert!(!list.0[0].active);
    assert!(list.0[2].active);
    assert_eq!(list.0[1].name, "B");
}

#[test]
fn set_active_out_of_bounds_is_index_error() {
    let mut list = sample();
    assert_eq!(
        list.set_mod_active_state(3, true),
        Err(Error::IndexError { index: 3, len: 3 })
    );
    assert_eq!(
        list.set_mod_active_state(usize::MAX, false),
        Err(Error::IndexError { index: usize::MAX, len: 3 })
    );
    let flags: Vec<bool> = list.0.iter().map(|m| m.active).collect();
    assert_eq!(flags, vec![true, false, true]);
}

#[test]
fn set_active_on_empty_list_fails() {
    let mut list = ModList(Vec::new());
    assert_eq!(
        list.set_mod_active_state(0, true),
        Err(Error::IndexError { index: 0, len: 0 })
    );
}

#[test]
fn set_active_last_position_succeeds() {
    let mut list = sample();
    assert!(list.set_mod_active_state(2, false).is_ok());
    assert!(!list.0[2].active);
}

#[test]
fn snapshot_takes_active_identifiers_in_order() {
    let list = sample();
    let profile = ModProfile::new_from_mod_list("mine".to_string(), &list);
    assert_eq!(profile.name, "mine");
    let ids: Vec<&str> = profile.active_mods.iter().map(|u| u.0.as_str()).collect();
    assert_eq!(ids, vec!["a", "c"]);
    let active: Vec<String> = list.get_active().iter().map(|m| m.uuid.0.clone()).collect();
    assert_eq!(ids, active);
}

#[test]
fn snapshot_of_inactive_list_is_empty() {
    let mut list = sample();
    list.deactivate_all();
    let profile = ModProfile::new_from_mod_list(String::new(), &list);
    assert!(profile.active_mods.is_empty());
    assert_eq!(profile.name, "");
}

#[test]
fn snapshot_applied_restores_activation() {
    let mut list = sample();
    let profile = ModProfile::new_from_mod_list("mine".to_string(), &list);
    list.deactivate_all();
    list.apply_profile(profile);
    let ids: Vec<&str> = list.0.iter().map(|m| m.uuid.0.as_str()).collect();
    assert_eq!(ids, vec!["a", "c", "b"]);
    let flags: Vec<bool> = list.0.iter().map(|m| m.active).collect();
    assert_eq!(flags, vec![true, true, false]);
}

#[test]
fn resolved_packfile_drops_the_drive() {
    assert_eq!(entry("a", true, "Z:/home/me/a.pack").resolved_packfile(), "/home/me/a.pack");
    assert_eq!(entry("a", true, "Z:/").resolved_packfile(), "/");
}

#[test]
fn resolved_packfile_leaves_other_paths() {
    assert_eq!(entry("a", true, "/home/me/a.pack").resolved_packfile(), "/home/me/a.pack");
    assert_eq!(entry("a", true, "C:/a.pack").resolved_packfile(), "C:/a.pack");
    assert_eq!(entry("a", true, "Z:a.pack").resolved_packfile(), "Z:a.pack");
    assert_eq!(entry("a", true, "Z:").resolved_packfile(), "Z:");
    assert_eq!(entry("a", true, "z:/a.pack").resolved_packfile(), "z:/a.pack");
    assert_eq!(entry("a", true, "").resolved_packfile(), "");
    assert_eq!(entry("a", true, "\u{e9}Z:/a").resolved_packfile(), "\u{e9}Z:/a");
}

#[test]
fn file_exists_asks_the_file_system() {
    assert!(entry("a", true, "/").file_exists());
    assert!(entry("a", true, "Z:/").file_exists());
    assert!(!entry("a", true, "/no/such/dir/anywhere/a.pack").file_exists());
    assert!(!entry("a", true, "Z:/no/such/dir/anywhere/a.pack").file_exists());
}

#[test]
fn missing_given_keeps_the_unvouched() {
    let list = sample();
    assert_eq!(names(&list.missing_given(&vec![true, false, true])), vec!["B"]);
    assert_eq!(names(&list.missing_given(&vec![false, false, false])), vec!["A", "B", "C"]);
    assert!(list.missing_given(&vec![true, true, true]).is_empty());
}

#[test]
fn missing_given_counts_entries_without_a_flag() {
    let list = sample();
    assert_eq!(names(&list.missing_given(&vec![true])), vec!["B", "C"]);
    assert_eq!(names(&list.missing_given(&Vec::new())), vec!["A", "B", "C"]);
    assert_eq!(names(&list.missing_given(&vec![true, true, false, true, true])), vec!["C"]);
}

#[test]
fn get_missing_follows_the_file_system() {
    let list = ModList(vec![
        entry("a", true, "/"),
        entry("b", false, "/no/such/dir/anywhere/b.pack"),
        entry("c", true, "Z:/"),
        entry("d", true, "Z:/no/such/dir/anywhere/d.pack"),
    ]);
    assert_eq!(names(&list.get_missing()), vec!["B", "D"]);
}

#[test]
fn identifiers_compare_by_text() {
    assert_eq!(ModUUID("one".to_string()), ModUUID("one".to_string()));
    assert_ne!(ModUUID("one".to_string()), ModUUID("two".to_string()));
    assert!(ModUUID("a".to_string()) < ModUUID("b".to_string()));
    let copy = ModUUID("one".to_string()).clone();
    assert_eq!(copy.0, "one");
}

#[test]
fn entries_clone_field_by_field() {
    let original = entry("a", true, "/a.pack");
    let copy = original.clone();
    assert_eq!(copy.uuid, original.uuid);
    assert_eq!(copy.name, "A");
    assert!(copy.active);
    assert_eq!(copy.packfile, "/a.pack");
    assert!(!copy.owned);
}
