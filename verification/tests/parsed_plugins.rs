use merged_lands::io::parsed_plugins::{extension_of, is_esm, is_esp, meta_name, sort_plugins, DataDirs, SortOrder};

fn names(list: &[&str]) -> Vec<String> {
    list.iter().map(|s| s.to_string()).collect()
}

#[test]
fn extension_helpers_are_case_insensitive() {
    assert!(is_esm("Morrowind.ESM"));
    assert!(is_esp("Patch.EsP"));

    assert!(!is_esm("mod.esp"));
    assert!(!is_esp("mod.esm"));
    assert!(!is_esp("README"));
}

#[test]
fn meta_name_replaces_extension_with_sidecar_name() {
    assert_eq!(meta_name("Morrowind.esm"), "Morrowind.mergedlands.toml");
    assert_eq!(meta_name("Data Files/Plugin.esp"), "Plugin.mergedlands.toml");
}

#[test]
fn extension_of_takes_the_last_dot_of_the_file_name() {
    assert_eq!(extension_of("a/b.c/archive.tar.gz"), Some("gz".to_string()));
    assert_eq!(extension_of("dir.d/README"), None);
    assert_eq!(extension_of(".hidden"), None);
}

#[test]
fn sort_plugins_none_keeps_order() {
    let mut plugins = names(&["b.esp", "a.esp"]);
    sort_plugins(&mut plugins, &vec![20, 10], SortOrder::Unsorted);
    assert_eq!(plugins, vec!["b.esp", "a.esp"]);
}

#[test]
fn sort_plugins_prioritizes_esm_over_esp() {
    let mut plugins = names(&["plugin.esp", "master.esm"]);
    sort_plugins(&mut plugins, &vec![100, 200], SortOrder::Default);
    assert_eq!(plugins, vec!["master.esm", "plugin.esp"]);
}

#[test]
fn sort_plugins_orders_by_mtime_within_same_extension() {
    let mut plugins = names(&["newer.esp", "older.esp"]);
    sort_plugins(&mut plugins, &vec![200, 100], SortOrder::Default);
    assert_eq!(plugins, vec!["older.esp", "newer.esp"]);
}

#[test]
fn sort_plugins_is_stable_for_equal_keys() {
    let mut plugins = names(&["c.esp", "B.ESM", "a.esp", "d.esm"]);
    sort_plugins(&mut plugins, &vec![5, 9, 5, 1], SortOrder::Default);
    assert_eq!(plugins, vec!["d.esm", "B.ESM", "c.esp", "a.esp"]);
}

#[test]
fn data_dirs_resolve_prefers_later_directories() {
    let dirs = DataDirs::from_ordered(names(&["/base", "/mods"])).expect("non-empty");
    assert_eq!(dirs.primary(), "/mods");
    let existing = names(&["/base/a.esp", "/mods/a.esp", "/base/b.esp"]);
    assert_eq!(dirs.resolve("a.esp", |p: &String| existing.contains(p)), Some("/mods/a.esp".to_string()));
    assert_eq!(dirs.resolve("b.esp", |p: &String| existing.contains(p)), Some("/base/b.esp".to_string()));
    assert_eq!(dirs.resolve("c.esp", |p: &String| existing.contains(p)), None);
}

#[test]
fn data_dirs_need_at_least_one_directory() {
    assert!(DataDirs::from_ordered(Vec::new()).is_err());
    let single = DataDirs::single("/data".to_string());
    assert_eq!(single.iter(), vec!["/data"]);
}
