use merged_lands::io::load_order::{
    existing_game_files, master_flags_of, plugin_dependencies, master_placements, openmw_load_order_is_valid, parse_game_files, split_masters, GameFileLine,
    MasterPlacement,
};

fn s(v: &[&str]) -> Vec<String> {
    v.iter().map(|x| x.to_string()).collect()
}

#[test]
fn game_files_section_is_read() {
    let ini = "[General]\nGameFile0=NotHere.esp\n\n[Game Files]\n; a comment\nGameFile0=Morrowind.esm\r\nGameFile1= \"Tribunal.esm\" \nGameFileX=Bad.esp\njunk line\nGameFile2 =Spaced.esp\n[Archives]\nArchive 0=Tribunal.bsa\n";
    let entries = parse_game_files(ini);
    assert_eq!(
        entries,
        vec![
            GameFileLine::Plugin("Morrowind.esm".to_string()),
            GameFileLine::Plugin("Tribunal.esm".to_string()),
            GameFileLine::Junk("GameFileX=Bad.esp".to_string()),
            GameFileLine::Junk("junk line".to_string()),
            GameFileLine::Junk("GameFile2 =Spaced.esp".to_string()),
        ]
    );
}

#[test]
fn game_files_without_section_is_empty() {
    assert!(parse_game_files("GameFile0=Morrowind.esm\n").is_empty());
    assert_eq!(parse_game_files("[Game Files]\nGameFile1='x.esp'"), vec![GameFileLine::Plugin("x.esp".to_string())]);
}

#[test]
fn masters_are_esm_files_or_declared_masters() {
    let names = s(&["Morrowind.ESM", "Patch.esp", "Base.esp", "Mod.esp"]);
    let headers = vec![s(&[]), s(&["morrowind.esm", "BASE.ESP"]), s(&["Morrowind.esm"]), s(&["Base.esp"])];
    assert_eq!(master_flags_of(&names, &headers), vec![true, false, true, false]);
}

#[test]
fn master_placements_report_order_problems() {
    let names = s(&["Morrowind.esm", "Mod.esp", "Late.esm"]);
    let headers = vec![s(&[]), s(&["MORROWIND.ESM", "Late.esm", "Gone.esm"]), s(&["Morrowind.esm"])];
    let placements = master_placements(&names, &headers);
    assert_eq!(placements[0], vec![]);
    assert_eq!(placements[1], vec![MasterPlacement::Before, MasterPlacement::NotBefore(2), MasterPlacement::Missing]);
    assert_eq!(placements[2], vec![MasterPlacement::Before]);
}

#[test]
fn existing_game_files_keeps_found_plugins_in_order() {
    let lines = parse_game_files("[Game Files]\nGameFile0=Morrowind.esm\njunk\nGameFile1=Missing.esp\nGameFile2=\"Mod.esp\"\n");
    assert_eq!(lines.len(), 4);
    let exists = vec![true, true, false, true];
    assert_eq!(existing_game_files(&lines, &exists), vec!["Morrowind.esm".to_string(), "Mod.esp".to_string()]);
}

#[test]
fn load_order_is_valid_only_when_every_master_loads_first() {
    let names = s(&["Morrowind.esm", "Patch.esp", "Parent.esp"]);
    let masters = vec![vec![], s(&["Morrowind.esm", "Parent.esp"]), s(&["Morrowind.esm"])];
    assert!(!openmw_load_order_is_valid(&master_placements(&names, &masters)));
    let names = s(&["Morrowind.esm", "Parent.esp", "Patch.esp"]);
    let masters = vec![vec![], s(&["Morrowind.esm"]), s(&["Morrowind.esm", "Parent.esp"])];
    assert!(openmw_load_order_is_valid(&master_placements(&names, &masters)));
}

#[test]
fn split_masters_keeps_load_order_within_each_group() {
    let names = s(&["Morrowind.esm", "Mod.esp", "Parent.esp", "Other.esp"]);
    let (masters, plugins) = split_masters(&names, &vec![true, false, true, false]);
    assert_eq!(masters, s(&["Morrowind.esm", "Parent.esp"]));
    assert_eq!(plugins, s(&["Mod.esp", "Other.esp"]));
}

#[test]
fn plugin_dependencies_lists_each_contributor_once() {
    let textures = s(&["Morrowind.esm", "Tex.esp", "Morrowind.esm"]);
    let land = s(&["Land.esp", "Tex.esp", "Morrowind.esm"]);
    assert_eq!(plugin_dependencies(&textures, &land), s(&["Morrowind.esm", "Tex.esp", "Land.esp"]));
}
