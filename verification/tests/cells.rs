use merged_lands::land::grid::Vec2;
use merged_lands::merge::cells::{merge_cells, CellRecord, ModifiedCell, PluginCells};

fn cell_at(x: i32, y: i32, id: &str) -> CellRecord {
    CellRecord {
        flags: 0,
        grid: Vec2::new(x, y),
        data_flags: 0,
        id: id.to_string(),
        has_region: false,
        has_map_color: false,
        has_water_height: false,
        has_atmosphere: false,
    }
}

fn plugin(name: &str, cells: Vec<CellRecord>, generated: bool) -> PluginCells {
    PluginCells { name: name.to_string(), generated, cells }
}

fn at(cells: &[ModifiedCell], x: i32, y: i32) -> &ModifiedCell {
    cells.iter().find(|c| c.inner.grid == Vec2::new(x, y)).expect("merged cell should exist")
}

#[test]
fn merge_cells_applies_master_then_plugin_in_order() {
    let masters = vec![plugin("master.esm", vec![cell_at(10, 20, "OldCell")], false)];
    let plugins = vec![plugin("mod.esp", vec![cell_at(10, 20, "NewCell")], false)];

    let cells = merge_cells(&masters, &plugins);
    let merged = at(&cells, 10, 20);

    assert_eq!(merged.inner.id, "NewCell");
    assert_eq!(merged.plugins.len(), 2);
    assert_eq!(merged.plugins[0], "master.esm");
    assert_eq!(merged.plugins[1], "mod.esp");
}

#[test]
fn merge_cells_skips_merged_lands_meta_plugins() {
    let plugins = vec![plugin("Merged Lands.esp", vec![cell_at(1, 2, "Generated")], true)];

    let cells = merge_cells(&vec![], &plugins);
    assert!(cells.is_empty());
}

#[test]
fn merge_cells_replaces_last_source_when_second_cell_is_identical() {
    let plugins = vec![
        plugin("a.esp", vec![cell_at(3, 4, "")], false),
        plugin("b.esp", vec![cell_at(3, 4, "")], false),
    ];

    let cells = merge_cells(&vec![], &plugins);
    let merged = at(&cells, 3, 4);

    assert_eq!(merged.plugins.len(), 1);
    assert_eq!(merged.plugins[0], "b.esp");
}

#[test]
fn merge_cells_combines_flags_and_keeps_first_order() {
    let mut first = cell_at(0, 0, "Balmora");
    first.flags = 0b01;
    first.data_flags = 0b100;
    let mut second = cell_at(0, 0, "");
    second.flags = 0b10;
    second.data_flags = 0b001;
    let plugins = vec![
        plugin("a.esp", vec![first, cell_at(5, 5, "Other")], false),
        plugin("b.esp", vec![second], false),
    ];
    let cells = merge_cells(&vec![], &plugins);
    assert_eq!(cells.len(), 2);
    assert_eq!(cells[0].inner.grid, Vec2::new(0, 0));
    assert_eq!(cells[0].inner.flags, 0b11);
    assert_eq!(cells[0].inner.data_flags, 0b101);
    assert_eq!(cells[0].inner.id, "Balmora");
    assert_eq!(cells[0].plugins, vec!["a.esp", "b.esp"]);
}

#[test]
fn optional_parts_count_as_a_change() {
    let mut first = cell_at(1, 1, "Ald-ruhn");
    first.has_region = true;
    let plugins = vec![
        plugin("a.esp", vec![first], false),
        plugin("b.esp", vec![cell_at(1, 1, "Ald-ruhn")], false),
    ];
    let cells = merge_cells(&vec![], &plugins);
    assert_eq!(cells[0].plugins, vec!["a.esp", "b.esp"]);
}
