use merged_lands::land::grid::{Index2D, IndexVTEX, Vec2, Vec3};
use merged_lands::land::landscape_diff::{LandmassDiff, LandscapeDiff};
use merged_lands::merge::conflict::{average_vec3, ConflictType};
use merged_lands::merge::merge_strategy::{
    merge_landmass_into, merge_landmasses, merge_landscape_diff, ConflictStrategy, LayerStrategies,
};
use merged_lands::merge::overwrite_strategy::OverwriteStrategy;
use merged_lands::merge::relative_terrain_map::{DefaultRelativeTerrainMap, IsModified, RelativeTerrainMap};
use merged_lands::merge::relative_to::RelativeTo;
use merged_lands::merge::resolve_conflict_strategy::ResolveConflictStrategy;
use merged_lands::merge::texture_merge::merge_openmw_texture_indices;
use merged_lands::repair::cleaning::{has_difference, used_texture_ids};
use merged_lands::repair::debugging::{add_debug_vertex_colors_to_landmass, add_vertex_colors};
use merged_lands::repair::seam_detection::repair_landmass_seams;

/// Classifies the conflict between two integer values the way the application does with its
/// default parameters (a weighted average; major when it strays far from the smaller value).
fn average_i32(lhs: i32, rhs: i32) -> Option<ConflictType<i32>> {
    if lhs == rhs {
        return None;
    }
    let (pct, min, max) = (0.3f32, 10.0f32, 64.0f32);
    let (l, r) = (lhs as f32, rhs as f32);
    let lhs_weight = l.abs() / (l.abs() + r.abs());
    let rhs_weight = 1. - lhs_weight;
    let lhs_weight_2 = lhs_weight.powf(1.5);
    let rhs_weight_2 = rhs_weight.powf(1.5);
    let lhs_weight = lhs_weight_2 / (lhs_weight_2 + rhs_weight_2);
    let rhs_weight = 1. - lhs_weight;
    let average = lhs_weight * l + rhs_weight * r;
    let minimum = l.min(r);
    let threshold = (pct * minimum).max(min);
    let difference = (minimum - average).abs();
    if difference >= threshold.min(max) {
        Some(ConflictType::Major(average as i32))
    } else {
        Some(ConflictType::Minor(average as i32))
    }
}

fn grid<U: Copy>(value: U, side: usize) -> Vec<U> {
    vec![value; side * side]
}

// relative_to

#[test]
fn i32_roundtrip_is_identity() {
    let lhs = 42i32;
    let rhs = 7i32;
    let delta = i32::subtract(lhs, rhs);
    assert_eq!(delta, 35);
    assert_eq!(<i32 as RelativeTo>::add(rhs, delta), lhs);
}

#[test]
fn u8_roundtrip_is_identity_for_safe_values() {
    let lhs = 240u8;
    let rhs = 100u8;
    let delta = u8::subtract(lhs, rhs);
    assert_eq!(<u8 as RelativeTo>::add(rhs, delta), lhs);
}

#[test]
fn i8_roundtrip_is_identity_for_safe_values() {
    let lhs = 100i8;
    let rhs = -10i8;
    let delta = i8::subtract(lhs, rhs);
    assert_eq!(<i8 as RelativeTo>::add(rhs, delta), lhs);
}

#[test]
fn u16_roundtrip_is_identity_for_safe_values() {
    let lhs = 50_000u16;
    let rhs = 12_000u16;
    let delta = u16::subtract(lhs, rhs);
    assert_eq!(<u16 as RelativeTo>::add(rhs, delta), lhs);
}

#[test]
fn vec3_roundtrip_is_component_wise_identity() {
    let lhs = Vec3::new(9i32, 6i32, 3i32);
    let rhs = Vec3::new(1i32, 2i32, 3i32);
    let delta = Vec3::<i32>::subtract(lhs, rhs);

    assert_eq!(delta, Vec3::new(8, 4, 0));
    assert_eq!(<Vec3<i32> as RelativeTo>::add(rhs, delta), lhs);
}

#[test]
fn u8_delta_is_signed() {
    assert_eq!(u8::subtract(3, 250), -247);
    assert_eq!(<u8 as RelativeTo>::add(250, -247), 3);
}

#[test]
fn texture_index_delta_roundtrips() {
    let delta = IndexVTEX::subtract(IndexVTEX::new(5), IndexVTEX::new(40));
    assert_eq!(delta, -35);
    assert_eq!(<IndexVTEX as RelativeTo>::add(IndexVTEX::new(40), delta), IndexVTEX::new(5));
}

// relative_terrain_map

#[test]
fn set_value_marks_and_gets_difference() {
    let reference = grid(0i32, 2);
    let mut map = RelativeTerrainMap::<i32, 2>::empty(reference);

    let coords = Index2D::new(1, 0);
    map.set_value(coords, 5);

    assert!(map.has_difference(coords));
    assert_eq!(map.get_difference(coords), 5);
    assert_eq!(map.get_value(coords), 5);
    assert!(map.is_modified());
}

#[test]
fn from_difference_roundtrips_plugin_values() {
    let reference = vec![1i32, 2, 3, 4];
    let plugin = vec![1i32, 20, 30, 4];
    let map = RelativeTerrainMap::<i32, 2>::from_difference(&reference, &plugin);

    assert_eq!(map.to_terrain(), plugin);
    assert!(!map.has_difference(Index2D::new(0, 0)));
    assert!(map.has_difference(Index2D::new(1, 0)));
    assert!(map.has_difference(Index2D::new(0, 1)));
}

#[test]
fn clean_some_and_clean_all_clear_differences() {
    let mut map = RelativeTerrainMap::<i32, 2>::empty(grid(0i32, 2));
    let c0 = Index2D::new(0, 0);
    let c1 = Index2D::new(1, 1);

    map.set_value(c0, 7);
    map.set_value(c1, 9);

    map.clean_some(&vec![c0]);
    assert!(!map.has_difference(c0));
    assert!(map.has_difference(c1));

    map.clean_all();
    assert!(!map.has_difference(c0));
    assert!(!map.has_difference(c1));
    assert!(!map.is_modified());
}

#[test]
fn optional_is_modified_tracks_presence_and_inner_state() {
    let none_map: Option<RelativeTerrainMap<i32, 2>> = None;
    assert!(!none_map.is_modified());

    let mut some_map = RelativeTerrainMap::<i32, 2>::empty(grid(0i32, 2));
    assert!(!Some(some_map.clone()).is_modified());

    some_map.set_value(Index2D::new(0, 0), 1);
    assert!(Some(some_map).is_modified());
}

#[test]
fn setting_the_reference_value_clears_the_difference() {
    let mut map = RelativeTerrainMap::<i32, 2>::empty(vec![1, 2, 3, 4]);
    let c = Index2D::new(1, 1);
    map.set_value(c, 40);
    assert!(map.has_difference(c));
    map.set_value(c, 4);
    assert!(!map.has_difference(c));
    assert_eq!(map.get_value(c), 4);
    assert_eq!(map.get_difference(c), 0);
}

#[test]
fn default_map_holds_default_values() {
    let map = RelativeTerrainMap::<Vec3<u8>, 3>::default();
    assert_eq!(map.get_value(Index2D::new(2, 2)), Vec3::new(0, 0, 0));
    assert!(!map.is_modified());
    assert_eq!(map.differences(), &vec![false; 9]);
}

// strategies

#[test]
fn overwrite_strategy_chooses_rhs_on_conflict() {
    let coords = Vec2::new(0, 0);
    let value_name = "height_map";
    let base = grid(0i32, 2);

    let mut lhs = RelativeTerrainMap::<i32, 2>::empty(base.clone());
    lhs.set_value(Index2D::new(0, 0), 5);

    let mut rhs = RelativeTerrainMap::<i32, 2>::empty(base);
    rhs.set_value(Index2D::new(0, 0), 9);

    let strategy = OverwriteStrategy {};
    let merged = strategy.apply(coords, "plugin.esp", value_name, &lhs, &rhs);

    assert_eq!(merged.get_value(Index2D::new(0, 0)), 9);
}

#[test]
fn overwrite_strategy_uses_rhs_absolute_value_when_references_differ() {
    let coords = Vec2::new(0, 0);
    let value_name = "vertex_colors";

    let lhs = RelativeTerrainMap::<Vec3<u8>, 2>::empty(grid(Vec3::new(0, 0, 0), 2));

    let mut rhs = RelativeTerrainMap::<Vec3<u8>, 2>::empty(grid(Vec3::new(115, 110, 96), 2));
    rhs.set_value(Index2D::new(0, 0), Vec3::new(55, 54, 53));

    let strategy = OverwriteStrategy {};
    let merged = strategy.apply(coords, "plugin.esp", value_name, &lhs, &rhs);

    assert_eq!(merged.get_value(Index2D::new(0, 0)), Vec3::new(55, 54, 53));
}

#[test]
fn overwrite_strategy_keeps_lhs_where_rhs_is_unchanged() {
    let mut lhs = RelativeTerrainMap::<i32, 2>::empty(grid(0i32, 2));
    lhs.set_value(Index2D::new(1, 0), 3);
    let rhs = RelativeTerrainMap::<i32, 2>::empty(grid(0i32, 2));
    let merged = OverwriteStrategy {}.apply(Vec2::new(0, 0), "p.esp", "height_map", &lhs, &rhs);
    assert_eq!(merged.get_value(Index2D::new(1, 0)), 3);
    assert_eq!(merged.get_value(Index2D::new(0, 0)), 0);
}

#[test]
fn resolve_strategy_uses_rhs_absolute_value_when_only_rhs_differs() {
    let coords = Vec2::new(0, 0);
    let value_name = "height_map";

    let lhs = RelativeTerrainMap::<i32, 2>::empty(grid(0, 2));

    let mut rhs = RelativeTerrainMap::<i32, 2>::empty(grid(100, 2));
    rhs.set_value(Index2D::new(0, 0), 55);

    let strategy = ResolveConflictStrategy {};
    let merged = strategy.apply(coords, "plugin.esp", value_name, &lhs, &rhs, &average_i32);

    assert_eq!(merged.get_value(Index2D::new(0, 0)), 55);
}

#[test]
fn resolve_strategy_averages_when_both_sides_differ() {
    let mut lhs = RelativeTerrainMap::<i32, 2>::empty(grid(0, 2));
    lhs.set_value(Index2D::new(0, 0), 100);
    let mut rhs = RelativeTerrainMap::<i32, 2>::empty(grid(0, 2));
    rhs.set_value(Index2D::new(0, 0), 102);
    let merged = ResolveConflictStrategy {}.apply(Vec2::new(0, 0), "p.esp", "height_map", &lhs, &rhs, &average_i32);
    let expected = match average_i32(100, 102) {
        Some(ConflictType::Minor(v)) | Some(ConflictType::Major(v)) => v,
        None => 100,
    };
    assert_eq!(merged.get_value(Index2D::new(0, 0)), expected);
    assert!((100..=102).contains(&expected));
}

// conflict

#[test]
fn vec3_with_major_component_is_major() {
    let lhs = Vec3::new(0i32, 10i32, 10i32);
    let rhs = Vec3::new(100i32, 12i32, 12i32);

    match average_vec3(lhs, rhs, &average_i32) {
        Some(ConflictType::Major(_)) => {}
        _ => panic!("expected major vec3 conflict"),
    }
}

#[test]
fn vec3_with_only_minor_components_is_minor() {
    let lhs = Vec3::new(100i32, 100i32, 100i32);
    let rhs = Vec3::new(102i32, 101i32, 103i32);

    match average_vec3(lhs, rhs, &average_i32) {
        Some(ConflictType::Minor(_)) => {}
        _ => panic!("expected minor vec3 conflict"),
    }
}

#[test]
fn equal_vec3_values_have_no_conflict() {
    let v = Vec3::new(4i32, 5i32, 6i32);
    assert_eq!(average_vec3(v, v, &average_i32), None);
}

// debugging

#[test]
fn add_vertex_colors_marks_major_conflicts_red() {
    let lhs = RelativeTerrainMap::<i32, 2>::empty(grid(0, 2));
    let mut rhs = RelativeTerrainMap::<i32, 2>::empty(grid(0, 2));
    rhs.set_value(Index2D::new(0, 0), 100);

    let mut vertex_colors = Some(RelativeTerrainMap::<Vec3<u8>, 2>::empty(grid(Vec3::new(0, 0, 0), 2)));
    add_vertex_colors(Some(&lhs), Some(&rhs), &mut vertex_colors, &average_i32);

    assert_eq!(vertex_colors.unwrap().get_value(Index2D::new(0, 0)), Vec3::new(255, 0, 0));
}

#[test]
fn add_vertex_colors_skips_cells_without_rhs_difference() {
    let lhs = RelativeTerrainMap::<i32, 2>::empty(grid(0, 2));
    let rhs = RelativeTerrainMap::<i32, 2>::empty(grid(0, 2));

    let mut vertex_colors = Some(RelativeTerrainMap::<Vec3<u8>, 2>::empty(grid(Vec3::new(0, 0, 0), 2)));
    add_vertex_colors(Some(&lhs), Some(&rhs), &mut vertex_colors, &average_i32);

    let vertex_colors = vertex_colors.unwrap();
    assert_eq!(vertex_colors.get_value(Index2D::new(0, 0)), Vec3::new(0, 0, 0));
    assert_eq!(vertex_colors.get_value(Index2D::new(1, 1)), Vec3::new(0, 0, 0));
}

#[test]
fn add_vertex_colors_does_not_downgrade_existing_major_to_minor() {
    let lhs_major = RelativeTerrainMap::<i32, 2>::empty(grid(0, 2));
    let mut rhs_major = RelativeTerrainMap::<i32, 2>::empty(grid(0, 2));
    rhs_major.set_value(Index2D::new(1, 1), 100);

    let mut vertex_colors = Some(RelativeTerrainMap::<Vec3<u8>, 2>::empty(grid(Vec3::new(0, 0, 0), 2)));
    add_vertex_colors(Some(&lhs_major), Some(&rhs_major), &mut vertex_colors, &average_i32);

    let lhs_minor = RelativeTerrainMap::<i32, 2>::empty(grid(0, 2));
    let mut rhs_minor = RelativeTerrainMap::<i32, 2>::empty(grid(0, 2));
    rhs_minor.set_value(Index2D::new(1, 1), 2);
    add_vertex_colors(Some(&lhs_minor), Some(&rhs_minor), &mut vertex_colors, &average_i32);

    assert_eq!(vertex_colors.unwrap().get_value(Index2D::new(1, 1)), Vec3::new(255, 0, 0));
}

#[test]
fn debug_vertex_colors_paint_only_cells_the_plugin_changed() {
    let colored = |coords: Vec2| {
        let mut land = landscape(coords);
        land.vertex_colors = Some(RelativeTerrainMap::empty(grid(Vec3::new(0u8, 0, 0), 65)));
        land
    };
    let mut reference = LandmassDiff::new("merged.esp".to_string());
    reference.insert(colored(Vec2::new(0, 0)));
    reference.insert(colored(Vec2::new(1, 0)));

    let mut changed = landscape(Vec2::new(0, 0));
    changed.height_map.as_mut().unwrap().set_value(Index2D::new(3, 4), 100);
    changed.height_map.as_mut().unwrap().set_value(Index2D::new(5, 6), 2);
    let mut plugin = LandmassDiff::new("plugin.esp".to_string());
    plugin.insert(changed);

    add_debug_vertex_colors_to_landmass(&mut reference, &plugin, &average_i32);

    let painted = reference.get(Vec2::new(0, 0)).unwrap().vertex_colors.as_ref().unwrap();
    assert_eq!(painted.get_value(Index2D::new(3, 4)), Vec3::new(255, 0, 0));
    assert_eq!(painted.get_value(Index2D::new(5, 6)), Vec3::new(255, 255, 0));
    assert_eq!(painted.get_value(Index2D::new(0, 0)), Vec3::new(0, 0, 0));
    let untouched = reference.get(Vec2::new(1, 0)).unwrap().vertex_colors.as_ref().unwrap();
    assert!(!untouched.is_modified());
}

#[test]
fn add_vertex_colors_marks_minor_conflicts_yellow() {
    let mut lhs = RelativeTerrainMap::<i32, 2>::empty(grid(0, 2));
    lhs.set_value(Index2D::new(0, 1), 100);
    let mut rhs = RelativeTerrainMap::<i32, 2>::empty(grid(0, 2));
    rhs.set_value(Index2D::new(0, 1), 102);
    let mut vertex_colors = Some(RelativeTerrainMap::<Vec3<u8>, 2>::empty(grid(Vec3::new(0, 0, 0), 2)));
    add_vertex_colors(Some(&lhs), Some(&rhs), &mut vertex_colors, &average_i32);
    assert_eq!(vertex_colors.unwrap().get_value(Index2D::new(0, 1)), Vec3::new(255, 255, 0));
}

#[test]
fn add_vertex_colors_without_colors_does_nothing() {
    let lhs = RelativeTerrainMap::<i32, 2>::empty(grid(0, 2));
    let mut vertex_colors: Option<RelativeTerrainMap<Vec3<u8>, 2>> = None;
    add_vertex_colors(Some(&lhs), Some(&lhs), &mut vertex_colors, &average_i32);
    assert!(vertex_colors.is_none());
}

// texture merge

fn idx(v: u16) -> IndexVTEX {
    IndexVTEX::new(v)
}

#[test]
fn openmw_texture_merge_applies_only_changed_cells_from_new() {
    let base = grid(idx(0), 16);

    let mut old = RelativeTerrainMap::<IndexVTEX, 16>::empty(base.clone());
    old.set_value(Index2D::new(0, 0), idx(10));

    let mut new = RelativeTerrainMap::<IndexVTEX, 16>::empty(base);
    new.set_value(Index2D::new(1, 1), idx(40));

    let merged = merge_openmw_texture_indices(Some(&old), Some(&new)).expect("merged map");

    assert_eq!(merged.get_value(Index2D::new(0, 0)).as_u16(), 10);
    assert_eq!(merged.get_value(Index2D::new(1, 1)).as_u16(), 40);
    assert_eq!(merged.get_value(Index2D::new(0, 1)).as_u16(), 0);
    assert_eq!(merged.get_value(Index2D::new(1, 0)).as_u16(), 0);
}

#[test]
fn openmw_texture_merge_returns_old_when_new_has_no_effective_changes() {
    let base = grid(idx(0), 16);

    let mut old = RelativeTerrainMap::<IndexVTEX, 16>::empty(base.clone());
    old.set_value(Index2D::new(0, 0), idx(10));

    let new = RelativeTerrainMap::<IndexVTEX, 16>::empty(base);

    let merged = merge_openmw_texture_indices(Some(&old), Some(&new)).expect("merged map");
    assert!(merged.is_modified());
    assert_eq!(merged.get_value(Index2D::new(0, 0)).as_u16(), 10);
    assert_eq!(merged.get_value(Index2D::new(1, 1)).as_u16(), 0);
}

#[test]
fn openmw_texture_merge_without_new_keeps_old() {
    let mut old = RelativeTerrainMap::<IndexVTEX, 16>::empty(grid(idx(0), 16));
    old.set_value(Index2D::new(3, 2), idx(7));
    let merged = merge_openmw_texture_indices(Some(&old), None).expect("old map");
    assert_eq!(merged.get_value(Index2D::new(3, 2)).as_u16(), 7);
    assert!(merge_openmw_texture_indices(None, None).is_none());
}

// cleaning

#[test]
fn has_difference_is_false_when_maps_are_identical() {
    let lhs = RelativeTerrainMap::<i32, 2>::empty(vec![1, 2, 3, 4]);
    let rhs = RelativeTerrainMap::<i32, 2>::empty(vec![1, 2, 3, 4]);

    assert!(!has_difference(Some(&lhs), Some(&rhs)));
}

#[test]
fn has_difference_is_true_when_any_cell_differs() {
    let mut lhs = RelativeTerrainMap::<i32, 2>::empty(vec![1, 2, 3, 4]);
    let rhs = RelativeTerrainMap::<i32, 2>::empty(vec![1, 2, 3, 4]);

    lhs.set_value(Index2D::new(1, 0), 20);
    assert!(has_difference(Some(&lhs), Some(&rhs)));
}

#[test]
fn has_difference_returns_false_when_missing_input_map() {
    let lhs = RelativeTerrainMap::<i32, 2>::empty(vec![1, 2, 3, 4]);
    assert!(!has_difference(Some(&lhs), None));
    assert!(!has_difference::<i32, 2>(None, Some(&lhs)));
}

// seam detection

fn landscape(coords: Vec2) -> LandscapeDiff {
    LandscapeDiff {
        coords,
        flags: 0,
        height_map: Some(RelativeTerrainMap::empty(grid(0i32, 65))),
        vertex_normals: None,
        world_map_data: None,
        vertex_colors: None,
        texture_indices: None,
        plugins: vec![],
    }
}

fn empty_landmass_diff() -> LandmassDiff {
    LandmassDiff::new("plugin.esp".to_string())
}

fn height_at(merged: &LandmassDiff, cell: Vec2, at: Index2D) -> i32 {
    merged.get(cell).expect("cell").height_map.as_ref().expect("height map").get_value(at)
}

#[test]
fn no_seams_means_no_repairs() {
    let mut merged = empty_landmass_diff();
    merged.insert(landscape(Vec2::new(0, 0)));
    merged.insert(landscape(Vec2::new(1, 0)));

    let repaired = repair_landmass_seams(&mut merged);
    assert_eq!(repaired, 0);
}

#[test]
fn repairs_single_side_seam_by_averaging() {
    let mut left = landscape(Vec2::new(0, 0));
    left.height_map.as_mut().expect("height map").set_value(Index2D::new(64, 10), 0);

    let mut right = landscape(Vec2::new(1, 0));
    right.height_map.as_mut().expect("height map").set_value(Index2D::new(0, 10), 10);

    let mut merged = empty_landmass_diff();
    merged.insert(left);
    merged.insert(right);

    let repaired = repair_landmass_seams(&mut merged);
    assert_eq!(repaired, 1);

    assert_eq!(height_at(&merged, Vec2::new(0, 0), Index2D::new(64, 10)), 5);
    assert_eq!(height_at(&merged, Vec2::new(1, 0), Index2D::new(0, 10)), 5);
}

#[test]
fn seam_repair_is_idempotent_after_first_pass() {
    let mut left = landscape(Vec2::new(0, 0));
    left.height_map.as_mut().expect("height map").set_value(Index2D::new(64, 10), 0);

    let mut right = landscape(Vec2::new(1, 0));
    right.height_map.as_mut().expect("height map").set_value(Index2D::new(0, 10), 10);

    let mut merged = empty_landmass_diff();
    merged.insert(left);
    merged.insert(right);

    let first = repair_landmass_seams(&mut merged);
    let second = repair_landmass_seams(&mut merged);

    assert!(first > 0);
    assert_eq!(second, 0);
}

#[test]
fn side_seam_with_large_heights_is_repaired_to_the_midpoint() {
    let mut left = landscape(Vec2::new(0, 0));
    left.height_map.as_mut().expect("height map").set_value(Index2D::new(64, 10), 2_000_000_000);

    let mut right = landscape(Vec2::new(1, 0));
    right.height_map.as_mut().expect("height map").set_value(Index2D::new(0, 10), 1_900_000_001);

    let mut merged = empty_landmass_diff();
    merged.insert(left);
    merged.insert(right);

    let first = repair_landmass_seams(&mut merged);
    assert_eq!(first, 1);
    assert_eq!(height_at(&merged, Vec2::new(0, 0), Index2D::new(64, 10)), 1_950_000_000);
    assert_eq!(height_at(&merged, Vec2::new(1, 0), Index2D::new(0, 10)), 1_950_000_000);

    let second = repair_landmass_seams(&mut merged);
    assert_eq!(second, 0);
}

#[test]
fn vertical_seam_is_repaired_too() {
    let mut bottom = landscape(Vec2::new(0, 0));
    bottom.height_map.as_mut().expect("height map").set_value(Index2D::new(20, 64), 8);
    let top = landscape(Vec2::new(0, 1));

    let mut merged = empty_landmass_diff();
    merged.insert(bottom);
    merged.insert(top);

    let repaired = repair_landmass_seams(&mut merged);
    assert_eq!(repaired, 1);
    assert_eq!(height_at(&merged, Vec2::new(0, 0), Index2D::new(20, 64)), 4);
    assert_eq!(height_at(&merged, Vec2::new(0, 1), Index2D::new(20, 0)), 4);
}

#[test]
fn corner_seams_count_every_vertex_that_moves_to_the_average() {
    // Four cells meet at the lattice point (1, 1); their corner heights there are 0, 0, 0 and 9,
    // whose average (rounded toward zero) is 2. All four vertices change.
    let mut top_right = landscape(Vec2::new(1, 1));
    top_right.height_map.as_mut().expect("height map").set_value(Index2D::new(0, 0), 9);
    let mut merged = empty_landmass_diff();
    merged.insert(landscape(Vec2::new(0, 0)));
    merged.insert(landscape(Vec2::new(1, 0)));
    merged.insert(landscape(Vec2::new(0, 1)));
    merged.insert(top_right);

    let repaired = repair_landmass_seams(&mut merged);

    assert_eq!(repaired, 4);
    assert_eq!(height_at(&merged, Vec2::new(0, 0), Index2D::new(64, 64)), 2);
    assert_eq!(height_at(&merged, Vec2::new(1, 0), Index2D::new(0, 64)), 2);
    assert_eq!(height_at(&merged, Vec2::new(0, 1), Index2D::new(64, 0)), 2);
    assert_eq!(height_at(&merged, Vec2::new(1, 1), Index2D::new(0, 0)), 2);
}

#[test]
fn landmass_insert_replaces_and_orders_cells() {
    let mut merged = empty_landmass_diff();
    merged.insert(landscape(Vec2::new(2, 0)));
    merged.insert(landscape(Vec2::new(-1, 5)));
    merged.insert(landscape(Vec2::new(2, 0)));
    assert_eq!(merged.len(), 2);
    let coords: Vec<Vec2> = merged.sorted().iter().map(|l| l.coords).collect();
    assert_eq!(coords, vec![Vec2::new(-1, 5), Vec2::new(2, 0)]);
    assert!(merged.get(Vec2::new(0, 0)).is_none());
    assert_eq!(merged.plugin(), "plugin.esp");
}

#[test]
fn used_texture_ids_mark_default_and_used_indices() {
    let mut textured = landscape(Vec2::new(0, 0));
    let mut textures = RelativeTerrainMap::<IndexVTEX, 16>::empty(grid(idx(2), 16));
    textures.set_value(Index2D::new(3, 3), idx(9));
    textured.texture_indices = Some(textures);
    let mut merged = empty_landmass_diff();
    merged.insert(textured);
    merged.insert(landscape(Vec2::new(1, 0)));

    let mut invalid = Vec::new();
    let used = used_texture_ids(&merged, 4, &mut invalid);
    assert_eq!(used, vec![true, false, true, false, false]);
    assert_eq!(invalid, vec![(Vec2::new(0, 0), 1, 9)]);
}

#[test]
fn default_maps_are_blank() {
    let heights = DefaultRelativeTerrainMap::height_map();
    assert_eq!(heights.get_value(Index2D::new(64, 64)), 0);
    assert!(!heights.is_modified());
    let normals = DefaultRelativeTerrainMap::vertex_normals();
    assert_eq!(normals.get_value(Index2D::new(0, 0)), Vec3::new(0i8, 0, 0));
    assert!(!normals.is_modified());
}

fn no_conflict<T>(_: T, _: T) -> Option<ConflictType<T>> {
    None
}

fn strategies(s: ConflictStrategy) -> LayerStrategies {
    LayerStrategies { height_map: s, vertex_colors: s, texture_indices: s, world_map_data: s }
}

fn merge_with(s: ConflictStrategy, old: &LandscapeDiff, new: &LandscapeDiff, openmw: bool) -> LandscapeDiff {
    merge_landscape_diff(
        &"plugin.esp".to_string(),
        old,
        new,
        &strategies(s),
        openmw,
        &average_i32,
        &no_conflict::<Vec3<i8>>,
        &no_conflict::<u8>,
        &no_conflict::<Vec3<u8>>,
        &no_conflict::<IndexVTEX>,
    )
}

#[test]
fn merge_landscape_diff_applies_the_layer_strategy() {
    let mut old = landscape(Vec2::new(0, 0));
    old.height_map.as_mut().unwrap().set_value(Index2D::new(1, 1), 5);
    old.plugins = vec![("base.esp".to_string(), 1)];
    let mut new = landscape(Vec2::new(0, 0));
    new.height_map.as_mut().unwrap().set_value(Index2D::new(1, 1), 9);
    new.height_map.as_mut().unwrap().set_value(Index2D::new(2, 2), 7);

    let overwritten = merge_with(ConflictStrategy::Overwrite, &old, &new, false);
    let heights = overwritten.height_map.as_ref().unwrap();
    assert_eq!(heights.get_value(Index2D::new(1, 1)), 9);
    assert_eq!(heights.get_value(Index2D::new(2, 2)), 7);
    assert_eq!(overwritten.plugins, vec![("base.esp".to_string(), 1), ("plugin.esp".to_string(), 1)]);

    let ignored = merge_with(ConflictStrategy::Ignore, &old, &new, false);
    let heights = ignored.height_map.as_ref().unwrap();
    assert_eq!(heights.get_value(Index2D::new(1, 1)), 5);
    assert_eq!(heights.get_value(Index2D::new(2, 2)), 7);

    let resolved = merge_with(ConflictStrategy::Resolve, &old, &new, false);
    let heights = resolved.height_map.as_ref().unwrap();
    assert_eq!(heights.get_value(Index2D::new(1, 1)), average_i32(5, 9).map(|c| match c {
        ConflictType::Minor(v) | ConflictType::Major(v) => v,
    }).unwrap());
    assert_eq!(heights.get_value(Index2D::new(2, 2)), 7);
    assert_eq!(heights.get_value(Index2D::new(3, 3)), 0);
}

#[test]
fn merge_landscape_diff_masks_normals_by_merged_heights() {
    let mut old = landscape(Vec2::new(0, 0));
    old.vertex_normals = Some(RelativeTerrainMap::empty(grid(Vec3::new(0i8, 0, 127), 65)));
    let mut new = landscape(Vec2::new(0, 0));
    let mut normals = RelativeTerrainMap::<Vec3<i8>, 65>::empty(grid(Vec3::new(0i8, 0, 127), 65));
    normals.set_value(Index2D::new(4, 4), Vec3::new(10, 0, 100));
    normals.set_value(Index2D::new(5, 5), Vec3::new(20, 0, 100));
    new.vertex_normals = Some(normals);
    new.height_map.as_mut().unwrap().set_value(Index2D::new(4, 4), 3);

    let merged = merge_with(ConflictStrategy::Auto, &old, &new, false);
    let normals = merged.vertex_normals.as_ref().unwrap();
    assert_eq!(normals.get_value(Index2D::new(4, 4)), Vec3::new(10, 0, 100));
    assert_eq!(normals.get_value(Index2D::new(5, 5)), Vec3::new(0, 0, 127));
    assert_eq!(merged.plugins, vec![("plugin.esp".to_string(), 1 + 2)]);
}

#[test]
fn merge_landmasses_merges_in_order_then_repairs_seams() {
    let mut merged = LandmassDiff::new("merged.esp".to_string());
    merged.insert(landscape(Vec2::new(0, 0)));
    merged.insert(landscape(Vec2::new(1, 0)));

    let mut first = LandmassDiff::new("first.esp".to_string());
    let mut raised = landscape(Vec2::new(0, 0));
    raised.height_map.as_mut().unwrap().set_value(Index2D::new(64, 10), 10);
    first.insert(raised);

    let mut second = LandmassDiff::new("second.esp".to_string());
    let mut bumped = landscape(Vec2::new(1, 0));
    bumped.height_map.as_mut().unwrap().set_value(Index2D::new(5, 5), 3);
    second.insert(bumped);

    let count = merge_landmasses(
        &mut merged,
        &vec![first, second],
        &vec![strategies(ConflictStrategy::Auto), strategies(ConflictStrategy::Auto)],
        false,
        &average_i32,
        &no_conflict::<Vec3<i8>>,
        &no_conflict::<u8>,
        &no_conflict::<Vec3<u8>>,
        &no_conflict::<IndexVTEX>,
    );

    assert_eq!(count, 1);
    assert_eq!(merged.len(), 2);
    let left = merged.get(Vec2::new(0, 0)).unwrap();
    assert_eq!(left.height_map.as_ref().unwrap().get_value(Index2D::new(64, 10)), 5);
    assert_eq!(left.plugins, vec![("first.esp".to_string(), 1)]);
    let right = merged.get(Vec2::new(1, 0)).unwrap();
    assert_eq!(right.height_map.as_ref().unwrap().get_value(Index2D::new(0, 10)), 5);
    assert_eq!(right.height_map.as_ref().unwrap().get_value(Index2D::new(5, 5)), 3);
    assert_eq!(right.plugins, vec![("second.esp".to_string(), 1)]);
}

#[test]
fn merge_landmass_into_merges_or_takes_each_cell() {
    let mut merged = LandmassDiff::new("merged.esp".to_string());
    let mut base = landscape(Vec2::new(0, 0));
    base.height_map.as_mut().unwrap().set_value(Index2D::new(1, 1), 5);
    merged.insert(base);
    merged.insert(landscape(Vec2::new(5, 5)));

    let mut plugin = LandmassDiff::new("plugin.esp".to_string());
    let mut changed = landscape(Vec2::new(0, 0));
    changed.height_map.as_mut().unwrap().set_value(Index2D::new(2, 2), 7);
    plugin.insert(changed);
    let mut fresh = landscape(Vec2::new(1, 0));
    fresh.height_map.as_mut().unwrap().set_value(Index2D::new(3, 3), 4);
    plugin.insert(fresh);

    merge_landmass_into(
        &mut merged,
        &plugin,
        &strategies(ConflictStrategy::Auto),
        false,
        &average_i32,
        &no_conflict::<Vec3<i8>>,
        &no_conflict::<u8>,
        &no_conflict::<Vec3<u8>>,
        &no_conflict::<IndexVTEX>,
    );

    assert_eq!(merged.len(), 3);
    let cell = merged.get(Vec2::new(0, 0)).unwrap();
    assert_eq!(cell.height_map.as_ref().unwrap().get_value(Index2D::new(1, 1)), 5);
    assert_eq!(cell.height_map.as_ref().unwrap().get_value(Index2D::new(2, 2)), 7);
    assert_eq!(cell.plugins, vec![("plugin.esp".to_string(), 1)]);
    let taken = merged.get(Vec2::new(1, 0)).unwrap();
    assert_eq!(taken.height_map.as_ref().unwrap().get_value(Index2D::new(3, 3)), 4);
    assert_eq!(taken.plugins, vec![("plugin.esp".to_string(), 1)]);
    assert!(merged.get(Vec2::new(5, 5)).unwrap().plugins.is_empty());
}
