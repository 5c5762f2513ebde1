use merged_lands::io::conflict_image::{conflict_image, conflict_image_cells, should_save_conflict_image};
use merged_lands::land::grid::{Index2D, Vec2, Vec3};
use merged_lands::land::landscape_diff::{LandmassDiff, LandscapeDiff};
use merged_lands::merge::conflict::ConflictType;
use merged_lands::merge::relative_terrain_map::RelativeTerrainMap;

/// A stand-in classifier: differences of ten or more are major.
fn classify(lhs: i32, rhs: i32) -> Option<ConflictType<i32>> {
    if lhs == rhs {
        None
    } else if (lhs - rhs).abs() >= 10 {
        Some(ConflictType::Major(rhs))
    } else {
        Some(ConflictType::Minor(rhs))
    }
}

fn land(x: i32, y: i32) -> LandscapeDiff {
    LandscapeDiff {
        coords: Vec2::new(x, y),
        flags: 0,
        height_map: None,
        vertex_normals: None,
        world_map_data: None,
        vertex_colors: None,
        texture_indices: None,
        plugins: vec![],
    }
}

#[test]
fn conflict_image_colors_each_position_by_its_conflict() {
    let mut merged = RelativeTerrainMap::<i32, 2>::empty(vec![0; 4]);
    let mut plugin = RelativeTerrainMap::<i32, 2>::empty(vec![0; 4]);
    plugin.set_value(Index2D::new(0, 0), 100);
    plugin.set_value(Index2D::new(1, 0), 2);
    merged.set_value(Index2D::new(0, 1), 5);
    plugin.set_value(Index2D::new(0, 1), 5);

    let image = conflict_image(&merged, &plugin, &classify);

    assert_eq!(
        image.pixels,
        vec![Vec3::new(255, 0, 0), Vec3::new(255, 255, 0), Vec3::new(0, 255, 0), Vec3::new(0, 0, 0)]
    );
    assert_eq!(image.num_major_conflicts, 1);
    assert_eq!(image.num_minor_conflicts, 1);
}

#[test]
fn conflict_image_ignores_positions_the_plugin_left_alone() {
    let mut merged = RelativeTerrainMap::<i32, 2>::empty(vec![0; 4]);
    merged.set_value(Index2D::new(1, 1), 50);
    let plugin = RelativeTerrainMap::<i32, 2>::empty(vec![0; 4]);

    let image = conflict_image(&merged, &plugin, &classify);

    assert_eq!(image.pixels, vec![Vec3::new(0, 0, 0); 4]);
    assert_eq!(image.num_major_conflicts, 0);
    assert_eq!(image.num_minor_conflicts, 0);
}

#[test]
fn conflict_images_need_enough_conflicts() {
    let cells = 65 * 65;
    assert!(should_save_conflict_image(4, 0, cells, "height_map"));
    assert!(!should_save_conflict_image(3, 83, cells, "height_map"));
    assert!(should_save_conflict_image(0, 84, cells, "world_map_data"));
    assert!(!should_save_conflict_image(0, 0, 4, "height_map"));
    assert!(should_save_conflict_image(1, 0, 4, "height_map"));
}

#[test]
fn conflict_images_skip_vertex_colors_and_normals() {
    assert!(!should_save_conflict_image(100, 100, 65 * 65, "vertex_colors"));
    assert!(!should_save_conflict_image(100, 100, 65 * 65, "vertex_normals"));
}

#[test]
fn conflict_image_cells_skip_land_missing_from_the_merged_output() {
    let mut reference = LandmassDiff::new("merged.esp".to_string());
    reference.insert(land(0, 0));
    reference.insert(land(2, 0));
    let mut plugin = LandmassDiff::new("plugin.esp".to_string());
    plugin.insert(land(0, 0));
    plugin.insert(land(1, 0));
    plugin.insert(land(2, 0));

    assert_eq!(conflict_image_cells(&reference, &plugin), vec![(0, 0), (2, 1)]);
}
