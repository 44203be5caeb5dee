use rosten::anim::AnimFrame;
use rosten::colliders::Hitbox;
use rosten::texture::Texture;
use rosten::tilemap::{
    build_drawable, build_group_mesh, calculate_hitboxes, collect_cells, mapping_updates,
    patch_mesh_uv, resolve_uv_z, Cell, CollRect, TileMap, TileMapLayer, TileRef, TileSetInfo,
};

fn tile(set: usize, id: u32) -> Option<TileRef> {
    Some(TileRef { set, id })
}

fn test_set(id: u64) -> TileSetInfo {
    TileSetInfo {
        texture: Texture { id, width: 16, height: 16, array_layers: 8 },
        tile_width: 16,
        tile_height: 16,
        tile_count: 8,
        animations: vec![],
        collisions: vec![],
    }
}

/// A fixed two-layer, 2x2 map fixture using two tilesets.
fn fixture_layers() -> Vec<TileMapLayer> {
    vec![
        // layer 0: three cells of tileset 0, one empty
        TileMapLayer::new(vec![tile(0, 1), tile(0, 2), None, tile(0, 3)]),
        // layer 1: two cells of tileset 1
        TileMapLayer::new(vec![None, tile(1, 0), tile(1, 5), None]),
    ]
}

#[test]
fn round_trip_counts_per_tileset() {
    let layers = fixture_layers();
    let tilesets = vec![test_set(1), test_set(2)];
    let mappings = vec![vec![], vec![]];
    let groups = build_drawable(&layers, 2, 2, &tilesets, (0, 0), &mappings);

    // two tilesets in use: one group each, 4 vertices + 6 indices per
    // occupied non-animated cell
    assert_eq!(groups.len(), 2);
    assert_eq!(groups[0].set, 0);
    assert_eq!(groups[0].mesh.vertices.len(), 4 * 3);
    assert_eq!(groups[0].mesh.indices.len(), 6 * 3);
    assert_eq!(groups[1].set, 1);
    assert_eq!(groups[1].mesh.vertices.len(), 4 * 2);
    assert_eq!(groups[1].mesh.indices.len(), 6 * 2);
}

#[test]
fn collect_cells_orders_layer_major_row_major() {
    let layers = fixture_layers();
    let cells = collect_cells(&layers, 2, 0);
    assert_eq!(cells.len(), 3);
    assert_eq!(cells[0], Cell { x: 0, y: 0, layer: 0, tile_id: 1 });
    assert_eq!(cells[1], Cell { x: 1, y: 0, layer: 0, tile_id: 2 });
    assert_eq!(cells[2], Cell { x: 1, y: 1, layer: 0, tile_id: 3 });
    let cells1 = collect_cells(&layers, 2, 1);
    assert_eq!(cells1.len(), 2);
    assert_eq!(cells1[0], Cell { x: 1, y: 0, layer: 1, tile_id: 0 });
    assert_eq!(cells1[1], Cell { x: 0, y: 1, layer: 1, tile_id: 5 });
}

#[test]
fn quad_vertices_are_world_pixels() {
    let cells = vec![Cell { x: 1, y: 0, layer: 0, tile_id: 2 }];
    let mesh = build_group_mesh(&cells, 16, 16, (0, 0), &vec![]);
    assert_eq!(mesh.vertices.len(), 4);
    // corners: x in [16, 32], y in [-16, 0] (y axis flipped), uv_z = id
    assert_eq!(
        (mesh.vertices[0].x, mesh.vertices[0].y, mesh.vertices[0].u, mesh.vertices[0].v),
        (16, -16, 0, 1)
    );
    assert_eq!((mesh.vertices[1].x, mesh.vertices[1].y), (16, 0));
    assert_eq!((mesh.vertices[2].x, mesh.vertices[2].y), (32, -16));
    assert_eq!((mesh.vertices[3].x, mesh.vertices[3].y), (32, 0));
    assert!(mesh.vertices.iter().all(|v| v.uv_z == 2));
    assert_eq!(mesh.indices, vec![0, 1, 2, 2, 1, 3]);
}

#[test]
fn animation_mapping_overrides_uv_z() {
    let mapping = vec![(2u32, 7u32), (5u32, 6u32)];
    assert_eq!(resolve_uv_z(&mapping, 2), 7);
    assert_eq!(resolve_uv_z(&mapping, 5), 6);
    assert_eq!(resolve_uv_z(&mapping, 3), 3);

    let cells = vec![Cell { x: 0, y: 0, layer: 0, tile_id: 2 }];
    let mesh = build_group_mesh(&cells, 16, 16, (0, 0), &mapping);
    assert!(mesh.vertices.iter().all(|v| v.uv_z == 7));
}

#[test]
fn map_update_is_lazy_and_dirty_flag_driven() {
    let layers = fixture_layers();
    let mut map = TileMap::new(layers, 2, 2, 16, 16, (0, 0)).unwrap();
    let tilesets = vec![test_set(1), test_set(2)];
    let mappings = vec![vec![], vec![]];

    assert!(!map.is_up_to_date());
    map.update(&tilesets, &mappings);
    assert!(map.is_up_to_date());
    assert_eq!(map.groups().len(), 2);

    // a position change marks the drawable stale; update rebuilds once
    map.set_position((32, 0));
    assert!(!map.is_up_to_date());
    map.update(&tilesets, &mappings);
    assert!(map.is_up_to_date());
    // the rebuilt mesh is shifted by the new offset
    assert_eq!(map.groups()[0].mesh.vertices[0].x, 32);

    // editing a tile through the mutating accessor marks it stale too
    map.set_tile(0, 2, tile(0, 4));
    assert!(!map.is_up_to_date());
    map.update(&tilesets, &mappings);
    assert_eq!(map.groups()[0].mesh.vertices.len(), 4 * 4);
}

#[test]
fn map_new_rejects_ragged_layers() {
    let ragged = vec![TileMapLayer::new(vec![None; 3])];
    assert!(TileMap::new(ragged, 2, 2, 16, 16, (0, 0)).is_none());
    assert!(TileMap::new(vec![], 0, 2, 16, 16, (0, 0)).is_none());
}

#[test]
fn hitboxes_follow_authored_collision_shapes() {
    // one tile with one full-tile collision rectangle, at cell (1, 0)
    let cells = vec![Cell { x: 1, y: 0, layer: 0, tile_id: 2 }];
    let colls = vec![(2u32, vec![CollRect { x: 0, y: 0, w: 16, h: 16 }])];
    let rects = calculate_hitboxes(&cells, &colls, 16, 16, (0, 0));
    assert_eq!(rects.len(), 1);
    // top-left of the cell is (16, 16); the shape spans down to y = 0
    assert_eq!(rects[0], (16, 0, 32, 16));
    let hb = Hitbox::new([rects[0].0 as i64, rects[0].1 as i64], [rects[0].2 as i64, rects[0].3 as i64]);
    assert!(hb.is_some());

    // a tile without authored collision contributes nothing
    let none = calculate_hitboxes(&cells, &vec![], 16, 16, (0, 0));
    assert!(none.is_empty());
}

#[test]
fn tileset_animation_data_round_trips() {
    let set = TileSetInfo {
        animations: vec![(
            2,
            vec![
                AnimFrame { tile_id: 2, duration_ms: 100 },
                AnimFrame { tile_id: 3, duration_ms: 100 },
            ],
        )],
        ..test_set(1)
    };
    assert_eq!(set.animations[0].1.len(), 2);
}

#[test]
fn mapping_diff_finds_changed_frames() {
    let stored = vec![(2u32, 7u32), (5u32, 6u32)];
    let fresh = vec![(2u32, 8u32), (5u32, 6u32), (9u32, 1u32)];
    // tile 2 moved to a new frame, tile 9 is newly animated, tile 5 is
    // unchanged
    assert_eq!(mapping_updates(&stored, &fresh), vec![(2, 8), (9, 1)]);
}

#[test]
fn patched_mesh_moves_only_updated_quads() {
    let cells = vec![
        Cell { x: 0, y: 0, layer: 0, tile_id: 2 },
        Cell { x: 1, y: 0, layer: 0, tile_id: 3 },
    ];
    let mesh = build_group_mesh(&cells, 16, 16, (0, 0), &vec![]);
    let patched = patch_mesh_uv(&mesh.vertices, &cells, &vec![(2u32, 9u32)]);
    // the first quad samples the new frame, the second is untouched,
    // and positions stay as they were
    assert!(patched[0..4].iter().all(|v| v.uv_z == 9));
    assert!(patched[4..8].iter().all(|v| v.uv_z == 3));
    assert_eq!(patched[0].x, mesh.vertices[0].x);
    assert_eq!(patched[7].y, mesh.vertices[7].y);
}
