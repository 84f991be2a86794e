use vibecoded_game::chunk::{ChunkLayer, ChunkManifest, ChunkSettings, ChunkTiles, WorldChunks};
use vibecoded_game::collider::{blocking_spans, ColliderAction, TileSpan};
use vibecoded_game::coords::{chunk_of_key, div_rem_euclid, dim_as_i32, ChunkCoord, TileCoord};
use vibecoded_game::debug::{
    apply_overlay_toggle, ChunkDebugStats, DebugTerrainSettings, NavigationDebugSettings,
    NavigationDebugSprite,
};
use vibecoded_game::grid::{GridSize, LayerData, TilePos};
use vibecoded_game::mesh::quad_indices;
use vibecoded_game::settings::ChunkDimensions;
use vibecoded_game::terrain::{setup_chunk_layers, TerrainSettings};
use vibecoded_game::tiles::{TileDefinition, TileId, TileRegistry};

fn registry() -> TileRegistry {
    let mut r = TileRegistry::new();
    r.register_default_tiles();
    r
}

fn layer_from_rows(rows: &[&str]) -> LayerData {
    let h = rows.len() as u32;
    let w = rows[0].len() as u32;
    let mut layer = LayerData::new(GridSize { x: w, y: h });
    for (y, row) in rows.iter().enumerate() {
        for (x, ch) in row.chars().enumerate() {
            if ch == '#' {
                layer.set(x as u32, y as u32, TileId(1));
            }
        }
    }
    layer
}

#[test]
fn layer_new_is_all_default() {
    let layer = LayerData::new(GridSize { x: 3, y: 2 });
    assert_eq!(layer.tiles.len(), 6);
    assert!(layer.tiles.iter().all(|t| *t == TileId(0)));
    assert_eq!(layer.get(2, 1), Some(TileId(0)));
}

#[test]
fn layer_get_after_set() {
    let mut layer = LayerData::new(GridSize { x: 4, y: 3 });
    layer.set(2, 1, TileId(7));
    assert_eq!(layer.get(2, 1), Some(TileId(7)));
    assert_eq!(layer.tiles[1 * 4 + 2], TileId(7));
    assert_eq!(layer.get(1, 2), Some(TileId(0)));
}

#[test]
fn layer_out_of_bounds_is_ignored() {
    let mut layer = LayerData::new(GridSize { x: 2, y: 2 });
    layer.set(2, 0, TileId(5));
    layer.set(0, 2, TileId(5));
    assert!(layer.tiles.iter().all(|t| *t == TileId(0)));
    assert_eq!(layer.get(2, 0), None);
    assert_eq!(layer.get(0, 2), None);
}

#[test]
fn layer_fill_overwrites_everything() {
    let mut layer = LayerData::new(GridSize { x: 3, y: 3 });
    layer.set(1, 1, TileId(4));
    layer.fill(TileId(9));
    assert!(layer.tiles.iter().all(|t| *t == TileId(9)));
}

#[test]
fn empty_layer_has_no_cells() {
    let layer = LayerData::new(GridSize { x: 0, y: 5 });
    assert!(layer.tiles.is_empty());
    assert_eq!(layer.get(0, 0), None);
}

#[test]
fn spans_merge_runs_of_blocking_tiles() {
    let tiles = registry();
    let layer = layer_from_rows(&["##.#", "....", ".###"]);
    let spans = blocking_spans(&layer, &tiles);
    assert_eq!(
        spans,
        vec![
            TileSpan { start_x: 0, end_x: 2, y: 0 },
            TileSpan { start_x: 3, end_x: 4, y: 0 },
            TileSpan { start_x: 1, end_x: 4, y: 2 },
        ]
    );
}

#[test]
fn spans_of_open_ground_are_empty() {
    let tiles = registry();
    let layer = layer_from_rows(&["...", "..."]);
    assert!(blocking_spans(&layer, &tiles).is_empty());
}

#[test]
fn unknown_tiles_are_walkable() {
    let tiles = registry();
    let mut layer = LayerData::new(GridSize { x: 2, y: 1 });
    layer.set(0, 0, TileId(42));
    assert!(tiles.is_walkable(TileId(42)));
    assert!(blocking_spans(&layer, &tiles).is_empty());
}

#[test]
fn full_row_is_one_span() {
    let tiles = registry();
    let layer = layer_from_rows(&["#####"]);
    assert_eq!(blocking_spans(&layer, &tiles), vec![TileSpan { start_x: 0, end_x: 5, y: 0 }]);
}

#[test]
fn euclidean_division_matches_std() {
    for a in [-7i32, -6, -1, 0, 1, 5, 6, 7, i32::MIN, i32::MAX] {
        for b in [1i32, 2, 3, 32, -1, -3, -32, i32::MIN, i32::MAX] {
            if a == i32::MIN && b == -1 {
                continue;
            }
            assert_eq!(div_rem_euclid(a, b), (a.div_euclid(b), a.rem_euclid(b)), "{} {}", a, b);
        }
    }
}

#[test]
fn large_dimensions_wrap_like_i32_casts() {
    assert_eq!(dim_as_i32(32), 32);
    assert_eq!(dim_as_i32(u32::MAX), -1);
    assert_eq!(dim_as_i32(0x8000_0000), i32::MIN);
}

#[test]
fn chunk_keys_round_trip() {
    for (x, y) in [(0, 0), (-1, 5), (i32::MIN, i32::MAX), (i32::MAX, i32::MIN), (3, -9)] {
        let c = ChunkCoord { x, y };
        assert_eq!(chunk_of_key(c.key()), c);
    }
    assert_ne!(ChunkCoord { x: 1, y: 0 }.key(), ChunkCoord { x: 0, y: 1 }.key());
}

#[test]
fn origin_tile_scales_by_dimensions() {
    assert_eq!(ChunkCoord { x: -2, y: 3 }.origin_tile(32, 16), TileCoord { x: -64, y: 48 });
}

#[test]
fn ensure_chunk_creates_dirty_empty_chunk() {
    let mut chunks = WorldChunks::new();
    let c = ChunkCoord { x: 1, y: -1 };
    {
        let chunk = chunks.ensure_chunk(c);
        assert!(chunk.dirty);
        assert!(chunk.layers.is_empty());
        chunk.mark_clean();
    }
    assert!(!chunks.ensure_chunk(c).dirty);
    assert_eq!(chunks.iter().len(), 1);
    chunks.remove_chunk(&c);
    assert!(chunks.get(&c).is_none());
    assert!(chunks.iter().is_empty());
}

#[test]
fn ensure_layer_keeps_matching_size_and_resets_other_sizes() {
    let mut chunk = ChunkTiles::new();
    {
        let layer = chunk.ensure_layer(ChunkLayer(0), GridSize { x: 2, y: 2 });
        layer.set(1, 1, TileId(3));
    }
    assert_eq!(chunk.ensure_layer(ChunkLayer(0), GridSize { x: 2, y: 2 }).get(1, 1), Some(TileId(3)));
    let resized = chunk.ensure_layer(ChunkLayer(0), GridSize { x: 3, y: 1 });
    assert_eq!(resized.tiles, vec![TileId(0); 3]);
    chunk.mark_dirty();
    assert!(chunk.dirty);
}

#[test]
fn tile_at_world_finds_tiles_across_negative_chunks() {
    let settings = ChunkSettings { chunk_dimensions: GridSize { x: 4, y: 4 } };
    let mut chunks = WorldChunks::new();
    {
        let chunk = chunks.ensure_chunk(ChunkCoord { x: -1, y: 0 });
        let layer = chunk.ensure_layer(ChunkLayer(0), GridSize { x: 4, y: 4 });
        layer.set(3, 2, TileId(1));
    }
    assert_eq!(chunks.tile_at_world(&settings, ChunkLayer(0), TileCoord { x: -1, y: 2 }), Some(TileId(1)));
    assert_eq!(chunks.tile_at_world(&settings, ChunkLayer(0), TileCoord { x: -4, y: 0 }), Some(TileId(0)));
    assert_eq!(chunks.tile_at_world(&settings, ChunkLayer(0), TileCoord { x: 0, y: 0 }), None);
    assert_eq!(chunks.tile_at_world(&settings, ChunkLayer(1), TileCoord { x: -1, y: 2 }), None);
    let zero = ChunkSettings { chunk_dimensions: GridSize { x: 0, y: 4 } };
    assert_eq!(chunks.tile_at_world(&zero, ChunkLayer(0), TileCoord { x: -1, y: 2 }), None);
}

#[test]
fn manifest_registers_and_finds_layers() {
    let mut manifest = ChunkManifest::new();
    let ground = manifest.register_layer("ground".to_string(), 0);
    let deco = manifest.register_layer("decor".to_string(), 1.5f32.to_bits());
    assert_eq!(ground, ChunkLayer(0));
    assert_eq!(deco, ChunkLayer(1));
    assert_eq!(manifest.layer_by_name("decor"), Some(ChunkLayer(1)));
    assert_eq!(manifest.layer_by_name("ground"), Some(ChunkLayer(0)));
    assert_eq!(manifest.layer_by_name("water"), None);
    assert_eq!(manifest.entries().len(), 2);
    assert_eq!(f32::from_bits(manifest.entries()[1].z_index_bits), 1.5);
}

#[test]
fn manifest_finds_first_of_duplicate_names() {
    let mut manifest = ChunkManifest::new();
    manifest.register_layer("a".to_string(), 0);
    manifest.register_layer("b".to_string(), 0);
    manifest.register_layer("a".to_string(), 0);
    assert_eq!(manifest.layer_by_name("a"), Some(ChunkLayer(0)));
}

#[test]
fn manifest_layer_ids_wrap_after_256() {
    let mut manifest = ChunkManifest::new();
    let mut last = ChunkLayer(0);
    for i in 0..257 {
        last = manifest.register_layer(format!("l{}", i), 0);
    }
    assert_eq!(last, ChunkLayer(0));
}

#[test]
fn setup_chunk_layers_registers_ground_once() {
    let mut manifest = ChunkManifest::new();
    let mut terrain = TerrainSettings::default();
    terrain.ground_layer = ChunkLayer(9);
    setup_chunk_layers(&mut manifest, &mut terrain);
    assert_eq!(terrain.ground_layer, ChunkLayer(0));
    assert_eq!(manifest.layer_by_name("ground"), Some(ChunkLayer(0)));
    terrain.ground_layer = ChunkLayer(5);
    setup_chunk_layers(&mut manifest, &mut terrain);
    assert_eq!(terrain.ground_layer, ChunkLayer(5));
    assert_eq!(manifest.entries().len(), 1);
}

#[test]
fn tile_registry_defaults_and_lookup() {
    let mut tiles = registry();
    assert_eq!(tiles.get(TileId(0)).unwrap().name, "Empty");
    assert!(tiles.is_walkable(TileId(0)));
    assert_eq!(tiles.get(TileId(1)).unwrap().name, "Wall");
    assert!(!tiles.is_walkable(TileId(1)));
    assert_eq!(f32::from_bits(tiles.get(TileId(1)).unwrap().height_bits), 1.0);
    tiles.register(TileDefinition { id: TileId(1), name: "Door".to_string(), walkable: true, height_bits: 0 });
    assert!(tiles.is_walkable(TileId(1)));
    tiles.register_default_tiles();
    assert_eq!(tiles.get(TileId(1)).unwrap().name, "Door");
    assert!(tiles.get(TileId(2)).is_none());
}

#[test]
fn overlay_toggle_flips_and_counts() {
    let mut settings = DebugTerrainSettings::default();
    let mut stats = ChunkDebugStats::default();
    assert!(settings.show_tiles);
    apply_overlay_toggle(true, &mut settings, &mut stats);
    assert!(!settings.show_tiles);
    apply_overlay_toggle(false, &mut settings, &mut stats);
    assert!(!settings.show_tiles);
    apply_overlay_toggle(true, &mut settings, &mut stats);
    assert!(settings.show_tiles);
    assert_eq!(stats.overlay_toggles, 2);
    stats.overlay_toggles = u32::MAX;
    apply_overlay_toggle(true, &mut settings, &mut stats);
    assert_eq!(stats.overlay_toggles, u32::MAX);
    assert!(!NavigationDebugSettings::default().show_navigation);
}

#[test]
fn reset_frame_keeps_totals() {
    let mut stats = ChunkDebugStats::default();
    stats.frame_generated = 3;
    stats.frame_unloaded = 2;
    stats.total_generated = 10;
    stats.total_loaded = 9;
    stats.reset_frame();
    assert_eq!((stats.frame_generated, stats.frame_unloaded), (0, 0));
    assert_eq!((stats.total_generated, stats.total_loaded), (10, 9));
}

#[test]
fn blocked_cells_list_each_blocking_tile_once() {
    let tiles = registry();
    let mut chunks = WorldChunks::new();
    {
        let chunk = chunks.ensure_chunk(ChunkCoord { x: 0, y: 0 });
        let layer = chunk.ensure_layer(ChunkLayer(0), GridSize { x: 2, y: 2 });
        layer.set(1, 0, TileId(1));
        layer.set(0, 1, TileId(1));
    }
    {
        let chunk = chunks.ensure_chunk(ChunkCoord { x: 5, y: 5 });
        chunk.ensure_layer(ChunkLayer(1), GridSize { x: 2, y: 2 }).fill(TileId(1));
    }
    let mut cells = chunks.blocked_cells(ChunkLayer(0), &tiles);
    cells.sort_by_key(|c| (c.local.y, c.local.x));
    assert_eq!(
        cells,
        vec![
            NavigationDebugSprite { chunk: ChunkCoord { x: 0, y: 0 }, local: TilePos { x: 1, y: 0 } },
            NavigationDebugSprite { chunk: ChunkCoord { x: 0, y: 0 }, local: TilePos { x: 0, y: 1 } },
        ]
    );
}

#[test]
fn collider_plan_spawns_updates_and_despawns() {
    let tiles = registry();
    let mut chunks = WorldChunks::new();
    let a = ChunkCoord { x: 0, y: 0 };
    let b = ChunkCoord { x: 1, y: 0 };
    let c = ChunkCoord { x: 2, y: 0 };
    let gone = ChunkCoord { x: 9, y: 9 };
    chunks.ensure_chunk(a).ensure_layer(ChunkLayer(0), GridSize { x: 2, y: 1 }).set(0, 0, TileId(1));
    chunks.ensure_chunk(b).ensure_layer(ChunkLayer(0), GridSize { x: 2, y: 1 }).set(1, 0, TileId(1));
    chunks.ensure_chunk(c).ensure_layer(ChunkLayer(0), GridSize { x: 2, y: 1 });
    let existing = vec![b, c, gone];
    let plan = chunks.plan_collider_sync(ChunkLayer(0), &tiles, &existing);
    assert_eq!(plan.len(), 4);
    let find = |coord: ChunkCoord| {
        plan.iter()
            .find(|act| match act {
                ColliderAction::Spawn { chunk, .. }
                | ColliderAction::Update { chunk, .. }
                | ColliderAction::Despawn { chunk } => *chunk == coord,
            })
            .cloned()
    };
    match find(a) {
        Some(ColliderAction::Spawn { spans, .. }) => {
            assert_eq!(spans, vec![TileSpan { start_x: 0, end_x: 1, y: 0 }])
        }
        _ => panic!("chunk a should spawn a collider"),
    }
    match find(b) {
        Some(ColliderAction::Update { spans, .. }) => {
            assert_eq!(spans, vec![TileSpan { start_x: 1, end_x: 2, y: 0 }])
        }
        _ => panic!("chunk b should update its collider"),
    }
    assert!(matches!(find(c), Some(ColliderAction::Despawn { .. })));
    assert!(matches!(find(gone), Some(ColliderAction::Despawn { .. })));
}

#[test]
fn quad_indices_form_two_triangles_per_quad() {
    assert_eq!(quad_indices(2), vec![0, 1, 2, 0, 2, 3, 4, 5, 6, 4, 6, 7]);
    assert!(quad_indices(0).is_empty());
}

#[test]
fn chunk_dimensions_apply_to_settings() {
    let mut settings = ChunkSettings::default();
    assert_eq!(settings.chunk_dimensions, GridSize { x: 32, y: 32 });
    ChunkDimensions { width: 16, height: 8 }.apply_to(&mut settings);
    assert_eq!(settings.chunk_dimensions, GridSize { x: 16, y: 8 });
    let d = ChunkDimensions::default();
    assert_eq!((d.width, d.height), (32, 32));
}

#[test]
fn world_tile_adds_place_to_origin() {
    let c = ChunkCoord { x: -1, y: 2 };
    assert_eq!(c.world_tile(32, 32, 5, 7), TileCoord { x: -27, y: 71 });
}

#[test]
fn tile_at_world_reads_what_the_chunk_holds() {
    let settings = ChunkSettings { chunk_dimensions: GridSize { x: 3, y: 5 } };
    let mut chunks = WorldChunks::new();
    let c = ChunkCoord { x: -2, y: -3 };
    chunks.ensure_chunk(c).ensure_layer(ChunkLayer(0), GridSize { x: 3, y: 5 }).set(2, 4, TileId(6));
    let t = c.world_tile(3, 5, 2, 4);
    assert_eq!(t, TileCoord { x: -4, y: -11 });
    assert_eq!(chunks.tile_at_world(&settings, ChunkLayer(0), t), Some(TileId(6)));
}
