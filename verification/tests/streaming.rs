use vibecoded_game::chunk::{ChunkLayer, ChunkSettings, WorldChunks};
use vibecoded_game::coords::{ChunkCoord, TileCoord};
use vibecoded_game::debug::ChunkDebugStats;
use vibecoded_game::grid::GridSize;
use vibecoded_game::terrain::{chunk_containing, TerrainSettings};
use vibecoded_game::tiles::TileId;

fn settings() -> ChunkSettings {
    ChunkSettings { chunk_dimensions: GridSize { x: 2, y: 2 } }
}

fn terrain(radius: i32) -> TerrainSettings {
    let mut t = TerrainSettings::default();
    t.view_radius = radius;
    t
}

fn masks_for(pending: &[ChunkCoord]) -> Vec<Vec<bool>> {
    pending.iter().map(|c| vec![c.x == 0 && c.y == 0, false, false, true]).collect()
}

#[test]
fn terrain_defaults() {
    let t = TerrainSettings::default();
    assert_eq!(t.ground_layer, ChunkLayer(0));
    assert_eq!(t.walkable_tile, TileId(0));
    assert_eq!(t.blocking_tile, TileId(1));
    assert_eq!(t.view_radius, 2);
}

#[test]
fn player_chunk_uses_floor_division() {
    let dims = GridSize { x: 32, y: 32 };
    assert_eq!(chunk_containing(dims, TileCoord { x: -1, y: 31 }), ChunkCoord { x: -1, y: 0 });
    assert_eq!(chunk_containing(dims, TileCoord { x: 64, y: -33 }), ChunkCoord { x: 2, y: -2 });
}

#[test]
fn pending_lists_the_square_column_by_column() {
    let chunks = WorldChunks::new();
    let pending = chunks.pending_chunks(&settings(), &terrain(1), TileCoord { x: 0, y: 0 });
    let expected: Vec<ChunkCoord> = (-1..=1)
        .flat_map(|x| (-1..=1).map(move |y| ChunkCoord { x, y }))
        .collect();
    assert_eq!(pending, expected);
}

#[test]
fn radius_below_one_counts_as_one() {
    let chunks = WorldChunks::new();
    assert_eq!(chunks.pending_chunks(&settings(), &terrain(0), TileCoord { x: 0, y: 0 }).len(), 9);
    assert_eq!(chunks.pending_chunks(&settings(), &terrain(-5), TileCoord { x: 0, y: 0 }).len(), 9);
}

#[test]
fn zero_dimensions_stream_nothing() {
    let mut chunks = WorldChunks::new();
    let zero = ChunkSettings { chunk_dimensions: GridSize { x: 0, y: 2 } };
    assert!(chunks.pending_chunks(&zero, &terrain(1), TileCoord { x: 0, y: 0 }).is_empty());
    let mut stats = ChunkDebugStats::default();
    chunks.stream_chunks(&zero, &terrain(1), TileCoord { x: 0, y: 0 }, &Vec::new(), &mut stats);
    assert!(chunks.iter().is_empty());
    assert_eq!(stats.total_loaded, 0);
}

#[test]
fn streaming_generates_the_square_and_fills_stats() {
    let mut chunks = WorldChunks::new();
    let mut stats = ChunkDebugStats::default();
    let s = settings();
    let t = terrain(1);
    let player = TileCoord { x: 1, y: 1 };
    let pending = chunks.pending_chunks(&s, &t, player);
    let masks = masks_for(&pending);
    chunks.stream_chunks(&s, &t, player, &masks, &mut stats);
    assert_eq!(chunks.iter().len(), 9);
    assert_eq!((stats.frame_generated, stats.frame_updated, stats.frame_reused, stats.frame_unloaded), (9, 0, 0, 0));
    assert_eq!((stats.total_generated, stats.total_loaded), (9, 9));
    let origin = chunks.get(&ChunkCoord { x: 0, y: 0 }).unwrap();
    assert!(!origin.dirty);
    let ground = origin.layer(ChunkLayer(0)).unwrap();
    assert_eq!(ground.tiles, vec![TileId(1), TileId(0), TileId(0), TileId(1)]);
    let other = chunks.get(&ChunkCoord { x: -1, y: 1 }).unwrap().layer(ChunkLayer(0)).unwrap();
    assert_eq!(other.tiles, vec![TileId(0), TileId(0), TileId(0), TileId(1)]);
}

#[test]
fn streaming_again_reuses_everything() {
    let mut chunks = WorldChunks::new();
    let mut stats = ChunkDebugStats::default();
    let s = settings();
    let t = terrain(1);
    let player = TileCoord { x: 0, y: 0 };
    let pending = chunks.pending_chunks(&s, &t, player);
    chunks.stream_chunks(&s, &t, player, &masks_for(&pending), &mut stats);
    stats.reset_frame();
    let again = chunks.pending_chunks(&s, &t, player);
    assert!(again.is_empty());
    chunks.stream_chunks(&s, &t, player, &Vec::new(), &mut stats);
    assert_eq!((stats.frame_generated, stats.frame_updated, stats.frame_reused, stats.frame_unloaded), (0, 0, 9, 0));
    assert_eq!(stats.total_generated, 9);
}

#[test]
fn moving_unloads_and_regenerates_dirty_chunks() {
    let mut chunks = WorldChunks::new();
    let mut stats = ChunkDebugStats::default();
    let s = settings();
    let t = terrain(1);
    let start = TileCoord { x: 0, y: 0 };
    let pending = chunks.pending_chunks(&s, &t, start);
    chunks.stream_chunks(&s, &t, start, &masks_for(&pending), &mut stats);
    chunks.ensure_chunk(ChunkCoord { x: 1, y: 0 }).mark_dirty();
    let moved = TileCoord { x: 2, y: 0 };
    let pending = chunks.pending_chunks(&s, &t, moved);
    assert_eq!(
        pending,
        vec![
            ChunkCoord { x: 1, y: 0 },
            ChunkCoord { x: 2, y: -1 },
            ChunkCoord { x: 2, y: 0 },
            ChunkCoord { x: 2, y: 1 },
        ]
    );
    chunks.stream_chunks(&s, &t, moved, &masks_for(&pending), &mut stats);
    assert_eq!((stats.frame_generated, stats.frame_updated, stats.frame_reused, stats.frame_unloaded), (3, 1, 5, 3));
    assert_eq!((stats.total_generated, stats.total_unloaded, stats.total_loaded), (12, 3, 9));
    assert!(chunks.get(&ChunkCoord { x: -1, y: 0 }).is_none());
    assert!(!chunks.get(&ChunkCoord { x: 1, y: 0 }).unwrap().dirty);
}

#[test]
fn regeneration_keeps_other_layers() {
    let mut chunks = WorldChunks::new();
    let mut stats = ChunkDebugStats::default();
    let s = settings();
    let t = terrain(1);
    {
        let chunk = chunks.ensure_chunk(ChunkCoord { x: 0, y: 0 });
        chunk.ensure_layer(ChunkLayer(3), GridSize { x: 1, y: 1 }).set(0, 0, TileId(8));
    }
    let player = TileCoord { x: 0, y: 0 };
    let pending = chunks.pending_chunks(&s, &t, player);
    assert_eq!(pending.len(), 9);
    chunks.stream_chunks(&s, &t, player, &masks_for(&pending), &mut stats);
    let chunk = chunks.get(&ChunkCoord { x: 0, y: 0 }).unwrap();
    assert_eq!(chunk.layer(ChunkLayer(3)).unwrap().tiles, vec![TileId(8)]);
    assert_eq!((stats.frame_generated, stats.frame_updated), (8, 1));
}
