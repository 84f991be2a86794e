//! Configuration resources of the game and the world.
use crate::chunk::ChunkSettings;
use crate::grid::GridSize;
use vstd::prelude::*;

verus! {

/// Application settings.
#[derive(Clone, Debug)]
pub struct AppConfig {
    pub window_title: String,
}

impl Default for AppConfig {
    /// The game's own title.
    fn default() -> (r: Self)
        ensures
            r.window_title@ == "VibeCoded Game"@,
    {
        AppConfig { window_title: "VibeCoded Game".to_owned() }
    }
}

/// Whether collider outlines are drawn.
#[derive(Clone, Copy, Debug)]
pub struct PhysicsDebugSettings {
    pub show_colliders: bool,
}

impl Default for PhysicsDebugSettings {
    fn default() -> (r: Self)
        ensures
            !r.show_colliders,
    {
        PhysicsDebugSettings { show_colliders: false }
    }
}

/// Chunk size requested by world generation, in tiles.
#[derive(Clone, Copy, Debug)]
pub struct ChunkDimensions {
    pub width: u32,
    pub height: u32,
}

impl Default for ChunkDimensions {
    fn default() -> (r: Self)
        ensures
            r.width == 32 && r.height == 32,
    {
        ChunkDimensions { width: 32, height: 32 }
    }
}

impl ChunkDimensions {
    /// Makes the chunk settings use these dimensions.
    pub fn apply_to(&self, settings: &mut ChunkSettings)
        ensures
            final(settings).chunk_dimensions == (GridSize { x: self.width, y: self.height }),
    {
        if settings.chunk_dimensions.x != self.width || settings.chunk_dimensions.y != self.height {
            settings.chunk_dimensions = GridSize { x: self.width, y: self.height };
        }
    }
}

} // verus!
