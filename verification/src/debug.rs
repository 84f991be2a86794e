//! Debug views of the world: overlay switches and chunk streaming statistics.
use crate::chunk::{ChunkLayer, WorldChunks};
use crate::collider::blocked;
use crate::coords::ChunkCoord;
use crate::grid::{lemma_offset_in_area, TilePos};
use crate::tiles::TileRegistry;
use vstd::prelude::*;

verus! {

/// Whether the tile overlay is shown.
#[derive(Clone, Copy, Debug)]
pub struct DebugTerrainSettings {
    pub show_tiles: bool,
}

impl Default for DebugTerrainSettings {
    fn default() -> (r: Self)
        ensures
            r.show_tiles,
    {
        DebugTerrainSettings { show_tiles: true }
    }
}

/// Whether the navigation (blocking tile) overlay is shown.
#[derive(Clone, Copy, Debug)]
pub struct NavigationDebugSettings {
    pub show_navigation: bool,
}

impl Default for NavigationDebugSettings {
    fn default() -> (r: Self)
        ensures
            !r.show_navigation,
    {
        NavigationDebugSettings { show_navigation: false }
    }
}

/// Counters of chunk streaming: for the current frame and since start.
#[derive(Clone, Copy, Debug)]
pub struct ChunkDebugStats {
    pub frame_generated: u32,
    pub frame_updated: u32,
    pub frame_reused: u32,
    pub frame_unloaded: u32,
    pub total_generated: u64,
    pub total_unloaded: u64,
    pub overlay_toggles: u32,
    pub total_loaded: usize,
}

impl Default for ChunkDebugStats {
    fn default() -> (r: Self)
        ensures
            r.frame_generated == 0 && r.frame_updated == 0 && r.frame_reused == 0
                && r.frame_unloaded == 0,
            r.total_generated == 0 && r.total_unloaded == 0,
            r.overlay_toggles == 0 && r.total_loaded == 0,
    {
        ChunkDebugStats {
            frame_generated: 0,
            frame_updated: 0,
            frame_reused: 0,
            frame_unloaded: 0,
            total_generated: 0,
            total_unloaded: 0,
            overlay_toggles: 0,
            total_loaded: 0,
        }
    }
}

impl ChunkDebugStats {
    /// Starts a new frame: the frame counters go back to zero, the totals stay.
    pub fn reset_frame(&mut self)
        ensures
            final(self).frame_generated == 0,
            final(self).frame_updated == 0,
            final(self).frame_reused == 0,
            final(self).frame_unloaded == 0,
            final(self).total_generated == old(self).total_generated,
            final(self).total_unloaded == old(self).total_unloaded,
            final(self).overlay_toggles == old(self).overlay_toggles,
            final(self).total_loaded == old(self).total_loaded,
    {
        self.frame_generated = 0;
        self.frame_updated = 0;
        self.frame_reused = 0;
        self.frame_unloaded = 0;
    }
}

/// The tile overlay key was pressed or not: a press flips the overlay and counts a toggle
/// (the count stops at `u32::MAX`).
pub fn apply_overlay_toggle(pressed: bool, settings: &mut DebugTerrainSettings, stats: &mut ChunkDebugStats)
    ensures
        final(settings).show_tiles == (old(settings).show_tiles != pressed),
        final(stats).overlay_toggles == if pressed {
            if old(stats).overlay_toggles == u32::MAX {
                u32::MAX as int
            } else {
                old(stats).overlay_toggles + 1
            }
        } else {
            old(stats).overlay_toggles as int
        },
        final(stats).frame_generated == old(stats).frame_generated,
        final(stats).frame_updated == old(stats).frame_updated,
        final(stats).frame_reused == old(stats).frame_reused,
        final(stats).frame_unloaded == old(stats).frame_unloaded,
        final(stats).total_generated == old(stats).total_generated,
        final(stats).total_unloaded == old(stats).total_unloaded,
        final(stats).total_loaded == old(stats).total_loaded,
{
    if pressed {
        settings.show_tiles = !settings.show_tiles;
        stats.overlay_toggles = stats.overlay_toggles.saturating_add(1);
    }
}

/// Law: pressing the overlay key twice shows the overlay as before.
pub proof fn law_overlay_toggle_twice(s0: bool, s1: bool, s2: bool)
    requires
        s1 == (s0 != true),
        s2 == (s1 != true),
    ensures
        s2 == s0,
{
}

/// A tile of the tile overlay: its chunk and its place in the chunk.
#[derive(Clone, Copy, Debug, Hash, PartialEq, Eq, Structural)]
pub struct ChunkDebugSprite {
    pub chunk: ChunkCoord,
    pub local: TilePos,
}

/// A blocking tile of the navigation overlay: its chunk and its place in the chunk.
#[derive(Clone, Copy, Debug, Hash, PartialEq, Eq, Structural)]
pub struct NavigationDebugSprite {
    pub chunk: ChunkCoord,
    pub local: TilePos,
}

/// `s` is a blocking tile of layer `layer` of a loaded chunk of `chunks`.
pub open spec fn is_blocked_cell(chunks: &WorldChunks, layer: ChunkLayer, tiles: &TileRegistry, s: NavigationDebugSprite) -> bool {
    &&& chunks@.contains_key(s.chunk)
    &&& chunks@[s.chunk].layers@.contains_key(layer.0)
    &&& chunks@[s.chunk].layers@[layer.0].size.contains(s.local.x as int, s.local.y as int)
    &&& blocked(&chunks@[s.chunk].layers@[layer.0], tiles, s.local.x as int, s.local.y as int)
}

impl WorldChunks {
    /// Every blocking tile of layer `layer` over the loaded chunks, each once: what the
    /// navigation overlay shows.
    pub fn blocked_cells(&self, layer: ChunkLayer, tiles: &TileRegistry) -> (r: Vec<NavigationDebugSprite>)
        requires
            self.wf(),
        ensures
            forall|i: int| 0 <= i < r@.len() ==> is_blocked_cell(self, layer, tiles, #[trigger] r@[i]),
            forall|s: NavigationDebugSprite|
                #[trigger] is_blocked_cell(self, layer, tiles, s) ==> r@.contains(s),
            r@.no_duplicates(),
    {
        let chunks = self.iter();
        let mut out: Vec<NavigationDebugSprite> = Vec::new();
        let nc = chunks.len();
        let mut ci: usize = 0;
        while ci < nc
            invariant
                self.wf(),
                nc == chunks@.len(),
                ci <= nc,
                forall|i: int|
                    0 <= i < chunks@.len() ==> self@.contains_key((#[trigger] chunks@[i]).0) && *chunks@[i].1
                        == self@[chunks@[i].0],
                forall|c: ChunkCoord|
                    #[trigger] self@.contains_key(c) ==> exists|i: int| 0 <= i < chunks@.len() && (#[trigger] chunks@[i]).0 == c,
                forall|i: int, j: int| 0 <= i < j < chunks@.len() ==> (#[trigger] chunks@[i]).0 != (#[trigger] chunks@[j]).0,
                forall|i: int| 0 <= i < out@.len() ==> is_blocked_cell(self, layer, tiles, #[trigger] out@[i]),
                forall|i: int| 0 <= i < out@.len() ==> exists|j: int| 0 <= j < ci && (#[trigger] out@[i]).chunk == (#[trigger] chunks@[j]).0,
                forall|s: NavigationDebugSprite|
                    #[trigger] is_blocked_cell(self, layer, tiles, s) && (exists|j: int| 0 <= j < ci && s.chunk == (#[trigger] chunks@[j]).0)
                        ==> out@.contains(s),
                out@.no_duplicates(),
            decreases nc - ci,
        {
            let coord = chunks[ci].0;
            let chunk = chunks[ci].1;
            let ghost before_chunk = out@;
            match chunk.layer(layer) {
                None => {},
                Some(data) => {
                    proof {
                        assert(self@[coord].wf());
                    }
                    let sx = data.size.x;
                    let sy = data.size.y;
                    let mut y: u32 = 0;
                    while y < sy
                        invariant
                            self.wf(),
                            nc == chunks@.len(),
                            ci < nc,
                            coord == chunks@[ci as int].0,
                            self@.contains_key(coord),
                            self@[coord].layers@.contains_key(layer.0),
                            *data == self@[coord].layers@[layer.0],
                            data.wf(),
                            sx == data.size.x,
                            sy == data.size.y,
                            y <= sy,
                            before_chunk.len() <= out@.len(),
                            forall|i: int| 0 <= i < before_chunk.len() ==> out@[i] == before_chunk[i],
                            forall|i: int| before_chunk.len() <= i < out@.len() ==> (#[trigger] out@[i]).chunk == coord && out@[i].local.y < y,
                            forall|i: int| 0 <= i < out@.len() ==> is_blocked_cell(self, layer, tiles, #[trigger] out@[i]),
                            forall|s: NavigationDebugSprite|
                                #[trigger] is_blocked_cell(self, layer, tiles, s) && s.chunk == coord && s.local.y < y ==> out@.contains(s),
                            out@.no_duplicates(),
                            forall|i: int| 0 <= i < before_chunk.len() ==> (#[trigger] before_chunk[i]).chunk != coord,
                        decreases sy - y,
                    {
                        let mut x: u32 = 0;
                        while x < sx
                            invariant
                                self.wf(),
                                self@.contains_key(coord),
                                self@[coord].layers@.contains_key(layer.0),
                                *data == self@[coord].layers@[layer.0],
                                data.wf(),
                                sx == data.size.x,
                                sy == data.size.y,
                                y < sy,
                                x <= sx,
                                before_chunk.len() <= out@.len(),
                                forall|i: int| 0 <= i < before_chunk.len() ==> out@[i] == before_chunk[i],
                                forall|i: int| before_chunk.len() <= i < out@.len() ==> (#[trigger] out@[i]).chunk == coord
                                    && (out@[i].local.y < y || (out@[i].local.y == y && out@[i].local.x < x)),
                                forall|i: int| 0 <= i < out@.len() ==> is_blocked_cell(self, layer, tiles, #[trigger] out@[i]),
                                forall|s: NavigationDebugSprite|
                                    #[trigger] is_blocked_cell(self, layer, tiles, s) && s.chunk == coord && (s.local.y < y || (s.local.y == y && s.local.x < x)) ==> out@.contains(s),
                                out@.no_duplicates(),
                                forall|i: int| 0 <= i < before_chunk.len() ==> (#[trigger] before_chunk[i]).chunk != coord,
                            decreases sx - x,
                        {
                            proof {
                                lemma_offset_in_area(data.size, x as int, y as int);
                                assert(0 <= y * sx <= y * sx + x) by (nonlinear_arith)
                                    requires
                                        0 <= y,
                                        0 <= x,
                                        0 <= sx,
                                ;
                            }
                            let tile = data.tiles[(y * sx + x) as usize];
                            if !tiles.is_walkable(tile) {
                                let cell = NavigationDebugSprite { chunk: coord, local: TilePos { x, y } };
                                assert(is_blocked_cell(self, layer, tiles, cell));
                                let ghost prev = out@;
                                out.push(cell);
                                proof {
                                    assert(!prev.contains(cell)) by {
                                        if prev.contains(cell) {
                                            let i = choose|i: int| 0 <= i < prev.len() && prev[i] == cell;
                                            if i < before_chunk.len() {
                                                assert(before_chunk[i].chunk != coord);
                                            }
                                        }
                                    }
                                    assert forall|s: NavigationDebugSprite|
                                        #[trigger] is_blocked_cell(self, layer, tiles, s) && s.chunk == coord && (s.local.y < y || (s.local.y == y && s.local.x < x + 1)) implies out@.contains(s) by {
                                        if s == cell {
                                            assert(out@[prev.len() as int] == cell);
                                        } else {
                                            assert(prev.contains(s));
                                            let i = choose|i: int| 0 <= i < prev.len() && prev[i] == s;
                                            assert(out@[i] == s);
                                        }
                                    }
                                }
                            }
                            x = x + 1;
                        }
                        y = y + 1;
                    }
                },
            }
            proof {
                assert forall|i: int| 0 <= i < out@.len() implies exists|j: int| 0 <= j < ci + 1 && (#[trigger] out@[i]).chunk == (#[trigger] chunks@[j]).0 by {
                    if i < before_chunk.len() {
                        let j = choose|j: int| 0 <= j < ci && before_chunk[i].chunk == (#[trigger] chunks@[j]).0;
                        assert(out@[i].chunk == chunks@[j].0);
                    } else {
                        assert(out@[i].chunk == chunks@[ci as int].0);
                    }
                }
                assert forall|s: NavigationDebugSprite|
                    #[trigger] is_blocked_cell(self, layer, tiles, s) && (exists|j: int| 0 <= j < ci + 1 && s.chunk == (#[trigger] chunks@[j]).0)
                        implies out@.contains(s) by {
                    let j = choose|j: int| 0 <= j < ci + 1 && s.chunk == (#[trigger] chunks@[j]).0;
                    if j < ci {
                        assert(before_chunk.contains(s));
                        let i = choose|i: int| 0 <= i < before_chunk.len() && before_chunk[i] == s;
                        assert(out@[i] == s);
                    }
                }
            }
            ci = ci + 1;
        }
        proof {
            assert forall|s: NavigationDebugSprite| #[trigger] is_blocked_cell(self, layer, tiles, s) implies out@.contains(s) by {
                assert(self@.contains_key(s.chunk));
                let j = choose|j: int| 0 <= j < chunks@.len() && (#[trigger] chunks@[j]).0 == s.chunk;
            }
        }
        out
    }
}

} // verus!
