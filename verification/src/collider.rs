//! Terrain collision: runs of blocking tiles merged into horizontal spans.
use crate::chunk::{ChunkLayer, WorldChunks};
use crate::coords::ChunkCoord;
use crate::grid::{lemma_offset_in_area, LayerData};
use crate::tiles::TileRegistry;
use vstd::prelude::*;

verus! {

/// Tiles `start_x .. end_x` (end excluded) of row `y` of a layer.
#[derive(Clone, Copy, Debug, PartialEq, Eq, Structural)]
pub struct TileSpan {
    pub start_x: u32,
    pub end_x: u32,
    pub y: u32,
}

/// Whether the tile at `(x, y)` of `layer` blocks movement.
pub open spec fn blocked(layer: &LayerData, tiles: &TileRegistry, x: int, y: int) -> bool {
    !tiles.walkable_spec(layer.cell(x, y))
}

/// `s` is a maximal run of blocking tiles on one row of `layer`.
pub open spec fn is_maximal_run(layer: &LayerData, tiles: &TileRegistry, s: TileSpan) -> bool {
    &&& s.y < layer.size.y
    &&& s.start_x < s.end_x <= layer.size.x
    &&& forall|x: int| s.start_x <= x < s.end_x ==> #[trigger] blocked(layer, tiles, x, s.y as int)
    &&& s.start_x == 0 || !blocked(layer, tiles, s.start_x - 1, s.y as int)
    &&& s.end_x == layer.size.x || !blocked(layer, tiles, s.end_x as int, s.y as int)
}

/// `a` lies before `b` in row-major order, with a gap between them on a shared row.
pub open spec fn span_before(a: TileSpan, b: TileSpan) -> bool {
    a.y < b.y || (a.y == b.y && a.end_x < b.start_x)
}

/// Some span of `spans` covers cell `(x, y)`.
pub open spec fn covered(spans: Seq<TileSpan>, x: int, y: int) -> bool {
    exists|i: int|
        0 <= i < spans.len() && (#[trigger] spans[i]).y == y && spans[i].start_x <= x
            < spans[i].end_x
}

/// `spans` lists exactly the maximal runs of blocking tiles of `layer`, in row-major order.
pub open spec fn spans_of(layer: &LayerData, tiles: &TileRegistry, spans: Seq<TileSpan>) -> bool {
    &&& forall|i: int| 0 <= i < spans.len() ==> is_maximal_run(layer, tiles, #[trigger] spans[i])
    &&& forall|i: int, j: int|
        0 <= i < j < spans.len() ==> span_before(#[trigger] spans[i], #[trigger] spans[j])
    &&& forall|x: int, y: int|
        layer.size.contains(x, y) && #[trigger] blocked(layer, tiles, x, y) ==> covered(
            spans,
            x,
            y,
        )
}

proof fn lemma_covered_push(spans: Seq<TileSpan>, s: TileSpan, x: int, y: int)
    requires
        covered(spans, x, y),
    ensures
        covered(spans.push(s), x, y),
{
    let i = choose|i: int|
        0 <= i < spans.len() && (#[trigger] spans[i]).y == y && spans[i].start_x <= x
            < spans[i].end_x;
    assert(spans.push(s)[i] == spans[i]);
}

proof fn lemma_covered_last(spans: Seq<TileSpan>, s: TileSpan, x: int, y: int)
    requires
        s.y == y,
        s.start_x <= x < s.end_x,
    ensures
        covered(spans.push(s), x, y),
{
    assert(spans.push(s)[spans.len() as int] == s);
}

/// Every maximal run of blocking tiles of `layer`, row by row and left to right.
pub fn blocking_spans(layer: &LayerData, tiles: &TileRegistry) -> (r: Vec<TileSpan>)
    requires
        layer.wf(),
    ensures
        spans_of(layer, tiles, r@),
{
    let mut spans: Vec<TileSpan> = Vec::new();
    let max_x = layer.size.x;
    let max_y = layer.size.y;
    let mut y: u32 = 0;
    while y < max_y
        invariant
            layer.wf(),
            max_x == layer.size.x,
            max_y == layer.size.y,
            y <= max_y,
            forall|i: int| 0 <= i < spans@.len() ==> is_maximal_run(layer, tiles, #[trigger] spans@[i]),
            forall|i: int| 0 <= i < spans@.len() ==> (#[trigger] spans@[i]).y < y,
            forall|i: int, j: int|
                0 <= i < j < spans@.len() ==> span_before(#[trigger] spans@[i], #[trigger] spans@[j]),
            forall|xx: int, yy: int|
                0 <= yy < y && 0 <= xx < max_x && #[trigger] blocked(layer, tiles, xx, yy)
                    ==> covered(spans@, xx, yy),
        decreases max_y - y,
    {
        let ghost row_base = spans@.len();
        let mut span_start: Option<u32> = None;
        let mut x: u32 = 0;
        let mut done = false;
        while !done
            invariant
                layer.wf(),
                max_x == layer.size.x,
                max_y == layer.size.y,
                y < max_y,
                x <= max_x,
                done ==> x == max_x && span_start is None,
                row_base <= spans@.len(),
                forall|i: int| 0 <= i < spans@.len() ==> is_maximal_run(layer, tiles, #[trigger] spans@[i]),
                forall|i: int| 0 <= i < row_base ==> (#[trigger] spans@[i]).y < y,
                forall|i: int| row_base <= i < spans@.len() ==> (#[trigger] spans@[i]).y == y && spans@[i].end_x <= x,
                forall|i: int, j: int|
                    0 <= i < j < spans@.len() ==> span_before(#[trigger] spans@[i], #[trigger] spans@[j]),
                forall|xx: int, yy: int|
                    0 <= yy < y && 0 <= xx < max_x && #[trigger] blocked(layer, tiles, xx, yy)
                        ==> covered(spans@, xx, yy),
                span_start is Some ==> span_start.unwrap() < x,
                span_start is Some ==> forall|xx: int|
                    span_start.unwrap() <= xx < x ==> #[trigger] blocked(layer, tiles, xx, y as int),
                span_start is Some ==> (span_start.unwrap() == 0 || !blocked(
                    layer,
                    tiles,
                    span_start.unwrap() - 1,
                    y as int,
                )),
                span_start is Some ==> forall|xx: int|
                    0 <= xx < span_start.unwrap() && #[trigger] blocked(layer, tiles, xx, y as int)
                        ==> covered(spans@, xx, y as int),
                span_start is Some ==> forall|i: int|
                    row_base <= i < spans@.len() ==> (#[trigger] spans@[i]).end_x < span_start.unwrap(),
                span_start is None ==> forall|xx: int|
                    0 <= xx < x && xx < max_x && #[trigger] blocked(layer, tiles, xx, y as int) ==> covered(
                        spans@,
                        xx,
                        y as int,
                    ),
                !done && span_start is None ==> (x == 0 || !blocked(layer, tiles, x - 1, y as int)),
            decreases max_x - x + (if done { 0int } else { 1int }),
        {
            let blocking = if x < max_x {
                proof {
                    lemma_offset_in_area(layer.size, x as int, y as int);
                    assert(0 <= y * max_x <= y * max_x + x) by (nonlinear_arith)
                        requires
                            0 <= y,
                            0 <= x,
                            0 <= max_x,
                    ;
                }
                let idx = (y * max_x + x) as usize;
                let tile_id = layer.tiles[idx];
                assert(tile_id == layer.cell(x as int, y as int));
                !tiles.is_walkable(tile_id)
            } else {
                false
            };
            assert(x < max_x ==> blocking == blocked(layer, tiles, x as int, y as int));
            match span_start {
                None => {
                    if blocking {
                        span_start = Some(x);
                        assert forall|i: int| row_base <= i < spans@.len() implies (#[trigger] spans@[i]).end_x < x by {
                            let s = spans@[i];
                            assert(is_maximal_run(layer, tiles, s));
                            if s.end_x == x {
                                assert(blocked(layer, tiles, x as int, y as int));
                            }
                        }
                    }
                },
                Some(start) => {
                    if !blocking {
                        let span = TileSpan { start_x: start, end_x: x, y };
                        let ghost old_spans = spans@;
                        assert(is_maximal_run(layer, tiles, span));
                        spans.push(span);
                        assert forall|xx: int, yy: int|
                            0 <= yy < y && 0 <= xx < max_x && #[trigger] blocked(layer, tiles, xx, yy)
                                implies covered(spans@, xx, yy) by {
                            lemma_covered_push(old_spans, span, xx, yy);
                        }
                        assert forall|xx: int|
                            0 <= xx <= x && xx < max_x && #[trigger] blocked(layer, tiles, xx, y as int) implies covered(
                                spans@,
                                xx,
                                y as int,
                            ) by {
                            if xx < start {
                                lemma_covered_push(old_spans, span, xx, y as int);
                            } else if xx < x {
                                lemma_covered_last(old_spans, span, xx, y as int);
                            }
                        }
                        assert forall|i: int, j: int|
                            0 <= i < j < spans@.len() implies span_before(#[trigger] spans@[i], #[trigger] spans@[j]) by {
                            if j == spans@.len() - 1 {
                                if i >= row_base {
                                    assert(spans@[i].end_x < start);
                                } else {
                                    assert(spans@[i].y < y);
                                }
                            } else {
                                assert(spans@[i] == old_spans[i]);
                                assert(spans@[j] == old_spans[j]);
                            }
                        }
                        span_start = None;
                    }
                },
            }
            if x == max_x {
                done = true;
            } else {
                x = x + 1;
            }
        }
        y = y + 1;
    }
    spans
}

/// Whether some tile of `layer` blocks movement.
pub open spec fn has_blocking(layer: &LayerData, tiles: &TileRegistry) -> bool {
    exists|x: int, y: int| layer.size.contains(x, y) && #[trigger] blocked(layer, tiles, x, y)
}

/// A layer has spans exactly when some of its tiles block movement.
pub proof fn lemma_spans_empty(layer: &LayerData, tiles: &TileRegistry, spans: Seq<TileSpan>)
    requires
        spans_of(layer, tiles, spans),
    ensures
        (spans.len() > 0) == has_blocking(layer, tiles),
{
    if spans.len() > 0 {
        let s = spans[0];
        assert(is_maximal_run(layer, tiles, s));
        assert(blocked(layer, tiles, s.start_x as int, s.y as int));
        assert(layer.size.contains(s.start_x as int, s.y as int));
    }
    if has_blocking(layer, tiles) {
        let (x, y) = choose|x: int, y: int| layer.size.contains(x, y) && #[trigger] blocked(layer, tiles, x, y);
        assert(covered(spans, x, y));
    }
}

/// What to do with a chunk's terrain collider.
#[derive(Clone, Debug)]
pub enum ColliderAction {
    /// Create a collider made of `spans` for a chunk that has none.
    Spawn { chunk: ChunkCoord, spans: Vec<TileSpan> },
    /// Give a chunk's existing collider the shape `spans`.
    Update { chunk: ChunkCoord, spans: Vec<TileSpan> },
    /// Remove a chunk's collider.
    Despawn { chunk: ChunkCoord },
}

impl ColliderAction {
    /// The chunk the action is about.
    pub open spec fn chunk_of(self) -> ChunkCoord {
        match self {
            ColliderAction::Spawn { chunk, .. } => chunk,
            ColliderAction::Update { chunk, .. } => chunk,
            ColliderAction::Despawn { chunk } => chunk,
        }
    }
}

/// Whether chunk `c` is loaded with layer `layer`.
pub open spec fn has_layer(chunks: &WorldChunks, layer: ChunkLayer, c: ChunkCoord) -> bool {
    chunks@.contains_key(c) && chunks@[c].layers@.contains_key(layer.0)
}

/// Layer `layer` of chunk `c`.
pub open spec fn layer_of(chunks: &WorldChunks, layer: ChunkLayer, c: ChunkCoord) -> LayerData {
    chunks@[c].layers@[layer.0]
}

/// Whether chunk `c` needs a collider: it is loaded with `layer` and some tile of it blocks.
pub open spec fn wants_collider(chunks: &WorldChunks, layer: ChunkLayer, tiles: &TileRegistry, c: ChunkCoord) -> bool {
    has_layer(chunks, layer, c) && has_blocking(&layer_of(chunks, layer, c), tiles)
}

/// `a` is the right action for its chunk, given the chunks that have a collider (`existing`):
/// a chunk that wants a collider gets one shaped by the spans of its blocking tiles (spawned or
/// updated), a chunk with a collider that wants none loses it.
pub open spec fn action_ok(
    chunks: &WorldChunks,
    layer: ChunkLayer,
    tiles: &TileRegistry,
    existing: Seq<ChunkCoord>,
    a: ColliderAction,
) -> bool {
    match a {
        ColliderAction::Spawn { chunk, spans } => {
            &&& !existing.contains(chunk)
            &&& wants_collider(chunks, layer, tiles, chunk)
            &&& spans_of(&layer_of(chunks, layer, chunk), tiles, spans@)
        },
        ColliderAction::Update { chunk, spans } => {
            &&& existing.contains(chunk)
            &&& wants_collider(chunks, layer, tiles, chunk)
            &&& spans_of(&layer_of(chunks, layer, chunk), tiles, spans@)
        },
        ColliderAction::Despawn { chunk } => {
            &&& existing.contains(chunk)
            &&& !wants_collider(chunks, layer, tiles, chunk)
        },
    }
}

fn contains_coord(v: &Vec<ChunkCoord>, c: ChunkCoord) -> (r: bool)
    ensures
        r == v@.contains(c),
{
    let n = v.len();
    let mut i: usize = 0;
    while i < n
        invariant
            n == v@.len(),
            i <= n,
            forall|j: int| 0 <= j < i ==> v@[j] != c,
        decreases n - i,
    {
        if v[i] == c {
            return true;
        }
        i = i + 1;
    }
    false
}

/// The action for a loaded chunk `coord` whose layer `layer` is `data`, if any.
fn action_for_chunk(
    chunks: &WorldChunks,
    layer: ChunkLayer,
    tiles: &TileRegistry,
    existing: &Vec<ChunkCoord>,
    coord: ChunkCoord,
    data: &LayerData,
) -> (r: Option<ColliderAction>)
    requires
        has_layer(chunks, layer, coord),
        *data == layer_of(chunks, layer, coord),
        data.wf(),
    ensures
        match r {
            Some(a) => a.chunk_of() == coord && action_ok(chunks, layer, tiles, existing@, a),
            None => !existing@.contains(coord) && !wants_collider(chunks, layer, tiles, coord),
        },
{
    let spans = blocking_spans(data, tiles);
    proof {
        lemma_spans_empty(data, tiles, spans@);
    }
    let had = contains_coord(existing, coord);
    if had {
        if spans.len() > 0 {
            Some(ColliderAction::Update { chunk: coord, spans })
        } else {
            Some(ColliderAction::Despawn { chunk: coord })
        }
    } else if spans.len() > 0 {
        Some(ColliderAction::Spawn { chunk: coord, spans })
    } else {
        None
    }
}

impl WorldChunks {
    /// What to do with terrain colliders so that they match the loaded chunks, given the chunks
    /// that have one (`existing`): one action per chunk that has a collider or wants one, and
    /// no other.
    #[verifier::rlimit(60)]
    pub fn plan_collider_sync(&self, layer: ChunkLayer, tiles: &TileRegistry, existing: &Vec<ChunkCoord>) -> (r: Vec<ColliderAction>)
        requires
            self.wf(),
            existing@.no_duplicates(),
        ensures
            forall|i: int| 0 <= i < r@.len() ==> action_ok(self, layer, tiles, existing@, #[trigger] r@[i]),
            forall|c: ChunkCoord|
                existing@.contains(c) || wants_collider(self, layer, tiles, c) ==> exists|i: int|
                    0 <= i < r@.len() && (#[trigger] r@[i]).chunk_of() == c,
            forall|i: int, j: int|
                0 <= i < j < r@.len() ==> (#[trigger] r@[i]).chunk_of() != (#[trigger] r@[j]).chunk_of(),
    {
        let chunks = self.iter();
        let mut out: Vec<ColliderAction> = Vec::new();
        let nc = chunks.len();
        let mut ci: usize = 0;
        while ci < nc
            invariant
                self.wf(),
                existing@.no_duplicates(),
                nc == chunks@.len(),
                ci <= nc,
                forall|i: int|
                    0 <= i < chunks@.len() ==> self@.contains_key((#[trigger] chunks@[i]).0) && *chunks@[i].1
                        == self@[chunks@[i].0],
                forall|c: ChunkCoord|
                    #[trigger] self@.contains_key(c) ==> exists|i: int| 0 <= i < chunks@.len() && (#[trigger] chunks@[i]).0 == c,
                forall|i: int, j: int| 0 <= i < j < chunks@.len() ==> (#[trigger] chunks@[i]).0 != (#[trigger] chunks@[j]).0,
                forall|i: int| 0 <= i < out@.len() ==> action_ok(self, layer, tiles, existing@, #[trigger] out@[i]),
                forall|i: int| 0 <= i < out@.len() ==> has_layer(self, layer, (#[trigger] out@[i]).chunk_of()),
                forall|i: int| 0 <= i < out@.len() ==> exists|j: int| 0 <= j < ci && (#[trigger] out@[i]).chunk_of() == (#[trigger] chunks@[j]).0,
                forall|j: int|
                    0 <= j < ci && has_layer(self, layer, (#[trigger] chunks@[j]).0)
                        && (existing@.contains(chunks@[j].0) || wants_collider(self, layer, tiles, chunks@[j].0))
                        ==> exists|i: int| 0 <= i < out@.len() && (#[trigger] out@[i]).chunk_of() == chunks@[j].0,
                forall|i: int, j: int|
                    0 <= i < j < out@.len() ==> (#[trigger] out@[i]).chunk_of() != (#[trigger] out@[j]).chunk_of(),
            decreases nc - ci,
        {
            let coord = chunks[ci].0;
            let chunk = chunks[ci].1;
            let ghost before = out@;
            match chunk.layer(layer) {
                None => {},
                Some(data) => {
                    proof {
                        assert(self@[coord].wf());
                        assert(has_layer(self, layer, coord));
                        assert(*data == layer_of(self, layer, coord));
                    }
                    let action = action_for_chunk(self, layer, tiles, existing, coord, data);
                    match action {
                        Some(a) => {
                            out.push(a);
                            proof {
                                assert(out@[before.len() as int] == a);
                                assert forall|i: int, j: int|
                                    0 <= i < j < out@.len() implies (#[trigger] out@[i]).chunk_of() != (#[trigger] out@[j]).chunk_of() by {
                                    if j == before.len() {
                                        let k = choose|k: int| 0 <= k < ci && (#[trigger] before[i]).chunk_of() == (#[trigger] chunks@[k]).0;
                                        assert(out@[i] == before[i]);
                                    } else {
                                        assert(out@[i] == before[i]);
                                        assert(out@[j] == before[j]);
                                    }
                                }
                            }
                        },
                        None => {},
                    }
                },
            }
            proof {
                assert forall|i: int| 0 <= i < out@.len() implies exists|j: int| 0 <= j < ci + 1 && (#[trigger] out@[i]).chunk_of() == (#[trigger] chunks@[j]).0 by {
                    if i < before.len() {
                        assert(out@[i] == before[i]);
                        let j = choose|j: int| 0 <= j < ci && (#[trigger] before[i]).chunk_of() == (#[trigger] chunks@[j]).0;
                        assert(out@[i].chunk_of() == chunks@[j].0);
                    } else {
                        assert(out@[i].chunk_of() == chunks@[ci as int].0);
                    }
                }
                assert forall|j: int|
                    0 <= j < ci + 1 && has_layer(self, layer, (#[trigger] chunks@[j]).0)
                        && (existing@.contains(chunks@[j].0) || wants_collider(self, layer, tiles, chunks@[j].0))
                        implies exists|i: int| 0 <= i < out@.len() && (#[trigger] out@[i]).chunk_of() == chunks@[j].0 by {
                    if j < ci {
                        let i = choose|i: int| 0 <= i < before.len() && (#[trigger] before[i]).chunk_of() == chunks@[j].0;
                        assert(out@[i] == before[i]);
                    } else {
                        assert(out@[before.len() as int].chunk_of() == chunks@[j].0);
                    }
                }
            }
            ci = ci + 1;
        }
        let ghost first = out@;
        let ne = existing.len();
        let mut ei: usize = 0;
        while ei < ne
            invariant
                self.wf(),
                existing@.no_duplicates(),
                ne == existing@.len(),
                ei <= ne,
                first.len() <= out@.len(),
                forall|i: int| 0 <= i < first.len() ==> out@[i] == first[i],
                forall|i: int| 0 <= i < first.len() ==> has_layer(self, layer, (#[trigger] first[i]).chunk_of()),
                forall|i: int| first.len() <= i < out@.len() ==> !has_layer(self, layer, (#[trigger] out@[i]).chunk_of())
                    && exists|k: int| 0 <= k < ei && out@[i].chunk_of() == (#[trigger] existing@[k]),
                forall|i: int| 0 <= i < out@.len() ==> action_ok(self, layer, tiles, existing@, #[trigger] out@[i]),
                forall|c: ChunkCoord|
                    has_layer(self, layer, c) && (existing@.contains(c) || wants_collider(self, layer, tiles, c)) ==> exists|i: int|
                        0 <= i < first.len() && (#[trigger] first[i]).chunk_of() == c,
                forall|k: int|
                    0 <= k < ei && !has_layer(self, layer, #[trigger] existing@[k]) ==> exists|i: int|
                        0 <= i < out@.len() && (#[trigger] out@[i]).chunk_of() == existing@[k],
                forall|i: int, j: int|
                    0 <= i < j < out@.len() ==> (#[trigger] out@[i]).chunk_of() != (#[trigger] out@[j]).chunk_of(),
            decreases ne - ei,
        {
            let e = existing[ei];
            let with_layer = match self.get(&e) {
                Some(ch) => match ch.layer(layer) {
                    Some(_) => true,
                    None => false,
                },
                None => false,
            };
            let ghost before = out@;
            if !with_layer {
                let a = ColliderAction::Despawn { chunk: e };
                proof {
                    assert(!has_layer(self, layer, e));
                    assert(existing@.contains(e)) by {
                        assert(existing@[ei as int] == e);
                    }
                }
                out.push(a);
                proof {
                    assert(out@[before.len() as int] == a);
                    assert forall|i: int, j: int|
                        0 <= i < j < out@.len() implies (#[trigger] out@[i]).chunk_of() != (#[trigger] out@[j]).chunk_of() by {
                        if j == before.len() {
                            assert(out@[i] == before[i]);
                            if i < first.len() {
                                assert(before[i] == first[i]);
                                assert(has_layer(self, layer, first[i].chunk_of()));
                            } else {
                                let k = choose|k: int| 0 <= k < ei && before[i].chunk_of() == (#[trigger] existing@[k]);
                                assert(existing@[k] != existing@[ei as int]);
                            }
                        } else {
                            assert(out@[i] == before[i]);
                            assert(out@[j] == before[j]);
                        }
                    }
                    assert forall|i: int| first.len() <= i < out@.len() implies !has_layer(self, layer, (#[trigger] out@[i]).chunk_of())
                        && exists|k: int| 0 <= k < ei + 1 && out@[i].chunk_of() == (#[trigger] existing@[k]) by {
                        if i < before.len() {
                            assert(out@[i] == before[i]);
                            let k = choose|k: int| 0 <= k < ei && before[i].chunk_of() == (#[trigger] existing@[k]);
                        } else {
                            assert(out@[i].chunk_of() == existing@[ei as int]);
                        }
                    }
                    assert forall|k: int|
                        0 <= k < ei + 1 && !has_layer(self, layer, #[trigger] existing@[k]) implies exists|i: int|
                            0 <= i < out@.len() && (#[trigger] out@[i]).chunk_of() == existing@[k] by {
                        if k < ei {
                            let i = choose|i: int| 0 <= i < before.len() && (#[trigger] before[i]).chunk_of() == existing@[k];
                            assert(out@[i] == before[i]);
                        }
                    }
                }
            }
            ei = ei + 1;
        }
        proof {
            assert forall|c: ChunkCoord|
                existing@.contains(c) || wants_collider(self, layer, tiles, c) implies exists|i: int|
                    0 <= i < out@.len() && (#[trigger] out@[i]).chunk_of() == c by {
                if has_layer(self, layer, c) {
                    let i = choose|i: int| 0 <= i < first.len() && (#[trigger] first[i]).chunk_of() == c;
                    assert(out@[i] == first[i]);
                } else {
                    let k = choose|k: int| 0 <= k < existing@.len() && existing@[k] == c;
                    assert(!has_layer(self, layer, existing@[k]));
                }
            }
        }
        out
    }
}

} // verus!
