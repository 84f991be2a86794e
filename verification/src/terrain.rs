//! Terrain streaming: which chunks surround the player, which must be (re)generated, and how
//! generated terrain and unloading change the set of loaded chunks.
use crate::chunk::{
    chunks_by_coord, law_locate_tile_recomposes, lemma_chunks_dom_len, lemma_chunks_insert,
    lemma_chunks_remove, locate_tile, ChunkLayer, ChunkManifest, ChunkSettings, ChunkTiles, WorldChunks,
};
use crate::coords::{chunk_key, dim_as_i32, div_rem_euclid, signed_dim, ChunkCoord, TileCoord};
use crate::debug::ChunkDebugStats;
use crate::grid::{lemma_offset_in_area, GridSize, LayerData};
use crate::tiles::TileId;
use std::collections::HashMap;
use vstd::prelude::*;

verus! {

broadcast use vstd::std_specs::hash::group_hash_axioms;

/// What terrain generation writes and how far around the player chunks stay loaded.
#[derive(Clone, Copy, Debug)]
pub struct TerrainSettings {
    pub ground_layer: ChunkLayer,
    pub walkable_tile: TileId,
    pub blocking_tile: TileId,
    pub view_radius: i32,
}

impl Default for TerrainSettings {
    fn default() -> (r: Self)
        ensures
            r.ground_layer == ChunkLayer(0),
            r.walkable_tile == TileId(0),
            r.blocking_tile == TileId(1),
            r.view_radius == 2,
    {
        TerrainSettings {
            ground_layer: ChunkLayer(0),
            walkable_tile: TileId(0),
            blocking_tile: TileId(1),
            view_radius: 2,
        }
    }
}

/// On an empty manifest, registers the `ground` layer (draw depth 0.0) and makes it the layer
/// terrain is written to; a manifest with layers is left alone.
pub fn setup_chunk_layers(manifest: &mut ChunkManifest, terrain: &mut TerrainSettings)
    ensures
        old(manifest).layers@.len() == 0 ==> {
            &&& final(manifest).layers@.len() == 1
            &&& final(manifest).layers@[0].layer == ChunkLayer(0)
            &&& final(manifest).layers@[0].name@ == "ground"@
            &&& final(manifest).layers@[0].z_index_bits == 0
            &&& final(terrain).ground_layer == ChunkLayer(0)
        },
        old(manifest).layers@.len() != 0 ==> final(manifest).layers@ == old(manifest).layers@ && *final(terrain) == *old(terrain),
        final(terrain).walkable_tile == old(terrain).walkable_tile,
        final(terrain).blocking_tile == old(terrain).blocking_tile,
        final(terrain).view_radius == old(terrain).view_radius,
{
    if manifest.layers.len() == 0 {
        terrain.ground_layer = manifest.register_layer("ground".to_owned(), 0);
    }
}

/// The radius actually used: at least one chunk.
pub open spec fn effective_radius(view_radius: i32) -> int {
    if view_radius < 1 {
        1
    } else {
        view_radius as int
    }
}

/// Side of the square of chunks kept around the center.
pub open spec fn side(r: int) -> int {
    2 * r + 1
}

/// The `i`-th chunk of the square around `center`: columns left to right, each bottom to top.
pub open spec fn square_coord(center: ChunkCoord, r: int, i: int) -> ChunkCoord {
    ChunkCoord { x: (center.x - r + i / side(r)) as i32, y: (center.y - r + i % side(r)) as i32 }
}

/// Whether `c` lies in the square of radius `r` around `center`.
pub open spec fn in_square(center: ChunkCoord, r: int, c: ChunkCoord) -> bool {
    center.x - r <= c.x <= center.x + r && center.y - r <= c.y <= center.y + r
}

/// Position of `c` in the square's order.
pub open spec fn square_index(center: ChunkCoord, r: int, c: ChunkCoord) -> int {
    (c.x - center.x + r) * side(r) + (c.y - center.y + r)
}

/// The square around `center` fits in `i32` coordinates.
pub open spec fn square_fits(center: ChunkCoord, r: int) -> bool {
    &&& r >= 1
    &&& i32::MIN <= center.x - r
    &&& center.x + r <= i32::MAX
    &&& i32::MIN <= center.y - r
    &&& center.y + r <= i32::MAX
}

/// The chunks of the square around `center`, in the order they are visited.
pub open spec fn square_seq(center: ChunkCoord, r: int) -> Seq<ChunkCoord> {
    Seq::new((side(r) * side(r)) as nat, |i: int| square_coord(center, r, i))
}

/// Position `i` of the square is a chunk of the square, and `i` is its position.
pub proof fn lemma_square_coord(center: ChunkCoord, r: int, i: int)
    requires
        square_fits(center, r),
        0 <= i < side(r) * side(r),
    ensures
        0 <= i / side(r) < side(r),
        0 <= i % side(r) < side(r),
        in_square(center, r, square_coord(center, r, i)),
        square_index(center, r, square_coord(center, r, i)) == i,
{
    let n = side(r);
    let q = i / n;
    let m = i % n;
    assert(i == q * n + m && 0 <= m < n) by (nonlinear_arith)
        requires
            n > 0,
            q == i / n,
            m == i % n,
    ;
    assert(0 <= q < n) by (nonlinear_arith)
        requires
            n > 0,
            0 <= i < n * n,
            i == q * n + m,
            0 <= m < n,
    ;
    assert(q * n == n * q) by (nonlinear_arith);
}

/// A chunk of the square sits at a position of the square, which gives the chunk back.
pub proof fn lemma_square_index(center: ChunkCoord, r: int, c: ChunkCoord)
    requires
        square_fits(center, r),
        in_square(center, r, c),
    ensures
        0 <= square_index(center, r, c) < side(r) * side(r),
        square_coord(center, r, square_index(center, r, c)) == c,
{
    let n = side(r);
    let a = c.x - center.x + r;
    let b = c.y - center.y + r;
    assert(0 <= a * n + b < n * n) by (nonlinear_arith)
        requires
            0 <= a < n,
            0 <= b < n,
    ;
    vstd::arithmetic::div_mod::lemma_fundamental_div_mod_converse(a * n + b, n, a, b);
}

/// The chunks of `m` that terrain generation must (re)build: missing or marked dirty.
pub open spec fn needs_generation(m: Map<ChunkCoord, ChunkTiles>, c: ChunkCoord) -> bool {
    !m.contains_key(c) || m[c].dirty
}

/// The predicate `needs_generation(m, _)`.
pub open spec fn needs_pred(m: Map<ChunkCoord, ChunkTiles>) -> spec_fn(ChunkCoord) -> bool {
    |c: ChunkCoord| needs_generation(m, c)
}

/// Chunks not loaded in `m`.
pub open spec fn missing_pred(m: Map<ChunkCoord, ChunkTiles>) -> spec_fn(ChunkCoord) -> bool {
    |c: ChunkCoord| !m.contains_key(c)
}

/// Chunks loaded in `m`.
pub open spec fn present_pred(m: Map<ChunkCoord, ChunkTiles>) -> spec_fn(ChunkCoord) -> bool {
    |c: ChunkCoord| m.contains_key(c)
}

/// Chunks loaded in `m` and dirty.
pub open spec fn dirty_pred(m: Map<ChunkCoord, ChunkTiles>) -> spec_fn(ChunkCoord) -> bool {
    |c: ChunkCoord| m.contains_key(c) && m[c].dirty
}

/// Chunks loaded in `m` and clean.
pub open spec fn clean_pred(m: Map<ChunkCoord, ChunkTiles>) -> spec_fn(ChunkCoord) -> bool {
    |c: ChunkCoord| m.contains_key(c) && !m[c].dirty
}

/// The chunks of the square that must be generated, in visiting order.
pub open spec fn pending_seq(m: Map<ChunkCoord, ChunkTiles>, center: ChunkCoord, r: int) -> Seq<
    ChunkCoord,
> {
    square_seq(center, r).filter(needs_pred(m))
}

/// The chunk containing the player's tile, for chunks of `dims` tiles.
pub open spec fn player_chunk(dims: GridSize, t: TileCoord) -> ChunkCoord {
    ChunkCoord {
        x: (t.x as int / signed_dim(dims.x)) as i32,
        y: (t.y as int / signed_dim(dims.y)) as i32,
    }
}

/// The inputs on which streaming runs: non-zero chunk dimensions, a square that fits `i32`
/// coordinates and counters that fit `u32`.
pub open spec fn stream_ready(dims: GridSize, terrain: TerrainSettings, t: TileCoord) -> bool {
    let r = effective_radius(terrain.view_radius);
    &&& dims.x != 0 && dims.y != 0
    &&& !(t.x == i32::MIN && dims.x == u32::MAX)
    &&& !(t.y == i32::MIN && dims.y == u32::MAX)
    &&& square_fits(player_chunk(dims, t), r)
    &&& side(r) * side(r) <= u32::MAX
}

/// The chunk containing tile `t`.
pub fn chunk_containing(dims: GridSize, t: TileCoord) -> (c: ChunkCoord)
    requires
        dims.x != 0 && dims.y != 0,
        !(t.x == i32::MIN && dims.x == u32::MAX),
        !(t.y == i32::MIN && dims.y == u32::MAX),
    ensures
        c == player_chunk(dims, t),
        0 <= t.x - c.x * signed_dim(dims.x) < (if signed_dim(dims.x) < 0 { -signed_dim(dims.x) } else { signed_dim(dims.x) }),
        0 <= t.y - c.y * signed_dim(dims.y) < (if signed_dim(dims.y) < 0 { -signed_dim(dims.y) } else { signed_dim(dims.y) }),
        dims.x <= i32::MAX ==> c.x * dims.x <= t.x < (c.x + 1) * dims.x,
        dims.y <= i32::MAX ==> c.y * dims.y <= t.y < (c.y + 1) * dims.y,
{
    proof {
        law_player_chunk_holds_tile(dims, t);
    }
    let dx = dim_as_i32(dims.x);
    let dy = dim_as_i32(dims.y);
    let (cx, _) = div_rem_euclid(t.x, dx);
    let (cy, _) = div_rem_euclid(t.y, dy);
    ChunkCoord { x: cx, y: cy }
}

/// Law: the player's chunk holds the player's tile. On each axis the tile is the chunk's
/// coordinate times the chunk dimension (taken as a signed number) plus an offset in
/// `0..|dimension|`; for dimensions up to `i32::MAX` that is `c * d <= t < (c + 1) * d`. It is
/// the chunk that tile lookups locate the tile in.
pub proof fn law_player_chunk_holds_tile(dims: GridSize, t: TileCoord)
    requires
        dims.x != 0 && dims.y != 0,
        !(t.x == i32::MIN && dims.x == u32::MAX),
        !(t.y == i32::MIN && dims.y == u32::MAX),
    ensures
        ({
            let c = player_chunk(dims, t);
            let dx = signed_dim(dims.x);
            let dy = signed_dim(dims.y);
            &&& 0 <= t.x - c.x * dx < (if dx < 0 { -dx } else { dx })
            &&& 0 <= t.y - c.y * dy < (if dy < 0 { -dy } else { dy })
            &&& dims.x <= i32::MAX ==> c.x * dims.x <= t.x < (c.x + 1) * dims.x
            &&& dims.y <= i32::MAX ==> c.y * dims.y <= t.y < (c.y + 1) * dims.y
            &&& locate_tile(dims, t) matches Some((l, _, _)) && l == c
        }),
{
    law_locate_tile_recomposes(dims, t);
    let c = player_chunk(dims, t);
    let cx = c.x as int;
    let cy = c.y as int;
    let ddx = dims.x as int;
    let ddy = dims.y as int;
    assert((cx + 1) * ddx == cx * ddx + ddx) by (nonlinear_arith);
    assert((cy + 1) * ddy == cy * ddy + ddy) by (nonlinear_arith);
}

/// Whether chunk `c` lies within `reach` chunks of chunk `p` along both axes.
pub open spec fn within_reach(p: ChunkCoord, reach: int, c: ChunkCoord) -> bool {
    &&& -reach <= c.x - p.x <= reach
    &&& -reach <= c.y - p.y <= reach
}

/// Law: the chunks waiting for generation around the player are exactly the chunks within
/// `max(view_radius, 1)` chunks of the player's chunk along both axes that are missing or dirty.
pub proof fn law_pending_view_square(m: Map<ChunkCoord, ChunkTiles>, dims: GridSize, terrain: TerrainSettings, t: TileCoord, c: ChunkCoord)
    requires
        stream_ready(dims, terrain, t),
    ensures
        pending_seq(m, player_chunk(dims, t), effective_radius(terrain.view_radius)).contains(c) <==> (
        within_reach(player_chunk(dims, t), (if terrain.view_radius < 1 { 1 } else { terrain.view_radius as int }), c) && (!m.contains_key(c) || m[c].dirty)),
{
    let p = player_chunk(dims, t);
    let r = effective_radius(terrain.view_radius);
    let sq = square_seq(p, r);
    let pred = needs_pred(m);
    if sq.filter(pred).contains(c) {
        let i = choose|i: int| 0 <= i < sq.filter(pred).len() && sq.filter(pred)[i] == c;
        sq.lemma_filter_pred(pred, i);
        sq.lemma_filter_contains_rev(pred, c);
        let j = choose|j: int| 0 <= j < sq.len() && sq[j] == c;
        lemma_square_coord(p, r, j);
    }
    if within_reach(p, (if terrain.view_radius < 1 { 1 } else { terrain.view_radius as int }), c) && (!m.contains_key(c) || m[c].dirty) {
        lemma_square_index(p, r, c);
        let i = square_index(p, r, c);
        assert(sq[i] == c);
        sq.lemma_filter_contains(pred, i);
    }
}

/// Law: streaming leaves loaded exactly the chunks within `max(view_radius, 1)` chunks of the
/// player's chunk along both axes, and none of them is left to generate.
pub proof fn law_stream_view_square(
    m: Map<ChunkCoord, ChunkTiles>,
    after: Map<ChunkCoord, ChunkTiles>,
    dims: GridSize,
    terrain: TerrainSettings,
    t: TileCoord,
    masks: Seq<Seq<bool>>,
    c: ChunkCoord,
)
    requires
        stream_ready(dims, terrain, t),
        masks.len() == pending_seq(m, player_chunk(dims, t), effective_radius(terrain.view_radius)).len(),
        streamed(m, after, player_chunk(dims, t), effective_radius(terrain.view_radius), terrain, dims, masks),
    ensures
        after.contains_key(c) <==> within_reach(player_chunk(dims, t), (if terrain.view_radius < 1 { 1 } else { terrain.view_radius as int }), c),
        after.contains_key(c) ==> !after[c].dirty,
{
    law_stream_leaves_nothing_pending(
        m,
        after,
        player_chunk(dims, t),
        effective_radius(terrain.view_radius),
        terrain,
        dims,
        masks,
    );
    if after.contains_key(c) {
        assert(in_square(player_chunk(dims, t), effective_radius(terrain.view_radius), c));
    }
}

/// The `i`-th chunk of the square around `center`.
fn square_coord_exec(center: ChunkCoord, r: i32, n: u64, i: u64) -> (c: ChunkCoord)
    requires
        square_fits(center, r as int),
        n == side(r as int),
        i < n * n,
    ensures
        c == square_coord(center, r as int, i as int),
        in_square(center, r as int, c),
        square_index(center, r as int, c) == i,
{
    proof {
        lemma_square_coord(center, r as int, i as int);
    }
    let x = center.x as i64 - r as i64 + (i / n) as i64;
    let y = center.y as i64 - r as i64 + (i % n) as i64;
    ChunkCoord { x: x as i32, y: y as i32 }
}

/// The tiles terrain generation writes for `mask`: the blocking tile where the mask is set,
/// the walkable tile elsewhere, row by row.
pub open spec fn generated_tiles(size: GridSize, walkable: TileId, blocking: TileId, mask: Seq<bool>) -> Seq<TileId> {
    Seq::new(size.area() as nat, |i: int| if mask[i] { blocking } else { walkable })
}

/// `after` is the chunk whose layers were `before` once terrain generation wrote `mask` into
/// its ground layer of `size` cells: the other layers untouched and the chunk clean.
pub open spec fn is_generated(
    before: Map<u8, LayerData>,
    after: ChunkTiles,
    terrain: TerrainSettings,
    size: GridSize,
    mask: Seq<bool>,
) -> bool {
    let l = terrain.ground_layer.0;
    &&& !after.dirty
    &&& after.wf()
    &&& after.layers@.contains_key(l)
    &&& after.layers@[l].size == size
    &&& after.layers@[l].tiles@ == generated_tiles(size, terrain.walkable_tile, terrain.blocking_tile, mask)
    &&& after.layers@.remove(l) == before.remove(l)
}

/// Writes `mask` into a layer: blocking tiles where it is set, walkable tiles elsewhere.
pub fn paint_layer(layer: &mut LayerData, walkable: TileId, blocking: TileId, mask: &Vec<bool>)
    requires
        old(layer).wf(),
        mask@.len() == old(layer).size.area(),
    ensures
        final(layer).wf(),
        final(layer).size == old(layer).size,
        final(layer).tiles@ == generated_tiles(old(layer).size, walkable, blocking, mask@),
{
    layer.fill(walkable);
    let size = layer.size;
    let mut y: u32 = 0;
    while y < size.y
        invariant
            layer.wf(),
            layer.size == size,
            mask@.len() == size.area(),
            y <= size.y,
            forall|j: int|
                0 <= j < size.area() ==> #[trigger] layer.tiles@[j] == if j < y * size.x && mask@[j] {
                    blocking
                } else {
                    walkable
                },
        decreases size.y - y,
    {
        let mut x: u32 = 0;
        while x < size.x
            invariant
                layer.wf(),
                layer.size == size,
                mask@.len() == size.area(),
                y < size.y,
                x <= size.x,
                forall|j: int|
                    0 <= j < size.area() ==> #[trigger] layer.tiles@[j] == if j < y * size.x + x && mask@[j] {
                        blocking
                    } else {
                        walkable
                    },
            decreases size.x - x,
        {
            proof {
                lemma_offset_in_area(size, x as int, y as int);
                assert(0 <= y * size.x) by (nonlinear_arith)
                    requires
                        0 <= y,
                        0 <= size.x,
                ;
            }
            let i = (y * size.x + x) as usize;
            if mask[i] {
                layer.set(x, y, blocking);
            }
            x = x + 1;
        }
        proof {
            assert(y * size.x + size.x == (y + 1) * size.x) by (nonlinear_arith);
        }
        y = y + 1;
    }
    proof {
        assert(size.y * size.x == size.area()) by (nonlinear_arith);
        assert(layer.tiles@ =~= generated_tiles(size, walkable, blocking, mask@));
    }
}

/// Writes generated terrain into a chunk's ground layer (resized as needed) and marks the
/// chunk clean.
pub fn write_terrain(chunk: &mut ChunkTiles, terrain: &TerrainSettings, size: GridSize, mask: &Vec<bool>)
    requires
        old(chunk).wf(),
        size.x * size.y <= u32::MAX,
        mask@.len() == size.area(),
    ensures
        is_generated(old(chunk).layers@, *final(chunk), *terrain, size, mask@),
{
    let ghost before = chunk.layers@;
    let layer = chunk.ensure_layer(terrain.ground_layer, size);
    paint_layer(layer, terrain.walkable_tile, terrain.blocking_tile, mask);
    chunk.mark_clean();
    proof {
        assert(chunk.layers@.remove(terrain.ground_layer.0) =~= before.remove(terrain.ground_layer.0));
        assert forall|k: u8| #[trigger] chunk.layers@.contains_key(k) implies chunk.layers@[k].wf() by {
            if k != terrain.ground_layer.0 {
                assert(before.contains_key(k));
            }
        }
    }
}

/// The layers a chunk of `m` had, none when it was not loaded.
pub open spec fn layers_before(m: Map<ChunkCoord, ChunkTiles>, c: ChunkCoord) -> Map<u8, LayerData> {
    if m.contains_key(c) {
        m[c].layers@
    } else {
        Map::empty()
    }
}

/// Position of chunk `c` in the pending list of `m`: how many chunks before it in the square
/// need generation.
pub open spec fn pending_index(m: Map<ChunkCoord, ChunkTiles>, center: ChunkCoord, r: int, c: ChunkCoord) -> int {
    square_seq(center, r).take(square_index(center, r, c)).filter(needs_pred(m)).len() as int
}

/// Chunks of the square not loaded in `m`.
pub open spec fn count_missing(m: Map<ChunkCoord, ChunkTiles>, center: ChunkCoord, r: int) -> int {
    square_seq(center, r).filter(missing_pred(m)).len() as int
}

/// Chunks of the square loaded in `m` and dirty.
pub open spec fn count_dirty(m: Map<ChunkCoord, ChunkTiles>, center: ChunkCoord, r: int) -> int {
    square_seq(center, r).filter(dirty_pred(m)).len() as int
}

/// Chunks of the square loaded in `m` and clean.
pub open spec fn count_clean(m: Map<ChunkCoord, ChunkTiles>, center: ChunkCoord, r: int) -> int {
    square_seq(center, r).filter(clean_pred(m)).len() as int
}

/// Chunks of `m` outside the square.
pub open spec fn count_outside(m: Map<ChunkCoord, ChunkTiles>, center: ChunkCoord, r: int) -> int {
    m.dom().len() - (count_dirty(m, center, r) + count_clean(m, center, r))
}

/// The mask `stream_chunks` uses for a chunk is the one at that chunk's place in
/// `pending_chunks`: entry `pending_index(m, center, r, c)` of the pending list is `c`.
pub proof fn lemma_pending_index(m: Map<ChunkCoord, ChunkTiles>, center: ChunkCoord, r: int, c: ChunkCoord)
    requires
        square_fits(center, r),
        in_square(center, r, c),
        needs_generation(m, c),
    ensures
        0 <= pending_index(m, center, r, c) < pending_seq(m, center, r).len(),
        pending_seq(m, center, r)[pending_index(m, center, r, c)] == c,
{
    let sq = square_seq(center, r);
    let p = needs_pred(m);
    let i = square_index(center, r, c);
    lemma_square_index(center, r, c);
    let a = sq.take(i);
    let b = sq.skip(i);
    assert(sq == a + b);
    Seq::filter_distributes_over_add(a, b, p);
    assert(b == seq![c] + b.skip(1));
    Seq::filter_distributes_over_add(seq![c], b.skip(1), p);
    assert(seq![c].filter(p) == seq![c]) by {
        seq![c].drop_last().lemma_filter_push(c, p);
        assert(seq![c].drop_last().push(c) == seq![c]);
        assert(seq![c].drop_last().filter(p) == Seq::<ChunkCoord>::empty()) by {
            reveal(Seq::filter);
        }
    }
}

/// `after` is what streaming the square of radius `r` around `center` makes of `m`, with
/// `masks` the terrain of the pending chunks in order: exactly the square is loaded, its clean
/// chunks as they were, its missing or dirty ones generated from their masks.
pub open spec fn streamed(
    m: Map<ChunkCoord, ChunkTiles>,
    after: Map<ChunkCoord, ChunkTiles>,
    center: ChunkCoord,
    r: int,
    terrain: TerrainSettings,
    dims: GridSize,
    masks: Seq<Seq<bool>>,
) -> bool {
    &&& forall|c: ChunkCoord| #[trigger] after.contains_key(c) <==> in_square(center, r, c)
    &&& forall|c: ChunkCoord|
        in_square(center, r, c) && !needs_generation(m, c) ==> #[trigger] after[c] == m[c]
    &&& forall|c: ChunkCoord|
        in_square(center, r, c) && needs_generation(m, c) ==> is_generated(
            layers_before(m, c),
            #[trigger] after[c],
            terrain,
            dims,
            masks[pending_index(m, center, r, c)],
        )
}

/// Law: once the world has been streamed around a chunk, nothing around that chunk is left to
/// generate, so streaming again around it keeps every chunk as it is.
pub proof fn law_stream_leaves_nothing_pending(
    m: Map<ChunkCoord, ChunkTiles>,
    after: Map<ChunkCoord, ChunkTiles>,
    center: ChunkCoord,
    r: int,
    terrain: TerrainSettings,
    dims: GridSize,
    masks: Seq<Seq<bool>>,
)
    requires
        square_fits(center, r),
        masks.len() == pending_seq(m, center, r).len(),
        streamed(m, after, center, r, terrain, dims, masks),
    ensures
        pending_seq(after, center, r).len() == 0,
        forall|c: ChunkCoord| in_square(center, r, c) ==> !needs_generation(after, c),
{
    let sq = square_seq(center, r);
    assert forall|c: ChunkCoord| in_square(center, r, c) implies !needs_generation(after, c) by {
        assert(after.contains_key(c));
        if needs_generation(m, c) {
            lemma_pending_index(m, center, r, c);
            assert(is_generated(layers_before(m, c), after[c], terrain, dims, masks[pending_index(m, center, r, c)]));
        } else {
            assert(after[c] == m[c]);
        }
    }
    assert forall|i: int| 0 <= i < sq.len() implies !needs_pred(after)(#[trigger] sq[i]) by {
        lemma_square_coord(center, r, i);
    }
    sq.lemma_all_neg_filter_empty(needs_pred(after));
}

/// Law: streaming twice around the same chunk changes nothing the second time: the chunks
/// are exactly those the first streaming left.
pub proof fn law_stream_twice_is_stable(
    m: Map<ChunkCoord, ChunkTiles>,
    after: Map<ChunkCoord, ChunkTiles>,
    again: Map<ChunkCoord, ChunkTiles>,
    center: ChunkCoord,
    r: int,
    terrain: TerrainSettings,
    dims: GridSize,
    masks: Seq<Seq<bool>>,
    masks_again: Seq<Seq<bool>>,
)
    requires
        square_fits(center, r),
        masks.len() == pending_seq(m, center, r).len(),
        streamed(m, after, center, r, terrain, dims, masks),
        streamed(after, again, center, r, terrain, dims, masks_again),
    ensures
        again == after,
{
    law_stream_leaves_nothing_pending(m, after, center, r, terrain, dims, masks);
    assert forall|c: ChunkCoord| #[trigger] again.contains_key(c) implies again[c] == after[c] by {
        assert(in_square(center, r, c));
        assert(!needs_generation(after, c));
    }
    assert(again =~= after);
}

impl WorldChunks {
    /// The chunks around the player that must be generated before `stream_chunks` runs, in the
    /// order in which `stream_chunks` consumes their terrain: the square of radius
    /// `max(view_radius, 1)` around the player's chunk, columns left to right and each column
    /// bottom to top, keeping the chunks that are missing or dirty. Empty when a chunk
    /// dimension is zero.
    pub fn pending_chunks(&self, settings: &ChunkSettings, terrain: &TerrainSettings, player_tile: TileCoord) -> (r: Vec<ChunkCoord>)
        requires
            settings.chunk_dimensions.x != 0 && settings.chunk_dimensions.y != 0 ==> stream_ready(
                settings.chunk_dimensions,
                *terrain,
                player_tile,
            ),
        ensures
            settings.chunk_dimensions.x == 0 || settings.chunk_dimensions.y == 0 ==> r@.len() == 0,
            settings.chunk_dimensions.x != 0 && settings.chunk_dimensions.y != 0 ==> r@ == pending_seq(
                self@,
                player_chunk(settings.chunk_dimensions, player_tile),
                effective_radius(terrain.view_radius),
            ),
            settings.chunk_dimensions.x != 0 && settings.chunk_dimensions.y != 0 ==> forall|c: ChunkCoord|
                #[trigger] r@.contains(c) <==> (within_reach(
                    player_chunk(settings.chunk_dimensions, player_tile),
                    if terrain.view_radius < 1 { 1 } else { terrain.view_radius as int },
                    c,
                ) && (!self@.contains_key(c) || self@[c].dirty)),
    {
        let dims = settings.chunk_dimensions;
        let mut out: Vec<ChunkCoord> = Vec::new();
        if dims.x == 0 || dims.y == 0 {
            return out;
        }
        let center = chunk_containing(dims, player_tile);
        let r: i32 = if terrain.view_radius < 1 { 1 } else { terrain.view_radius };
        let n: u64 = 2 * (r as u64) + 1;
        let total: u64 = n * n;
        let ghost sq = square_seq(center, r as int);
        let ghost pred = needs_pred(self@);
        let mut i: u64 = 0;
        while i < total
            invariant
                square_fits(center, r as int),
                n == side(r as int),
                total == n * n,
                sq == square_seq(center, r as int),
                pred == needs_pred(self@),
                i <= total,
                out@ == sq.take(i as int).filter(pred),
            decreases total - i,
        {
            let c = square_coord_exec(center, r, n, i);
            proof {
                assert(sq.take(i as int + 1) == sq.take(i as int).push(c));
                sq.take(i as int).lemma_filter_push(c, pred);
            }
            let needs = match self.get(&c) {
                Some(chunk) => chunk.dirty,
                None => true,
            };
            if needs {
                out.push(c);
            }
            i = i + 1;
        }
        proof {
            assert(sq.take(total as int) == sq);
            assert forall|c: ChunkCoord| #[trigger] out@.contains(c) <==> (within_reach(
                center,
                if terrain.view_radius < 1 { 1 } else { terrain.view_radius as int },
                c,
            ) && (!self@.contains_key(c) || self@[c].dirty)) by {
                law_pending_view_square(self@, dims, *terrain, player_tile, c);
            }
        }
        out
    }

    /// Streams the world around the player: every chunk of the square of radius
    /// `max(view_radius, 1)` around the player's chunk ends up loaded and clean, every other
    /// chunk is unloaded, and the frame's counts go to `stats`. A loaded clean chunk of the
    /// square is kept as it is; a missing or dirty one gets terrain from `masks`, which holds one
    /// mask per chunk of `pending_chunks`, in that order. Nothing happens when a chunk dimension
    /// is zero.
    pub fn stream_chunks(
        &mut self,
        settings: &ChunkSettings,
        terrain: &TerrainSettings,
        player_tile: TileCoord,
        masks: &Vec<Vec<bool>>,
        stats: &mut ChunkDebugStats,
    )
        requires
            old(self).wf(),
            ({
                let dims = settings.chunk_dimensions;
                let center = player_chunk(dims, player_tile);
                let r = effective_radius(terrain.view_radius);
                let m = old(self)@;
                dims.x != 0 && dims.y != 0 ==> {
                    &&& stream_ready(dims, *terrain, player_tile)
                    &&& dims.x * dims.y <= u32::MAX
                    &&& masks@.len() == pending_seq(m, center, r).len()
                    &&& forall|j: int| 0 <= j < masks@.len() ==> (#[trigger] masks@[j])@.len() == dims.area()
                    &&& old(stats).total_generated + count_missing(m, center, r) <= u64::MAX
                    &&& count_outside(m, center, r) <= u32::MAX
                    &&& old(stats).total_unloaded + count_outside(m, center, r) <= u64::MAX
                }
            }),
        ensures
            final(self).wf(),
            ({
                let dims = settings.chunk_dimensions;
                let center = player_chunk(dims, player_tile);
                let r = effective_radius(terrain.view_radius);
                let m = old(self)@;
                if dims.x == 0 || dims.y == 0 {
                    &&& final(self)@ == m
                    &&& *final(stats) == *old(stats)
                } else {
                    &&& streamed(m, final(self)@, center, r, *terrain, dims, masks@.map_values(|v: Vec<bool>| v@))
                    &&& final(stats).frame_generated == count_missing(m, center, r)
                    &&& final(stats).frame_updated == count_dirty(m, center, r)
                    &&& final(stats).frame_reused == count_clean(m, center, r)
                    &&& final(stats).frame_unloaded == count_outside(m, center, r)
                    &&& final(stats).total_generated == old(stats).total_generated + count_missing(m, center, r)
                    &&& final(stats).total_unloaded == old(stats).total_unloaded + count_outside(m, center, r)
                    &&& final(stats).total_loaded == side(r) * side(r)
                    &&& forall|c: ChunkCoord| #[trigger] final(self)@.contains_key(c) <==> within_reach(
                        center,
                        if terrain.view_radius < 1 { 1 } else { terrain.view_radius as int },
                        c,
                    )
                    &&& ({
                        let reach = if terrain.view_radius < 1 { 1 } else { terrain.view_radius as int };
                        final(stats).total_loaded == (2 * reach + 1) * (2 * reach + 1)
                    })
                    &&& final(stats).overlay_toggles == old(stats).overlay_toggles
                }
            }),
    {
        let dims = settings.chunk_dimensions;
        if dims.x == 0 || dims.y == 0 {
            return;
        }
        let center = chunk_containing(dims, player_tile);
        let r: i32 = if terrain.view_radius < 1 { 1 } else { terrain.view_radius };
        let n: u64 = 2 * (r as u64) + 1;
        let total: u64 = n * n;
        let ghost m = self@;
        let ghost old_keys = self.loaded@;
        let ghost sq = square_seq(center, r as int);
        let ghost needs = needs_pred(m);
        let ghost missing = missing_pred(m);
        let ghost dirty = dirty_pred(m);
        let ghost clean = clean_pred(m);
        let ghost present = present_pred(m);
        let mut fresh: HashMap<i64, ChunkTiles> = HashMap::new();
        let mut k: usize = 0;
        let mut generated: u32 = 0;
        let mut updated: u32 = 0;
        let mut reused: u32 = 0;
        let mut i: u64 = 0;
        proof {
            lemma_chunks_dom_len(old_keys);
        }
        while i < total
            invariant
                square_fits(center, r as int),
                center == player_chunk(dims, player_tile),
                r as int == effective_radius(terrain.view_radius),
                n == side(r as int),
                total == n * n,
                total <= u32::MAX,
                dims.x * dims.y <= u32::MAX,
                sq == square_seq(center, r as int),
                m == old(self)@,
                old_keys == old(self).loaded@,
                old(self).wf(),
                needs == needs_pred(m),
                missing == missing_pred(m),
                dirty == dirty_pred(m),
                clean == clean_pred(m),
                present == present_pred(m),
                m.dom().len() == old_keys.dom().len(),
                sq.take(i as int).filter(present).len() == updated + reused,
                masks@.len() == sq.filter(needs).len(),
                forall|j: int| 0 <= j < masks@.len() ==> (#[trigger] masks@[j])@.len() == dims.area(),
                i <= total,
                k == sq.take(i as int).filter(needs).len(),
                generated == sq.take(i as int).filter(missing).len(),
                updated == sq.take(i as int).filter(dirty).len(),
                reused == sq.take(i as int).filter(clean).len(),
                self.loaded@.dom().len() == old_keys.dom().len() - sq.take(i as int).filter(present).len(),
                fresh@.dom().len() == i,
                forall|key: i64| #[trigger] self.loaded@.contains_key(key) ==> self.loaded@[key].wf(),
                forall|key: i64| #[trigger] fresh@.contains_key(key) ==> fresh@[key].wf(),
                forall|c: ChunkCoord|
                    #[trigger] self@.contains_key(c) <==> m.contains_key(c) && !(in_square(center, r as int, c)
                        && square_index(center, r as int, c) < i),
                forall|c: ChunkCoord| #[trigger] self@.contains_key(c) ==> self@[c] == m[c],
                forall|c: ChunkCoord|
                    #[trigger] chunks_by_coord(fresh@).contains_key(c) <==> in_square(center, r as int, c)
                        && square_index(center, r as int, c) < i,
                forall|c: ChunkCoord|
                    in_square(center, r as int, c) && square_index(center, r as int, c) < i && !needs_generation(m, c)
                        ==> #[trigger] chunks_by_coord(fresh@)[c] == m[c],
                forall|c: ChunkCoord|
                    in_square(center, r as int, c) && square_index(center, r as int, c) < i && needs_generation(m, c)
                        ==> is_generated(
                        layers_before(m, c),
                        #[trigger] chunks_by_coord(fresh@)[c],
                        *terrain,
                        dims,
                        masks@[pending_index(m, center, r as int, c)]@,
                    ),
            decreases total - i,
        {
            let c = square_coord_exec(center, r, n, i);
            let key = c.key();
            proof {
                lemma_square_index(center, r as int, c);
                assert(sq[i as int] == c);
                assert(sq.take(i as int + 1) == sq.take(i as int).push(c));
                sq.take(i as int).lemma_filter_push(c, needs);
                sq.take(i as int).lemma_filter_push(c, missing);
                sq.take(i as int).lemma_filter_push(c, dirty);
                sq.take(i as int).lemma_filter_push(c, clean);
                sq.take(i as int).lemma_filter_push(c, present);
                sq.lemma_filter_take_len(needs, i as int + 1);
                lemma_chunks_remove(self.loaded@, c);
                assert(pending_index(m, center, r as int, c) == k);
                assert(self@.contains_key(c) == m.contains_key(c));
                if m.contains_key(c) {
                    assert(self@[c] == m[c]);
                }
                assert(needs(c) ==> k < masks@.len());
            }
            let ghost before_remove = self.loaded@;
            let removed = self.loaded.remove(&key);
            let chunk = match removed {
                Some(mut chunk) => {
                    assert(chunk == m[c]);
                    if chunk.dirty {
                        write_terrain(&mut chunk, terrain, dims, &masks[k]);
                        k = k + 1;
                        updated = updated + 1;
                    } else {
                        reused = reused + 1;
                    }
                    chunk
                },
                None => {
                    let mut chunk = ChunkTiles::new();
                    write_terrain(&mut chunk, terrain, dims, &masks[k]);
                    k = k + 1;
                    generated = generated + 1;
                    chunk
                },
            };
            proof {
                lemma_chunks_insert(fresh@, c, chunk);
                assert(!chunks_by_coord(fresh@).contains_key(c));
                assert(!fresh@.contains_key(chunk_key(c)));
                assert forall|d: ChunkCoord|
                    in_square(center, r as int, d) && square_index(center, r as int, d) == i implies d == c by {
                    lemma_square_index(center, r as int, d);
                }
                assert forall|d: ChunkCoord|
                    in_square(center, r as int, d) && square_index(center, r as int, d) < i + 1 && needs_generation(m, d)
                        implies is_generated(
                        layers_before(m, d),
                        #[trigger] chunks_by_coord(fresh@.insert(key, chunk))[d],
                        *terrain,
                        dims,
                        masks@[pending_index(m, center, r as int, d)]@,
                    ) by {
                    if d != c {
                        lemma_square_index(center, r as int, d);
                    }
                }
            }
            fresh.insert(key, chunk);
            i = i + 1;
        }
        proof {
            assert(sq.take(total as int) == sq);
            lemma_chunks_dom_len(self.loaded@);
        }
        let unloaded = self.loaded.len() as u32;
        let loaded_now = fresh.len();
        self.loaded = fresh;
        stats.frame_generated = generated;
        stats.frame_updated = updated;
        stats.frame_reused = reused;
        stats.frame_unloaded = unloaded;
        stats.total_generated = stats.total_generated + generated as u64;
        stats.total_unloaded = stats.total_unloaded + unloaded as u64;
        stats.total_loaded = loaded_now;
        proof {
            assert forall|c: ChunkCoord| in_square(center, r as int, c) implies square_index(center, r as int, c) < total by {
                lemma_square_index(center, r as int, c);
            }
            let mv = masks@.map_values(|v: Vec<bool>| v@);
            assert forall|c: ChunkCoord| in_square(center, r as int, c) && needs_generation(m, c) implies
                mv[pending_index(m, center, r as int, c)] == masks@[pending_index(m, center, r as int, c)]@ by {
                lemma_pending_index(m, center, r as int, c);
            }
            assert forall|c: ChunkCoord| #[trigger] self@.contains_key(c) <==> in_square(center, r as int, c) by {
                if in_square(center, r as int, c) {
                    lemma_square_index(center, r as int, c);
                }
            }
            assert forall|c: ChunkCoord| #[trigger] self@.contains_key(c) <==> within_reach(
                center,
                if terrain.view_radius < 1 { 1 } else { terrain.view_radius as int },
                c,
            ) by {
                law_stream_view_square(m, self@, dims, *terrain, player_tile, mv, c);
            }
        }
    }
}

} // verus!
