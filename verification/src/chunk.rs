//! Chunks of the world: their layers of tiles, the loaded set, and the layer manifest.
use crate::coords::{
    chunk_key, chunk_of_key, dim_as_i32, div_rem_euclid, key_chunk, lemma_chunk_key_injective,
    lemma_chunk_key_inverse, lemma_key_chunk_inverse, signed_dim, ChunkCoord, TileCoord,
};
use crate::grid::{GridSize, LayerData};
use crate::tiles::TileId;
use std::collections::HashMap;
use vstd::prelude::*;
use vstd::std_specs::iter::IteratorSpec;

verus! {

broadcast use vstd::std_specs::hash::group_hash_axioms;

/// Identifier of a layer of a chunk (ground, decoration, ...).
#[derive(Clone, Copy, Debug, Hash, PartialEq, Eq, Structural)]
pub struct ChunkLayer(pub u8);

/// The layers of one chunk, keyed by layer number, and whether it must be regenerated.
#[derive(Clone, Debug)]
pub struct ChunkTiles {
    pub layers: HashMap<u8, LayerData>,
    pub dirty: bool,
}

/// Every layer of `layers` holds one tile per cell.
pub open spec fn layers_wf(layers: Map<u8, LayerData>) -> bool {
    forall|k: u8| #[trigger] layers.contains_key(k) ==> layers[k].wf()
}

impl ChunkTiles {
    pub open spec fn wf(&self) -> bool {
        layers_wf(self.layers@)
    }

    /// A chunk with no layers, waiting to be generated.
    pub fn new() -> (r: Self)
        ensures
            r.wf(),
            r.layers@ == Map::<u8, LayerData>::empty(),
            r.dirty,
    {
        ChunkTiles { layers: HashMap::new(), dirty: true }
    }

    /// The layer `layer` of this chunk, created with `size` cells of tile 0 when it is missing
    /// or has another size; a layer of the right size is kept as it is.
    pub fn ensure_layer(&mut self, layer: ChunkLayer, size: GridSize) -> (r: &mut LayerData)
        requires
            old(self).wf(),
            size.x * size.y <= u32::MAX,
        ensures
            r.wf(),
            r.size == size,
            old(self).layers@.contains_key(layer.0) && old(self).layers@[layer.0].size == size
                ==> *r == old(self).layers@[layer.0],
            !(old(self).layers@.contains_key(layer.0) && old(self).layers@[layer.0].size == size)
                ==> forall|i: int| 0 <= i < r.tiles@.len() ==> r.tiles@[i] == TileId(0),
            final(self).layers@ == old(self).layers@.insert(layer.0, *final(r)),
            final(self).dirty == old(self).dirty,
    {
        let entry = self.layers.entry(layer.0);
        let data = entry.or_insert(LayerData::new(size));
        if data.size != size {
            *data = LayerData::new(size);
        }
        data
    }

    /// The layer `layer`, if this chunk has it.
    pub fn layer(&self, layer: ChunkLayer) -> (r: Option<&LayerData>)
        ensures
            match r {
                Some(d) => self.layers@.contains_key(layer.0) && *d == self.layers@[layer.0],
                None => !self.layers@.contains_key(layer.0),
            },
    {
        self.layers.get(&layer.0)
    }

    /// Marks the chunk as up to date.
    pub fn mark_clean(&mut self)
        ensures
            final(self).layers@ == old(self).layers@,
            !final(self).dirty,
    {
        self.dirty = false;
    }

    /// Marks the chunk for regeneration.
    pub fn mark_dirty(&mut self)
        ensures
            final(self).layers@ == old(self).layers@,
            final(self).dirty,
    {
        self.dirty = true;
    }
}

/// The chunks of a map keyed by `chunk_key`, seen as a map from chunk coordinates.
pub open spec fn chunks_by_coord(m: Map<i64, ChunkTiles>) -> Map<ChunkCoord, ChunkTiles> {
    Map::new(|c: ChunkCoord| m.contains_key(chunk_key(c)), |c: ChunkCoord| m[chunk_key(c)])
}

/// Storing a chunk under its key stores it under its coordinates.
pub proof fn lemma_chunks_insert(m: Map<i64, ChunkTiles>, c: ChunkCoord, v: ChunkTiles)
    ensures
        chunks_by_coord(m.insert(chunk_key(c), v)) == chunks_by_coord(m).insert(c, v),
{
    assert forall|d: ChunkCoord| true implies (chunk_key(d) == chunk_key(c)) == (d == c) by {
        lemma_chunk_key_injective(d, c);
    }
    assert(chunks_by_coord(m.insert(chunk_key(c), v)) =~= chunks_by_coord(m).insert(c, v));
}

/// Removing a chunk's key removes the chunk.
pub proof fn lemma_chunks_remove(m: Map<i64, ChunkTiles>, c: ChunkCoord)
    ensures
        chunks_by_coord(m.remove(chunk_key(c))) == chunks_by_coord(m).remove(c),
{
    assert forall|d: ChunkCoord| true implies (chunk_key(d) == chunk_key(c)) == (d == c) by {
        lemma_chunk_key_injective(d, c);
    }
    assert(chunks_by_coord(m.remove(chunk_key(c))) =~= chunks_by_coord(m).remove(c));
}

/// Seen by coordinates, a map of chunks holds as many chunks as it has keys.
pub proof fn lemma_chunks_dom_len(m: Map<i64, ChunkTiles>)
    requires
        m.dom().finite(),
    ensures
        chunks_by_coord(m).dom().finite(),
        chunks_by_coord(m).dom().len() == m.dom().len(),
{
    let f = |k: i64| key_chunk(k);
    assert forall|a: i64, b: i64| m.dom().contains(a) && m.dom().contains(b) && #[trigger] f(a) == #[trigger] f(b) implies a == b by {
        lemma_chunk_key_inverse(a);
        lemma_chunk_key_inverse(b);
    }
    assert(vstd::relations::injective_on(f, m.dom()));
    assert forall|c: ChunkCoord| #[trigger] chunks_by_coord(m).dom().contains(c) <==> m.dom().map(f).contains(c) by {
        lemma_key_chunk_inverse(c);
        if m.dom().map(f).contains(c) {
            let k = choose|k: i64| m.dom().contains(k) && f(k) == c;
            lemma_chunk_key_inverse(k);
        }
        if chunks_by_coord(m).dom().contains(c) {
            assert(m.dom().contains(chunk_key(c)) && f(chunk_key(c)) == c);
        }
    }
    assert(m.dom().map(f) =~= chunks_by_coord(m).dom());
    vstd::set_lib::lemma_map_size(m.dom(), chunks_by_coord(m).dom(), f);
}

/// The loaded chunks of the world.
pub struct WorldChunks {
    pub loaded: HashMap<i64, ChunkTiles>,
}

impl View for WorldChunks {
    type V = Map<ChunkCoord, ChunkTiles>;

    open spec fn view(&self) -> Map<ChunkCoord, ChunkTiles> {
        chunks_by_coord(self.loaded@)
    }
}

/// Size of a chunk in tiles.
#[derive(Clone, Copy, Debug)]
pub struct ChunkSettings {
    pub chunk_dimensions: GridSize,
}

impl Default for ChunkSettings {
    fn default() -> (r: Self)
        ensures
            r.chunk_dimensions == (GridSize { x: 32, y: 32 }),
    {
        ChunkSettings { chunk_dimensions: GridSize { x: 32, y: 32 } }
    }
}

/// The chunk holding tile `t` for chunks of `dims` tiles, with the tile's place inside it.
/// `None` when a dimension is zero.
pub open spec fn locate_tile(dims: GridSize, t: TileCoord) -> Option<(ChunkCoord, int, int)> {
    let dx = signed_dim(dims.x);
    let dy = signed_dim(dims.y);
    if dx == 0 || dy == 0 {
        None
    } else {
        Some(
            (
                ChunkCoord { x: (t.x as int / dx) as i32, y: (t.y as int / dy) as i32 },
                t.x as int % dx,
                t.y as int % dy,
            ),
        )
    }
}

impl WorldChunks {
    /// Every loaded chunk is well formed.
    pub open spec fn wf(&self) -> bool {
        forall|k: i64| #[trigger] self.loaded@.contains_key(k) ==> self.loaded@[k].wf()
    }

    /// The tile of layer `layer` at tile `t` of the world, if its chunk and layer are loaded.
    pub open spec fn tile_at_spec(
        &self,
        settings: ChunkSettings,
        layer: ChunkLayer,
        t: TileCoord,
    ) -> Option<TileId> {
        match locate_tile(settings.chunk_dimensions, t) {
            None => None,
            Some((c, lx, ly)) => {
                if self@.contains_key(c) && self@[c].layers@.contains_key(layer.0)
                    && self@[c].layers@[layer.0].size.contains(lx, ly) {
                    Some(self@[c].layers@[layer.0].cell(lx, ly))
                } else {
                    None
                }
            },
        }
    }

    /// No chunk loaded.
    pub fn new() -> (r: Self)
        ensures
            r.wf(),
            r@ == Map::<ChunkCoord, ChunkTiles>::empty(),
    {
        let r = WorldChunks { loaded: HashMap::new() };
        assert(r@ =~= Map::<ChunkCoord, ChunkTiles>::empty());
        r
    }

    /// The chunk at `coord`, if loaded.
    pub fn get(&self, coord: &ChunkCoord) -> (r: Option<&ChunkTiles>)
        ensures
            match r {
                Some(c) => self@.contains_key(*coord) && *c == self@[*coord],
                None => !self@.contains_key(*coord),
            },
    {
        self.loaded.get(&coord.key())
    }

    /// Every loaded chunk with its coordinates, each once, in the map's order.
    pub fn iter(&self) -> (r: Vec<(ChunkCoord, &ChunkTiles)>)
        ensures
            forall|i: int|
                0 <= i < r@.len() ==> self@.contains_key((#[trigger] r@[i]).0) && *r@[i].1
                    == self@[r@[i].0],
            forall|c: ChunkCoord|
                #[trigger] self@.contains_key(c) ==> exists|i: int| 0 <= i < r@.len() && (#[trigger] r@[i]).0 == c,
            forall|i: int, j: int| 0 <= i < j < r@.len() ==> (#[trigger] r@[i]).0 != (#[trigger] r@[j]).0,
    {
        let mut out: Vec<(ChunkCoord, &ChunkTiles)> = Vec::new();
        let ghost s = vstd::std_specs::hash::spec_hash_map_iter(&self.loaded).remaining();
        for kv in it: self.loaded.iter()
            invariant
                it.seq() == s,
                out@.len() == it.index(),
                forall|i: int|
                    0 <= i < it.index() ==> (#[trigger] out@[i]).0 == key_chunk(*it.seq()[i].0) && out@[i].1
                        == it.seq()[i].1,
        {
            let (k, v) = kv;
            out.push((chunk_of_key(*k), v));
        }
        proof {
            assert forall|i: int| 0 <= i < out@.len() implies self@.contains_key((#[trigger] out@[i]).0) && *out@[i].1
                    == self@[out@[i].0] by {
                lemma_chunk_key_inverse(*s[i].0);
            }
            assert forall|c: ChunkCoord| #[trigger] self@.contains_key(c) implies exists|i: int| 0 <= i < out@.len() && (#[trigger] out@[i]).0 == c by {
                let k = chunk_key(c);
                assert(s.contains((&k, &self.loaded@[k])));
                let i = choose|i: int| 0 <= i < s.len() && s[i] == (&k, &self.loaded@[k]);
                lemma_key_chunk_inverse(c);
                assert(out@[i].0 == c);
            }
            assert forall|i: int, j: int| 0 <= i < j < out@.len() implies (#[trigger] out@[i]).0 != (#[trigger] out@[j]).0 by {
                lemma_chunk_key_inverse(*s[i].0);
                lemma_chunk_key_inverse(*s[j].0);
                assert(s.no_duplicates());
            }
        }
        out
    }

    /// The chunk at `coord`, loaded empty (and dirty) when it was not loaded.
    pub fn ensure_chunk(&mut self, coord: ChunkCoord) -> (r: &mut ChunkTiles)
        requires
            old(self).wf(),
        ensures
            r.wf(),
            old(self)@.contains_key(coord) ==> *r == old(self)@[coord],
            !old(self)@.contains_key(coord) ==> r.layers@ == Map::<u8, LayerData>::empty()
                && r.dirty,
            final(self)@ == old(self)@.insert(coord, *final(r)),
            final(r).wf() ==> final(self).wf(),
    {
        let key = coord.key();
        let ghost before = self.loaded@;
        let entry = self.loaded.entry(key);
        let r = entry.or_insert(ChunkTiles::new());
        proof {
            lemma_chunks_insert(before, coord, *final(r));
        }
        r
    }

    /// Unloads the chunk at `coord`, if loaded.
    pub fn remove_chunk(&mut self, coord: &ChunkCoord)
        requires
            old(self).wf(),
        ensures
            final(self).wf(),
            final(self)@ == old(self)@.remove(*coord),
    {
        let key = coord.key();
        proof {
            lemma_chunks_remove(self.loaded@, *coord);
        }
        self.loaded.remove(&key);
    }

    /// The tile of layer `layer` at world tile `tile`, if its chunk and layer are loaded.
    pub fn tile_at_world(&self, settings: &ChunkSettings, layer: ChunkLayer, tile: TileCoord) -> (r:
        Option<TileId>)
        requires
            self.wf(),
            !(tile.x == i32::MIN && settings.chunk_dimensions.x == u32::MAX),
            !(tile.y == i32::MIN && settings.chunk_dimensions.y == u32::MAX),
        ensures
            r == self.tile_at_spec(*settings, layer, tile),
    {
        let dx = dim_as_i32(settings.chunk_dimensions.x);
        let dy = dim_as_i32(settings.chunk_dimensions.y);
        if dx == 0 || dy == 0 {
            return None;
        }
        let (cx, lx) = div_rem_euclid(tile.x, dx);
        let (cy, ly) = div_rem_euclid(tile.y, dy);
        let coord = ChunkCoord { x: cx, y: cy };
        let chunk = match self.get(&coord) {
            Some(c) => c,
            None => return None,
        };
        proof {
            lemma_key_chunk_inverse(coord);
        }
        let layer_data = match chunk.layer(layer) {
            Some(l) => l,
            None => return None,
        };
        layer_data.get(lx as u32, ly as u32)
    }
}

/// Law: the tile coordinates of a world tile split into its chunk and its place in the chunk,
/// and put back together from them: `chunk * dims + local == tile`, with `0 <= local < |dims|`.
pub proof fn law_locate_tile_recomposes(dims: GridSize, t: TileCoord)
    requires
        dims.x != 0 && dims.y != 0,
        !(t.x == i32::MIN && dims.x == u32::MAX),
        !(t.y == i32::MIN && dims.y == u32::MAX),
    ensures
        locate_tile(dims, t) matches Some((c, lx, ly)) && {
            let dx = signed_dim(dims.x);
            let dy = signed_dim(dims.y);
            &&& c.x * dx + lx == t.x
            &&& c.y * dy + ly == t.y
            &&& 0 <= lx < (if dx < 0 { -dx } else { dx })
            &&& 0 <= ly < (if dy < 0 { -dy } else { dy })
        },
{
    let dx = signed_dim(dims.x);
    let dy = signed_dim(dims.y);
    let qx = t.x as int / dx;
    let qy = t.y as int / dy;
    assert(t.x == dx * qx + t.x as int % dx && 0 <= t.x as int % dx < (if dx < 0 { -dx } else { dx })) by (nonlinear_arith)
        requires
            dx != 0,
            qx == t.x as int / dx,
    ;
    assert(t.y == dy * qy + t.y as int % dy && 0 <= t.y as int % dy < (if dy < 0 { -dy } else { dy })) by (nonlinear_arith)
        requires
            dy != 0,
            qy == t.y as int / dy,
    ;
    assert(i32::MIN <= qx <= i32::MAX) by (nonlinear_arith)
        requires
            dx != 0,
            t.x == dx * qx + t.x as int % dx,
            0 <= t.x as int % dx < (if dx < 0 { -dx } else { dx }),
            i32::MIN <= t.x <= i32::MAX,
            !(t.x == i32::MIN && dx == -1),
    ;
    assert(i32::MIN <= qy <= i32::MAX) by (nonlinear_arith)
        requires
            dy != 0,
            t.y == dy * qy + t.y as int % dy,
            0 <= t.y as int % dy < (if dy < 0 { -dy } else { dy }),
            i32::MIN <= t.y <= i32::MAX,
            !(t.y == i32::MIN && dy == -1),
    ;
    assert(qx * dx == dx * qx && qy * dy == dy * qy) by (nonlinear_arith);
}

/// Euclidean division gives back the quotient and remainder a number was built from.
proof fn lemma_div_rem_unique(q: int, d: int, r: int)
    requires
        d != 0,
        0 <= r < (if d < 0 { -d } else { d }),
    ensures
        (q * d + r) / d == q,
        (q * d + r) % d == r,
{
    let a = q * d + r;
    assert(a / d == q && a % d == r) by (nonlinear_arith)
        requires
            d != 0,
            a == q * d + r,
            0 <= r < (if d < 0 { -d } else { d }),
    ;
}

/// Law: the tile at world tile `chunk * dims + local` is the tile at place `local` of that
/// chunk's layer, whenever the chunk and layer are loaded and `local` lies in the layer and in
/// a chunk of `dims` tiles.
pub proof fn law_tile_at_world_reads_chunk(
    chunks: &WorldChunks,
    settings: ChunkSettings,
    layer: ChunkLayer,
    c: ChunkCoord,
    lx: int,
    ly: int,
    t: TileCoord,
)
    requires
        signed_dim(settings.chunk_dimensions.x) != 0,
        signed_dim(settings.chunk_dimensions.y) != 0,
        0 <= lx < (if signed_dim(settings.chunk_dimensions.x) < 0 { -signed_dim(settings.chunk_dimensions.x) } else { signed_dim(settings.chunk_dimensions.x) }),
        0 <= ly < (if signed_dim(settings.chunk_dimensions.y) < 0 { -signed_dim(settings.chunk_dimensions.y) } else { signed_dim(settings.chunk_dimensions.y) }),
        t.x == c.x * signed_dim(settings.chunk_dimensions.x) + lx,
        t.y == c.y * signed_dim(settings.chunk_dimensions.y) + ly,
        chunks@.contains_key(c),
        chunks@[c].layers@.contains_key(layer.0),
        chunks@[c].layers@[layer.0].size.contains(lx, ly),
    ensures
        chunks.tile_at_spec(settings, layer, t) == Some(chunks@[c].layers@[layer.0].cell(lx, ly)),
{
    lemma_div_rem_unique(c.x as int, signed_dim(settings.chunk_dimensions.x), lx);
    lemma_div_rem_unique(c.y as int, signed_dim(settings.chunk_dimensions.y), ly);
}

/// A registered layer: its id, its name and the bit pattern of its `f32` draw depth.
#[derive(Clone, Debug)]
pub struct ChunkLayerEntry {
    pub layer: ChunkLayer,
    pub name: String,
    pub z_index_bits: u32,
}

/// The layers every chunk may have, in registration order.
pub struct ChunkManifest {
    pub layers: Vec<ChunkLayerEntry>,
}

/// Index of the first entry of `layers` named `name`, if any.
pub open spec fn first_named(layers: Seq<ChunkLayerEntry>, name: Seq<char>) -> Option<int> {
    if exists|i: int| 0 <= i < layers.len() && (#[trigger] layers[i]).name@ == name {
        Some(
            choose|i: int|
                0 <= i < layers.len() && (#[trigger] layers[i]).name@ == name && forall|j: int|
                    0 <= j < i ==> (#[trigger] layers[j]).name@ != name,
        )
    } else {
        None
    }
}

impl ChunkManifest {
    /// No layer registered.
    pub fn new() -> (r: Self)
        ensures
            r.layers@ == Seq::<ChunkLayerEntry>::empty(),
    {
        ChunkManifest { layers: Vec::new() }
    }

    /// Registers a layer named `name` and returns its id: the number of layers registered before
    /// it, wrapped to a byte.
    pub fn register_layer(&mut self, name: String, z_index_bits: u32) -> (r: ChunkLayer)
        ensures
            r.0 == old(self).layers@.len() % 256,
            final(self).layers@ == old(self).layers@.push(
                ChunkLayerEntry { layer: r, name: name, z_index_bits: z_index_bits },
            ),
    {
        let layer = ChunkLayer((self.layers.len() % 256) as u8);
        self.layers.push(ChunkLayerEntry { layer, name, z_index_bits });
        layer
    }

    /// The id of the first layer registered under `name`.
    pub fn layer_by_name(&self, name: &str) -> (r: Option<ChunkLayer>)
        ensures
            r == match first_named(self.layers@, name@) {
                Some(i) => Some(self.layers@[i].layer),
                None => None::<ChunkLayer>,
            },
    {
        let target = name.to_owned();
        let n = self.layers.len();
        let mut i: usize = 0;
        while i < n
            invariant
                n == self.layers@.len(),
                i <= n,
                target@ == name@,
                forall|j: int| 0 <= j < i ==> (#[trigger] self.layers@[j]).name@ != name@,
            decreases n - i,
        {
            if self.layers[i].name == target {
                proof {
                    let k = choose|k: int|
                        0 <= k < self.layers@.len() && (#[trigger] self.layers@[k]).name@ == name@
                            && forall|j: int| 0 <= j < k ==> (#[trigger] self.layers@[j]).name@ != name@;
                    assert(k == i as int) by {
                        if k < i {
                            assert(self.layers@[k].name@ != name@);
                        } else if k > i {
                            assert(self.layers@[i as int].name@ == name@);
                        }
                    }
                }
                return Some(self.layers[i].layer);
            }
            i = i + 1;
        }
        None
    }

    /// The registered layers, in registration order.
    pub fn entries(&self) -> (r: &Vec<ChunkLayerEntry>)
        ensures
            r@ == self.layers@,
    {
        &self.layers
    }
}

/// What `first_named` gives: the first entry with the name, or `None` when no entry has it.
pub proof fn lemma_first_named(s: Seq<ChunkLayerEntry>, name: Seq<char>)
    ensures
        match first_named(s, name) {
            Some(k) => 0 <= k < s.len() && s[k].name@ == name && forall|j: int| 0 <= j < k ==> (#[trigger] s[j]).name@ != name,
            None => forall|i: int| 0 <= i < s.len() ==> (#[trigger] s[i]).name@ != name,
        },
{
    if exists|i: int| 0 <= i < s.len() && (#[trigger] s[i]).name@ == name {
        let i = choose|i: int| 0 <= i < s.len() && (#[trigger] s[i]).name@ == name;
        lemma_first_named_exists(s, name, i);
    }
}

proof fn lemma_first_named_exists(s: Seq<ChunkLayerEntry>, name: Seq<char>, i: int)
    requires
        0 <= i < s.len(),
        s[i].name@ == name,
    ensures
        exists|k: int| 0 <= k < s.len() && (#[trigger] s[k]).name@ == name && forall|j: int| 0 <= j < k ==> (#[trigger] s[j]).name@ != name,
    decreases i,
{
    if exists|j: int| 0 <= j < i && (#[trigger] s[j]).name@ == name {
        let j = choose|j: int| 0 <= j < i && (#[trigger] s[j]).name@ == name;
        lemma_first_named_exists(s, name, j);
    } else {
        assert(forall|j: int| 0 <= j < i ==> (#[trigger] s[j]).name@ != name);
    }
}

/// Law: a layer registered under a name no earlier layer has is what `layer_by_name` finds
/// under that name; every other name is found as before.
pub proof fn law_register_then_find(before: Seq<ChunkLayerEntry>, after: Seq<ChunkLayerEntry>, entry: ChunkLayerEntry, name: Seq<char>)
    requires
        after == before.push(entry),
        first_named(before, entry.name@) is None,
    ensures
        first_named(after, entry.name@) == Some(before.len() as int),
        name != entry.name@ ==> first_named(after, name) == first_named(before, name),
{
    lemma_first_named(before, entry.name@);
    lemma_first_named(after, entry.name@);
    lemma_first_named(before, name);
    lemma_first_named(after, name);
    assert(after[before.len() as int] == entry);
    assert forall|j: int| 0 <= j < before.len() implies after[j] == before[j] by {}
    match first_named(after, entry.name@) {
        Some(k) => {
            if k < before.len() {
                assert(after[k] == before[k]);
            } else {
                assert(k == before.len());
            }
        },
        None => {
            assert(after[before.len() as int].name@ == entry.name@);
        },
    }
    if name != entry.name@ {
        match (first_named(after, name), first_named(before, name)) {
            (Some(ka), Some(kb)) => {
                assert(after[kb] == before[kb]);
                if ka < kb {
                    assert(after[ka] == before[ka]);
                } else if kb < ka {
                    assert(after[kb].name@ == name);
                }
            },
            (Some(ka), None) => {
                if ka < before.len() {
                    assert(after[ka] == before[ka]);
                }
            },
            (None, Some(kb)) => {
                assert(after[kb] == before[kb]);
            },
            (None, None) => {},
        }
    }
}

/// Law: asking for a loaded chunk gives it back untouched; asking for a missing one loads an
/// empty dirty chunk there. Either way every other chunk is left as it was.
pub proof fn law_ensure_chunk_keeps_others(before: Map<ChunkCoord, ChunkTiles>, after: Map<ChunkCoord, ChunkTiles>, coord: ChunkCoord, got: ChunkTiles)
    requires
        before.contains_key(coord) ==> got == before[coord],
        !before.contains_key(coord) ==> got.layers@ == Map::<u8, LayerData>::empty() && got.dirty,
        after == before.insert(coord, got),
    ensures
        before.contains_key(coord) ==> after == before,
        forall|c: ChunkCoord| c != coord ==> (#[trigger] after.contains_key(c)) == before.contains_key(c) && (before.contains_key(c) ==> after[c] == before[c]),
        after.contains_key(coord),
{
    if before.contains_key(coord) {
        assert(after =~= before);
    }
}

} // verus!
