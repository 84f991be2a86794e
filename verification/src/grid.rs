//! A rectangular layer of tiles stored row by row.
use crate::tiles::TileId;
use vstd::prelude::*;

verus! {

/// Width (`x`) and height (`y`) of a grid, counted in tiles.
#[derive(Clone, Copy, Debug, PartialEq, Eq, Structural, Hash)]
pub struct GridSize {
    pub x: u32,
    pub y: u32,
}

impl GridSize {
    /// Number of cells in a grid of this size.
    pub open spec fn area(self) -> int {
        self.x * self.y
    }

    /// Row-major position of cell `(x, y)`.
    pub open spec fn offset(self, x: int, y: int) -> int {
        y * self.x + x
    }

    /// Whether `(x, y)` lies inside the grid.
    pub open spec fn contains(self, x: int, y: int) -> bool {
        0 <= x < self.x && 0 <= y < self.y
    }
}

/// Inside a grid, the row-major offset of a cell is a valid index and differs from every other cell's.
pub proof fn lemma_offset_in_area(size: GridSize, x: int, y: int)
    requires
        size.contains(x, y),
    ensures
        0 <= size.offset(x, y) < size.area(),
{
    assert(0 <= y * size.x) by (nonlinear_arith)
        requires
            0 <= y,
            0 <= size.x,
    ;
    assert(y * size.x + x < size.x * size.y) by (nonlinear_arith)
        requires
            0 <= x < size.x,
            0 <= y < size.y,
    ;
}

/// Distinct cells of a grid sit at distinct offsets.
pub proof fn lemma_offset_injective(size: GridSize, x1: int, y1: int, x2: int, y2: int)
    requires
        size.contains(x1, y1),
        size.contains(x2, y2),
        size.offset(x1, y1) == size.offset(x2, y2),
    ensures
        x1 == x2 && y1 == y2,
{
    if y1 < y2 {
        assert(y1 * size.x + size.x <= y2 * size.x) by (nonlinear_arith)
            requires
                y1 < y2,
                0 <= size.x,
        ;
    } else if y2 < y1 {
        assert(y2 * size.x + size.x <= y1 * size.x) by (nonlinear_arith)
            requires
                y2 < y1,
                0 <= size.x,
        ;
    }
}

/// A cell of a grid: column `x`, row `y`.
#[derive(Clone, Copy, Debug, PartialEq, Eq, Structural, Hash)]
pub struct TilePos {
    pub x: u32,
    pub y: u32,
}

/// One layer of tiles of a chunk, stored row by row.
#[derive(Clone, Debug)]
pub struct LayerData {
    pub tiles: Vec<TileId>,
    pub size: GridSize,
}

impl LayerData {
    /// The tile vector holds exactly one tile per cell.
    pub open spec fn wf(&self) -> bool {
        &&& self.size.area() <= u32::MAX
        &&& self.tiles@.len() == self.size.area()
    }

    /// The tile at cell `(x, y)`.
    pub open spec fn cell(&self, x: int, y: int) -> TileId {
        self.tiles@[self.size.offset(x, y)]
    }

    /// A layer of `size` cells, every one of them tile 0.
    pub fn new(size: GridSize) -> (r: Self)
        requires
            size.x * size.y <= u32::MAX,
        ensures
            r.wf(),
            r.size == size,
            forall|i: int| 0 <= i < r.tiles@.len() ==> r.tiles@[i] == TileId(0),
    {
        let n: u32 = size.x * size.y;
        let tiles = vec![TileId(0); n as usize];
        LayerData { tiles, size }
    }

    /// Row-major index of `(x, y)`, or `None` outside the layer.
    fn index(&self, x: u32, y: u32) -> (r: Option<usize>)
        requires
            self.wf(),
        ensures
            match r {
                Some(i) => self.size.contains(x as int, y as int) && i == self.size.offset(
                    x as int,
                    y as int,
                ) && i < self.tiles@.len(),
                None => !self.size.contains(x as int, y as int),
            },
    {
        if x >= self.size.x || y >= self.size.y {
            return None;
        }
        proof {
            lemma_offset_in_area(self.size, x as int, y as int);
            assert(0 <= y * self.size.x <= y * self.size.x + x) by (nonlinear_arith)
                requires
                    0 <= y,
                    0 <= x,
                    0 <= self.size.x,
            ;
        }
        Some((y * self.size.x + x) as usize)
    }

    /// Writes `tile` at `(x, y)`; outside the layer nothing changes.
    pub fn set(&mut self, x: u32, y: u32, tile: TileId)
        requires
            old(self).wf(),
        ensures
            final(self).wf(),
            final(self).size == old(self).size,
            final(self).tiles@ == if old(self).size.contains(x as int, y as int) {
                old(self).tiles@.update(old(self).size.offset(x as int, y as int), tile)
            } else {
                old(self).tiles@
            },
    {
        if let Some(index) = self.index(x, y) {
            self.tiles.set(index, tile);
        }
    }

    /// The tile at `(x, y)`, or `None` outside the layer.
    pub fn get(&self, x: u32, y: u32) -> (r: Option<TileId>)
        requires
            self.wf(),
        ensures
            r == if self.size.contains(x as int, y as int) {
                Some(self.cell(x as int, y as int))
            } else {
                None::<TileId>
            },
    {
        match self.index(x, y) {
            Some(index) => Some(self.tiles[index]),
            None => None,
        }
    }

    /// Overwrites every cell with `tile`.
    pub fn fill(&mut self, tile: TileId)
        requires
            old(self).wf(),
        ensures
            final(self).wf(),
            final(self).size == old(self).size,
            final(self).tiles@.len() == old(self).tiles@.len(),
            forall|i: int| 0 <= i < final(self).tiles@.len() ==> final(self).tiles@[i] == tile,
    {
        let n = self.tiles.len();
        let mut i: usize = 0;
        while i < n
            invariant
                n == self.tiles@.len(),
                self.size == old(self).size,
                n == old(self).tiles@.len(),
                i <= n,
                forall|j: int| 0 <= j < i ==> self.tiles@[j] == tile,
            decreases n - i,
        {
            self.tiles.set(i, tile);
            i = i + 1;
        }
    }
}

/// Law: reading a cell gives back what was last written there, and writing a cell leaves every
/// other cell as it was. `written` is `layer` after `set(x, y, tile)`.
pub proof fn law_layer_read_after_write(layer: LayerData, written: LayerData, x: u32, y: u32, tile: TileId)
    requires
        layer.wf(),
        written.size == layer.size,
        written.tiles@ == if layer.size.contains(x as int, y as int) {
            layer.tiles@.update(layer.size.offset(x as int, y as int), tile)
        } else {
            layer.tiles@
        },
    ensures
        written.wf(),
        layer.size.contains(x as int, y as int) ==> written.cell(x as int, y as int) == tile,
        forall|a: int, b: int|
            layer.size.contains(a, b) && !(a == x && b == y) ==> #[trigger] written.cell(a, b) == layer.cell(a, b),
{
    if layer.size.contains(x as int, y as int) {
        lemma_offset_in_area(layer.size, x as int, y as int);
    }
    assert forall|a: int, b: int| layer.size.contains(a, b) && !(a == x && b == y) implies #[trigger] written.cell(a, b) == layer.cell(a, b) by {
        lemma_offset_in_area(layer.size, a, b);
        if layer.size.contains(x as int, y as int) {
            if layer.size.offset(a, b) == layer.size.offset(x as int, y as int) {
                lemma_offset_injective(layer.size, a, b, x as int, y as int);
            }
        }
    }
}

} // verus!
