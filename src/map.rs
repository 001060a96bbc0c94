use vstd::prelude::*;

verus! {

/// What a grid cell holds.
#[derive(Clone, Copy, Debug, PartialEq, Eq, Structural)]
pub enum TileType {
    Space,
    Ship,
}

impl Default for TileType {
    fn default() -> (r: TileType)
        ensures
            r == TileType::Space,
    {
        TileType::Space
    }
}

/// One grid cell.
#[derive(Clone, Copy, Debug, PartialEq, Eq, Structural)]
pub struct Tile {
    pub tile_type: TileType,
}

/// A dense three-dimensional grid of tiles, stored layer by layer, row by row.
pub struct TileMap {
    data: Vec<Tile>,
    width: usize,
    height: usize,
    depth: usize,
}

/// The position of cell `(x, y, z)` in the flat storage of a grid `w` wide and
/// `h` high.
pub open spec fn offset_of(w: int, h: int, x: int, y: int, z: int) -> int {
    x + y * w + z * w * h
}

proof fn lemma_offset_in_bounds(w: int, h: int, d: int, x: int, y: int, z: int)
    requires
        0 <= x < w,
        0 <= y < h,
        0 <= z < d,
    ensures
        0 <= offset_of(w, h, x, y, z) < w * h * d,
{
    assert(0 <= y * w) by (nonlinear_arith)
        requires 0 <= y, 0 <= w;
    assert(0 <= z * w * h) by (nonlinear_arith)
        requires 0 <= z, 0 <= w, 0 <= h;
    assert(x + y * w < w * h) by (nonlinear_arith)
        requires 0 <= x < w, 0 <= y < h;
    assert(x + y * w + z * w * h < w * h * d) by (nonlinear_arith)
        requires x + y * w < w * h, 0 <= z < d, 0 <= w, 0 <= h;
}

impl TileMap {
    pub closed spec fn width_spec(&self) -> nat {
        self.width as nat
    }

    pub closed spec fn height_spec(&self) -> nat {
        self.height as nat
    }

    pub closed spec fn depth_spec(&self) -> nat {
        self.depth as nat
    }

    /// The tiles in storage order.
    pub closed spec fn tiles(&self) -> Seq<Tile> {
        self.data@
    }

    /// The storage holds exactly one tile per cell.
    pub open spec fn wf(&self) -> bool {
        &&& self.tiles().len() == self.width_spec() * self.height_spec() * self.depth_spec()
        &&& self.width_spec() * self.height_spec() * self.depth_spec() <= usize::MAX
    }

    /// The tile at cell `(x, y, z)`.
    pub open spec fn tile_at(&self, x: int, y: int, z: int) -> Tile {
        self.tiles()[offset_of(self.width_spec() as int, self.height_spec() as int, x, y, z)]
    }

    /// A grid of the given size with every cell empty space.
    pub fn new(width: usize, height: usize, depth: usize) -> (r: TileMap)
        requires
            width * height * depth <= usize::MAX,
        ensures
            r.wf(),
            r.width_spec() == width,
            r.height_spec() == height,
            r.depth_spec() == depth,
            forall|i: int|
                0 <= i < r.tiles().len() ==> #[trigger] r.tiles()[i] == (Tile {
                    tile_type: TileType::Space,
                }),
    {
        let n: usize = match width.checked_mul(height) {
            Some(p) => {
                assert(p * depth <= usize::MAX);
                p * depth
            },
            None => {
                assert(depth == 0) by (nonlinear_arith)
                    requires width * height > usize::MAX, width * height * depth <= usize::MAX;
                0
            },
        };
        let mut data: Vec<Tile> = Vec::new();
        let mut i: usize = 0;
        while i < n
            invariant
                i <= n,
                data@.len() == i,
                forall|k: int| 0 <= k < i ==> #[trigger] data@[k] == (Tile { tile_type: TileType::Space }),
            decreases n - i,
        {
            data.push(Tile { tile_type: TileType::default() });
            i = i + 1;
        }
        assert(depth == 0 ==> width * height * depth == 0) by (nonlinear_arith);
        TileMap { data, width, height, depth }
    }

    /// The position of cell `(x, y, z)` in storage.
    pub fn calc_offset(&self, x: usize, y: usize, z: usize) -> (r: usize)
        requires
            self.wf(),
            x < self.width_spec(),
            y < self.height_spec(),
            z < self.depth_spec(),
        ensures
            r == offset_of(self.width_spec() as int, self.height_spec() as int, x as int, y as int, z as int),
            r < self.tiles().len(),
    {
        proof {
            lemma_offset_in_bounds(self.width as int, self.height as int, self.depth as int, x as int, y as int, z as int);
            assert(0 <= z * self.width * self.height) by (nonlinear_arith);
            assert(0 <= y * self.width) by (nonlinear_arith);
            assert(z * self.width <= z * self.width * self.height) by (nonlinear_arith)
                requires 0 < self.height, 0 <= z, 0 <= self.width;
        }
        x + y * self.width + z * self.width * self.height
    }

    /// The tile at cell `(x, y, z)`.
    pub fn get(&self, x: usize, y: usize, z: usize) -> (r: &Tile)
        requires
            self.wf(),
            x < self.width_spec(),
            y < self.height_spec(),
            z < self.depth_spec(),
        ensures
            *r == self.tile_at(x as int, y as int, z as int),
    {
        let k = self.calc_offset(x, y, z);
        &self.data[k]
    }

    /// Replaces the tile at cell `(x, y, z)`; every other cell keeps its tile.
    pub fn set(&mut self, x: usize, y: usize, z: usize, tile: Tile)
        requires
            old(self).wf(),
            x < old(self).width_spec(),
            y < old(self).height_spec(),
            z < old(self).depth_spec(),
        ensures
            final(self).wf(),
            final(self).width_spec() == old(self).width_spec(),
            final(self).height_spec() == old(self).height_spec(),
            final(self).depth_spec() == old(self).depth_spec(),
            final(self).tiles() == old(self).tiles().update(
                offset_of(old(self).width_spec() as int, old(self).height_spec() as int, x as int, y as int, z as int),
                tile,
            ),
    {
        let k = self.calc_offset(x, y, z);
        self.data.set(k, tile);
    }
}

} // verus!
