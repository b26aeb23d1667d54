use vstd::prelude::*;

verus! {

/// Width of the dungeon grid in tiles.
pub const MAP_WIDTH: i32 = 80;

/// Height of the dungeon grid in tiles.
pub const MAP_HEIGHT: i32 = 43;

/// One grid cell.  `blocked` stops movement, `block_sight` stops
/// light, `explored` is set once the player has seen the cell.
#[derive(Clone, Copy, Debug)]
pub struct Tile {
    pub blocked: bool,
    pub block_sight: bool,
    pub explored: bool,
}

impl Tile {
    /// Open floor.
    pub fn empty() -> (t: Tile)
        ensures
            !t.blocked,
            !t.block_sight,
            !t.explored,
    {
        Tile { blocked: false, block_sight: false, explored: false }
    }

    /// Solid wall.
    pub fn wall() -> (t: Tile)
        ensures
            t.blocked,
            t.block_sight,
            !t.explored,
    {
        Tile { blocked: true, block_sight: true, explored: false }
    }

    /// Walkable decoration that still blocks sight.
    pub fn bushes() -> (t: Tile)
        ensures
            !t.blocked,
            t.block_sight,
            !t.explored,
    {
        Tile { blocked: false, block_sight: true, explored: false }
    }
}

/// The dungeon grid: a column-major `MAP_WIDTH` x `MAP_HEIGHT` array of tiles.
pub struct MapGrid {
    pub tiles: Vec<Vec<Tile>>,
}

impl MapGrid {
    pub open spec fn wf(self) -> bool {
        &&& self.tiles@.len() == MAP_WIDTH
        &&& forall|x: int| 0 <= x < MAP_WIDTH ==> (#[trigger] self.tiles@[x])@.len() == MAP_HEIGHT
    }

    /// The tile at (x, y), as seen by specifications.
    pub open spec fn at(self, x: int, y: int) -> Tile {
        self.tiles@[x]@[y]
    }

    pub open spec fn in_bounds(x: int, y: int) -> bool {
        0 <= x < MAP_WIDTH && 0 <= y < MAP_HEIGHT
    }

    /// A grid of solid wall everywhere.
    pub fn all_walls() -> (m: MapGrid)
        ensures
            m.wf(),
            forall|x: int, y: int|
                MapGrid::in_bounds(x, y) ==> (#[trigger] m.at(x, y)).blocked && m.at(
                    x,
                    y,
                ).block_sight,
    {
        let mut tiles: Vec<Vec<Tile>> = Vec::new();
        let mut x: usize = 0;
        while x < MAP_WIDTH as usize
            invariant
                x <= MAP_WIDTH,
                tiles@.len() == x,
                forall|i: int|
                    0 <= i < x ==> {
                        &&& (#[trigger] tiles@[i])@.len() == MAP_HEIGHT
                        &&& forall|j: int|
                            0 <= j < MAP_HEIGHT ==> (#[trigger] tiles@[i]@[j]).blocked && tiles@[i]@[j].block_sight
                    },
            decreases MAP_WIDTH - x,
        {
            let mut col: Vec<Tile> = Vec::new();
            let mut y: usize = 0;
            while y < MAP_HEIGHT as usize
                invariant
                    y <= MAP_HEIGHT,
                    col@.len() == y,
                    forall|j: int|
                        0 <= j < y ==> (#[trigger] col@[j]).blocked && col@[j].block_sight,
                decreases MAP_HEIGHT - y,
            {
                col.push(Tile::wall());
                y = y + 1;
            }
            tiles.push(col);
            x = x + 1;
        }
        MapGrid { tiles }
    }

    pub fn get(&self, x: i32, y: i32) -> (t: Tile)
        requires
            self.wf(),
            MapGrid::in_bounds(x as int, y as int),
        ensures
            t == self.at(x as int, y as int),
    {
        self.tiles[x as usize][y as usize]
    }

    /// Overwrite the tile at (x, y); every other tile keeps its value.
    pub fn set(&mut self, x: i32, y: i32, t: Tile)
        requires
            old(self).wf(),
            MapGrid::in_bounds(x as int, y as int),
        ensures
            final(self).wf(),
            final(self).at(x as int, y as int) == t,
            forall|i: int, j: int|
                MapGrid::in_bounds(i, j) && (i != x || j != y) ==> #[trigger] final(self).at(i, j)
                    == old(self).at(i, j),
    {
        let mut col: Vec<Tile> = self.tiles.remove(x as usize);
        col.set(y as usize, t);
        self.tiles.insert(x as usize, col);
        proof {
            assert(self.tiles@ =~= old(self).tiles@.update(x as int, col));
        }
    }

    /// Mark every tile explored, leaving blocking data untouched.
    pub fn uncover(&mut self)
        requires
            old(self).wf(),
        ensures
            final(self).wf(),
            forall|i: int, j: int|
                MapGrid::in_bounds(i, j) ==> {
                    &&& (#[trigger] final(self).at(i, j)).explored
                    &&& final(self).at(i, j).blocked == old(self).at(i, j).blocked
                    &&& final(self).at(i, j).block_sight == old(self).at(i, j).block_sight
                },
    {
        let mut y: i32 = 0;
        while y < MAP_HEIGHT
            invariant
                0 <= y <= MAP_HEIGHT,
                self.wf(),
                forall|i: int, j: int|
                    MapGrid::in_bounds(i, j) && j < y ==> {
                        &&& (#[trigger] self.at(i, j)).explored
                        &&& self.at(i, j).blocked == old(self).at(i, j).blocked
                        &&& self.at(i, j).block_sight == old(self).at(i, j).block_sight
                    },
                forall|i: int, j: int|
                    MapGrid::in_bounds(i, j) && j >= y ==> #[trigger] self.at(i, j) == old(
                        self,
                    ).at(i, j),
            decreases MAP_HEIGHT - y,
        {
            let mut x: i32 = 0;
            while x < MAP_WIDTH
                invariant
                    0 <= x <= MAP_WIDTH,
                    0 <= y < MAP_HEIGHT,
                    self.wf(),
                    forall|i: int, j: int|
                        MapGrid::in_bounds(i, j) && j < y ==> {
                            &&& (#[trigger] self.at(i, j)).explored
                            &&& self.at(i, j).blocked == old(self).at(i, j).blocked
                            &&& self.at(i, j).block_sight == old(self).at(i, j).block_sight
                        },
                    forall|i: int, j: int|
                        MapGrid::in_bounds(i, j) && j == y && i < x ==> {
                            &&& (#[trigger] self.at(i, j)).explored
                            &&& self.at(i, j).blocked == old(self).at(i, j).blocked
                            &&& self.at(i, j).block_sight == old(self).at(i, j).block_sight
                        },
                    forall|i: int, j: int|
                        MapGrid::in_bounds(i, j) && (j > y || (j == y && i >= x))
                            ==> #[trigger] self.at(i, j) == old(self).at(i, j),
                decreases MAP_WIDTH - x,
            {
                let t = self.get(x, y);
                self.set(
                    x,
                    y,
                    Tile { blocked: t.blocked, block_sight: t.block_sight, explored: true },
                );
                x = x + 1;
            }
            y = y + 1;
        }
    }
}

} // verus!
