use vstd::prelude::*;

use crate::arena::Handle;

verus! {

/// What a tile is made of.
#[derive(Clone, Copy, Debug, PartialEq, Eq, Structural)]
pub enum TileType {
    Ground,
    Wall,
    Door { closed: bool },
    Stairs,
}

impl TileType {
    /// Ground, stairs and open doors can be walked on; walls and closed
    /// doors cannot.
    pub open spec fn spec_is_passable(&self) -> bool {
        match *self {
            TileType::Ground | TileType::Stairs => true,
            TileType::Door { closed } => !closed,
            TileType::Wall => false,
        }
    }

    #[verifier::when_used_as_spec(spec_is_passable)]
    pub fn is_passable(&self) -> (r: bool)
        ensures
            r == self.spec_is_passable(),
    {
        match *self {
            TileType::Ground | TileType::Stairs => true,
            TileType::Door { closed } => !closed,
            TileType::Wall => false,
        }
    }
}

/// One cell of a map, with the creature standing on it, if any.
#[derive(Clone, Copy, Debug, PartialEq, Eq, Structural)]
pub struct Tile {
    pub tile_type: TileType,
    /// A non-owning reference to the creature on this tile.
    pub occupant: Option<Handle>,
}

impl Tile {
    /// An unoccupied tile.
    pub fn new(tile_type: TileType) -> (r: Tile)
        ensures
            r.tile_type == tile_type,
            r.occupant is None,
    {
        Tile { tile_type, occupant: None }
    }
}

/// Whether `columns` is non-empty and all its columns have one length.
pub open spec fn is_rectangular(columns: Seq<Seq<Tile>>) -> bool {
    &&& columns.len() > 0
    &&& forall|i: int| 0 <= i < columns.len() ==> #[trigger] columns[i].len() == columns[0].len()
}

/// Whether `columns` is rectangular with a width and height that fit in
/// `usize`.
pub open spec fn is_grid(columns: Seq<Seq<Tile>>) -> bool {
    &&& is_rectangular(columns)
    &&& columns.len() <= usize::MAX
    &&& columns[0].len() <= usize::MAX
}

/// A rectangular grid of tiles of one level, indexed by `x` then `y`.
pub struct TileMap {
    columns: Vec<Vec<Tile>>,
}

impl View for TileMap {
    /// The columns of the map: `self@[x][y]` is the tile at `(x, y)`.
    type V = Seq<Seq<Tile>>;

    closed spec fn view(&self) -> Seq<Seq<Tile>> {
        self.columns@.map_values(|c: Vec<Tile>| c@)
    }
}

impl TileMap {
    pub open spec fn wf(&self) -> bool {
        is_grid(self@)
    }

    pub open spec fn spec_width(&self) -> nat {
        self@.len()
    }

    pub open spec fn spec_height(&self) -> nat {
        self@[0].len()
    }

    /// Whether `(x, y)` lies on the map.
    pub open spec fn in_bounds(&self, x: int, y: int) -> bool {
        0 <= x < self.spec_width() && 0 <= y < self.spec_height()
    }

    /// The tile at `(x, y)`.
    pub open spec fn at(&self, x: int, y: int) -> Tile {
        self@[x][y]
    }

    /// Builds a map from its columns, which must be non-empty and all of one
    /// length.
    pub fn new(tiles: Vec<Vec<Tile>>) -> (r: TileMap)
        requires
            is_rectangular(tiles@.map_values(|c: Vec<Tile>| c@)),
        ensures
            r@ == tiles@.map_values(|c: Vec<Tile>| c@),
            r.wf(),
    {
        let ghost cols = tiles@.map_values(|c: Vec<Tile>| c@);
        assert(tiles@.len() == cols.len());
        assert(tiles@[0]@.len() == cols[0].len());
        // Both lengths are read as `usize`, so the map's size fits in one.
        let _width = tiles.len();
        let _height = tiles[0].len();
        TileMap { columns: tiles }
    }

    pub fn width(&self) -> (r: usize)
        ensures
            r == self.spec_width(),
    {
        self.columns.len()
    }

    pub fn height(&self) -> (r: usize)
        requires
            self.wf(),
        ensures
            r == self.spec_height(),
    {
        self.columns[0].len()
    }

    /// The tile at `(x, y)`, when it lies on the map.
    pub fn tile(&self, x: usize, y: usize) -> (r: Option<&Tile>)
        requires
            self.wf(),
        ensures
            r == (if self.in_bounds(x as int, y as int) {
                Some(&self.at(x as int, y as int))
            } else {
                None
            }),
    {
        if x < self.columns.len() && y < self.columns[0].len() {
            assert(self.columns@[x as int]@.len() == self@[x as int].len());
            Some(&self.columns[x][y])
        } else {
            None
        }
    }

    /// Whether no tile of the map has an occupant.
    pub open spec fn spec_is_vacant(&self) -> bool {
        forall|x: int, y: int| #[trigger]
            self.in_bounds(x, y) ==> self.at(x, y).occupant is None
    }

    pub fn is_vacant(&self) -> (r: bool)
        requires
            self.wf(),
        ensures
            r == self.spec_is_vacant(),
    {
        let width = self.columns.len();
        let height = self.columns[0].len();
        let mut x: usize = 0;
        while x < width
            invariant
                self.wf(),
                width == self.spec_width(),
                height == self.spec_height(),
                0 <= x <= width,
                forall|i: int, j: int| 0 <= i < x && 0 <= j < height ==> (#[trigger] self.at(i, j)).occupant is None,
            decreases width - x,
        {
            let mut y: usize = 0;
            assert(self.columns@[x as int]@ == self@[x as int]);
            while y < height
                invariant
                    self.wf(),
                    width == self.spec_width(),
                    height == self.spec_height(),
                    0 <= x < width,
                    0 <= y <= height,
                    self.columns@[x as int]@ == self@[x as int],
                    forall|i: int, j: int| 0 <= i < x && 0 <= j < height ==> (#[trigger] self.at(i, j)).occupant is None,
                    forall|j: int| 0 <= j < y ==> (#[trigger] self.at(x as int, j)).occupant is None,
                decreases height - y,
            {
                if self.columns[x][y].occupant.is_some() {
                    assert(self.in_bounds(x as int, y as int));
                    return false;
                }
                y += 1;
            }
            x += 1;
        }
        assert forall|i: int, j: int| #[trigger] self.in_bounds(i, j) implies self.at(i, j).occupant is None by {
            assert(0 <= i < x && 0 <= j < height);
        }
        true
    }

    /// Changes who stands on the tile at `(x, y)`.
    pub(crate) fn set_occupant(&mut self, x: usize, y: usize, occupant: Option<Handle>)
        requires
            old(self).wf(),
            old(self).in_bounds(x as int, y as int),
        ensures
            final(self).wf(),
            final(self)@ == old(self)@.update(
                x as int,
                old(self)@[x as int].update(
                    y as int,
                    Tile { occupant, ..old(self).at(x as int, y as int) },
                ),
            ),
    {
        assert(self.columns@[x as int]@.len() == self@[x as int].len());
        self.columns[x][y].occupant = occupant;
        assert(forall|i: int| 0 <= i < self@.len() ==> #[trigger] self@[i].len() == old(self)@[i].len());
        assert(self@ =~= old(self)@.update(
            x as int,
            old(self)@[x as int].update(y as int, Tile { occupant, ..old(self).at(x as int, y as int) }),
        ));
    }

    /// A cursor over all tiles, row by row.
    pub fn tiles(&self) -> (r: Tiles<'_>)
        requires
            self.wf(),
        ensures
            r.spec_map() == self,
            r.spec_x() == 0,
            r.spec_y() == 0,
    {
        Tiles { x: 0, y: 0, map: self }
    }
}

/// Walks the tiles of a map row by row (all `x` of `y == 0`, then of
/// `y == 1`, ...), yielding each with its coordinates.
pub struct Tiles<'a> {
    x: usize,
    y: usize,
    map: &'a TileMap,
}

impl<'a> Tiles<'a> {
    pub closed spec fn spec_x(&self) -> int {
        self.x as int
    }

    pub closed spec fn spec_y(&self) -> int {
        self.y as int
    }

    pub closed spec fn spec_map(&self) -> &'a TileMap {
        self.map
    }

    #[verifier::type_invariant]
    spec fn inv(&self) -> bool {
        self.map.wf() && self.x < self.map@.len()
    }

    /// The next tile, or `None` once every tile has been visited.
    pub fn next(&mut self) -> (r: Option<(usize, usize, &'a Tile)>)
        ensures
            final(self).spec_map() == old(self).spec_map(),
            ({
                let map = old(self).spec_map();
                let (x, y) = (old(self).spec_x(), old(self).spec_y());
                if y >= map.spec_height() {
                    r is None && final(self).spec_x() == x && final(self).spec_y() == y
                } else {
                    &&& r == Some((x as usize, y as usize, &map.at(x, y)))
                    &&& x + 1 == map.spec_width() ==> final(self).spec_x() == 0
                        && final(self).spec_y() == y + 1
                    &&& x + 1 < map.spec_width() ==> final(self).spec_x() == x + 1
                        && final(self).spec_y() == y
                }
            }),
    {
        proof {
            use_type_invariant(&*self);
        }
        let map: &'a TileMap = self.map;
        let height = map.height();
        if self.y >= height {
            return None;
        }
        let (x, y) = (self.x, self.y);
        assert(map.columns@[x as int]@.len() == map@[x as int].len());
        let tile: &'a Tile = &map.columns[x][y];
        let width = map.width();
        assert(x < width);
        if x + 1 == width {
            self.x = 0;
            self.y = y + 1;
        } else {
            self.x = x + 1;
        }
        Some((x, y, tile))
    }
}

} // verus!
