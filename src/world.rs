use vstd::prelude::*;

use crate::arena::{Arena, Handle};
use crate::creatures::Creature;
use crate::geometry::Position;
use crate::map::{is_grid, is_rectangular, Tile, TileMap, TileType};

verus! {

/// Side length of the square level of a new world.
pub const LEVEL_SIZE: usize = 20;

/// Whether `p` names a tile of `levels` (indexed `[level][x][y]`).
pub open spec fn on_map(levels: Seq<Seq<Seq<Tile>>>, p: Position) -> bool {
    &&& p.level < levels.len()
    &&& p.x < levels[p.level as int].len()
    &&& p.y < levels[p.level as int][p.x as int].len()
}

/// The tile of `levels` at `p`.
pub open spec fn tile_at(levels: Seq<Seq<Seq<Tile>>>, p: Position) -> Tile {
    levels[p.level as int][p.x as int][p.y as int]
}

/// `levels` with the occupant of the tile at `p` replaced.
pub open spec fn with_occupant(
    levels: Seq<Seq<Seq<Tile>>>,
    p: Position,
    occupant: Option<Handle>,
) -> Seq<Seq<Seq<Tile>>> {
    let (l, x, y) = (p.level as int, p.x as int, p.y as int);
    levels.update(l, levels[l].update(x, levels[l][x].update(y, Tile { occupant, ..levels[l][x][y] })))
}

/// Whether `(x, y)` lies on the outer ring of a `width` by `height` grid.
pub open spec fn is_border(width: int, height: int, x: int, y: int) -> bool {
    x == 0 || y == 0 || x == width - 1 || y == height - 1
}

/// The whole game state: levels, the creatures living on them, and the
/// player's character.
///
/// The world is the sole owner of its creatures. Tiles refer to them by
/// [`Handle`]; every live creature stands on a tile of its level that names
/// it, and every named occupant is a live creature standing there.
pub struct World {
    main_character: Handle,
    levels: Vec<TileMap>,
    creatures: Arena<Creature>,
}

impl World {
    /// The tiles of every level: `spec_levels()[level][x][y]`.
    pub closed spec fn spec_levels(&self) -> Seq<Seq<Seq<Tile>>> {
        self.levels@.map_values(|m: TileMap| m@)
    }

    /// The live creatures, by handle.
    pub closed spec fn spec_creatures(&self) -> Map<Handle, Creature> {
        self.creatures@
    }

    pub closed spec fn spec_main_character(&self) -> Handle {
        self.main_character
    }

    /// Number of creature handles issued so far.
    pub closed spec fn spec_issued(&self) -> nat {
        self.creatures.issued()
    }

    pub open spec fn wf(&self) -> bool {
        &&& forall|l: int|
            0 <= l < self.spec_levels().len() ==> is_grid(#[trigger] self.spec_levels()[l])
        &&& self.spec_creatures().dom().contains(self.spec_main_character())
        &&& self.creatures_placed()
        &&& self.occupants_live()
    }

    /// Every live creature stands on a tile that names it.
    pub open spec fn creatures_placed(&self) -> bool {
        forall|h: Handle| #[trigger]
            self.spec_creatures().dom().contains(h) ==> {
                let p = self.spec_creatures()[h].spec_position();
                on_map(self.spec_levels(), p) && tile_at(self.spec_levels(), p).occupant == Some(h)
            }
    }

    /// Every occupant named by a tile is a live creature standing there.
    pub open spec fn occupants_live(&self) -> bool {
        let levels = self.spec_levels();
        forall|l: int, x: int, y: int|
            0 <= l < levels.len() && 0 <= x < levels[l].len() && 0 <= y < levels[l][x].len() && (
            #[trigger] levels[l][x][y]).occupant is Some ==> {
                let h = levels[l][x][y].occupant->Some_0;
                let p = self.spec_creatures()[h].spec_position();
                &&& self.spec_creatures().dom().contains(h)
                &&& p.level == l && p.x == x && p.y == y
            }
    }

    /// `self` is `before` after the creature `h` moved to `to`: its old tile
    /// no longer names it, the tile at `to` does, its position is `to`, and
    /// nothing else changed.
    pub open spec fn relocated(&self, before: World, h: Handle, to: Position) -> bool {
        let c = before.spec_creatures()[h];
        let d = self.spec_creatures()[h];
        &&& self.spec_main_character() == before.spec_main_character()
        &&& self.spec_issued() == before.spec_issued()
        &&& self.spec_levels() == with_occupant(
            with_occupant(before.spec_levels(), c.spec_position(), None),
            to,
            Some(h),
        )
        &&& self.spec_creatures().dom() == before.spec_creatures().dom()
        &&& forall|g: Handle|
            g != h && before.spec_creatures().dom().contains(g) ==> #[trigger] self.spec_creatures()[g]
                == before.spec_creatures()[g]
        &&& d.spec_position() == to
        &&& d.spec_name() == c.spec_name()
        &&& d.spec_health() == c.spec_health()
        &&& d.spec_mana() == c.spec_mana()
        &&& d.spec_kind() == c.spec_kind()
    }

    /// A world of the given levels with `main_character` standing on its
    /// position; `None` when a level already has occupants or the position
    /// is not on the map.
    pub fn from_levels(levels: Vec<TileMap>, main_character: Creature) -> (r: Option<World>)
        requires
            forall|l: int| 0 <= l < levels@.len() ==> (#[trigger] levels@[l]).wf(),
        ensures
            r is Some <==> (forall|l: int|
                0 <= l < levels@.len() ==> (#[trigger] levels@[l]).spec_is_vacant())
                && on_map(levels@.map_values(|m: TileMap| m@), main_character.spec_position()),
            r matches Some(w) ==> {
                &&& w.wf()
                &&& w.spec_creatures() == Map::<Handle, Creature>::empty().insert(
                    w.spec_main_character(),
                    main_character,
                )
                &&& w.spec_levels() == with_occupant(
                    levels@.map_values(|m: TileMap| m@),
                    main_character.spec_position(),
                    Some(w.spec_main_character()),
                )
                &&& w.spec_issued() == 1
            },
    {
        let ghost view = levels@.map_values(|m: TileMap| m@);
        let ghost given = levels@;
        let mut l: usize = 0;
        while l < levels.len()
            invariant
                0 <= l <= levels@.len(),
                forall|k: int| 0 <= k < levels@.len() ==> (#[trigger] levels@[k]).wf(),
                forall|k: int| 0 <= k < l ==> (#[trigger] levels@[k]).spec_is_vacant(),
            decreases levels@.len() - l,
        {
            if !levels[l].is_vacant() {
                return None;
            }
            l += 1;
        }
        let p = main_character.position();
        if p.level >= levels.len() {
            return None;
        }
        if p.x >= levels[p.level].width() || p.y >= levels[p.level].height() {
            return None;
        }
        assert(view[p.level as int] == levels@[p.level as int]@);
        assert(is_grid(view[p.level as int]));
        let mut levels = levels;
        let mut creatures: Arena<Creature> = Arena::new();
        let h = creatures.insert(main_character);
        levels[p.level].set_occupant(p.x, p.y, Some(h));
        let w = World { main_character: h, levels, creatures };
        assert(w.spec_levels() =~= with_occupant(view, p, Some(h)));
        assert(w.wf()) by {
            assert forall|l: int|
                0 <= l < w.spec_levels().len() implies is_grid(
                #[trigger] w.spec_levels()[l],
            ) by {
                assert(w.spec_levels()[l] == w.levels@[l]@);
            }
            assert forall|k: int, x: int, y: int|
                0 <= k < w.spec_levels().len() && 0 <= x < w.spec_levels()[k].len() && 0 <= y
                    < w.spec_levels()[k][x].len() && (
                #[trigger] w.spec_levels()[k][x][y]).occupant is Some implies {
                let g = w.spec_levels()[k][x][y].occupant->Some_0;
                let q = w.spec_creatures()[g].spec_position();
                &&& w.spec_creatures().dom().contains(g)
                &&& q.level == k && q.x == x && q.y == y
            } by {
                if k != p.level || x != p.x || y != p.y {
                    assert(w.spec_levels()[k][x][y] == view[k][x][y]);
                    assert(given[k].spec_is_vacant());
                    assert(given[k].in_bounds(x, y));
                }
            }
        }
        Some(w)
    }

    /// A new world: one walled square level with the main character, a
    /// demon, standing at `(5, 5)`.
    pub fn new() -> (r: World)
        ensures
            r.wf(),
            r.spec_levels().len() == 1,
            r.spec_levels()[0].len() == LEVEL_SIZE,
            forall|x: int| 0 <= x < LEVEL_SIZE ==> (#[trigger] r.spec_levels()[0][x]).len() == LEVEL_SIZE,
            forall|x: int, y: int|
                0 <= x < LEVEL_SIZE && 0 <= y < LEVEL_SIZE ==> (#[trigger] r.spec_levels()[0][x][y]).tile_type
                    == if is_border(LEVEL_SIZE as int, LEVEL_SIZE as int, x, y) {
                    TileType::Wall
                } else {
                    TileType::Ground
                },
            r.spec_creatures().dom() == set![r.spec_main_character()],
            r.spec_creatures()[r.spec_main_character()].spec_position() == (Position {
                level: 0,
                x: 5,
                y: 5,
            }),
    {
        let level = box_level(LEVEL_SIZE, LEVEL_SIZE);
        let demon = Creature::demon(
            "Very Evil Demon".to_owned(),
            30,
            30,
            Position { level: 0, x: 5, y: 5 },
            0,
        );
        let levels = vec![level];
        assert(levels@[0] == level);
        let r = World::from_levels(levels, demon).unwrap();
        assert(r.spec_creatures().dom() =~= set![r.spec_main_character()]);
        r
    }

    /// Places `creature` on the tile of its position and registers it;
    /// `None`, with nothing changed, when that tile is not on the map, is
    /// already occupied, or no fresh handle is left.
    pub fn add_creature(&mut self, creature: Creature) -> (r: Option<Handle>)
        requires
            old(self).wf(),
        ensures
            final(self).wf(),
            final(self).spec_main_character() == old(self).spec_main_character(),
            r is Some <==> {
                let p = creature.spec_position();
                &&& on_map(old(self).spec_levels(), p)
                &&& tile_at(old(self).spec_levels(), p).occupant is None
                &&& old(self).spec_issued() < usize::MAX
            },
            r matches Some(h) ==> {
                &&& !old(self).spec_creatures().dom().contains(h)
                &&& final(self).spec_creatures() == old(self).spec_creatures().insert(h, creature)
                &&& final(self).spec_levels() == with_occupant(
                    old(self).spec_levels(),
                    creature.spec_position(),
                    Some(h),
                )
                &&& final(self).spec_issued() == old(self).spec_issued() + 1
            },
            r is None ==> *final(self) == *old(self),
    {
        let p = creature.position();
        if p.level >= self.levels.len() {
            return None;
        }
        assert(self.spec_levels()[p.level as int] == self.levels@[p.level as int]@);
        let level = &self.levels[p.level];
        if p.x >= level.width() || p.y >= level.height() {
            return None;
        }
        match level.tile(p.x, p.y) {
            Some(tile) => {
                if tile.occupant.is_some() {
                    return None;
                }
            },
            None => {},
        }
        if self.creatures.is_full() {
            return None;
        }
        let ghost old_levels = self.spec_levels();
        let h = self.creatures.insert(creature);
        self.levels[p.level].set_occupant(p.x, p.y, Some(h));
        assert(self.spec_levels() =~= with_occupant(old_levels, p, Some(h)));
        proof {
            self.lemma_placement_kept(*old(self), h, p);
        }
        Some(h)
    }

    /// After a new creature `h` was put on the vacant tile at `p`, and
    /// nothing else changed, the world is still well formed.
    proof fn lemma_placement_kept(&self, before: World, h: Handle, p: Position)
        requires
            before.wf(),
            !before.spec_creatures().dom().contains(h),
            on_map(before.spec_levels(), p),
            tile_at(before.spec_levels(), p).occupant is None,
            self.spec_creatures().dom() == before.spec_creatures().dom().insert(h),
            self.spec_creatures()[h].spec_position() == p,
            forall|g: Handle|
                g != h && before.spec_creatures().dom().contains(g) ==> #[trigger] self.spec_creatures()[g]
                    == before.spec_creatures()[g],
            self.spec_levels() == with_occupant(before.spec_levels(), p, Some(h)),
            self.spec_main_character() == before.spec_main_character(),
        ensures
            self.wf(),
    {
        let old_levels = before.spec_levels();
        let levels = self.spec_levels();
        assert forall|l: int| 0 <= l < levels.len() implies is_grid(#[trigger] levels[l]) by {
            assert(is_grid(old_levels[l]));
            if l == p.level {
                assert forall|i: int| 0 <= i < levels[l].len() implies #[trigger] levels[l][i].len()
                    == levels[l][0].len() by {
                    assert(old_levels[l][i].len() == old_levels[l][0].len());
                }
            }
        }
        assert forall|g: Handle| #[trigger] self.spec_creatures().dom().contains(g) implies {
            let q = self.spec_creatures()[g].spec_position();
            on_map(levels, q) && tile_at(levels, q).occupant == Some(g)
        } by {
            if g != h {
                assert(before.spec_creatures().dom().contains(g));
            }
        }
        assert forall|l: int, x: int, y: int|
            0 <= l < levels.len() && 0 <= x < levels[l].len() && 0 <= y < levels[l][x].len() && (
            #[trigger] levels[l][x][y]).occupant is Some implies {
            let g = levels[l][x][y].occupant->Some_0;
            let q = self.spec_creatures()[g].spec_position();
            &&& self.spec_creatures().dom().contains(g)
            &&& q.level == l && q.x == x && q.y == y
        } by {
            if l != p.level || x != p.x || y != p.y {
                assert(levels[l][x][y] == old_levels[l][x][y]);
                let g = levels[l][x][y].occupant->Some_0;
                assert(before.spec_creatures().dom().contains(g));
            }
        }
    }

    /// Moves the live creature `h` onto the vacant tile at `to`: its old tile
    /// is cleared, the new one names it, and its position becomes `to`.
    pub(crate) fn relocate(&mut self, h: Handle, to: Position)
        requires
            old(self).wf(),
            old(self).spec_creatures().dom().contains(h),
            on_map(old(self).spec_levels(), to),
            tile_at(old(self).spec_levels(), to).occupant is None,
        ensures
            final(self).wf(),
            final(self).spec_main_character() == old(self).spec_main_character(),
            final(self).spec_issued() == old(self).spec_issued(),
            final(self).relocated(*old(self), h, to),
    {
        let ghost levels0 = self.spec_levels();
        let from = match self.creatures.get(h) {
            Some(c) => c.position(),
            None => {
                return;
            },
        };
        assert(self.spec_levels()[from.level as int] == self.levels@[from.level as int]@);
        self.levels[from.level].set_occupant(from.x, from.y, None);
        let ghost levels1 = self.spec_levels();
        assert(levels1 =~= with_occupant(levels0, from, None));
        assert(self.spec_levels()[to.level as int] == self.levels@[to.level as int]@);
        assert(is_grid(levels0[to.level as int]));
        self.levels[to.level].set_occupant(to.x, to.y, Some(h));
        assert(self.spec_levels() =~= with_occupant(levels1, to, Some(h)));
        match self.creatures.get_mut(h) {
            Some(c) => c.set_position(to),
            None => {},
        }
        assert(self.spec_creatures().dom() =~= old(self).spec_creatures().dom());
        proof {
            self.lemma_relocation_kept(*old(self), h, from, to);
        }
    }

    /// After the creature `h` moved from `from` to the vacant tile at `to`,
    /// and nothing else changed, the world is still well formed.
    proof fn lemma_relocation_kept(&self, before: World, h: Handle, from: Position, to: Position)
        requires
            before.wf(),
            before.spec_creatures().dom().contains(h),
            before.spec_creatures()[h].spec_position() == from,
            on_map(before.spec_levels(), to),
            tile_at(before.spec_levels(), to).occupant is None,
            self.spec_creatures().dom() == before.spec_creatures().dom(),
            self.spec_creatures()[h].spec_position() == to,
            forall|g: Handle|
                g != h && before.spec_creatures().dom().contains(g) ==> #[trigger] self.spec_creatures()[g]
                    == before.spec_creatures()[g],
            self.spec_levels() == with_occupant(with_occupant(before.spec_levels(), from, None), to, Some(h)),
            self.spec_main_character() == before.spec_main_character(),
        ensures
            self.wf(),
    {
        let old_levels = before.spec_levels();
        let levels = self.spec_levels();
        assert(on_map(old_levels, from));
        assert forall|l: int| 0 <= l < levels.len() implies is_grid(#[trigger] levels[l]) by {
            assert(is_grid(old_levels[l]));
            assert forall|i: int| 0 <= i < levels[l].len() implies #[trigger] levels[l][i].len()
                == levels[l][0].len() by {
                assert(old_levels[l][i].len() == old_levels[l][0].len());
            }
        }
        assert forall|g: Handle| #[trigger] self.spec_creatures().dom().contains(g) implies {
            let q = self.spec_creatures()[g].spec_position();
            on_map(levels, q) && tile_at(levels, q).occupant == Some(g)
        } by {
            if g != h {
                assert(before.spec_creatures().dom().contains(g));
                let q = before.spec_creatures()[g].spec_position();
                assert(tile_at(old_levels, q).occupant == Some(g));
            }
        }
        assert forall|l: int, x: int, y: int|
            0 <= l < levels.len() && 0 <= x < levels[l].len() && 0 <= y < levels[l][x].len() && (
            #[trigger] levels[l][x][y]).occupant is Some implies {
            let g = levels[l][x][y].occupant->Some_0;
            let q = self.spec_creatures()[g].spec_position();
            &&& self.spec_creatures().dom().contains(g)
            &&& q.level == l && q.x == x && q.y == y
        } by {
            let at_to = l == to.level && x == to.x && y == to.y;
            let at_from = l == from.level && x == from.x && y == from.y;
            if !at_to && !at_from {
                assert(levels[l][x][y] == old_levels[l][x][y]);
                let g = levels[l][x][y].occupant->Some_0;
                assert(before.spec_creatures().dom().contains(g));
            }
        }
    }

    /// The level with the given index, when there is one.
    pub fn get_level(&self, level: usize) -> (r: Option<&TileMap>)
        ensures
            r is Some <==> level < self.spec_levels().len(),
            r matches Some(m) ==> m@ == self.spec_levels()[level as int],
    {
        if level < self.levels.len() {
            Some(&self.levels[level])
        } else {
            None
        }
    }

    /// A non-owning reference to the player's character.
    pub fn main_character(&self) -> (r: Handle)
        ensures
            r == self.spec_main_character(),
    {
        self.main_character
    }

    /// The registry of live creatures.
    pub fn creatures(&self) -> (r: &Arena<Creature>)
        ensures
            r@ == self.spec_creatures(),
            r.issued() == self.spec_issued(),
    {
        &self.creatures
    }
}

/// A `width` by `height` level of ground walled in on every side, with no
/// occupants.
fn box_level(width: usize, height: usize) -> (r: TileMap)
    requires
        width >= 1,
        height >= 1,
    ensures
        r.wf(),
        r.spec_is_vacant(),
        r@.len() == width,
        forall|x: int| 0 <= x < width ==> (#[trigger] r@[x]).len() == height,
        forall|x: int, y: int|
            0 <= x < width && 0 <= y < height ==> (#[trigger] r@[x][y]).tile_type == if is_border(
                width as int,
                height as int,
                x,
                y,
            ) {
                TileType::Wall
            } else {
                TileType::Ground
            },
{
    let mut columns: Vec<Vec<Tile>> = Vec::new();
    let mut x: usize = 0;
    while x < width
        invariant
            0 <= x <= width,
            columns@.len() == x,
            forall|i: int| 0 <= i < x ==> (#[trigger] columns@[i])@.len() == height,
            forall|i: int, j: int|
                0 <= i < x && 0 <= j < height ==> (#[trigger] columns@[i]@[j]).occupant is None,
            forall|i: int, j: int|
                0 <= i < x && 0 <= j < height ==> (#[trigger] columns@[i]@[j]).tile_type == if is_border(
                    width as int,
                    height as int,
                    i,
                    j,
                ) {
                    TileType::Wall
                } else {
                    TileType::Ground
                },
        decreases width - x,
    {
        let mut column: Vec<Tile> = Vec::new();
        let mut y: usize = 0;
        while y < height
            invariant
                0 <= x < width,
                0 <= y <= height,
                column@.len() == y,
                forall|j: int| 0 <= j < y ==> (#[trigger] column@[j]).occupant is None,
                forall|j: int|
                    0 <= j < y ==> (#[trigger] column@[j]).tile_type == if is_border(
                        width as int,
                        height as int,
                        x as int,
                        j,
                    ) {
                        TileType::Wall
                    } else {
                        TileType::Ground
                    },
            decreases height - y,
        {
            let border = x == 0 || y == 0 || x == width - 1 || y == height - 1;
            let tile_type = if border {
                TileType::Wall
            } else {
                TileType::Ground
            };
            column.push(Tile::new(tile_type));
            y += 1;
        }
        columns.push(column);
        x += 1;
    }
    let ghost view = columns@.map_values(|c: Vec<Tile>| c@);
    assert(forall|i: int| 0 <= i < width ==> #[trigger] view[i] == columns@[i]@);
    assert(is_rectangular(view));
    let r = TileMap::new(columns);
    assert(r@ == view);
    r
}

} // verus!
