use vstd::prelude::*;
use crate::fov::FovMap;
use crate::constants::{MAP_WIDTH, MAP_HEIGHT, ROOM_MAX_SIZE, ROOM_MIN_SIZE, MAX_ROOMS, MAX_ROOM_MONSTERS, MAX_ROOM_ITEMS};
use crate::dice::{random_bool, random_range};
use crate::position::Position;
use crate::element::{Element, make_orc, make_troll, make_potion, is_orc_at, is_troll_at, is_potion_at};

verus! {

/// One grid cell.
#[derive(Clone, Copy, Debug, PartialEq, Eq, Structural)]
pub struct Tile {
    pub block_movement: bool,
    pub block_sight: bool,
    pub explored: bool,
}

pub open spec fn floor_tile() -> Tile {
    Tile { block_movement: false, block_sight: false, explored: false }
}

pub open spec fn wall_tile() -> Tile {
    Tile { block_movement: true, block_sight: true, explored: false }
}

impl Tile {
    /// A floor tile: walkable, transparent, unexplored.
    pub fn empty() -> (r: Tile)
        ensures
            r == floor_tile(),
    {
        Tile { block_movement: false, block_sight: false, explored: false }
    }

    /// A wall tile: blocks movement and sight, unexplored.
    pub fn wall() -> (r: Tile)
        ensures
            r == wall_tile(),
    {
        Tile { block_movement: true, block_sight: true, explored: false }
    }
}

/// `s / 2` rounded toward zero.
pub open spec fn half(s: int) -> int {
    if s >= 0 {
        s / 2
    } else {
        -((-s) / 2)
    }
}

fn half_i64(s: i64) -> (r: i64)
    requires
        -4294967296 <= s <= 4294967294,
    ensures
        r == half(s as int),
        i32::MIN <= r <= i32::MAX,
{
    if s >= 0 {
        s / 2
    } else {
        -((-s) / 2)
    }
}

/// An axis-aligned rectangle; its interior `x1 < x < x2`, `y1 < y < y2` is
/// what a room carves.
#[derive(Clone, Copy, Debug, PartialEq, Eq, Structural)]
pub struct Rect {
    pub x1: i32,
    pub y1: i32,
    pub x2: i32,
    pub y2: i32,
}

impl Rect {
    /// Whether the two bounding boxes meet; touching edges count.
    pub open spec fn overlaps(&self, other: Rect) -> bool {
        self.x1 <= other.x2 && self.x2 >= other.x1 && self.y1 <= other.y2 && self.y2 >= other.y1
    }

    pub open spec fn interior_contains(&self, x: int, y: int) -> bool {
        self.x1 < x < self.x2 && self.y1 < y < self.y2
    }

    pub open spec fn center_spec(&self) -> (int, int) {
        (half(self.x1 + self.x2), half(self.y1 + self.y2))
    }

    /// The rectangle with top-left corner `(x, y)`, `w` wide and `h` high.
    pub fn new(x: i32, y: i32, w: i32, h: i32) -> (r: Rect)
        requires
            i32::MIN <= x + w <= i32::MAX,
            i32::MIN <= y + h <= i32::MAX,
        ensures
            r == (Rect { x1: x, y1: y, x2: (x + w) as i32, y2: (y + h) as i32 }),
    {
        Rect { x1: x, y1: y, x2: x + w, y2: y + h }
    }

    /// The center cell, each coordinate the midpoint rounded toward zero.
    pub fn center(&self) -> (r: (i32, i32))
        ensures
            r.0 == self.center_spec().0,
            r.1 == self.center_spec().1,
    {
        let center_x = half_i64(self.x1 as i64 + self.x2 as i64);
        let center_y = half_i64(self.y1 as i64 + self.y2 as i64);
        (center_x as i32, center_y as i32)
    }

    /// Whether the two bounding boxes meet; touching edges count.
    pub fn intersects_with(&self, other: &Rect) -> (r: bool)
        ensures
            r == self.overlaps(*other),
    {
        (self.x1 <= other.x2) && (self.x2 >= other.x1) && (self.y1 <= other.y2) && (self.y2 >= other.y1)
    }
}

/// The dungeon: a `width` by `height` array of tiles, indexed `[x][y]`.
#[derive(Debug)]
pub struct Grid {
    tiles: Vec<Vec<Tile>>,
}

impl Grid {
    pub closed spec fn cells(&self) -> Seq<Seq<Tile>> {
        Seq::new(self.tiles@.len(), |x: int| self.tiles@[x]@)
    }

    pub open spec fn width(&self) -> int {
        self.cells().len() as int
    }

    pub open spec fn height(&self) -> int {
        if self.cells().len() == 0 {
            0
        } else {
            self.cells()[0].len() as int
        }
    }

    pub open spec fn in_bounds(&self, x: int, y: int) -> bool {
        0 <= x < self.width() && 0 <= y < self.height()
    }

    /// Every column has the same height, and both dimensions fit an `i32`.
    pub open spec fn wf(&self) -> bool {
        &&& self.width() <= i32::MAX
        &&& self.height() <= i32::MAX
        &&& forall|x: int| 0 <= x < self.width() ==> #[trigger] self.cells()[x].len() == self.height()
    }

    pub open spec fn tile(&self, x: int, y: int) -> Tile {
        self.cells()[x][y]
    }

    proof fn lemma_cells(&self)
        ensures
            forall|x: int| 0 <= x < self.tiles@.len() ==> #[trigger] self.cells()[x] == self.tiles@[x]@,
            self.cells().len() == self.tiles@.len(),
            self.wf() ==> forall|x: int| 0 <= x < self.tiles@.len() ==> #[trigger] self.tiles@[x]@.len() == self.height(),
    {
        if self.wf() {
            assert forall|x: int| 0 <= x < self.tiles@.len() implies #[trigger] self.tiles@[x]@.len() == self.height() by {
                assert(self.cells()[x] == self.tiles@[x]@);
            }
        }
    }

    /// A grid of `width` columns and `height` rows, all walls.
    pub fn walls(width: i32, height: i32) -> (r: Grid)
        requires
            width >= 0,
            height >= 0,
        ensures
            r.wf(),
            r.width() == width,
            r.height() == if width == 0 { 0 } else { height as int },
            forall|x: int, y: int| r.in_bounds(x, y) ==> #[trigger] r.tile(x, y) == wall_tile(),
    {
        let mut tiles: Vec<Vec<Tile>> = Vec::new();
        let mut i: i32 = 0;
        while i < width
            invariant
                0 <= i <= width,
                height >= 0,
                tiles@.len() == i,
                forall|x: int| 0 <= x < i ==> (#[trigger] tiles@[x])@ == Seq::new(height as nat, |y: int| wall_tile()),
            decreases width - i,
        {
            let mut column: Vec<Tile> = Vec::new();
            let mut j: i32 = 0;
            assert(column@ =~= Seq::new(0, |y: int| wall_tile()));
            while j < height
                invariant
                    0 <= j <= height,
                    column@ == Seq::new(j as nat, |y: int| wall_tile()),
                decreases height - j,
            {
                column.push(Tile::wall());
                j = j + 1;
                assert(column@ =~= Seq::new(j as nat, |y: int| wall_tile()));
            }
            tiles.push(column);
            i = i + 1;
        }
        let r = Grid { tiles };
        proof { r.lemma_cells(); }
        r
    }

    pub fn get_width(&self) -> (r: usize)
        ensures
            r == self.width(),
    {
        proof { self.lemma_cells(); }
        self.tiles.len()
    }

    pub fn get_height(&self) -> (r: usize)
        ensures
            r == self.height(),
    {
        proof { self.lemma_cells(); }
        if self.tiles.len() == 0 {
            0
        } else {
            self.tiles[0].len()
        }
    }

    pub fn get(&self, x: i32, y: i32) -> (r: Tile)
        requires
            self.wf(),
            self.in_bounds(x as int, y as int),
        ensures
            r == self.tile(x as int, y as int),
    {
        proof { self.lemma_cells(); }
        self.tiles[x as usize][y as usize]
    }

    pub fn is_blocking(&self, x: i32, y: i32) -> (r: bool)
        requires
            self.wf(),
            self.in_bounds(x as int, y as int),
        ensures
            r == self.tile(x as int, y as int).block_movement,
    {
        self.get(x, y).block_movement
    }

    pub fn is_opaque(&self, x: i32, y: i32) -> (r: bool)
        requires
            self.wf(),
            self.in_bounds(x as int, y as int),
        ensures
            r == self.tile(x as int, y as int).block_sight,
    {
        self.get(x, y).block_sight
    }

    pub fn is_explored(&self, x: i32, y: i32) -> (r: bool)
        requires
            self.wf(),
            self.in_bounds(x as int, y as int),
        ensures
            r == self.tile(x as int, y as int).explored,
    {
        self.get(x, y).explored
    }

    /// Replaces the tile at `(x, y)`.
    pub fn set(&mut self, x: i32, y: i32, t: Tile)
        requires
            old(self).wf(),
            old(self).in_bounds(x as int, y as int),
        ensures
            final(self).wf(),
            final(self).width() == old(self).width(),
            final(self).height() == old(self).height(),
            forall|a: int, b: int| final(self).in_bounds(a, b) ==> #[trigger] final(self).tile(a, b) == if (a, b) == (
                x as int,
                y as int,
            ) {
                t
            } else {
                old(self).tile(a, b)
            },
    {
        proof { self.lemma_cells(); }
        self.tiles[x as usize][y as usize] = t;
        proof { self.lemma_cells(); }
        assert forall|a: int, b: int| self.in_bounds(a, b) implies #[trigger] self.tile(a, b) == if (a, b) == (
            x as int,
            y as int,
        ) {
            t
        } else {
            old(self).tile(a, b)
        } by {
            if a != x as int {
                assert(self.cells()[a] == old(self).cells()[a]);
            }
        }
    }
}

/// `after` is `before` with the interior of `room` carved to floor.
pub open spec fn room_carved(before: Grid, after: Grid, room: Rect) -> bool {
    &&& after.wf()
    &&& after.width() == before.width()
    &&& after.height() == before.height()
    &&& forall|a: int, b: int| after.in_bounds(a, b) ==> #[trigger] after.tile(a, b) == if room.interior_contains(a, b) {
        floor_tile()
    } else {
        before.tile(a, b)
    }
}

/// Carves the interior of `room` to floor.
pub fn create_room(room: Rect, map: &mut Grid)
    requires
        old(map).wf(),
        -1 <= room.x1 <= room.x2,
        room.x2 <= old(map).width(),
        -1 <= room.y1 <= room.y2,
        room.y2 <= old(map).height(),
    ensures
        room_carved(*old(map), *final(map), room),
{
    let ghost orig = *map;
    let mut x: i64 = room.x1 as i64 + 1;
    while x < room.x2 as i64
        invariant
            map.wf(),
            map.width() == orig.width() && map.height() == orig.height(),
            room.x1 + 1 <= x,
            -1 <= room.x1 && room.x2 <= orig.width() && -1 <= room.y1 && room.y2 <= orig.height(),
            forall|a: int, b: int| map.in_bounds(a, b) ==> #[trigger] map.tile(a, b) == if room.interior_contains(a, b) && a < x {
                floor_tile()
            } else {
                orig.tile(a, b)
            },
        decreases room.x2 - x,
    {
        let mut y: i64 = room.y1 as i64 + 1;
        while y < room.y2 as i64
            invariant
                map.wf(),
                map.width() == orig.width() && map.height() == orig.height(),
                room.x1 + 1 <= x < room.x2,
                room.y1 + 1 <= y,
                -1 <= room.x1 && room.x2 <= orig.width() && -1 <= room.y1 && room.y2 <= orig.height(),
                forall|a: int, b: int| map.in_bounds(a, b) ==> #[trigger] map.tile(a, b) == if room.interior_contains(a, b) && (a < x || (a == x && b < y)) {
                    floor_tile()
                } else {
                    orig.tile(a, b)
                },
            decreases room.y2 - y,
        {
            map.set(x as i32, y as i32, Tile::empty());
            y = y + 1;
        }
        x = x + 1;
    }
}

pub open spec fn min(a: int, b: int) -> int {
    if a <= b { a } else { b }
}

pub open spec fn max(a: int, b: int) -> int {
    if a <= b { b } else { a }
}

/// `after` is `before` with the cells `(x, y)`, `x` between `x1` and `x2`
/// inclusive, carved to floor.
pub open spec fn h_tunnel_carved(before: Grid, after: Grid, x1: int, x2: int, y: int) -> bool {
    &&& after.wf()
    &&& after.width() == before.width()
    &&& after.height() == before.height()
    &&& forall|a: int, b: int| after.in_bounds(a, b) ==> #[trigger] after.tile(a, b) == if b == y && min(x1, x2) <= a <= max(x1, x2) {
        floor_tile()
    } else {
        before.tile(a, b)
    }
}

/// `after` is `before` with the cells `(x, y)`, `y` between `y1` and `y2`
/// inclusive, carved to floor.
pub open spec fn v_tunnel_carved(before: Grid, after: Grid, y1: int, y2: int, x: int) -> bool {
    &&& after.wf()
    &&& after.width() == before.width()
    &&& after.height() == before.height()
    &&& forall|a: int, b: int| after.in_bounds(a, b) ==> #[trigger] after.tile(a, b) == if a == x && min(y1, y2) <= b <= max(y1, y2) {
        floor_tile()
    } else {
        before.tile(a, b)
    }
}

/// Carves the horizontal run from `x1` to `x2` (both included) on row `y`.
pub fn create_h_tunnel(x1: i32, x2: i32, y: i32, map: &mut Grid)
    requires
        old(map).wf(),
        old(map).in_bounds(x1 as int, y as int),
        old(map).in_bounds(x2 as int, y as int),
    ensures
        h_tunnel_carved(*old(map), *final(map), x1 as int, x2 as int, y as int),
{
    let ghost orig = *map;
    let lo = if x1 <= x2 { x1 } else { x2 };
    let hi = if x1 <= x2 { x2 } else { x1 };
    let mut x: i32 = lo;
    while x <= hi
        invariant
            map.wf(),
            map.width() == orig.width() && map.height() == orig.height(),
            lo == min(x1 as int, x2 as int) && hi == max(x1 as int, x2 as int),
            lo <= x <= hi + 1,
            orig.in_bounds(hi as int, y as int),
            orig.in_bounds(lo as int, y as int),
            forall|a: int, b: int| map.in_bounds(a, b) ==> #[trigger] map.tile(a, b) == if b == y && lo <= a < x {
                floor_tile()
            } else {
                orig.tile(a, b)
            },
        decreases hi + 1 - x,
    {
        map.set(x, y, Tile::empty());
        x = x + 1;
    }
}

/// Carves the vertical run from `y1` to `y2` (both included) on column `x`.
pub fn create_v_tunnel(y1: i32, y2: i32, x: i32, map: &mut Grid)
    requires
        old(map).wf(),
        old(map).in_bounds(x as int, y1 as int),
        old(map).in_bounds(x as int, y2 as int),
    ensures
        v_tunnel_carved(*old(map), *final(map), y1 as int, y2 as int, x as int),
{
    let ghost orig = *map;
    let lo = if y1 <= y2 { y1 } else { y2 };
    let hi = if y1 <= y2 { y2 } else { y1 };
    let mut y: i32 = lo;
    while y <= hi
        invariant
            map.wf(),
            map.width() == orig.width() && map.height() == orig.height(),
            lo == min(y1 as int, y2 as int) && hi == max(y1 as int, y2 as int),
            lo <= y <= hi + 1,
            orig.in_bounds(x as int, hi as int),
            orig.in_bounds(x as int, lo as int),
            forall|a: int, b: int| map.in_bounds(a, b) ==> #[trigger] map.tile(a, b) == if a == x && lo <= b < y {
                floor_tile()
            } else {
                orig.tile(a, b)
            },
        decreases hi + 1 - y,
    {
        map.set(x, y, Tile::empty());
        y = y + 1;
    }
}

/// `after` is `before` with every cell that `fov` has in sight marked explored.
pub open spec fn explored_from(before: Grid, after: Grid, fov: FovMap) -> bool {
    &&& after.wf()
    &&& after.width() == before.width()
    &&& after.height() == before.height()
    &&& forall|a: int, b: int| after.in_bounds(a, b) ==> #[trigger] after.tile(a, b) == (Tile {
        explored: before.tile(a, b).explored || fov.in_sight(a, b),
        ..before.tile(a, b)
    })
}

/// Marks explored every cell that the visibility map has in sight.
pub fn explore(map: &mut Grid, fov_map: &FovMap)
    requires
        old(map).wf(),
        fov_map.wf(),
        fov_map.width() == old(map).width(),
        fov_map.height() == old(map).height(),
    ensures
        explored_from(*old(map), *final(map), *fov_map),
{
    let ghost orig = *map;
    let width = map.get_width() as i32;
    let height = map.get_height() as i32;
    let mut x: i32 = 0;
    while x < width
        invariant
            map.wf(),
            fov_map.wf(),
            map.width() == orig.width() && map.height() == orig.height(),
            width == orig.width() && height == orig.height(),
            fov_map.width() == width && fov_map.height() == height,
            0 <= x <= width,
            forall|a: int, b: int| map.in_bounds(a, b) ==> #[trigger] map.tile(a, b) == if a < x {
                Tile { explored: orig.tile(a, b).explored || fov_map.in_sight(a, b), ..orig.tile(a, b) }
            } else {
                orig.tile(a, b)
            },
        decreases width - x,
    {
        let mut y: i32 = 0;
        while y < height
            invariant
                map.wf(),
                fov_map.wf(),
                map.width() == orig.width() && map.height() == orig.height(),
                width == orig.width() && height == orig.height(),
                fov_map.width() == width && fov_map.height() == height,
                0 <= x < width,
                0 <= y <= height,
                forall|a: int, b: int| map.in_bounds(a, b) ==> #[trigger] map.tile(a, b) == if a < x || (a == x && b < y) {
                    Tile { explored: orig.tile(a, b).explored || fov_map.in_sight(a, b), ..orig.tile(a, b) }
                } else {
                    orig.tile(a, b)
                },
            decreases height - y,
        {
            let is_visible = fov_map.is_in_sight(x, y);
            if is_visible {
                let t = map.get(x, y);
                map.set(x, y, Tile { explored: true, ..t });
            }
            y = y + 1;
        }
        x = x + 1;
    }
}

/// Once a cell is explored it stays explored: over any run of turns, each
/// folding some visibility map into the grid, a cell explored at turn `i`
/// is still explored at every later turn `j`.
pub proof fn lemma_explored_stays(grids: Seq<Grid>, fovs: Seq<FovMap>, i: int, j: int, x: int, y: int)
    requires
        grids.len() == fovs.len() + 1,
        forall|k: int| 0 <= k < fovs.len() ==> #[trigger] explored_from(grids[k], grids[k + 1], fovs[k]),
        0 <= i <= j < grids.len(),
        grids[i].in_bounds(x, y),
        grids[i].tile(x, y).explored,
    ensures
        grids[j].in_bounds(x, y),
        grids[j].tile(x, y).explored,
    decreases j - i,
{
    if i < j {
        assert(explored_from(grids[i], grids[i + 1], fovs[i]));
        lemma_explored_stays(grids, fovs, i + 1, j, x, y);
    }
}

/// Whether a blocking element stands at `(x, y)`.
pub open spec fn occupied(elements: Seq<Element>, x: int, y: int) -> bool {
    exists|k: int| 0 <= k < elements.len() && #[trigger] elements[k].block_movement && elements[k].position.x == x
        && elements[k].position.y == y
}

/// A wall, or a blocking element, stands at `(x, y)`.
pub fn is_blocked(x: i32, y: i32, map: &Grid, elements: &[Element]) -> (r: bool)
    requires
        map.wf(),
        map.in_bounds(x as int, y as int),
    ensures
        r == (map.tile(x as int, y as int).block_movement || occupied(elements@, x as int, y as int)),
{
    if map.get(x, y).block_movement {
        return true;
    }
    let mut k: usize = 0;
    while k < elements.len()
        invariant
            0 <= k <= elements@.len(),
            forall|j: int| 0 <= j < k ==> !(#[trigger] elements@[j].block_movement && elements@[j].position.x == x
                && elements@[j].position.y == y),
        decreases elements@.len() - k,
    {
        if elements[k].block_movement && elements[k].position.x == x && elements[k].position.y == y {
            return true;
        }
        k = k + 1;
    }
    false
}

/// The elements added after the first `n` stand on floor inside `room`.
pub open spec fn placed_in(map: Grid, elements: Seq<Element>, n: int, room: Rect) -> bool {
    forall|k: int| n <= k < elements.len() ==> {
        let p = #[trigger] elements[k].position;
        room.interior_contains(p.x as int, p.y as int) && map.in_bounds(p.x as int, p.y as int)
            && !map.tile(p.x as int, p.y as int).block_movement
    }
}

/// A kind of element that placement creates.
#[derive(Clone, Copy, Debug, PartialEq, Eq, Structural)]
pub enum Kind {
    Orc,
    Troll,
    Potion,
}

/// `e` is a fresh element of kind `k` standing at `(x, y)`.
pub open spec fn is_kind_at(e: Element, k: Kind, x: int, y: int) -> bool {
    match k {
        Kind::Orc => is_orc_at(e, x, y),
        Kind::Troll => is_troll_at(e, x, y),
        Kind::Potion => is_potion_at(e, x, y),
    }
}

/// The monster a roll in `[0, 100)` makes: an orc below 80, else a troll.
pub open spec fn monster_kind(roll: int) -> Kind {
    if roll < 80 {
        Kind::Orc
    } else {
        Kind::Troll
    }
}

/// The cells where a blocking element of `els` stands.
pub open spec fn blockers(els: Seq<Element>) -> Set<(int, int)> {
    Set::new(|p: (int, int)| occupied(els, p.0, p.1))
}

/// Monster draws `draws[i..]` placed in turn, with `taken` the cells already
/// held by blocking elements: a draw on a wall or a taken cell is skipped.
/// Returns `acc` extended with what was placed, and the cells then taken.
pub open spec fn monsters_placed(
    map: Grid,
    taken: Set<(int, int)>,
    draws: Seq<(i32, i32, i32)>,
    i: int,
    acc: Seq<(Kind, int, int)>,
) -> (Seq<(Kind, int, int)>, Set<(int, int)>)
    decreases draws.len() - i,
{
    if i < 0 || i >= draws.len() {
        (acc, taken)
    } else {
        let d = draws[i];
        let c = (d.0 as int, d.1 as int);
        if map.tile(c.0, c.1).block_movement || taken.contains(c) {
            monsters_placed(map, taken, draws, i + 1, acc)
        } else {
            monsters_placed(map, taken.insert(c), draws, i + 1, acc.push((monster_kind(d.2 as int), c.0, c.1)))
        }
    }
}

/// Potion draws `draws[i..]` placed in turn, skipping a draw on a wall or a
/// taken cell; returns `acc` extended with what was placed.
pub open spec fn potions_placed(
    map: Grid,
    taken: Set<(int, int)>,
    draws: Seq<(i32, i32)>,
    i: int,
    acc: Seq<(Kind, int, int)>,
) -> Seq<(Kind, int, int)>
    decreases draws.len() - i,
{
    if i < 0 || i >= draws.len() {
        acc
    } else {
        let c = (draws[i].0 as int, draws[i].1 as int);
        if map.tile(c.0, c.1).block_movement || taken.contains(c) {
            potions_placed(map, taken, draws, i + 1, acc)
        } else {
            potions_placed(map, taken, draws, i + 1, acc.push((Kind::Potion, c.0, c.1)))
        }
    }
}

/// What placing the monster draws, then the potion draws, appends to `els`.
pub open spec fn drawn_placements(
    map: Grid,
    els: Seq<Element>,
    monsters: Seq<(i32, i32, i32)>,
    items: Seq<(i32, i32)>,
) -> Seq<(Kind, int, int)> {
    let m = monsters_placed(map, blockers(els), monsters, 0, Seq::empty());
    potions_placed(map, m.1, items, 0, m.0)
}

/// The elements after the first `n0`: orcs or trolls up to `n0 + nm`, potions after.
pub open spec fn monsters_then_potions(els: Seq<Element>, n0: int, nm: int) -> bool {
    forall|k: int| n0 <= k < els.len() ==> if k < n0 + nm {
        is_orc_at(#[trigger] els[k], els[k].position.x as int, els[k].position.y as int) || is_troll_at(
            els[k],
            els[k].position.x as int,
            els[k].position.y as int,
        )
    } else {
        is_potion_at(els[k], els[k].position.x as int, els[k].position.y as int)
    }
}

/// No blocking element shares a cell with an element after the first `n0`.
pub open spec fn no_blocker_shares(els: Seq<Element>, n0: int) -> bool {
    forall|k: int, j: int| n0 <= k < els.len() && 0 <= j < els.len() && j != k && (#[trigger] els[j]).block_movement
        ==> els[j].position != (#[trigger] els[k]).position
}

/// The room interior lies inside the grid.
pub open spec fn room_inside(map: Grid, room: Rect) -> bool {
    &&& 0 <= room.x1
    &&& room.x1 + 1 < room.x2 < map.width()
    &&& 0 <= room.y1
    &&& room.y1 + 1 < room.y2 < map.height()
}

proof fn lemma_blockers_push(els: Seq<Element>, e: Element)
    ensures
        blockers(els.push(e)) == if e.block_movement {
            blockers(els).insert((e.position.x as int, e.position.y as int))
        } else {
            blockers(els)
        },
{
    let n = els.push(e);
    assert forall|p: (int, int)| blockers(n).contains(p) == (if e.block_movement {
        blockers(els).insert((e.position.x as int, e.position.y as int))
    } else {
        blockers(els)
    }).contains(p) by {
        if occupied(els, p.0, p.1) {
            let k = choose|k: int| 0 <= k < els.len() && #[trigger] els[k].block_movement && els[k].position.x == p.0
                && els[k].position.y == p.1;
            assert(n[k] == els[k]);
        }
        if occupied(n, p.0, p.1) {
            let k = choose|k: int| 0 <= k < n.len() && #[trigger] n[k].block_movement && n[k].position.x == p.0
                && n[k].position.y == p.1;
            if k < els.len() {
                assert(n[k] == els[k]);
            }
        }
        if e.block_movement && p == (e.position.x as int, e.position.y as int) {
            assert(n[els.len() as int] == e);
        }
    }
    assert(blockers(n) =~= (if e.block_movement {
        blockers(els).insert((e.position.x as int, e.position.y as int))
    } else {
        blockers(els)
    }));
}

/// Places drawn elements in `room`: each monster draw `(x, y, roll)` adds an
/// orc (`roll < 80`) or a troll at `(x, y)`, then each item draw `(x, y)` a
/// potion, a draw being skipped where a wall or a blocking element stands.
pub fn place_drawn(
    map: &Grid,
    room: Rect,
    elements: &mut Vec<Element>,
    monsters: &Vec<(i32, i32, i32)>,
    items: &Vec<(i32, i32)>,
)
    requires
        map.wf(),
        room_inside(*map, room),
        forall|i: int| 0 <= i < monsters@.len() ==> room.interior_contains(#[trigger] monsters@[i].0 as int, monsters@[i].1 as int),
        forall|i: int| 0 <= i < items@.len() ==> room.interior_contains(#[trigger] items@[i].0 as int, items@[i].1 as int),
    ensures
        ({
            let placed = drawn_placements(*map, old(elements)@, monsters@, items@);
            let n0 = old(elements)@.len() as int;
            &&& final(elements)@.len() == n0 + placed.len()
            &&& forall|k: int| 0 <= k < n0 ==> #[trigger] final(elements)@[k] == old(elements)@[k]
            &&& forall|j: int| 0 <= j < placed.len() ==> is_kind_at(
                #[trigger] final(elements)@[n0 + j],
                placed[j].0,
                placed[j].1,
                placed[j].2,
            )
        }),
        exists|nm: int| #![auto]
            0 <= nm <= monsters@.len() && final(elements)@.len() - old(elements)@.len() - nm <= items@.len()
                && monsters_then_potions(final(elements)@, old(elements)@.len() as int, nm),
        placed_in(*map, final(elements)@, old(elements)@.len() as int, room),
        no_blocker_shares(final(elements)@, old(elements)@.len() as int),
{
    let ghost n0 = elements@.len() as int;
    let ghost target_m = monsters_placed(*map, blockers(elements@), monsters@, 0, Seq::empty());
    let ghost mut acc: Seq<(Kind, int, int)> = Seq::empty();
    let mut i: usize = 0;
    while i < monsters.len()
        invariant
            map.wf(),
            room_inside(*map, room),
            forall|i: int| 0 <= i < monsters@.len() ==> room.interior_contains(#[trigger] monsters@[i].0 as int, monsters@[i].1 as int),
            0 <= i <= monsters@.len(),
            n0 == old(elements)@.len(),
            elements@.len() == n0 + acc.len(),
            acc.len() <= i,
            forall|k: int| 0 <= k < n0 ==> #[trigger] elements@[k] == old(elements)@[k],
            forall|j: int| 0 <= j < acc.len() ==> is_kind_at(#[trigger] elements@[n0 + j], acc[j].0, acc[j].1, acc[j].2),
            monsters_placed(*map, blockers(elements@), monsters@, i as int, acc) == target_m,
            monsters_then_potions(elements@, n0, acc.len() as int),
            placed_in(*map, elements@, n0, room),
            no_blocker_shares(elements@, n0),
        decreases monsters@.len() - i,
    {
        let (x, y, roll) = monsters[i];
        assert(room.interior_contains(monsters@[i as int].0 as int, monsters@[i as int].1 as int));
        let ghost before = elements@;
        if !is_blocked(x, y, map, elements.as_slice()) {
            let monster = if roll < 80 {
                make_orc(x, y)
            } else {
                make_troll(x, y)
            };
            elements.push(monster);
            proof {
                lemma_blockers_push(before, monster);
                assert(elements@[n0 + acc.len()] == monster);
                acc = acc.push((monster_kind(roll as int), x as int, y as int));
                assert(forall|k: int| 0 <= k < before.len() ==> #[trigger] elements@[k] == before[k]);
                assert forall|k: int, j: int| n0 <= k < elements@.len() && 0 <= j < elements@.len() && j != k
                    && (#[trigger] elements@[j]).block_movement implies elements@[j].position != (
                #[trigger] elements@[k]).position by {
                    if k == before.len() {
                        assert(occupied(before, elements@[j].position.x as int, elements@[j].position.y as int));
                    } else if j == before.len() {
                        assert(elements@[k] == before[k]);
                        assert(occupied(before, before[k].position.x as int, before[k].position.y as int));
                    } else {
                        assert(elements@[k] == before[k] && elements@[j] == before[j]);
                    }
                }
            }
        } else {
            proof {
                assert(blockers(elements@).contains((x as int, y as int)) == occupied(elements@, x as int, y as int));
            }
        }
        i = i + 1;
    }
    let ghost taken = blockers(elements@);
    let ghost nm = acc.len() as int;
    let mut t: usize = 0;
    while t < items.len()
        invariant
            map.wf(),
            room_inside(*map, room),
            forall|i: int| 0 <= i < items@.len() ==> room.interior_contains(#[trigger] items@[i].0 as int, items@[i].1 as int),
            0 <= t <= items@.len(),
            n0 == old(elements)@.len(),
            0 <= nm <= monsters@.len(),
            elements@.len() == n0 + acc.len(),
            acc.len() <= nm + t,
            nm <= acc.len(),
            forall|k: int| 0 <= k < n0 ==> #[trigger] elements@[k] == old(elements)@[k],
            forall|j: int| 0 <= j < acc.len() ==> is_kind_at(#[trigger] elements@[n0 + j], acc[j].0, acc[j].1, acc[j].2),
            blockers(elements@) == taken,
            target_m.1 == taken,
            potions_placed(*map, taken, items@, t as int, acc) == potions_placed(*map, target_m.1, items@, 0, target_m.0),
            monsters_then_potions(elements@, n0, nm),
            placed_in(*map, elements@, n0, room),
            no_blocker_shares(elements@, n0),
        decreases items@.len() - t,
    {
        let (x, y) = items[t];
        assert(room.interior_contains(items@[t as int].0 as int, items@[t as int].1 as int));
        let ghost before = elements@;
        if !is_blocked(x, y, map, elements.as_slice()) {
            let potion = make_potion(x, y);
            elements.push(potion);
            proof {
                lemma_blockers_push(before, potion);
                assert(elements@[n0 + acc.len()] == potion);
                acc = acc.push((Kind::Potion, x as int, y as int));
                assert(forall|k: int| 0 <= k < before.len() ==> #[trigger] elements@[k] == before[k]);
                assert forall|k: int, j: int| n0 <= k < elements@.len() && 0 <= j < elements@.len() && j != k
                    && (#[trigger] elements@[j]).block_movement implies elements@[j].position != (
                #[trigger] elements@[k]).position by {
                    if k == before.len() {
                        assert(occupied(before, elements@[j].position.x as int, elements@[j].position.y as int));
                    } else if j == before.len() {
                    } else {
                        assert(elements@[k] == before[k] && elements@[j] == before[j]);
                    }
                }
            }
        } else {
            proof {
                assert(blockers(elements@).contains((x as int, y as int)) == occupied(elements@, x as int, y as int));
            }
        }
        t = t + 1;
    }
    assert(0 <= nm <= monsters@.len() && elements@.len() - n0 - nm <= items@.len() && monsters_then_potions(
        elements@,
        n0,
        nm,
    ));
}

/// Scatters up to `max_monsters` monsters and `max_items` potions over the
/// interior of `room`: the counts and positions are drawn at random, and
/// `place_drawn` places them. Four monster rolls in five make orcs, the
/// rest trolls.
pub fn place_elements(map: &Grid, room: Rect, elements: &mut Vec<Element>, max_monsters: i32, max_items: i32)
    requires
        map.wf(),
        room_inside(*map, room),
        0 <= max_monsters < i32::MAX,
        0 <= max_items < i32::MAX,
    ensures
        forall|k: int| 0 <= k < old(elements)@.len() ==> #[trigger] final(elements)@[k] == old(elements)@[k],
        old(elements)@.len() <= final(elements)@.len(),
        exists|nm: int| #![auto]
            0 <= nm <= max_monsters && final(elements)@.len() - old(elements)@.len() - nm <= max_items
                && monsters_then_potions(final(elements)@, old(elements)@.len() as int, nm),
        placed_in(*map, final(elements)@, old(elements)@.len() as int, room),
        no_blocker_shares(final(elements)@, old(elements)@.len() as int),
{
    let num_monsters = random_range(0, max_monsters + 1);
    let mut monsters: Vec<(i32, i32, i32)> = Vec::new();
    let mut m: i32 = 0;
    while m < num_monsters
        invariant
            room_inside(*map, room),
            0 <= m <= num_monsters <= max_monsters,
            monsters@.len() == m,
            forall|i: int| 0 <= i < monsters@.len() ==> room.interior_contains(#[trigger] monsters@[i].0 as int, monsters@[i].1 as int),
        decreases num_monsters - m,
    {
        let x = random_range(room.x1 + 1, room.x2);
        let y = random_range(room.y1 + 1, room.y2);
        let roll = random_range(0, 100);
        monsters.push((x, y, roll));
        m = m + 1;
    }
    let num_items = random_range(0, max_items + 1);
    let mut items: Vec<(i32, i32)> = Vec::new();
    let mut t: i32 = 0;
    while t < num_items
        invariant
            room_inside(*map, room),
            0 <= t <= num_items <= max_items,
            items@.len() == t,
            forall|i: int| 0 <= i < items@.len() ==> room.interior_contains(#[trigger] items@[i].0 as int, items@[i].1 as int),
        decreases num_items - t,
    {
        let x = random_range(room.x1 + 1, room.x2);
        let y = random_range(room.y1 + 1, room.y2);
        items.push((x, y));
        t = t + 1;
    }
    place_drawn(map, room, elements, &monsters, &items);
}

/// A walkable cell of `map`.
pub open spec fn is_floor(map: Grid, c: (int, int)) -> bool {
    map.in_bounds(c.0, c.1) && !map.tile(c.0, c.1).block_movement
}

/// `b` is `a` or one of its four neighbours.
pub open spec fn step(a: (int, int), b: (int, int)) -> bool {
    (a.0 == b.0 && -1 <= a.1 - b.1 <= 1) || (a.1 == b.1 && -1 <= a.0 - b.0 <= 1)
}

/// `p` is a walk over floor cells of `map`, one step at a time.
pub open spec fn floor_path(map: Grid, p: Seq<(int, int)>) -> bool {
    &&& p.len() > 0
    &&& forall|i: int| 0 <= i < p.len() ==> is_floor(map, #[trigger] p[i])
    &&& forall|i: int| 0 <= i < p.len() - 1 ==> step(#[trigger] p[i], p[i + 1])
}

/// Some walk over floor cells of `map` leads from `a` to `b`.
pub open spec fn reachable(map: Grid, a: (int, int), b: (int, int)) -> bool {
    exists|p: Seq<(int, int)>| #[trigger] floor_path(map, p) && p[0] == a && p.last() == b
}

/// `after` has the dimensions of `before` and every floor cell of it.
pub open spec fn floor_kept(before: Grid, after: Grid) -> bool {
    &&& after.width() == before.width()
    &&& after.height() == before.height()
    &&& forall|a: int, b: int| #[trigger] is_floor(before, (a, b)) ==> is_floor(after, (a, b))
}

proof fn lemma_floor_kept_trans(g1: Grid, g2: Grid, g3: Grid)
    requires
        floor_kept(g1, g2),
        floor_kept(g2, g3),
    ensures
        floor_kept(g1, g3),
{
    assert forall|a: int, b: int| #[trigger] is_floor(g1, (a, b)) implies is_floor(g3, (a, b)) by {
        assert(is_floor(g2, (a, b)));
    }
}

/// Walks stay walks where floor is only ever added.
proof fn lemma_reachable_kept(before: Grid, after: Grid, a: (int, int), b: (int, int))
    requires
        floor_kept(before, after),
        reachable(before, a, b),
    ensures
        reachable(after, a, b),
{
    let p = choose|p: Seq<(int, int)>| #[trigger] floor_path(before, p) && p[0] == a && p.last() == b;
    assert forall|i: int| 0 <= i < p.len() implies is_floor(after, #[trigger] p[i]) by {
        assert(is_floor(before, p[i]));
        assert(is_floor(before, (p[i].0, p[i].1)));
    }
    assert(floor_path(after, p));
}

proof fn lemma_reachable_refl(map: Grid, a: (int, int))
    requires
        is_floor(map, a),
    ensures
        reachable(map, a, a),
{
    let p = seq![a];
    assert(floor_path(map, p));
}

/// The start of a walk is a floor cell.
proof fn lemma_reachable_from_floor(map: Grid, a: (int, int), b: (int, int))
    requires
        reachable(map, a, b),
    ensures
        is_floor(map, a),
{
    let p = choose|p: Seq<(int, int)>| #[trigger] floor_path(map, p) && p[0] == a && p.last() == b;
    assert(is_floor(map, p[0]));
}

proof fn lemma_reachable_join(map: Grid, a: (int, int), b: (int, int), c: (int, int))
    requires
        reachable(map, a, b),
        reachable(map, b, c),
    ensures
        reachable(map, a, c),
{
    let p = choose|p: Seq<(int, int)>| #[trigger] floor_path(map, p) && p[0] == a && p.last() == b;
    let q = choose|q: Seq<(int, int)>| #[trigger] floor_path(map, q) && q[0] == b && q.last() == c;
    let pq = p + q;
    assert forall|i: int| 0 <= i < pq.len() implies is_floor(map, #[trigger] pq[i]) by {
        if i < p.len() {
            assert(pq[i] == p[i]);
        } else {
            assert(pq[i] == q[i - p.len()]);
        }
    }
    assert forall|i: int| 0 <= i < pq.len() - 1 implies step(#[trigger] pq[i], pq[i + 1]) by {
        if i < p.len() - 1 {
            assert(pq[i] == p[i] && pq[i + 1] == p[i + 1]);
        } else if i == p.len() - 1 {
            assert(pq[i] == b && pq[i + 1] == q[0]);
        } else {
            assert(pq[i] == q[i - p.len()] && pq[i + 1] == q[i - p.len() + 1]);
        }
    }
    assert(floor_path(map, pq));
    assert(pq[0] == a);
    assert(pq.last() == c);
}

/// A run of floor along row `y` joins its two ends.
proof fn lemma_row_reachable(map: Grid, x1: int, x2: int, y: int)
    requires
        forall|x: int| min(x1, x2) <= x <= max(x1, x2) ==> #[trigger] is_floor(map, (x, y)),
    ensures
        reachable(map, (x1, y), (x2, y)),
{
    let n = if x1 <= x2 { x2 - x1 + 1 } else { x1 - x2 + 1 };
    let p = Seq::new(n as nat, |t: int| (if x1 <= x2 { x1 + t } else { x1 - t }, y));
    assert forall|i: int| 0 <= i < p.len() implies is_floor(map, #[trigger] p[i]) by {
        let x = if x1 <= x2 { x1 + i } else { x1 - i };
        assert(is_floor(map, (x, y)));
    }
    assert(floor_path(map, p));
    assert(p.last() == (x2, y));
}

/// A run of floor along column `x` joins its two ends.
proof fn lemma_column_reachable(map: Grid, y1: int, y2: int, x: int)
    requires
        forall|y: int| min(y1, y2) <= y <= max(y1, y2) ==> #[trigger] is_floor(map, (x, y)),
    ensures
        reachable(map, (x, y1), (x, y2)),
{
    let n = if y1 <= y2 { y2 - y1 + 1 } else { y1 - y2 + 1 };
    let p = Seq::new(n as nat, |t: int| (x, if y1 <= y2 { y1 + t } else { y1 - t }));
    assert forall|i: int| 0 <= i < p.len() implies is_floor(map, #[trigger] p[i]) by {
        let y = if y1 <= y2 { y1 + i } else { y1 - i };
        assert(is_floor(map, (x, y)));
    }
    assert(floor_path(map, p));
    assert(p.last() == (x, y2));
}

/// No two of `rooms` overlap (touching edges count as overlapping).
pub open spec fn rooms_apart(rooms: Seq<Rect>) -> bool {
    forall|i: int, j: int| 0 <= i < j < rooms.len() ==> !(#[trigger] rooms[i]).overlaps(#[trigger] rooms[j])
}

/// `room` lies inside a `width` by `height` grid, with sides between `min` and `max`.
pub open spec fn room_fits(room: Rect, width: int, height: int, min: int, max: int) -> bool {
    &&& 0 <= room.x1 && room.x1 + min <= room.x2 <= room.x1 + max && room.x2 < width
    &&& 0 <= room.y1 && room.y1 + min <= room.y2 <= room.y1 + max && room.y2 < height
}

/// Every tile is a fresh wall or floor, apart from exploration.
pub open spec fn walls_and_floors(map: Grid) -> bool {
    forall|a: int, b: int| map.in_bounds(a, b) ==> #[trigger] map.tile(a, b) == wall_tile() || map.tile(a, b) == floor_tile()
}

/// The interior of every room is floor.
pub open spec fn rooms_carved(map: Grid, rooms: Seq<Rect>) -> bool {
    forall|k: int, a: int, b: int| 0 <= k < rooms.len() && (#[trigger] rooms[k]).interior_contains(a, b) ==> map.in_bounds(a, b)
        && #[trigger] map.tile(a, b) == floor_tile()
}

/// `p` lies inside some room.
pub open spec fn in_some_room(p: Position, rooms: Seq<Rect>) -> bool {
    exists|j: int| 0 <= j < rooms.len() && (#[trigger] rooms[j]).interior_contains(p.x as int, p.y as int)
}

/// Every element after the first `n` stands inside some room.
pub open spec fn elements_in_rooms(elements: Seq<Element>, n: int, rooms: Seq<Rect>) -> bool {
    forall|k: int| n <= k < elements.len() ==> #[trigger] in_some_room(elements[k].position, rooms)
}

/// Cell `(a, b)` lies on the L-shaped corridor from `p` to `n`: along row
/// `p.1` and then column `n.0` when `row_first`, else along column `p.0` and
/// then row `n.1`; both ends included.
pub open spec fn on_corridor(p: (int, int), n: (int, int), row_first: bool, a: int, b: int) -> bool {
    if row_first {
        (b == p.1 && min(p.0, n.0) <= a <= max(p.0, n.0)) || (a == n.0 && min(p.1, n.1) <= b <= max(p.1, n.1))
    } else {
        (a == p.0 && min(p.1, n.1) <= b <= max(p.1, n.1)) || (b == n.1 && min(p.0, n.0) <= a <= max(p.0, n.0))
    }
}

/// Cell `(a, b)` is carved by the first `n` rooms: it lies in the interior of
/// one of them, or on the corridor joining room `k - 1` to room `k`, which
/// runs row first when `row_first[k]`.
pub open spec fn carved(rooms: Seq<Rect>, row_first: Seq<bool>, n: int, a: int, b: int) -> bool
    decreases n,
{
    if n <= 0 {
        false
    } else {
        carved(rooms, row_first, n - 1, a, b) || rooms[n - 1].interior_contains(a, b) || (n >= 2 && on_corridor(
            rooms[n - 2].center_spec(),
            rooms[n - 1].center_spec(),
            row_first[n - 1],
            a,
            b,
        ))
    }
}

/// The floor of `map` is exactly what `rooms` and their corridors carve,
/// the corridors running as `row_first` says; every other cell is a wall.
pub open spec fn carved_grid(map: Grid, rooms: Seq<Rect>, row_first: Seq<bool>) -> bool {
    &&& row_first.len() == rooms.len()
    &&& forall|a: int, b: int| map.in_bounds(a, b) ==> #[trigger] map.tile(a, b) == if carved(
        rooms,
        row_first,
        rooms.len() as int,
        a,
        b,
    ) {
        floor_tile()
    } else {
        wall_tile()
    }
}

proof fn lemma_carved_prefix(rooms: Seq<Rect>, row_first: Seq<bool>, r: Rect, d: bool, n: int)
    requires
        0 <= n <= rooms.len(),
        row_first.len() == rooms.len(),
    ensures
        forall|a: int, b: int| #[trigger] carved(rooms.push(r), row_first.push(d), n, a, b) == carved(rooms, row_first, n, a, b),
    decreases n,
{
    if n > 0 {
        lemma_carved_prefix(rooms, row_first, r, d, n - 1);
        assert(rooms.push(r)[n - 1] == rooms[n - 1]);
        assert(row_first.push(d)[n - 1] == row_first[n - 1]);
        if n >= 2 {
            assert(rooms.push(r)[n - 2] == rooms[n - 2]);
        }
        assert forall|a: int, b: int| #[trigger] carved(rooms.push(r), row_first.push(d), n, a, b) == carved(
            rooms,
            row_first,
            n,
            a,
            b,
        ) by {
            assert(carved(rooms.push(r), row_first.push(d), n - 1, a, b) == carved(rooms, row_first, n - 1, a, b));
        }
    }
}

proof fn lemma_carved_grows(rooms: Seq<Rect>, row_first: Seq<bool>, k: int, n: int, a: int, b: int)
    requires
        k <= n,
        carved(rooms, row_first, k, a, b),
    ensures
        carved(rooms, row_first, n, a, b),
    decreases n - k,
{
    if k < n {
        lemma_carved_grows(rooms, row_first, k, n - 1, a, b);
    }
}

/// Each room is joined to the room before it by an L-shaped corridor of floor.
pub proof fn lemma_corridor_is_floor(map: Grid, rooms: Seq<Rect>, row_first: Seq<bool>, k: int, a: int, b: int)
    requires
        carved_grid(map, rooms, row_first),
        1 <= k < rooms.len(),
        map.in_bounds(a, b),
        on_corridor(rooms[k - 1].center_spec(), rooms[k].center_spec(), row_first[k], a, b),
    ensures
        map.tile(a, b) == floor_tile(),
{
    assert(carved(rooms, row_first, k + 1, a, b));
    lemma_carved_grows(rooms, row_first, k + 1, rooms.len() as int, a, b);
}

proof fn lemma_carved_inside(rooms: Seq<Rect>, row_first: Seq<bool>, n: int, width: int, height: int, min_side: int, max_side: int, a: int, b: int)
    requires
        2 <= min_side,
        n <= rooms.len(),
        forall|k: int| 0 <= k < rooms.len() ==> room_fits(#[trigger] rooms[k], width, height, min_side, max_side),
        carved(rooms, row_first, n, a, b),
    ensures
        0 < a < width - 1,
        0 < b < height - 1,
    decreases n,
{
    if n > 0 {
        let r = rooms[n - 1];
        assert(room_fits(r, width, height, min_side, max_side));
        if carved(rooms, row_first, n - 1, a, b) {
            lemma_carved_inside(rooms, row_first, n - 1, width, height, min_side, max_side, a, b);
        } else if !r.interior_contains(a, b) {
            let q = rooms[n - 2];
            assert(room_fits(q, width, height, min_side, max_side));
        }
    }
}

/// Nothing on the grid's border is carved: border cells are walls.
pub proof fn lemma_border_is_wall(map: Grid, rooms: Seq<Rect>, row_first: Seq<bool>, min_side: int, max_side: int, a: int, b: int)
    requires
        carved_grid(map, rooms, row_first),
        2 <= min_side,
        forall|k: int| 0 <= k < rooms.len() ==> room_fits(#[trigger] rooms[k], map.width(), map.height(), min_side, max_side),
        map.in_bounds(a, b),
        a == 0 || b == 0 || a == map.width() - 1 || b == map.height() - 1,
    ensures
        map.tile(a, b) == wall_tile(),
{
    if carved(rooms, row_first, rooms.len() as int, a, b) {
        lemma_carved_inside(rooms, row_first, rooms.len() as int, map.width(), map.height(), min_side, max_side, a, b);
    }
}

/// `e` is a fresh orc, troll or potion.
pub open spec fn is_spawn(e: Element) -> bool {
    let x = e.position.x as int;
    let y = e.position.y as int;
    is_orc_at(e, x, y) || is_troll_at(e, x, y) || is_potion_at(e, x, y)
}

/// No two blocking elements, one of them after the first `n0`, share a cell.
pub open spec fn blockers_apart(els: Seq<Element>, n0: int) -> bool {
    forall|k: int, j: int| n0 <= k < els.len() && 0 <= j < els.len() && j != k && (#[trigger] els[j]).block_movement
        && (#[trigger] els[k]).block_movement ==> els[j].position != els[k].position
}

/// Whether `room` overlaps any of `rooms`.
fn overlaps_any(room: &Rect, rooms: &Vec<Rect>) -> (r: bool)
    ensures
        r == exists|k: int| 0 <= k < rooms@.len() && room.overlaps(#[trigger] rooms@[k]),
{
    let mut k: usize = 0;
    while k < rooms.len()
        invariant
            0 <= k <= rooms@.len(),
            forall|j: int| 0 <= j < k ==> !room.overlaps(#[trigger] rooms@[j]),
        decreases rooms@.len() - k,
    {
        if room.intersects_with(&rooms[k]) {
            return true;
        }
        k = k + 1;
    }
    false
}

/// Builds a `width` by `height` dungeon. `max_rooms` times a room with sides
/// drawn from `[room_min, room_max]` is placed at random; one that overlaps
/// an earlier room is dropped. Each room kept is carved, populated, and
/// joined to the room kept before it by an L-shaped corridor between their
/// centers. Returns the grid, the rooms kept and the center of the first.
#[verifier::rlimit(80)]
#[verifier::spinoff_prover]
pub fn generate(
    width: i32,
    height: i32,
    max_rooms: i32,
    room_min: i32,
    room_max: i32,
    max_monsters: i32,
    max_items: i32,
    elements: &mut Vec<Element>,
) -> (r: (Grid, Vec<Rect>, (i32, i32)))
    requires
        2 <= room_min <= room_max,
        room_max < width,
        room_max < height,
        0 <= max_monsters < i32::MAX,
        0 <= max_items < i32::MAX,
    ensures
        r.0.wf(),
        r.0.width() == width,
        r.0.height() == height,
        walls_and_floors(r.0),
        r.1@.len() <= if max_rooms < 0 { 0 } else { max_rooms as int },
        forall|k: int| 0 <= k < r.1@.len() ==> room_fits(#[trigger] r.1@[k], width as int, height as int, room_min as int, room_max as int),
        rooms_apart(r.1@),
        rooms_carved(r.0, r.1@),
        r.1@.len() > 0 ==> (r.2.0 as int, r.2.1 as int) == r.1@[0].center_spec(),
        forall|k: int| 0 <= k < r.1@.len() ==> reachable(r.0, (r.2.0 as int, r.2.1 as int), (#[trigger] r.1@[k]).center_spec()),
        forall|k: int| 0 <= k < old(elements)@.len() ==> #[trigger] final(elements)@[k] == old(elements)@[k],
        old(elements)@.len() <= final(elements)@.len(),
        elements_in_rooms(final(elements)@, old(elements)@.len() as int, r.1@),
        max_rooms >= 1 ==> r.1@.len() >= 1,
        r.1@.len() > 0 ==> is_floor(r.0, (r.2.0 as int, r.2.1 as int)),
        exists|row_first: Seq<bool>| #[trigger] carved_grid(r.0, r.1@, row_first),
        forall|k: int| old(elements)@.len() <= k < final(elements)@.len() ==> is_spawn(#[trigger] final(elements)@[k]),
        blockers_apart(final(elements)@, old(elements)@.len() as int),
{
    let mut map = Grid::walls(width, height);
    let ghost mut row_first: Seq<bool> = Seq::empty();
    let ghost n0 = elements@.len();
    let mut starting_position: (i32, i32) = (0, 0);
    let mut rooms: Vec<Rect> = Vec::new();
    let mut attempt: i32 = 0;
    while attempt < max_rooms
        invariant
            2 <= room_min <= room_max,
            room_max < width,
            room_max < height,
            0 <= max_monsters < i32::MAX,
            0 <= max_items < i32::MAX,
            0 <= attempt,
            attempt <= max_rooms || attempt == 0,
            map.wf(),
            map.width() == width,
            map.height() == height,
            walls_and_floors(map),
            rooms@.len() <= attempt,
            forall|k: int| 0 <= k < rooms@.len() ==> room_fits(#[trigger] rooms@[k], width as int, height as int, room_min as int, room_max as int),
            rooms_apart(rooms@),
            rooms_carved(map, rooms@),
            rooms@.len() > 0 ==> (starting_position.0 as int, starting_position.1 as int) == rooms@[0].center_spec(),
            forall|k: int| 0 <= k < rooms@.len() ==> reachable(
                map,
                (starting_position.0 as int, starting_position.1 as int),
                (#[trigger] rooms@[k]).center_spec(),
            ),
            forall|k: int| 0 <= k < n0 ==> #[trigger] elements@[k] == old(elements)@[k],
            n0 <= elements@.len(),
            elements_in_rooms(elements@, n0 as int, rooms@),
            attempt >= 1 ==> rooms@.len() >= 1,
            carved_grid(map, rooms@, row_first),
            forall|k: int| n0 <= k < elements@.len() ==> is_spawn(#[trigger] elements@[k]),
            blockers_apart(elements@, n0 as int),
        decreases max_rooms - attempt,
    {
        let w = random_range(room_min, room_max + 1);
        let h = random_range(room_min, room_max + 1);
        let x = random_range(0, width - w);
        let y = random_range(0, height - h);
        let new_room = Rect::new(x, y, w, h);
        let failed = overlaps_any(&new_room, &rooms);
        if !failed {
            let ghost map0 = map;
            create_room(new_room, &mut map);
            assert(walls_and_floors(map)) by {
                assert forall|a: int, b: int| map.in_bounds(a, b) implies #[trigger] map.tile(a, b) == wall_tile()
                    || map.tile(a, b) == floor_tile() by {
                    assert(map0.in_bounds(a, b));
                }
            }
            let ghost els_before = elements@;
            let ghost rooms_before = rooms@;
            place_elements(&map, new_room, elements, max_monsters, max_items);
            let (new_x, new_y) = new_room.center();
            let ghost map1 = map;
            let ghost mut map2 = map;
            let ghost mut d = true;
            assert(floor_kept(map0, map1));
            let ghost nc = (new_x as int, new_y as int);
            assert(is_floor(map1, nc));
            if rooms.len() == 0 {
                starting_position = (new_x, new_y);
                proof { lemma_reachable_refl(map, nc); }
            } else {
                let (prev_x, prev_y) = rooms[rooms.len() - 1].center();
                let ghost pc = (prev_x as int, prev_y as int);
                let ghost st = (starting_position.0 as int, starting_position.1 as int);
                assert(reachable(map0, st, rooms@[rooms@.len() - 1].center_spec()));
                if random_bool() {
                    create_h_tunnel(prev_x, new_x, prev_y, &mut map);
                    proof { map2 = map; }
                    create_v_tunnel(prev_y, new_y, new_x, &mut map);
                    proof {
                        assert(floor_kept(map1, map2));
                        assert(floor_kept(map2, map));
                        lemma_floor_kept_trans(map0, map1, map2);
                        lemma_floor_kept_trans(map0, map2, map);
                        lemma_reachable_kept(map0, map, st, pc);
                        assert forall|x: int| min(pc.0, nc.0) <= x <= max(pc.0, nc.0) implies #[trigger] is_floor(map, (x, pc.1)) by {
                            assert(is_floor(map2, (x, pc.1)));
                        }
                        lemma_row_reachable(map, pc.0, nc.0, pc.1);
                        lemma_column_reachable(map, pc.1, nc.1, nc.0);
                        lemma_reachable_join(map, st, pc, (nc.0, pc.1));
                        lemma_reachable_join(map, st, (nc.0, pc.1), nc);
                    }
                } else {
                    create_v_tunnel(prev_y, new_y, prev_x, &mut map);
                    proof { map2 = map; d = false; }
                    create_h_tunnel(prev_x, new_x, new_y, &mut map);
                    proof {
                        assert(floor_kept(map1, map2));
                        assert(floor_kept(map2, map));
                        lemma_floor_kept_trans(map0, map1, map2);
                        lemma_floor_kept_trans(map0, map2, map);
                        lemma_reachable_kept(map0, map, st, pc);
                        assert forall|y: int| min(pc.1, nc.1) <= y <= max(pc.1, nc.1) implies #[trigger] is_floor(map, (pc.0, y)) by {
                            assert(is_floor(map2, (pc.0, y)));
                        }
                        lemma_column_reachable(map, pc.1, nc.1, pc.0);
                        lemma_row_reachable(map, pc.0, nc.0, nc.1);
                        lemma_reachable_join(map, st, pc, (pc.0, nc.1));
                        lemma_reachable_join(map, st, (pc.0, nc.1), nc);
                    }
                }
            }
            let ghost rooms_old = rooms@;
            rooms.push(new_room);
            proof {
                let L = rooms_old.len() as int;
                lemma_carved_prefix(rooms_old, row_first, new_room, d, L);
                let rf = row_first.push(d);
                assert forall|a: int, b: int| map.in_bounds(a, b) implies #[trigger] map.tile(a, b) == if carved(
                    rooms@,
                    rf,
                    rooms@.len() as int,
                    a,
                    b,
                ) {
                    floor_tile()
                } else {
                    wall_tile()
                } by {
                    assert(map0.tile(a, b) == if carved(rooms_old, row_first, L, a, b) {
                        floor_tile()
                    } else {
                        wall_tile()
                    });
                    assert(map1.tile(a, b) == if new_room.interior_contains(a, b) {
                        floor_tile()
                    } else {
                        map0.tile(a, b)
                    });
                    assert(rooms@[L] == new_room);
                    assert(carved(rooms@, rf, L, a, b) == carved(rooms_old, row_first, L, a, b));
                    if L > 0 {
                        assert(rooms@[L - 1] == rooms_old[L - 1]);
                        assert(map2.tile(a, b) == map2.tile(a, b));
                        assert(map.tile(a, b) == if on_corridor(rooms@[L - 1].center_spec(), new_room.center_spec(), d, a, b) {
                            floor_tile()
                        } else {
                            map1.tile(a, b)
                        });
                    } else {
                        assert(map == map1);
                    }
                }
                row_first = rf;
            }
            assert forall|k: int| 0 <= k < rooms@.len() implies reachable(
                map,
                (starting_position.0 as int, starting_position.1 as int),
                (#[trigger] rooms@[k]).center_spec(),
            ) by {
                if k < rooms_old.len() {
                    assert(rooms@[k] == rooms_old[k]);
                    assert(reachable(map0, (starting_position.0 as int, starting_position.1 as int), rooms_old[k].center_spec()));
                    lemma_floor_kept_trans(map0, map1, map);
                    lemma_reachable_kept(map0, map, (starting_position.0 as int, starting_position.1 as int), rooms_old[k].center_spec());
                }
            }
            assert(elements_in_rooms(elements@, n0 as int, rooms@)) by {
                assert forall|k: int| n0 <= k < elements@.len() implies #[trigger] in_some_room(elements@[k].position, rooms@) by {
                    if k < els_before.len() {
                        assert(elements@[k] == els_before[k]);
                        assert(in_some_room(els_before[k].position, rooms_before));
                        let j = choose|j: int| 0 <= j < rooms_before.len() && (#[trigger] rooms_before[j]).interior_contains(
                            els_before[k].position.x as int,
                            els_before[k].position.y as int,
                        );
                        assert(rooms@[j] == rooms_before[j]);
                    } else {
                        assert(rooms@[rooms_before.len() as int] == new_room);
                    }
                }
            }
            proof {
                let nm = choose|nm: int| #![auto]
                    0 <= nm <= max_monsters && elements@.len() - els_before.len() - nm <= max_items
                        && monsters_then_potions(elements@, els_before.len() as int, nm);
                assert forall|k: int| n0 <= k < elements@.len() implies is_spawn(#[trigger] elements@[k]) by {
                    if k < els_before.len() {
                        assert(elements@[k] == els_before[k]);
                    }
                }
                assert forall|k: int, j: int| n0 <= k < elements@.len() && 0 <= j < elements@.len() && j != k
                    && (#[trigger] elements@[j]).block_movement && (#[trigger] elements@[k]).block_movement
                    implies elements@[j].position != elements@[k].position by {
                    if k < els_before.len() && j < els_before.len() {
                        assert(elements@[k] == els_before[k] && elements@[j] == els_before[j]);
                    }
                }
            }
        }
        attempt = attempt + 1;
    }
    proof {
        if rooms@.len() > 0 {
            lemma_reachable_from_floor(map, (starting_position.0 as int, starting_position.1 as int), rooms@[0].center_spec());
        }
    }
    (map, rooms, starting_position)
}

/// What `generate` promises of a dungeon built from these sizes: at most
/// `max_rooms` rooms and at least one when any is attempted, each inside the
/// grid with sides in `[room_min, room_max]`, no two overlapping; the floor is
/// exactly the rooms' interiors and the L-shaped corridors joining each room
/// to the one before; the start is the first room's center, a floor cell,
/// and every room's center is reachable from it over floor.
pub open spec fn laid_out(
    map: Grid,
    rooms: Seq<Rect>,
    start: (int, int),
    width: int,
    height: int,
    max_rooms: int,
    room_min: int,
    room_max: int,
) -> bool {
    &&& map.wf()
    &&& map.width() == width
    &&& map.height() == height
    &&& walls_and_floors(map)
    &&& rooms.len() <= if max_rooms < 0 { 0 } else { max_rooms }
    &&& forall|k: int| 0 <= k < rooms.len() ==> room_fits(#[trigger] rooms[k], width, height, room_min, room_max)
    &&& rooms_apart(rooms)
    &&& rooms_carved(map, rooms)
    &&& rooms.len() > 0 ==> start == rooms[0].center_spec()
    &&& forall|k: int| 0 <= k < rooms.len() ==> reachable(map, start, (#[trigger] rooms[k]).center_spec())
    &&& max_rooms >= 1 ==> rooms.len() >= 1
    &&& rooms.len() > 0 ==> is_floor(map, start)
    &&& exists|row_first: Seq<bool>| #[trigger] carved_grid(map, rooms, row_first)
}

/// Builds a dungeon of the game's fixed sizes; see `generate`.
pub fn generate_map(elements: &mut Vec<Element>) -> (r: (Grid, (i32, i32)))
    ensures
        exists|rooms: Seq<Rect>| #[trigger]
            laid_out(
                r.0,
                rooms,
                (r.1.0 as int, r.1.1 as int),
                MAP_WIDTH as int,
                MAP_HEIGHT as int,
                MAX_ROOMS as int,
                ROOM_MIN_SIZE as int,
                ROOM_MAX_SIZE as int,
            ) && elements_in_rooms(final(elements)@, old(elements)@.len() as int, rooms),
        forall|k: int| 0 <= k < old(elements)@.len() ==> #[trigger] final(elements)@[k] == old(elements)@[k],
        old(elements)@.len() <= final(elements)@.len(),
        forall|k: int| old(elements)@.len() <= k < final(elements)@.len() ==> is_spawn(#[trigger] final(elements)@[k]),
        blockers_apart(final(elements)@, old(elements)@.len() as int),
{
    let ghost n0 = elements@.len();
    let (map, rooms, start) = generate(
        MAP_WIDTH,
        MAP_HEIGHT,
        MAX_ROOMS,
        ROOM_MIN_SIZE,
        ROOM_MAX_SIZE,
        MAX_ROOM_MONSTERS,
        MAX_ROOM_ITEMS,
        elements,
    );
    let r = (map, start);
    assert(exists|rooms: Seq<Rect>| #[trigger]
        laid_out(
            r.0,
            rooms,
            (r.1.0 as int, r.1.1 as int),
            MAP_WIDTH as int,
            MAP_HEIGHT as int,
            MAX_ROOMS as int,
            ROOM_MIN_SIZE as int,
            ROOM_MAX_SIZE as int,
        ) && elements_in_rooms(elements@, n0 as int, rooms)) by {
        let witness = rooms@;
        assert(laid_out(
            r.0,
            witness,
            (r.1.0 as int, r.1.1 as int),
            MAP_WIDTH as int,
            MAP_HEIGHT as int,
            MAX_ROOMS as int,
            ROOM_MIN_SIZE as int,
            ROOM_MAX_SIZE as int,
        ));
        assert(elements_in_rooms(elements@, n0 as int, witness));
    }
    r
}

/// `after` is `before` with element `id` moved by `(dx, dy)`, or unchanged
/// if a wall or a blocking element stands there.
pub open spec fn moved(map: Grid, before: Seq<Element>, after: Seq<Element>, id: int, dx: int, dy: int) -> bool {
    let e = before[id];
    let x = e.position.x + dx;
    let y = e.position.y + dy;
    if map.tile(x, y).block_movement || occupied(before, x, y) {
        after == before
    } else {
        after == before.update(id, Element { position: Position { x: x as i32, y: y as i32 }, ..e })
    }
}

/// Moves element `id` by `(dx, dy)` unless the cell there is blocked.
pub fn move_by(id: usize, map: &Grid, elements: &mut Vec<Element>, dx: i32, dy: i32)
    requires
        map.wf(),
        id < old(elements)@.len(),
        map.in_bounds(
            old(elements)@[id as int].position.x + dx,
            old(elements)@[id as int].position.y + dy,
        ),
    ensures
        moved(*map, old(elements)@, final(elements)@, id as int, dx as int, dy as int),
{
    let (x, y) = elements[id].pos();
    if !is_blocked(x + dx, y + dy, map, elements.as_slice()) {
        elements[id].set_pos(x + dx, y + dy);
    }
    proof {
        let e = old(elements)@[id as int];
        if !(map.tile(x + dx, y + dy).block_movement || occupied(old(elements)@, x + dx, y + dy)) {
            assert(elements@ =~= old(elements)@.update(
                id as int,
                Element { position: Position { x: (x + dx) as i32, y: (y + dy) as i32 }, ..e },
            ));
        }
    }
}

} // verus!
