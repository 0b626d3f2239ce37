//! The tile grid and its procedural generation: rooms, tunnels, and the
//! occupancy test that movement and placement rely on.

use vstd::prelude::*;
use crate::object::{
    is_blocked, objects_wf, occupancy_ok, Ai, DeathCallback, Fighter, Item, Object,
};
use crate::render::Color;
use crate::rng::gen_range_inclusive;
use crate::PLAYER;

verus! {

/// Width of the tile grid, in tiles.
pub const MAP_WIDTH: i32 = 160;
/// Height of the tile grid, in tiles.
pub const MAP_HEIGHT: i32 = 93;

pub const ROOM_MAX_SIZE: i32 = 12;
pub const ROOM_MIN_SIZE: i32 = 8;
pub const MAX_ROOMS: i32 = 100;

pub const MAX_ROOM_MONSTERS: i32 = 3;
pub const MAX_ROOM_ITEMS: i32 = 2;

/// One cell of the grid. `blocked` and `block_sight` are fixed once the map
/// is generated; `explored` is set the first time the cell becomes visible
/// and never reset.
#[derive(Clone, Copy, Debug, PartialEq, Eq, Structural)]
pub struct Tile {
    pub blocked: bool,
    pub explored: bool,
    pub block_sight: bool,
}

impl Tile {
    /// A walkable, see-through tile.
    pub fn empty() -> (t: Tile)
        ensures
            t == (Tile { blocked: false, explored: false, block_sight: false }),
    {
        Tile { blocked: false, explored: false, block_sight: false }
    }

    /// A solid wall tile.
    pub fn wall() -> (t: Tile)
        ensures
            t == (Tile { blocked: true, explored: false, block_sight: true }),
    {
        Tile { blocked: true, explored: false, block_sight: true }
    }
}

/// The tile grid, indexed as `map[x][y]`.
pub type TileGrid = Vec<Vec<Tile>>;

/// The grid has exactly `MAP_WIDTH` columns of exactly `MAP_HEIGHT` tiles.
pub open spec fn map_wf(map: Seq<Vec<Tile>>) -> bool {
    &&& map.len() == MAP_WIDTH
    &&& forall|x: int| 0 <= x < map.len() ==> (#[trigger] map[x])@.len() == MAP_HEIGHT
}

/// An axis-aligned rectangle, used as a room's bounding box; `x2`/`y2` are
/// the exclusive carving limits (the carved interior is `x1+1..x2` by
/// `y1+1..y2`).
#[derive(Clone, Copy, Debug, PartialEq, Eq, Structural)]
pub struct Rect {
    pub x1: i32,
    pub y1: i32,
    pub x2: i32,
    pub y2: i32,
}

impl Rect {
    pub fn new(x: i32, y: i32, w: i32, h: i32) -> (r: Rect)
        requires
            i32::MIN <= x + w <= i32::MAX,
            i32::MIN <= y + h <= i32::MAX,
        ensures
            r.x1 == x && r.y1 == y && r.x2 == x + w && r.y2 == y + h,
    {
        Rect { x1: x, y1: y, x2: x + w, y2: y + h }
    }

    /// The rectangle's center point.
    pub fn center(&self) -> (c: (i32, i32))
        requires
            self.x1 + self.x2 <= i32::MAX,
            self.y1 + self.y2 <= i32::MAX,
            self.x1 + self.x2 >= 0,
            self.y1 + self.y2 >= 0,
        ensures
            c.0 == (self.x1 + self.x2) / 2,
            c.1 == (self.y1 + self.y2) / 2,
    {
        let c_x = (self.x1 + self.x2) / 2;
        let c_y = (self.y1 + self.y2) / 2;
        (c_x, c_y)
    }

    /// Whether the two bounding rectangles overlap; touching edges count as
    /// an overlap.
    pub fn intersects_with(&self, other: &Rect) -> (r: bool)
        ensures
            r == self.spec_intersects(*other),
    {
        (self.x1 <= other.x2) && (self.x2 >= other.x1) && (self.y1 <= other.y2) && (self.y2
            >= other.y1)
    }

    pub open spec fn spec_intersects(self, other: Rect) -> bool {
        self.x1 <= other.x2 && self.x2 >= other.x1 && self.y1 <= other.y2 && self.y2 >= other.y1
    }
}

/// A room fits on the grid and is large enough for its center to lie in
/// its carved interior.
pub open spec fn room_in_bounds(r: Rect) -> bool {
    &&& 0 <= r.x1
    &&& r.x1 + 2 <= r.x2 < MAP_WIDTH
    &&& 0 <= r.y1
    &&& r.y1 + 2 <= r.y2 < MAP_HEIGHT
}

/// Write one tile of the grid.
pub(crate) fn set_tile(map: &mut TileGrid, x: i32, y: i32, t: Tile)
    requires
        map_wf(old(map)@),
        0 <= x < MAP_WIDTH,
        0 <= y < MAP_HEIGHT,
    ensures
        map_wf(final(map)@),
        forall|i: int, j: int|
            0 <= i < MAP_WIDTH && 0 <= j < MAP_HEIGHT ==> #[trigger] final(map)@[i]@[j] == if i == x
                && j == y {
                t
            } else {
                old(map)@[i]@[j]
            },
{
    let column: &mut Vec<Tile> = &mut map[x as usize];
    column[y as usize] = t;
}

/// Carve the interior of `room` (exclusive of its border) to empty floor.
pub fn create_room(room: Rect, map: &mut TileGrid)
    requires
        map_wf(old(map)@),
        room_in_bounds(room),
    ensures
        map_wf(final(map)@),
        forall|i: int, j: int|
            0 <= i < MAP_WIDTH && 0 <= j < MAP_HEIGHT ==> #[trigger] final(map)@[i]@[j] == if room.x1
                < i < room.x2 && room.y1 < j < room.y2 {
                (Tile { blocked: false, explored: false, block_sight: false })
            } else {
                old(map)@[i]@[j]
            },
{
    let mut x = room.x1 + 1;
    while x < room.x2
        invariant
            map_wf(map@),
            room_in_bounds(room),
            room.x1 < x <= room.x2,
            forall|i: int, j: int|
                0 <= i < MAP_WIDTH && 0 <= j < MAP_HEIGHT ==> #[trigger] map@[i]@[j] == if room.x1
                    < i < x && room.y1 < j < room.y2 {
                    (Tile { blocked: false, explored: false, block_sight: false })
                } else {
                    old(map)@[i]@[j]
                },
        decreases room.x2 - x,
    {
        let mut y = room.y1 + 1;
        while y < room.y2
            invariant
                map_wf(map@),
                room_in_bounds(room),
                room.x1 < x < room.x2,
                room.y1 < y <= room.y2,
                forall|i: int, j: int|
                    0 <= i < MAP_WIDTH && 0 <= j < MAP_HEIGHT ==> #[trigger] map@[i]@[j] == if (
                    room.x1 < i < x && room.y1 < j < room.y2) || (i == x && room.y1 < j < y) {
                        (Tile { blocked: false, explored: false, block_sight: false })
                    } else {
                        old(map)@[i]@[j]
                    },
            decreases room.y2 - y,
        {
            set_tile(map, x, y, Tile::empty());
            y = y + 1;
        }
        x = x + 1;
    }
}

/// Carve a horizontal corridor from `x1` to `x2` (inclusive ends) at
/// height `y`.
pub fn create_h_tunnel(x1: i32, x2: i32, y: i32, map: &mut TileGrid)
    requires
        map_wf(old(map)@),
        0 <= x1 < MAP_WIDTH,
        0 <= x2 < MAP_WIDTH,
        0 <= y < MAP_HEIGHT,
    ensures
        map_wf(final(map)@),
        forall|i: int, j: int|
            0 <= i < MAP_WIDTH && 0 <= j < MAP_HEIGHT ==> #[trigger] final(map)@[i]@[j] == if (if x1
                <= x2 {
                x1 <= i <= x2
            } else {
                x2 <= i <= x1
            }) && j == y {
                (Tile { blocked: false, explored: false, block_sight: false })
            } else {
                old(map)@[i]@[j]
            },
{
    let lo = if x1 < x2 {
        x1
    } else {
        x2
    };
    let hi = if x1 < x2 {
        x2
    } else {
        x1
    };
    let mut x = lo;
    while x <= hi
        invariant
            map_wf(map@),
            0 <= lo <= x <= hi + 1,
            hi < MAP_WIDTH,
            0 <= y < MAP_HEIGHT,
            forall|i: int, j: int|
                0 <= i < MAP_WIDTH && 0 <= j < MAP_HEIGHT ==> #[trigger] map@[i]@[j] == if lo <= i
                    < x && j == y {
                    (Tile { blocked: false, explored: false, block_sight: false })
                } else {
                    old(map)@[i]@[j]
                },
        decreases hi + 1 - x,
    {
        set_tile(map, x, y, Tile::empty());
        x = x + 1;
    }
}

/// Carve a vertical corridor from `y1` to `y2` (inclusive ends) at
/// column `x`.
pub fn create_v_tunnel(y1: i32, y2: i32, x: i32, map: &mut TileGrid)
    requires
        map_wf(old(map)@),
        0 <= y1 < MAP_HEIGHT,
        0 <= y2 < MAP_HEIGHT,
        0 <= x < MAP_WIDTH,
    ensures
        map_wf(final(map)@),
        forall|i: int, j: int|
            0 <= i < MAP_WIDTH && 0 <= j < MAP_HEIGHT ==> #[trigger] final(map)@[i]@[j] == if (if y1
                <= y2 {
                y1 <= j <= y2
            } else {
                y2 <= j <= y1
            }) && i == x {
                (Tile { blocked: false, explored: false, block_sight: false })
            } else {
                old(map)@[i]@[j]
            },
{
    let lo = if y1 < y2 {
        y1
    } else {
        y2
    };
    let hi = if y1 < y2 {
        y2
    } else {
        y1
    };
    let mut y = lo;
    while y <= hi
        invariant
            map_wf(map@),
            0 <= lo <= y <= hi + 1,
            hi < MAP_HEIGHT,
            0 <= x < MAP_WIDTH,
            forall|i: int, j: int|
                0 <= i < MAP_WIDTH && 0 <= j < MAP_HEIGHT ==> #[trigger] map@[i]@[j] == if lo <= j
                    < y && i == x {
                    (Tile { blocked: false, explored: false, block_sight: false })
                } else {
                    old(map)@[i]@[j]
                },
        decreases hi + 1 - y,
    {
        set_tile(map, x, y, Tile::empty());
        y = y + 1;
    }
}

/// A monster as the generator spawns it: an orc or a troll, alive,
/// blocking, with the basic chase AI and the species' combat stats.
pub open spec fn spawned_monster(o: Object) -> bool {
    &&& o.blocks
    &&& o.alive
    &&& o.ai == Some(Ai::Basic)
    &&& o.item is None
    &&& {
        ||| (o.glyph == 'o' && o.name@ == "orc"@ && o.color == Color::DesaturatedGreen && o.fighter
            == Some(
            Fighter { max_hp: 10, hp: 10, defense: 0, power: 3, on_death: DeathCallback::Monster },
        ))
        ||| (o.glyph == 'T' && o.name@ == "Troll"@ && o.color == Color::DarkerGreen && o.fighter
            == Some(
            Fighter { max_hp: 16, hp: 16, defense: 1, power: 4, on_death: DeathCallback::Monster },
        ))
    }
}

/// An item as the generator spawns it: inert on the floor, carrying one of
/// the three item effects.
pub open spec fn spawned_item(o: Object) -> bool {
    &&& !o.blocks
    &&& !o.alive
    &&& o.fighter is None
    &&& o.ai is None
    &&& {
        ||| (o.glyph == '!' && o.name@ == "healing potion"@ && o.color == Color::Violet && o.item
            == Some(Item::Heal))
        ||| (o.glyph == '#' && o.name@ == "scroll of lightning bolt"@ && o.color
            == Color::LightYellow && o.item == Some(Item::Lightning))
        ||| (o.glyph == '#' && o.name@ == "scroll of confusion"@ && o.color == Color::LightYellow
            && o.item == Some(Item::Confuse))
    }
}

/// Populate `room` with a random handful of monsters and items, each on a
/// sampled in-room tile, skipping (not retrying) tiles that are already
/// occupied. The occupancy invariant is preserved and everything already in
/// the roster stays as it is.
pub fn place_objects(room: Rect, map: &TileGrid, objects: &mut Vec<Object>)
    requires
        map_wf(map@),
        room_in_bounds(room),
        objects_wf(old(objects)@),
        occupancy_ok(map@, old(objects)@),
        forall|i: int, j: int|
            room.x1 < i < room.x2 && room.y1 < j < room.y2 ==> !(#[trigger] map@[i]@[j]).blocked,
    ensures
        objects_wf(final(objects)@),
        occupancy_ok(map@, final(objects)@),
        final(objects)@.len() >= old(objects)@.len(),
        final(objects)@.len() <= old(objects)@.len() + MAX_ROOM_MONSTERS + MAX_ROOM_ITEMS,
        final(objects)@.subrange(0, old(objects)@.len() as int) == old(objects)@,
        forall|k: int|
            old(objects)@.len() <= k < final(objects)@.len() ==> {
                let o = #[trigger] final(objects)@[k];
                &&& spawned_monster(o) || spawned_item(o)
                &&& room.x1 < o.x < room.x2
                &&& room.y1 < o.y < room.y2
            },
{
    let ghost len0 = objects@.len();
    let num_monsters = gen_range_inclusive(0, MAX_ROOM_MONSTERS);
    let mut n: i32 = 0;
    while n < num_monsters
        invariant
            map_wf(map@),
            room_in_bounds(room),
            objects_wf(objects@),
            occupancy_ok(map@, objects@),
            objects@.len() >= len0,
            0 <= n <= num_monsters <= MAX_ROOM_MONSTERS,
            objects@.len() <= len0 + n,
            objects@.subrange(0, len0 as int) == old(objects)@,
            len0 == old(objects)@.len(),
            forall|i: int, j: int|
                room.x1 < i < room.x2 && room.y1 < j < room.y2 ==> !(
                #[trigger] map@[i]@[j]).blocked,
            forall|k: int|
                len0 <= k < objects@.len() ==> {
                    let o = #[trigger] objects@[k];
                    &&& spawned_monster(o) || spawned_item(o)
                    &&& room.x1 < o.x < room.x2
                    &&& room.y1 < o.y < room.y2
                },
        decreases num_monsters - n,
    {
        let x = gen_range_inclusive(room.x1 + 1, room.x2 - 1);
        let y = gen_range_inclusive(room.y1 + 1, room.y2 - 1);
        if !is_blocked(x, y, map, objects) {
            let roll = gen_range_inclusive(0, 99);
            let mut monster = if roll < 80 {
                let mut orc = Object::new(x, y, 'o', "orc", Color::DesaturatedGreen, true);
                orc.fighter = Some(
                    Fighter {
                        max_hp: 10,
                        hp: 10,
                        defense: 0,
                        power: 3,
                        on_death: DeathCallback::Monster,
                    },
                );
                orc.ai = Some(Ai::Basic);
                orc
            } else {
                let mut troll = Object::new(x, y, 'T', "Troll", Color::DarkerGreen, true);
                troll.fighter = Some(
                    Fighter {
                        max_hp: 16,
                        hp: 16,
                        defense: 1,
                        power: 4,
                        on_death: DeathCallback::Monster,
                    },
                );
                troll.ai = Some(Ai::Basic);
                troll
            };
            monster.alive = true;
            objects.push(monster);
            proof {
                assert(objects@.subrange(0, len0 as int) =~= old(objects)@);
            }
        }
        n = n + 1;
    }
    let num_items = gen_range_inclusive(0, MAX_ROOM_ITEMS);
    let mut n2: i32 = 0;
    while n2 < num_items
        invariant
            map_wf(map@),
            room_in_bounds(room),
            objects_wf(objects@),
            occupancy_ok(map@, objects@),
            objects@.len() >= len0,
            0 <= n2 <= num_items <= MAX_ROOM_ITEMS,
            objects@.len() <= len0 + MAX_ROOM_MONSTERS + n2,
            objects@.subrange(0, len0 as int) == old(objects)@,
            len0 == old(objects)@.len(),
            forall|i: int, j: int|
                room.x1 < i < room.x2 && room.y1 < j < room.y2 ==> !(
                #[trigger] map@[i]@[j]).blocked,
            forall|k: int|
                len0 <= k < objects@.len() ==> {
                    let o = #[trigger] objects@[k];
                    &&& spawned_monster(o) || spawned_item(o)
                    &&& room.x1 < o.x < room.x2
                    &&& room.y1 < o.y < room.y2
                },
        decreases num_items - n2,
    {
        let x = gen_range_inclusive(room.x1 + 1, room.x2 - 1);
        let y = gen_range_inclusive(room.y1 + 1, room.y2 - 1);
        if !is_blocked(x, y, map, objects) {
            let dice = gen_range_inclusive(0, 99);
            let item = if dice < 70 {
                let mut object = Object::new(x, y, '!', "healing potion", Color::Violet, false);
                object.item = Some(Item::Heal);
                object
            } else if dice < 80 {
                let mut object = Object::new(
                    x,
                    y,
                    '#',
                    "scroll of lightning bolt",
                    Color::LightYellow,
                    false,
                );
                object.item = Some(Item::Lightning);
                object
            } else {
                let mut object = Object::new(
                    x,
                    y,
                    '#',
                    "scroll of confusion",
                    Color::LightYellow,
                    false,
                );
                object.item = Some(Item::Confuse);
                object
            };
            objects.push(item);
            proof {
                assert(objects@.subrange(0, len0 as int) =~= old(objects)@);
            }
        }
        n2 = n2 + 1;
    }
}

/// Whether `candidate` overlaps any accepted room.
fn intersects_any(rooms: &Vec<Rect>, candidate: &Rect) -> (r: bool)
    ensures
        r == exists|i: int|
            0 <= i < rooms@.len() && candidate.spec_intersects(#[trigger] rooms@[i]),
{
    let mut i: usize = 0;
    while i < rooms.len()
        invariant
            i <= rooms@.len(),
            forall|k: int| 0 <= k < i ==> !candidate.spec_intersects(#[trigger] rooms@[k]),
        decreases rooms@.len() - i,
    {
        if candidate.intersects_with(&rooms[i]) {
            return true;
        }
        i = i + 1;
    }
    false
}

/// A grid of solid wall, with the fixed map dimensions.
fn full_wall_grid() -> (map: TileGrid)
    ensures
        map_wf(map@),
        forall|i: int, j: int|
            0 <= i < MAP_WIDTH && 0 <= j < MAP_HEIGHT ==> (#[trigger] map@[i]@[j]).blocked,
{
    let mut map: TileGrid = Vec::new();
    while map.len() < MAP_WIDTH as usize
        invariant
            map@.len() <= MAP_WIDTH,
            forall|i: int|
                0 <= i < map@.len() ==> {
                    &&& (#[trigger] map@[i])@.len() == MAP_HEIGHT
                    &&& forall|j: int| 0 <= j < MAP_HEIGHT ==> (#[trigger] map@[i]@[j]).blocked
                },
        decreases MAP_WIDTH - map@.len(),
    {
        let mut column: Vec<Tile> = Vec::new();
        while column.len() < MAP_HEIGHT as usize
            invariant
                column@.len() <= MAP_HEIGHT,
                forall|j: int| 0 <= j < column@.len() ==> (#[trigger] column@[j]).blocked,
            decreases MAP_HEIGHT - column@.len(),
        {
            column.push(Tile::wall());
        }
        map.push(column);
    }
    map
}

/// The player keeps everything but its position.
pub open spec fn same_but_pos(a: Object, b: Object) -> bool {
    b == (Object { x: b.x, y: b.y, ..a })
}

/// Whatever `m0` had walkable, `m1` still has walkable: carving opens
/// tiles up and never closes one.
pub open spec fn only_unblocks(m0: Seq<Vec<Tile>>, m1: Seq<Vec<Tile>>) -> bool {
    forall|i: int, j: int|
        0 <= i < MAP_WIDTH && 0 <= j < MAP_HEIGHT && !(#[trigger] m0[i]@[j]).blocked ==> !(
        #[trigger] m1[i]@[j]).blocked
}

/// Carving can only open tiles up, so it never breaks the occupancy
/// invariant.
proof fn lemma_carve_preserves_occupancy(m0: Seq<Vec<Tile>>, m1: Seq<Vec<Tile>>, objects: Seq<Object>)
    requires
        occupancy_ok(m0, objects),
        only_unblocks(m0, m1),
    ensures
        occupancy_ok(m1, objects),
{
    assert forall|i: int| 0 <= i < objects.len() implies {
        let o = #[trigger] objects[i];
        0 <= o.x < MAP_WIDTH && 0 <= o.y < MAP_HEIGHT && !m1[o.x as int]@[o.y as int].blocked
    } by {
        let o = objects[i];
        assert(!m0[o.x as int]@[o.y as int].blocked);
    }
}

/// The entity stands strictly inside the carved interior of `r`.
pub open spec fn in_room_interior(o: Object, r: Rect) -> bool {
    r.x1 < o.x < r.x2 && r.y1 < o.y < r.y2
}

/// The entity stands inside some accepted room other than the first: the
/// generator never populates the player's starting room.
pub open spec fn in_some_later_room(o: Object, rooms: Seq<Rect>) -> bool {
    exists|ri: int| 1 <= ri < rooms.len() && in_room_interior(o, #[trigger] rooms[ri])
}

/// Accepting a further room keeps every entity's home room in the list.
proof fn lemma_later_room_push(o: Object, rooms: Seq<Rect>, room: Rect)
    requires
        in_some_later_room(o, rooms),
    ensures
        in_some_later_room(o, rooms.push(room)),
{
    let ri = choose|ri: int| 1 <= ri < rooms.len() && in_room_interior(o, #[trigger] rooms[ri]);
    assert(rooms.push(room)[ri] == rooms[ri]);
}

/// Every tile of the horizontal segment at height `y` between `x1` and
/// `x2` (inclusive ends, either order) is walkable.
pub open spec fn h_corridor_clear(map: Seq<Vec<Tile>>, x1: int, x2: int, y: int) -> bool {
    forall|i: int|
        (if x1 <= x2 {
            x1 <= i <= x2
        } else {
            x2 <= i <= x1
        }) ==> !(#[trigger] map[i])@[y].blocked
}

/// Every tile of the vertical segment at column `x` between `y1` and `y2`
/// (inclusive ends, either order) is walkable.
pub open spec fn v_corridor_clear(map: Seq<Vec<Tile>>, y1: int, y2: int, x: int) -> bool {
    forall|j: int|
        (if y1 <= y2 {
            y1 <= j <= y2
        } else {
            y2 <= j <= y1
        }) ==> !(#[trigger] map[x]@[j]).blocked
}

/// The centers of `a` and `b` are joined by one horizontal and one
/// vertical walkable corridor segment, meeting at one of the two possible
/// elbows.
pub open spec fn centers_joined(map: Seq<Vec<Tile>>, a: Rect, b: Rect) -> bool {
    let ax = (a.x1 + a.x2) / 2;
    let ay = (a.y1 + a.y2) / 2;
    let bx = (b.x1 + b.x2) / 2;
    let by = (b.y1 + b.y2) / 2;
    ||| (h_corridor_clear(map, ax, bx, ay) && v_corridor_clear(map, ay, by, bx))
    ||| (v_corridor_clear(map, ay, by, ax) && h_corridor_clear(map, ax, bx, by))
}

/// The center of an in-bounds room lies strictly inside it, on the grid.
proof fn lemma_center_in_bounds(r: Rect)
    requires
        room_in_bounds(r),
    ensures
        r.x1 < (r.x1 + r.x2) / 2 < r.x2,
        r.y1 < (r.y1 + r.y2) / 2 < r.y2,
        0 <= (r.x1 + r.x2) / 2 < MAP_WIDTH,
        0 <= (r.y1 + r.y2) / 2 < MAP_HEIGHT,
{
}

/// Later carving only opens tiles up, so joined centers stay joined.
proof fn lemma_unblock_keeps_joined(m0: Seq<Vec<Tile>>, m1: Seq<Vec<Tile>>, a: Rect, b: Rect)
    requires
        room_in_bounds(a),
        room_in_bounds(b),
        centers_joined(m0, a, b),
        only_unblocks(m0, m1),
    ensures
        centers_joined(m1, a, b),
{
    lemma_center_in_bounds(a);
    lemma_center_in_bounds(b);
    let ax = (a.x1 + a.x2) / 2;
    let ay = (a.y1 + a.y2) / 2;
    let bx = (b.x1 + b.x2) / 2;
    let by = (b.y1 + b.y2) / 2;
    if h_corridor_clear(m0, ax, bx, ay) && v_corridor_clear(m0, ay, by, bx) {
        assert forall|i: int|
            (if ax <= bx {
                ax <= i <= bx
            } else {
                bx <= i <= ax
            }) implies !(#[trigger] m1[i])@[ay].blocked by {
            assert(!m0[i]@[ay].blocked);
        }
        assert forall|j: int|
            (if ay <= by {
                ay <= j <= by
            } else {
                by <= j <= ay
            }) implies !(#[trigger] m1[bx]@[j]).blocked by {
            assert(!m0[bx]@[j].blocked);
        }
        assert(h_corridor_clear(m1, ax, bx, ay) && v_corridor_clear(m1, ay, by, bx));
    } else {
        assert forall|j: int|
            (if ay <= by {
                ay <= j <= by
            } else {
                by <= j <= ay
            }) implies !(#[trigger] m1[ax]@[j]).blocked by {
            assert(!m0[ax]@[j].blocked);
        }
        assert forall|i: int|
            (if ax <= bx {
                ax <= i <= bx
            } else {
                bx <= i <= ax
            }) implies !(#[trigger] m1[i])@[by].blocked by {
            assert(!m0[i]@[by].blocked);
        }
        assert(v_corridor_clear(m1, ay, by, ax) && h_corridor_clear(m1, ax, bx, by));
    }
}

/// Generate a dungeon: carve up to `MAX_ROOMS` non-overlapping rooms joined
/// by corridors, stand the player in the first room's center, and populate
/// every room but the first. Returns the grid together with the accepted
/// rooms: their bounding rectangles are pairwise disjoint (touching edges
/// included), each pair of consecutive room centers is joined by carved
/// corridor segments, and every spawned entity stands inside a room other
/// than the player's starting one.
pub fn make_map_with_rooms(objects: &mut Vec<Object>) -> (r: (TileGrid, Vec<Rect>))
    requires
        objects_wf(old(objects)@),
        old(objects)@.len() == 1,
    ensures
        map_wf(r.0@),
        r.1@.len() >= 1,
        forall|i: int, j: int|
            0 <= i < j < r.1@.len() ==> !(#[trigger] r.1@[i]).spec_intersects(#[trigger] r.1@[j]),
        forall|i: int| 0 <= i < r.1@.len() ==> room_in_bounds(#[trigger] r.1@[i]),
        forall|k: int, i: int, j: int|
            0 <= k < r.1@.len() && (#[trigger] r.1@[k]).x1 < i < r.1@[k].x2 && r.1@[k].y1 < j
                < r.1@[k].y2 ==> !(#[trigger] r.0@[i]@[j]).blocked,
        forall|k: int|
            1 <= k < r.1@.len() ==> centers_joined(r.0@, r.1@[k - 1], #[trigger] r.1@[k]),
        objects_wf(final(objects)@),
        occupancy_ok(r.0@, final(objects)@),
        final(objects)@.len() >= 1,
        same_but_pos(old(objects)@[0], final(objects)@[0]),
        final(objects)@[0].x == (r.1@[0].x1 + r.1@[0].x2) / 2,
        final(objects)@[0].y == (r.1@[0].y1 + r.1@[0].y2) / 2,
        forall|k: int|
            1 <= k < final(objects)@.len() ==> spawned_monster(#[trigger] final(objects)@[k])
                || spawned_item(final(objects)@[k]),
        forall|k: int|
            1 <= k < final(objects)@.len() ==> in_some_later_room(
                #[trigger] final(objects)@[k],
                r.1@,
            ),
{
    let mut map = full_wall_grid();
    let mut rooms: Vec<Rect> = Vec::new();
    let mut attempt: i32 = 0;
    while attempt < MAX_ROOMS
        invariant
            map_wf(map@),
            objects_wf(objects@),
            objects@.len() >= 1,
            old(objects)@.len() == 1,
            0 <= attempt <= MAX_ROOMS,
            attempt >= 1 ==> rooms@.len() >= 1,
            same_but_pos(old(objects)@[0], objects@[0]),
            forall|i: int, j: int|
                0 <= i < j < rooms@.len() ==> !(#[trigger] rooms@[i]).spec_intersects(
                    #[trigger] rooms@[j],
                ),
            forall|i: int| 0 <= i < rooms@.len() ==> room_in_bounds(#[trigger] rooms@[i]),
            forall|k: int, i: int, j: int|
                0 <= k < rooms@.len() && (#[trigger] rooms@[k]).x1 < i < rooms@[k].x2
                    && rooms@[k].y1 < j < rooms@[k].y2 ==> !(#[trigger] map@[i]@[j]).blocked,
            forall|k: int|
                1 <= k < rooms@.len() ==> centers_joined(map@, rooms@[k - 1], #[trigger] rooms@[k]),
            rooms@.len() == 0 ==> objects@ == old(objects)@,
            rooms@.len() > 0 ==> {
                &&& occupancy_ok(map@, objects@)
                &&& objects@[0].x == (rooms@[0].x1 + rooms@[0].x2) / 2
                &&& objects@[0].y == (rooms@[0].y1 + rooms@[0].y2) / 2
            },
            forall|k: int|
                1 <= k < objects@.len() ==> spawned_monster(#[trigger] objects@[k]) || spawned_item(
                    objects@[k],
                ),
            forall|k: int|
                1 <= k < objects@.len() ==> in_some_later_room(#[trigger] objects@[k], rooms@),
        decreases MAX_ROOMS - attempt,
    {
        let w = gen_range_inclusive(ROOM_MIN_SIZE, ROOM_MAX_SIZE);
        let h = gen_range_inclusive(ROOM_MIN_SIZE, ROOM_MAX_SIZE);
        let x = gen_range_inclusive(0, MAP_WIDTH - w - 1);
        let y = gen_range_inclusive(0, MAP_HEIGHT - h - 1);

        let new_room = Rect::new(x, y, w, h);
        let failed = intersects_any(&rooms, &new_room);
        if !failed {
            let ghost map_before = map@;
            let ghost rooms_start = rooms@;
            let ghost objs_start = objects@;
            create_room(new_room, &mut map);
            proof {
                assert(only_unblocks(map_before, map@));
                assert forall|k: int|
                    1 <= k < rooms@.len() implies centers_joined(
                    map@,
                    rooms@[k - 1],
                    #[trigger] rooms@[k],
                ) by {
                    lemma_unblock_keeps_joined(map_before, map@, rooms@[k - 1], rooms@[k]);
                }
            }
            let (new_x, new_y) = new_room.center();

            if rooms.is_empty() {
                let player = &mut objects[PLAYER];
                player.set_pos(new_x, new_y);
            } else {
                proof {
                    lemma_carve_preserves_occupancy(map_before, map@, objects@);
                }
                let (prev_x, prev_y) = rooms[rooms.len() - 1].center();
                let ghost prev_room = rooms@[rooms@.len() - 1];
                let ghost map_mid = map@;
                if rand::random() {
                    create_h_tunnel(prev_x, new_x, prev_y, &mut map);
                    let ghost map_h = map@;
                    create_v_tunnel(prev_y, new_y, new_x, &mut map);
                    proof {
                        assert(only_unblocks(map_mid, map_h));
                        assert(only_unblocks(map_h, map@));
                        assert(v_corridor_clear(map@, prev_y as int, new_y as int, new_x as int));
                        assert forall|i: int|
                            (if prev_x <= new_x {
                                prev_x <= i <= new_x
                            } else {
                                new_x <= i <= prev_x
                            }) implies !(#[trigger] map@[i])@[prev_y as int].blocked by {
                            assert(!map_h[i]@[prev_y as int].blocked);
                        }
                        assert(h_corridor_clear(map@, prev_x as int, new_x as int, prev_y as int));
                        assert(centers_joined(map@, prev_room, new_room));
                    }
                } else {
                    create_v_tunnel(prev_y, new_y, prev_x, &mut map);
                    let ghost map_v = map@;
                    create_h_tunnel(prev_x, new_x, new_y, &mut map);
                    proof {
                        assert(only_unblocks(map_mid, map_v));
                        assert(only_unblocks(map_v, map@));
                        assert(h_corridor_clear(map@, prev_x as int, new_x as int, new_y as int));
                        assert forall|j: int|
                            (if prev_y <= new_y {
                                prev_y <= j <= new_y
                            } else {
                                new_y <= j <= prev_y
                            }) implies !(#[trigger] map@[prev_x as int]@[j]).blocked by {
                            assert(!map_v[prev_x as int]@[j].blocked);
                        }
                        assert(v_corridor_clear(map@, prev_y as int, new_y as int, prev_x as int));
                        assert(centers_joined(map@, prev_room, new_room));
                    }
                }
                proof {
                    assert(only_unblocks(map_mid, map@));
                    lemma_carve_preserves_occupancy(map_mid, map@, objects@);
                    assert forall|k: int|
                        1 <= k < rooms@.len() implies centers_joined(
                        map@,
                        rooms@[k - 1],
                        #[trigger] rooms@[k],
                    ) by {
                        lemma_unblock_keeps_joined(map_mid, map@, rooms@[k - 1], rooms@[k]);
                    }
                }
                let ghost pre = objects@;
                place_objects(new_room, &map, objects);
                proof {
                    assert forall|k: int| 0 <= k < pre.len() implies objects@[k] == pre[k] by {
                        assert(objects@.subrange(0, pre.len() as int)[k] == objects@[k]);
                    }
                    assert forall|k: int|
                        1 <= k < objects@.len() implies spawned_monster(#[trigger] objects@[k])
                        || spawned_item(objects@[k]) by {
                        if k < pre.len() {
                            assert(objects@[k] == pre[k]);
                        } else {
                            assert(spawned_monster(objects@[k]) || spawned_item(objects@[k]));
                        }
                    }
                }
            }
            rooms.push(new_room);
            proof {
                assert(rooms@ == rooms_start.push(new_room));
                assert forall|k: int|
                    1 <= k < rooms@.len() implies centers_joined(
                    map@,
                    rooms@[k - 1],
                    #[trigger] rooms@[k],
                ) by {
                    if k < rooms_start.len() {
                        assert(rooms@[k] == rooms_start[k] && rooms@[k - 1] == rooms_start[k - 1]);
                    } else {
                        assert(rooms@[k] == new_room);
                        assert(rooms@[k - 1] == rooms_start[rooms_start.len() - 1]);
                    }
                }
                assert forall|k: int|
                    1 <= k < objects@.len() implies in_some_later_room(
                    #[trigger] objects@[k],
                    rooms@,
                ) by {
                    if k < objs_start.len() {
                        assert(objects@[k] == objs_start[k]);
                        lemma_later_room_push(objects@[k], rooms_start, new_room);
                    } else {
                        let idx = rooms_start.len() as int;
                        assert(rooms@[idx] == new_room);
                        assert(in_room_interior(objects@[k], new_room));
                        assert(1 <= idx < rooms@.len());
                    }
                }
            }
        }
        attempt = attempt + 1;
    }
    (map, rooms)
}

/// Generate a dungeon and keep only the grid; see [`make_map_with_rooms`]
/// for the full contract over the accepted rooms.
pub fn make_map(objects: &mut Vec<Object>) -> (map: TileGrid)
    requires
        objects_wf(old(objects)@),
        old(objects)@.len() == 1,
    ensures
        map_wf(map@),
        objects_wf(final(objects)@),
        occupancy_ok(map@, final(objects)@),
        final(objects)@.len() >= 1,
        same_but_pos(old(objects)@[0], final(objects)@[0]),
        forall|k: int|
            1 <= k < final(objects)@.len() ==> spawned_monster(#[trigger] final(objects)@[k])
                || spawned_item(final(objects)@[k]),
{
    let (map, _rooms) = make_map_with_rooms(objects);
    map
}

} // verus!
