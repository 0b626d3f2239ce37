//! Entities and everything that happens to them: movement, combat, death,
//! status effects, and the items they carry and use.

use vstd::prelude::*;
use crate::fov::Fov;
use crate::map::{map_wf, TileGrid, Tile, MAP_HEIGHT, MAP_WIDTH};
use crate::render::{Color, Message, MsgView};
use crate::rng::gen_range_inclusive;
use crate::{game_wf, inv_entry_ok, mut_two, Game, PLAYER};

verus! {

pub const HEAL_AMOUNT: i32 = 4;
pub const LIGHTNING_DAMAGE: i32 = 40;
pub const LIGHTNING_RANGE: i32 = 5;
pub const CONFUSE_RANGE: i32 = 8;
pub const CONFUSE_NUM_TURNS: i32 = 10;

/// Maximum number of entities an inventory can hold (one per display
/// letter).
pub const INVENTORY_CAPACITY: usize = 26;

/// The combat component: an entity that can deal and take damage.
#[derive(Clone, Copy, Debug, PartialEq, Eq, Structural)]
pub struct Fighter {
    pub max_hp: i32,
    pub hp: i32,
    pub defense: i32,
    pub power: i32,
    pub on_death: DeathCallback,
}

/// Which death transition an entity undergoes when its hit points reach
/// zero. This is data, not a code pointer, so it stays comparable.
#[derive(Clone, Copy, Debug, PartialEq, Eq, Structural)]
pub enum DeathCallback {
    Player,
    Monster,
}

/// The behavior state of an AI-driven entity. `Confused` owns the state to
/// restore afterwards, so the representation is a stack.
#[derive(Debug, PartialEq)]
pub enum Ai {
    Basic,
    Confused { previous_ai: Box<Ai>, num_turns: i32 },
}

/// What an item does when used.
#[derive(Clone, Copy, Debug, PartialEq, Eq, Structural)]
pub enum Item {
    Heal,
    Lightning,
    Confuse,
}

/// Outcome of using an item: `UsedUp` consumes it, `Cancelled` leaves it in
/// the inventory.
#[derive(Clone, Copy, Debug, PartialEq, Eq, Structural)]
pub enum UseResult {
    UsedUp,
    Cancelled,
}

/// Anything that occupies the world: the player, monsters, items on the
/// floor, corpses. Which components are present decides what it can do.
#[derive(Debug)]
pub struct Object {
    pub x: i32,
    pub y: i32,
    pub glyph: char,
    pub color: Color,
    pub name: String,
    pub blocks: bool,
    pub alive: bool,
    pub fighter: Option<Fighter>,
    pub ai: Option<Ai>,
    pub item: Option<Item>,
}

/// Hit points stay within `[0, max_hp]` and combat stats are non-negative.
pub open spec fn fighter_wf(f: Fighter) -> bool {
    &&& 0 <= f.hp <= f.max_hp
    &&& 0 <= f.power
    &&& 0 <= f.defense
}

/// Structural soundness of a single entity: it stands on the grid, its
/// fighter component is well-formed, carried-item entities do not block,
/// and a dead entity never keeps an AI.
pub open spec fn obj_wf(o: Object) -> bool {
    &&& 0 <= o.x < MAP_WIDTH
    &&& 0 <= o.y < MAP_HEIGHT
    &&& (o.fighter matches Some(f) ==> fighter_wf(f))
    &&& (o.item is Some ==> !o.blocks && !o.alive && o.ai is None && o.fighter is None)
    &&& (!o.alive ==> o.ai is None)
}

/// Soundness of the whole roster: the player sits at index 0, is the only
/// entity with the player death policy, and never has an AI. Any other
/// entity that still carries a fighter is alive (a monster's death clears
/// the component; only the dead player keeps one).
pub open spec fn objects_wf(objects: Seq<Object>) -> bool {
    &&& objects.len() >= 1
    &&& forall|i: int| 0 <= i < objects.len() ==> obj_wf(#[trigger] objects[i])
    &&& forall|i: int|
        0 <= i < objects.len() ==> ((#[trigger] objects[i]).fighter matches Some(f) ==> ((
        f.on_death is Player) <==> i == 0))
    &&& forall|i: int|
        1 <= i < objects.len() ==> ((#[trigger] objects[i]).fighter is Some ==> objects[i].alive)
    &&& objects[0].ai is None
    &&& objects[0].fighter is Some
}

/// The occupancy invariant: nobody stands on a blocked tile, and no two
/// blocking entities share a tile.
pub open spec fn occupancy_ok(map: Seq<Vec<Tile>>, objects: Seq<Object>) -> bool {
    &&& forall|i: int|
        0 <= i < objects.len() ==> {
            let o = #[trigger] objects[i];
            0 <= o.x < MAP_WIDTH && 0 <= o.y < MAP_HEIGHT && !map[o.x as int]@[o.y as int].blocked
        }
    &&& forall|i: int, j: int|
        0 <= i < j < objects.len() && (#[trigger] objects[i]).blocks && (
        #[trigger] objects[j]).blocks ==> !(objects[i].x == objects[j].x && objects[i].y
            == objects[j].y)
}

/// Whether the tile at `(x, y)` refuses movement: either the terrain is
/// blocked or some blocking entity stands there.
pub open spec fn spec_is_blocked(x: int, y: int, map: Seq<Vec<Tile>>, objects: Seq<Object>) -> bool {
    ||| map[x]@[y].blocked
    ||| exists|i: int|
        0 <= i < objects.len() && (#[trigger] objects[i]).blocks && objects[i].x == x
            && objects[i].y == y
}

/// Occupancy test used by movement and by the map generator.
pub fn is_blocked(x: i32, y: i32, map: &TileGrid, objects: &Vec<Object>) -> (r: bool)
    requires
        map_wf(map@),
        0 <= x < MAP_WIDTH,
        0 <= y < MAP_HEIGHT,
    ensures
        r == spec_is_blocked(x as int, y as int, map@, objects@),
{
    if map[x as usize][y as usize].blocked {
        return true;
    }
    let mut i: usize = 0;
    while i < objects.len()
        invariant
            i <= objects@.len(),
            forall|k: int|
                0 <= k < i ==> !((#[trigger] objects@[k]).blocks && objects@[k].x == x
                    && objects@[k].y == y),
        decreases objects@.len() - i,
    {
        if objects[i].blocks && objects[i].x == x && objects[i].y == y {
            return true;
        }
        i = i + 1;
    }
    false
}

/// The squared Euclidean distance between `(ax, ay)` and `(bx, by)`.
pub open spec fn dist_sq(ax: int, ay: int, bx: int, by: int) -> int {
    (bx - ax) * (bx - ax) + (by - ay) * (by - ay)
}

impl Object {
    /// A fresh entity with no components; placement code attaches fighter,
    /// AI, or item afterwards.
    pub fn new(x: i32, y: i32, glyph: char, name: &str, color: Color, blocks: bool) -> (o: Object)
        ensures
            o.x == x,
            o.y == y,
            o.glyph == glyph,
            o.name@ == name@,
            o.color == color,
            o.blocks == blocks,
            !o.alive,
            o.fighter is None,
            o.ai is None,
            o.item is None,
    {
        Object {
            x,
            y,
            glyph,
            color,
            blocks,
            name: name.to_owned(),
            alive: false,
            fighter: None,
            ai: None,
            item: None,
        }
    }

    /// The entity's position.
    pub fn pos(&self) -> (p: (i32, i32))
        ensures
            p.0 == self.x,
            p.1 == self.y,
    {
        (self.x, self.y)
    }

    /// Move the entity to `(x, y)` unconditionally; occupancy rules are the
    /// caller's business.
    pub fn set_pos(&mut self, x: i32, y: i32)
        ensures
            *final(self) == (Object { x, y, ..*old(self) }),
    {
        self.x = x;
        self.y = y;
    }

    /// The squared distance to another entity. Comparisons of Euclidean
    /// distances are made on squares throughout, which orders them the same
    /// way.
    pub fn distance_sq_to(&self, other: &Object) -> (d: i32)
        requires
            0 <= self.x < MAP_WIDTH,
            0 <= self.y < MAP_HEIGHT,
            0 <= other.x < MAP_WIDTH,
            0 <= other.y < MAP_HEIGHT,
        ensures
            d == dist_sq(self.x as int, self.y as int, other.x as int, other.y as int),
    {
        let dx = other.x - self.x;
        let dy = other.y - self.y;
        assert((dx * dx) + (dy * dy) < 51200 && 0 <= (dx * dx) && 0 <= (dy * dy))
            by (nonlinear_arith)
            requires
                -160 < dx < 160,
                -160 < dy < 160,
        ;
        dx * dx + dy * dy
    }

    /// Step the entity at `index` by `(dx, dy)`. A step off the grid or onto
    /// an occupied tile is silently refused.
    pub fn move_by(index: usize, dx: i32, dy: i32, map: &TileGrid, objects: &mut Vec<Object>)
        requires
            map_wf(map@),
            index < old(objects).len(),
            i32::MIN <= old(objects)@[index as int].x + dx <= i32::MAX,
            i32::MIN <= old(objects)@[index as int].y + dy <= i32::MAX,
        ensures
            final(objects)@ == spec_move_by(index as int, dx as int, dy as int, map@, old(objects)@),
    {
        let new_x = objects[index].x + dx;
        let new_y = objects[index].y + dy;
        if !(0 <= new_x && new_x < MAP_WIDTH && 0 <= new_y && new_y < MAP_HEIGHT) {
            return ;
        }
        if !is_blocked(new_x, new_y, map, objects) {
            let o = &mut objects[index];
            o.set_pos(new_x, new_y);
        }
    }
}

/// The name a corpse carries: the old name behind a fixed prefix.
pub open spec fn remains_name(name: Seq<char>) -> Seq<char> {
    "remains of "@ + name
}

/// Relies on `String::push_str`: appends exactly the characters of
/// `suffix`.
#[verifier::external_body]
fn push_str(s: &mut String, suffix: &str)
    ensures
        final(s)@ == old(s)@ + suffix@,
{
    s.push_str(suffix);
}

/// The corpse name for an entity called `name`.
fn remains_of(name: &String) -> (r: String)
    ensures
        r@ == remains_name(name@),
{
    let mut s: String = "remains of ".to_owned();
    push_str(&mut s, name.as_str());
    s
}

/// Attack power of an entity: its fighter's, or none without a fighter.
pub open spec fn power_of(o: Object) -> int {
    match o.fighter {
        Some(f) => f.power as int,
        None => 0,
    }
}

/// Defense of an entity: its fighter's, or none without a fighter.
pub open spec fn defense_of(o: Object) -> int {
    match o.fighter {
        Some(f) => f.defense as int,
        None => 0,
    }
}

/// Current hit points of an entity, or zero without a fighter.
pub open spec fn hp_of(o: Object) -> int {
    match o.fighter {
        Some(f) => f.hp as int,
        None => 0,
    }
}

/// Damage an attack deals before flooring: attacker's power minus the
/// target's defense.
pub open spec fn attack_damage(attacker: Object, target: Object) -> int {
    power_of(attacker) - defense_of(target)
}

/// Hit points after taking `damage`: subtracted and clamped at zero; a
/// non-positive amount or a missing fighter leaves them untouched.
pub open spec fn hp_after(o: Object, damage: int) -> int {
    if o.fighter is Some && damage > 0 {
        if hp_of(o) - damage < 0 {
            0
        } else {
            hp_of(o) - damage
        }
    } else {
        hp_of(o)
    }
}

/// Whether taking `damage` kills the entity: it must be a living fighter
/// whose hit points reach zero. An already-dead entity never dies again.
pub open spec fn dies_of(o: Object, damage: int) -> bool {
    &&& o.fighter is Some
    &&& damage > 0
    &&& hp_after(o, damage) == 0
    &&& o.alive
}

/// The entity after taking `damage`, including the death transition chosen
/// by its `on_death` policy: a monster becomes an inert corpse under a new
/// name; the player only changes appearance and keeps every component.
pub open spec fn spec_take_damage(o: Object, damage: int, r: Object) -> bool {
    if o.fighter is None || damage <= 0 {
        r == o
    } else {
        let f = o.fighter.unwrap();
        let f1 = Fighter { hp: hp_after(o, damage) as i32, ..f };
        if dies_of(o, damage) {
            match f.on_death {
                DeathCallback::Monster => {
                    &&& r.x == o.x
                    &&& r.y == o.y
                    &&& r.glyph == '%'
                    &&& r.color == Color::DarkRed
                    &&& r.name@ == remains_name(o.name@)
                    &&& !r.blocks
                    &&& !r.alive
                    &&& r.fighter is None
                    &&& r.ai is None
                    &&& r.item == o.item
                },
                DeathCallback::Player => r == (Object {
                    glyph: '%',
                    color: Color::DarkRed,
                    alive: false,
                    fighter: Some(f1),
                    ..o
                }),
            }
        } else {
            r == (Object { fighter: Some(f1), ..o })
        }
    }
}

/// The log entries a call to `take_damage` appends: one death report when
/// the damage kills, nothing otherwise.
pub open spec fn damage_msgs(o: Object, damage: int) -> Seq<(MsgView, Color)> {
    if dies_of(o, damage) {
        match o.fighter.unwrap().on_death {
            DeathCallback::Monster => seq![(MsgView::Dead { name: o.name@ }, Color::Orange)],
            DeathCallback::Player => seq![(MsgView::PlayerDied, Color::Orange)],
        }
    } else {
        Seq::empty()
    }
}

/// The parts of the world state `take_damage` and `attack` never touch.
pub open spec fn msgs_only(g0: Game, g1: Game) -> bool {
    &&& g1.map == g0.map
    &&& g1.inventory == g0.inventory
}

/// The full effect of `a` striking `t`: what becomes of the target and
/// what the log reports. Positive damage is applied (killing if it
/// exhausts the hit points); otherwise the strike is reported as having no
/// effect.
pub open spec fn spec_attack_effect(
    a: Object,
    t: Object,
    new_t: Object,
    msgs: Seq<(MsgView, Color)>,
    new_msgs: Seq<(MsgView, Color)>,
) -> bool {
    let dmg = attack_damage(a, t);
    if dmg > 0 {
        &&& spec_take_damage(t, dmg, new_t)
        &&& new_msgs == msgs.push(
            (
                MsgView::AttackHit { attacker: a.name@, target: t.name@, damage: dmg },
                Color::White,
            ),
        ) + damage_msgs(t, dmg)
    } else {
        &&& new_t == t
        &&& new_msgs == msgs.push(
            (MsgView::AttackNoEffect { attacker: a.name@, target: t.name@ }, Color::White),
        )
    }
}

/// Turn a freshly killed monster into an inert corpse: new glyph, color and
/// name, and no combat, blocking, or AI behavior left.
fn monster_death(monster: &mut Object, game: &mut Game)
    ensures
        final(monster).x == old(monster).x,
        final(monster).y == old(monster).y,
        final(monster).glyph == '%',
        final(monster).color == Color::DarkRed,
        final(monster).name@ == remains_name(old(monster).name@),
        !final(monster).blocks,
        final(monster).alive == old(monster).alive,
        final(monster).fighter is None,
        final(monster).ai is None,
        final(monster).item == old(monster).item,
        msgs_only(*old(game), *final(game)),
        final(game).messages@ == old(game).messages@.push(
            (MsgView::Dead { name: old(monster).name@ }, Color::Orange),
        ),
{
    game.messages.add(Message::Dead { name: monster.name.clone() }, Color::Orange);
    monster.glyph = '%';
    monster.color = Color::DarkRed;
    monster.blocks = false;
    monster.fighter = None;
    monster.ai = None;
    let new_name = remains_of(&monster.name);
    monster.name = new_name;
}

/// The player's death transition: appearance only, so the entity can carry
/// over into a replay prompt.
fn player_death(player: &mut Object, game: &mut Game)
    ensures
        *final(player) == (Object { glyph: '%', color: Color::DarkRed, ..*old(player) }),
        msgs_only(*old(game), *final(game)),
        final(game).messages@ == old(game).messages@.push((MsgView::PlayerDied, Color::Orange)),
{
    game.messages.add(Message::PlayerDied, Color::Orange);
    player.glyph = '%';
    player.color = Color::DarkRed;
}

impl DeathCallback {
    /// Dispatch to the death transition this policy selects.
    fn callback(self, object: &mut Object, game: &mut Game)
        requires
            old(object).fighter matches Some(f) && f.on_death == self,
        ensures
            spec_death_transition(*old(object), *final(object)),
            msgs_only(*old(game), *final(game)),
            final(game).messages@ == old(game).messages@ + death_msgs(*old(object)),
    {
        match self {
            DeathCallback::Monster => monster_death(object, game),
            DeathCallback::Player => player_death(object, game),
        }
    }
}

/// The effect of the death transition alone, given the entity's policy.
pub open spec fn spec_death_transition(o: Object, r: Object) -> bool {
    match o.fighter.unwrap().on_death {
        DeathCallback::Monster => {
            &&& r.x == o.x
            &&& r.y == o.y
            &&& r.glyph == '%'
            &&& r.color == Color::DarkRed
            &&& r.name@ == remains_name(o.name@)
            &&& !r.blocks
            &&& r.alive == o.alive
            &&& r.fighter is None
            &&& r.ai is None
            &&& r.item == o.item
        },
        DeathCallback::Player => r == (Object { glyph: '%', color: Color::DarkRed, ..o }),
    }
}

/// The log entry the death transition appends.
pub open spec fn death_msgs(o: Object) -> Seq<(MsgView, Color)> {
    match o.fighter.unwrap().on_death {
        DeathCallback::Monster => seq![(MsgView::Dead { name: o.name@ }, Color::Orange)],
        DeathCallback::Player => seq![(MsgView::PlayerDied, Color::Orange)],
    }
}

impl Object {
    /// Apply `damage` to this entity. A non-positive amount is a no-op; hit
    /// points are clamped at zero; reaching zero while alive triggers the
    /// death transition, exactly once per life.
    pub fn take_damage(&mut self, damage: i32, game: &mut Game)
        requires
            old(self).fighter matches Some(f) ==> fighter_wf(f),
        ensures
            spec_take_damage(*old(self), damage as int, *final(self)),
            msgs_only(*old(game), *final(game)),
            final(game).messages@ == old(game).messages@ + damage_msgs(
                *old(self),
                damage as int,
            ),
    {
        if damage <= 0 {
            return ;
        }
        if self.fighter.is_none() {
            return ;
        }
        if let Some(fighter) = self.fighter.as_mut() {
            if damage < fighter.hp {
                fighter.hp = fighter.hp - damage;
            } else {
                fighter.hp = 0;
            }
        }
        let fighter_now = self.fighter.unwrap();
        if fighter_now.hp == 0 && self.alive {
            self.alive = false;
            fighter_now.on_death.callback(self, game);
        }
    }

    /// Strike `target`: damage is power minus defense, floored at zero; a
    /// non-positive result is reported as having no effect and changes
    /// nothing.
    pub fn attack(&mut self, target: &mut Object, game: &mut Game)
        requires
            old(self).fighter matches Some(f) ==> fighter_wf(f),
            old(target).fighter matches Some(f) ==> fighter_wf(f),
        ensures
            *final(self) == *old(self),
            msgs_only(*old(game), *final(game)),
            spec_attack_effect(
                *old(self),
                *old(target),
                *final(target),
                old(game).messages@,
                final(game).messages@,
            ),
    {
        let power = match &self.fighter {
            Some(f) => f.power,
            None => 0,
        };
        let defense = match &target.fighter {
            Some(f) => f.defense,
            None => 0,
        };
        let damage = power - defense;
        if damage > 0 {
            game.messages.add(
                Message::AttackHit {
                    attacker: self.name.clone(),
                    target: target.name.clone(),
                    damage,
                },
                Color::White,
            );
            target.take_damage(damage, game);
        } else {
            game.messages.add(
                Message::AttackNoEffect {
                    attacker: self.name.clone(),
                    target: target.name.clone(),
                },
                Color::White,
            );
        }
    }

    /// Restore up to `amount` hit points, never past `max_hp`. An entity
    /// without a fighter is untouched.
    pub fn heal(&mut self, amount: i32)
        requires
            amount >= 0,
            old(self).fighter matches Some(f) ==> fighter_wf(f),
        ensures
            old(self).fighter is None ==> *final(self) == *old(self),
            old(self).fighter matches Some(f) ==> *final(self) == (Object {
                fighter: Some(
                    Fighter {
                        hp: if f.hp + amount <= f.max_hp {
                            (f.hp + amount) as i32
                        } else {
                            f.max_hp
                        },
                        ..f
                    },
                ),
                ..*old(self)
            }),
    {
        if let Some(fighter) = self.fighter.as_mut() {
            let room = fighter.max_hp - fighter.hp;
            if amount >= room {
                fighter.hp = fighter.max_hp;
            } else {
                fighter.hp = fighter.hp + amount;
            }
        }
    }
}

/// The roster after the entity at `index` tried to step by `(dx, dy)`:
/// unchanged when the destination is off-grid or occupied, else that entity
/// stands at the destination.
pub open spec fn spec_move_by(
    index: int,
    dx: int,
    dy: int,
    map: Seq<Vec<Tile>>,
    objects: Seq<Object>,
) -> Seq<Object> {
    let nx = objects[index].x + dx;
    let ny = objects[index].y + dy;
    if !(0 <= nx < MAP_WIDTH && 0 <= ny < MAP_HEIGHT) || spec_is_blocked(nx, ny, map, objects) {
        objects
    } else {
        objects.update(index, Object { x: nx as i32, y: ny as i32, ..objects[index] })
    }
}

/// The sign of `x`, as the length-one step in its direction.
pub open spec fn sign(x: int) -> int {
    if x > 0 {
        1
    } else if x < 0 {
        -1
    } else {
        0
    }
}

/// The unit step a chase takes for an offset of `(dx, dy)`: the rounded
/// direction vector `(dx, dy) / |(dx, dy)|`, each coordinate rounding to
/// its sign exactly when it contributes at least half the offset's length,
/// which for integers is `3 * dx^2 >= dy^2`.
pub open spec fn step_toward(dx: int, dy: int) -> (int, int) {
    (
        if 3 * dx * dx >= dy * dy {
            sign(dx)
        } else {
            0
        },
        if 3 * dy * dy >= dx * dx {
            sign(dy)
        } else {
            0
        },
    )
}

/// One chase step of the entity at `id` toward `(target_x, target_y)`,
/// subject to the ordinary movement rules.
pub fn move_towards(
    id: usize,
    target_x: i32,
    target_y: i32,
    map: &TileGrid,
    objects: &mut Vec<Object>,
)
    requires
        map_wf(map@),
        id < old(objects).len(),
        0 <= old(objects)@[id as int].x < MAP_WIDTH,
        0 <= old(objects)@[id as int].y < MAP_HEIGHT,
        0 <= target_x < MAP_WIDTH,
        0 <= target_y < MAP_HEIGHT,
    ensures
        ({
            let step = step_toward(
                target_x - old(objects)@[id as int].x,
                target_y - old(objects)@[id as int].y,
            );
            final(objects)@ == spec_move_by(id as int, step.0, step.1, map@, old(objects)@)
        }),
{
    let dx = target_x - objects[id].x;
    let dy = target_y - objects[id].y;
    assert(0 <= dx * dx < 25600 && 0 <= dy * dy < 25600) by (nonlinear_arith)
        requires
            -160 < dx < 160,
            -160 < dy < 160,
    ;
    let dx2: i32 = dx * dx;
    let dy2: i32 = dy * dy;
    assert(3 * dx * dx == 3 * dx2 && 3 * dy * dy == 3 * dy2) by (nonlinear_arith)
        requires
            dx2 == dx * dx,
            dy2 == dy * dy,
    ;
    let step_x: i32 = if 3 * dx2 >= dy2 {
        if dx > 0 {
            1
        } else if dx < 0 {
            -1
        } else {
            0
        }
    } else {
        0
    };
    let step_y: i32 = if 3 * dy2 >= dx2 {
        if dy > 0 {
            1
        } else if dy < 0 {
            -1
        } else {
            0
        }
    } else {
        0
    };
    Object::move_by(id, step_x, step_y, map, objects);
}

/// A refused or accepted step never breaks the roster's soundness, and a
/// step onto an unoccupied tile never breaks the occupancy invariant.
pub proof fn lemma_move_preserves(
    map: Seq<Vec<Tile>>,
    objects: Seq<Object>,
    mid: int,
    dx: int,
    dy: int,
)
    requires
        objects_wf(objects),
        0 <= mid < objects.len(),
    ensures
        spec_move_by(mid, dx, dy, map, objects).len() == objects.len(),
        objects_wf(spec_move_by(mid, dx, dy, map, objects)),
        occupancy_ok(map, objects) ==> occupancy_ok(map, spec_move_by(mid, dx, dy, map, objects)),
{
    let r = spec_move_by(mid, dx, dy, map, objects);
    let nx = objects[mid].x + dx;
    let ny = objects[mid].y + dy;
    if (0 <= nx < MAP_WIDTH && 0 <= ny < MAP_HEIGHT) && !spec_is_blocked(nx, ny, map, objects) {
        assert(forall|i: int| 0 <= i < objects.len() && i != mid ==> r[i] == #[trigger] objects[i]);
        assert(obj_wf(r[mid]));
        if occupancy_ok(map, objects) {
            assert forall|i: int, j: int|
                0 <= i < j < r.len() && (#[trigger] r[i]).blocks && (#[trigger] r[j]).blocks
                    implies !(r[i].x == r[j].x && r[i].y == r[j].y) by {
                if i == mid || j == mid {
                    let other = if i == mid {
                        j
                    } else {
                        i
                    };
                    assert(!(objects[other].blocks && objects[other].x == nx && objects[other].y
                        == ny));
                }
            }
        }
    } else {
        assert(r == objects);
    }
}

/// Damage, and the death transition it may trigger, never moves an entity,
/// never adds a blocker, and keeps the roster sound.
pub proof fn lemma_damage_preserves(
    map: Seq<Vec<Tile>>,
    objects: Seq<Object>,
    i: int,
    dmg: int,
    r: Object,
)
    requires
        objects_wf(objects),
        0 <= i < objects.len(),
        spec_take_damage(objects[i], dmg, r),
    ensures
        objects_wf(objects.update(i, r)),
        occupancy_ok(map, objects) ==> occupancy_ok(map, objects.update(i, r)),
{
    let o = objects[i];
    assert(obj_wf(o));
    assert(r.x == o.x && r.y == o.y && (r.blocks ==> o.blocks) && r.item == o.item);
    assert(obj_wf(r));
    let s = objects.update(i, r);
    assert(forall|k: int| 0 <= k < objects.len() && k != i ==> s[k] == #[trigger] objects[k]);
    if occupancy_ok(map, objects) {
        assert forall|a: int, b: int|
            0 <= a < b < s.len() && (#[trigger] s[a]).blocks && (#[trigger] s[b]).blocks
                implies !(s[a].x == s[b].x && s[a].y == s[b].y) by {
            assert(objects[a].blocks && objects[b].blocks);
        }
    }
}

/// Storing a new AI state in a living monster keeps the roster sound and
/// moves nobody.
pub proof fn lemma_set_ai_preserves(
    map: Seq<Vec<Tile>>,
    objects: Seq<Object>,
    mid: int,
    ai: Option<Ai>,
)
    requires
        objects_wf(objects),
        0 < mid < objects.len(),
        objects[mid].alive,
        objects[mid].item is None,
    ensures
        objects_wf(objects.update(mid, with_ai(objects[mid], ai))),
        occupancy_ok(map, objects) ==> occupancy_ok(
            map,
            objects.update(mid, with_ai(objects[mid], ai)),
        ),
{
    let s = objects.update(mid, with_ai(objects[mid], ai));
    assert(obj_wf(objects[mid]));
    assert(forall|k: int| 0 <= k < objects.len() && k != mid ==> s[k] == #[trigger] objects[k]);
    if occupancy_ok(map, objects) {
        assert forall|a: int, b: int|
            0 <= a < b < s.len() && (#[trigger] s[a]).blocks && (#[trigger] s[b]).blocks
                implies !(s[a].x == s[b].x && s[a].y == s[b].y) by {
            assert(objects[a].blocks && objects[b].blocks);
        }
    }
}

/// The AI state after one invocation: `Basic` stays, a confused state with
/// turns left counts one down, and an exhausted one restores the state it
/// wrapped.
pub open spec fn ai_next(ai: Ai) -> Ai {
    match ai {
        Ai::Basic => Ai::Basic,
        Ai::Confused { previous_ai, num_turns } => {
            if num_turns > 0 {
                Ai::Confused { previous_ai, num_turns: (num_turns - 1) as i32 }
            } else {
                *previous_ai
            }
        },
    }
}

/// `ai` after `k` invocations of [`ai_next`].
pub open spec fn ai_iter(k: nat, ai: Ai) -> Ai
    decreases k,
{
    if k == 0 {
        ai
    } else {
        ai_iter((k - 1) as nat, ai_next(ai))
    }
}

/// The object `o` with its AI component replaced.
pub open spec fn with_ai(o: Object, ai: Option<Ai>) -> Object {
    Object { ai, ..o }
}

/// After `k` invocations (no more than the turns it was given), a
/// confused state is still confused, with exactly `k` turns counted off
/// and the wrapped state untouched.
pub proof fn lemma_confusion_steps(previous_ai: Box<Ai>, num_turns: int, k: int)
    requires
        0 <= k <= num_turns <= i32::MAX,
    ensures
        ai_iter(k as nat, Ai::Confused { previous_ai, num_turns: num_turns as i32 }) == (
        Ai::Confused { previous_ai, num_turns: (num_turns - k) as i32 }),
    decreases k,
{
    let c = Ai::Confused { previous_ai, num_turns: num_turns as i32 };
    if k > 0 {
        assert(ai_next(c) == (Ai::Confused { previous_ai, num_turns: (num_turns - 1) as i32 }));
        lemma_confusion_steps(previous_ai, num_turns - 1, k - 1);
    }
}

/// The confusion lifecycle: an entity confused for `num_turns` turns
/// spends exactly `num_turns` invocations stumbling — after each it is
/// still confused, with one turn fewer remaining — and on invocation
/// `num_turns + 1` it reverts to exactly the state the confusion wrapped.
pub proof fn lemma_confusion_lifecycle(previous_ai: Box<Ai>, num_turns: int)
    requires
        0 <= num_turns <= i32::MAX,
    ensures
        forall|k: int|
            0 <= k <= num_turns ==> #[trigger] ai_iter(
                k as nat,
                Ai::Confused { previous_ai, num_turns: num_turns as i32 },
            ) == (Ai::Confused { previous_ai, num_turns: (num_turns - k) as i32 }),
        ai_iter(
            (num_turns + 1) as nat,
            Ai::Confused { previous_ai, num_turns: num_turns as i32 },
        ) == *previous_ai,
    decreases num_turns,
{
    let c = Ai::Confused { previous_ai, num_turns: num_turns as i32 };
    assert forall|k: int| 0 <= k <= num_turns implies #[trigger] ai_iter(k as nat, c) == (
    Ai::Confused { previous_ai, num_turns: (num_turns - k) as i32 }) by {
        lemma_confusion_steps(previous_ai, num_turns, k);
    }
    if num_turns == 0 {
        assert(ai_iter(1nat, c) == ai_iter(0nat, ai_next(c)));
    } else {
        lemma_confusion_lifecycle(previous_ai, num_turns - 1);
        assert(ai_next(c) == (Ai::Confused { previous_ai, num_turns: (num_turns - 1) as i32 }));
    }
}

/// Death is idempotent: further damage to an entity that is already dead
/// (its hit points exhausted, or its fighter component already cleared)
/// changes nothing and produces no further death report.
pub proof fn lemma_death_idempotent(o: Object, damage: int, r: Object)
    requires
        !o.alive,
        o.fighter matches Some(f) ==> f.hp == 0,
        spec_take_damage(o, damage, r),
    ensures
        r == o,
        damage_msgs(o, damage) == Seq::<(MsgView, Color)>::empty(),
{
}

/// What one monster's turn does to the roster and the log, given the AI
/// state `ai` that was in force. The monster's stored AI always becomes
/// `ai_next(ai)`; the world changes as the state dictates: a basic monster
/// in view chases or attacks the player, a confused one takes one random
/// step (the existential covers every possible draw).
pub open spec fn spec_ai_turn(
    fov: Fov,
    map: Seq<Vec<Tile>>,
    objects: Seq<Object>,
    msgs: Seq<(MsgView, Color)>,
    new_objects: Seq<Object>,
    new_msgs: Seq<(MsgView, Color)>,
    monster_id: int,
    ai: Ai,
) -> bool {
    let m = objects[monster_id];
    let p = objects[PLAYER as int];
    let stored = Some(ai_next(ai));
    match ai {
        Ai::Basic => {
            if !fov.spec_visible(m.x as int, m.y as int) {
                &&& new_objects == objects.update(monster_id, with_ai(m, stored))
                &&& new_msgs == msgs
            } else if dist_sq(m.x as int, m.y as int, p.x as int, p.y as int) >= 4 {
                let step = step_toward(p.x - m.x, p.y - m.y);
                let moved = spec_move_by(monster_id, step.0, step.1, map, objects);
                &&& new_objects == moved.update(monster_id, with_ai(moved[monster_id], stored))
                &&& new_msgs == msgs
            } else if p.fighter is Some && hp_of(p) > 0 {
                let dmg = attack_damage(m, p);
                &&& new_objects.len() == objects.len()
                &&& new_objects[monster_id] == with_ai(m, stored)
                &&& (forall|i: int|
                    0 <= i < objects.len() && i != monster_id && i != PLAYER
                        ==> #[trigger] new_objects[i] == objects[i])
                &&& if dmg > 0 {
                    &&& spec_take_damage(p, dmg, new_objects[PLAYER as int])
                    &&& new_msgs == msgs.push(
                        (
                            MsgView::AttackHit {
                                attacker: m.name@,
                                target: p.name@,
                                damage: dmg,
                            },
                            Color::White,
                        ),
                    ) + damage_msgs(p, dmg)
                } else {
                    &&& new_objects[PLAYER as int] == p
                    &&& new_msgs == msgs.push(
                        (
                            MsgView::AttackNoEffect { attacker: m.name@, target: p.name@ },
                            Color::White,
                        ),
                    )
                }
            } else {
                &&& new_objects == objects.update(monster_id, with_ai(m, stored))
                &&& new_msgs == msgs
            }
        },
        Ai::Confused { previous_ai: _, num_turns } => {
            if num_turns > 0 {
                exists|ddx: int, ddy: int|
                    #![trigger spec_move_by(monster_id, ddx, ddy, map, objects)]
                    {
                        let moved = spec_move_by(monster_id, ddx, ddy, map, objects);
                        &&& -1 <= ddx <= 1
                        &&& -1 <= ddy <= 1
                        &&& new_objects == moved.update(
                            monster_id,
                            with_ai(moved[monster_id], stored),
                        )
                        &&& new_msgs == msgs
                    }
            } else {
                &&& new_objects == objects.update(monster_id, with_ai(m, stored))
                &&& new_msgs == msgs.push(
                    (MsgView::NoLongerConfused { name: m.name@ }, Color::Red),
                )
            }
        },
    }
}

/// The world effect of one `Basic` turn, before the successor state is
/// stored: out of view the monster idles; two or more tiles from the player
/// it takes one chase step; adjacent to a player still able to fight it
/// attacks.
pub open spec fn spec_ai_basic(
    fov: Fov,
    map: Seq<Vec<Tile>>,
    objects: Seq<Object>,
    msgs: Seq<(MsgView, Color)>,
    new_objects: Seq<Object>,
    new_msgs: Seq<(MsgView, Color)>,
    monster_id: int,
) -> bool {
    let m = objects[monster_id];
    let p = objects[PLAYER as int];
    if !fov.spec_visible(m.x as int, m.y as int) {
        &&& new_objects == objects
        &&& new_msgs == msgs
    } else if dist_sq(m.x as int, m.y as int, p.x as int, p.y as int) >= 4 {
        let step = step_toward(p.x - m.x, p.y - m.y);
        &&& new_objects == spec_move_by(monster_id, step.0, step.1, map, objects)
        &&& new_msgs == msgs
    } else if p.fighter is Some && hp_of(p) > 0 {
        &&& new_objects.len() == objects.len()
        &&& new_objects[monster_id] == m
        &&& (forall|i: int|
            0 <= i < objects.len() && i != monster_id && i != PLAYER
                ==> #[trigger] new_objects[i] == objects[i])
        &&& spec_attack_effect(m, p, new_objects[PLAYER as int], msgs, new_msgs)
    } else {
        &&& new_objects == objects
        &&& new_msgs == msgs
    }
}

/// One turn of a monster in the `Basic` state: chase the player while far,
/// strike once adjacent, all only while in the visible set. The state
/// itself never changes.
fn ai_basic(monster_id: usize, fov: &Fov, game: &mut Game, objects: &mut Vec<Object>) -> (new_ai:
    Ai)
    requires
        fov.wf(),
        map_wf(old(game).map@),
        objects_wf(old(objects)@),
        monster_id < old(objects)@.len(),
        monster_id != PLAYER,
    ensures
        new_ai == Ai::Basic,
        msgs_only(*old(game), *final(game)),
        spec_ai_basic(
            *fov,
            old(game).map@,
            old(objects)@,
            old(game).messages@,
            final(objects)@,
            final(game).messages@,
            monster_id as int,
        ),
        final(objects)@.len() == old(objects)@.len(),
        objects_wf(final(objects)@),
        occupancy_ok(old(game).map@, old(objects)@) ==> occupancy_ok(
            old(game).map@,
            final(objects)@,
        ),
        final(objects)@[monster_id as int].alive == old(objects)@[monster_id as int].alive,
        final(objects)@[monster_id as int].item == old(objects)@[monster_id as int].item,
{
    let (monster_x, monster_y) = objects[monster_id].pos();
    if fov.is_visible(monster_x, monster_y) {
        if objects[monster_id].distance_sq_to(&objects[PLAYER]) >= 4 {
            let (player_x, player_y) = objects[PLAYER].pos();
            move_towards(monster_id, player_x, player_y, &game.map, objects);
            proof {
                let step = step_toward(
                    player_x - old(objects)@[monster_id as int].x,
                    player_y - old(objects)@[monster_id as int].y,
                );
                lemma_move_preserves(
                    game.map@,
                    old(objects)@,
                    monster_id as int,
                    step.0,
                    step.1,
                );
            }
        } else {
            let player_can_fight = match &objects[PLAYER].fighter {
                Some(f) => f.hp > 0,
                None => false,
            };
            if player_can_fight {
                let (player, monster) = mut_two(PLAYER, monster_id, objects);
                monster.attack(player, game);
                proof {
                    let p = old(objects)@[PLAYER as int];
                    let m = old(objects)@[monster_id as int];
                    let dmg = attack_damage(m, p);
                    assert(objects@ =~= old(objects)@.update(PLAYER as int, objects@[PLAYER as int]));
                    if dmg > 0 {
                        lemma_damage_preserves(
                            game.map@,
                            old(objects)@,
                            PLAYER as int,
                            dmg,
                            objects@[PLAYER as int],
                        );
                    } else {
                        assert(objects@ =~= old(objects)@);
                    }
                }
            }
        }
    }
    Ai::Basic
}

/// One turn of a confused monster: with turns left it stumbles one random
/// step and counts down; with none left it recovers, restoring the state
/// the confusion wrapped and reporting the recovery. The unused visibility
/// argument keeps the turn handlers' shapes alike.
fn ai_confused(monster_id: usize, _fov: &Fov, game: &mut Game, objects: &mut Vec<Object>)
    requires
        map_wf(old(game).map@),
        objects_wf(old(objects)@),
        monster_id < old(objects)@.len(),
        old(objects)@[monster_id as int].ai matches Some(ai) && ai is Confused,
    ensures
        msgs_only(*old(game), *final(game)),
        spec_ai_turn(
            *_fov,
            old(game).map@,
            old(objects)@,
            old(game).messages@,
            final(objects)@,
            final(game).messages@,
            monster_id as int,
            old(objects)@[monster_id as int].ai.unwrap(),
        ),
        final(objects)@.len() == old(objects)@.len(),
        objects_wf(final(objects)@),
        occupancy_ok(old(game).map@, old(objects)@) ==> occupancy_ok(
            old(game).map@,
            final(objects)@,
        ),
{
    let num_turns = match &objects[monster_id].ai {
        Some(Ai::Confused { num_turns, .. }) => *num_turns,
        _ => 0,
    };
    if num_turns > 0 {
        let ddx = gen_range_inclusive(-1, 1);
        let ddy = gen_range_inclusive(-1, 1);
        Object::move_by(monster_id, ddx, ddy, &game.map, objects);
        let ghost moved = objects@;
        let m = &mut objects[monster_id];
        match &mut m.ai {
            Some(Ai::Confused { num_turns, .. }) => {
                *num_turns = *num_turns - 1;
            },
            _ => {},
        }
        proof {
            let ai = old(objects)@[monster_id as int].ai.unwrap();
            let stored = Some(ai_next(ai));
            assert(objects@ == moved.update(
                monster_id as int,
                with_ai(moved[monster_id as int], stored),
            ));
            lemma_move_preserves(
                game.map@,
                old(objects)@,
                monster_id as int,
                ddx as int,
                ddy as int,
            );
            assert(obj_wf(old(objects)@[monster_id as int]));
            lemma_set_ai_preserves(game.map@, moved, monster_id as int, stored);
        }
    } else {
        let name = objects[monster_id].name.clone();
        let m = &mut objects[monster_id];
        let taken = m.ai.take();
        match taken {
            Some(Ai::Confused { previous_ai, .. }) => {
                m.ai = Some(*previous_ai);
            },
            _ => {},
        }
        game.messages.add(Message::NoLongerConfused { name }, Color::Red);
        proof {
            let ai = old(objects)@[monster_id as int].ai.unwrap();
            assert(obj_wf(old(objects)@[monster_id as int]));
            lemma_set_ai_preserves(
                game.map@,
                old(objects)@,
                monster_id as int,
                Some(ai_next(ai)),
            );
        }
    }
}

/// Run one turn of the monster at `monster_id`: dispatch on its AI state,
/// act, and store the successor state. An entity without an AI does
/// nothing.
pub fn ai_take_turn(monster_id: usize, fov: &Fov, game: &mut Game, objects: &mut Vec<Object>)
    requires
        fov.wf(),
        map_wf(old(game).map@),
        objects_wf(old(objects)@),
        monster_id < old(objects)@.len(),
    ensures
        msgs_only(*old(game), *final(game)),
        old(objects)@[monster_id as int].ai matches Some(ai) ==> spec_ai_turn(
            *fov,
            old(game).map@,
            old(objects)@,
            old(game).messages@,
            final(objects)@,
            final(game).messages@,
            monster_id as int,
            ai,
        ),
        old(objects)@[monster_id as int].ai is None ==> final(objects)@ == old(objects)@
            && final(game).messages@ == old(game).messages@,
        final(objects)@.len() == old(objects)@.len(),
        objects_wf(final(objects)@),
        occupancy_ok(old(game).map@, old(objects)@) ==> occupancy_ok(
            old(game).map@,
            final(objects)@,
        ),
{
    let has_ai: bool;
    let is_basic: bool;
    match &objects[monster_id].ai {
        None => {
            has_ai = false;
            is_basic = false;
        },
        Some(Ai::Basic) => {
            has_ai = true;
            is_basic = true;
        },
        Some(Ai::Confused { .. }) => {
            has_ai = true;
            is_basic = false;
        },
    }
    if !has_ai {
        return ;
    }
    if is_basic {
        let ghost before = objects@;
        let new_ai = ai_basic(monster_id, fov, game, objects);
        let ghost mid_state = objects@;
        let m = &mut objects[monster_id];
        m.ai = Some(new_ai);
        proof {
            assert(objects@ == mid_state.update(
                monster_id as int,
                with_ai(mid_state[monster_id as int], Some(Ai::Basic)),
            ));
            lemma_set_ai_preserves(game.map@, mid_state, monster_id as int, Some(Ai::Basic));
            lemma_ai_basic_to_turn(
                *fov,
                old(game).map@,
                before,
                old(game).messages@,
                mid_state,
                game.messages@,
                objects@,
                monster_id as int,
            );
        }
    } else {
        ai_confused(monster_id, fov, game, objects);
    }
}

/// `r` is the first roster index holding a fighter that stands at
/// `(x, y)`, or nothing when no fighter does.
pub open spec fn spec_first_fighter_at(objects: Seq<Object>, x: int, y: int, r: Option<int>) -> bool {
    match r {
        None => forall|i: int| 0 <= i < objects.len() ==> !fighter_at(#[trigger] objects[i], x, y),
        Some(id) => {
            &&& 0 <= id < objects.len()
            &&& fighter_at(objects[id], x, y)
            &&& forall|i: int| 0 <= i < id ==> !fighter_at(#[trigger] objects[i], x, y)
        },
    }
}

/// The entity holds a fighter and stands at `(x, y)`.
pub open spec fn fighter_at(o: Object, x: int, y: int) -> bool {
    o.x == x && o.y == y && o.fighter is Some
}

/// The first roster index holding a fighter at `(x, y)`.
fn find_fighter_at(objects: &Vec<Object>, x: i32, y: i32) -> (r: Option<usize>)
    ensures
        match r {
            None => spec_first_fighter_at(objects@, x as int, y as int, None),
            Some(id) => id < objects@.len() && spec_first_fighter_at(
                objects@,
                x as int,
                y as int,
                Some(id as int),
            ),
        },
{
    let mut i: usize = 0;
    while i < objects.len()
        invariant
            i <= objects@.len(),
            forall|k: int|
                0 <= k < i ==> !fighter_at(#[trigger] objects@[k], x as int, y as int),
        decreases objects@.len() - i,
    {
        if objects[i].x == x && objects[i].y == y && objects[i].fighter.is_some() {
            return Some(i);
        }
        i = i + 1;
    }
    None
}

/// The effect of the player's directional command on the roster and the
/// log: an attack on the first fighter found on the destination tile, or
/// else an ordinary step.
pub open spec fn spec_move_or_attack(
    dx: int,
    dy: int,
    map: Seq<Vec<Tile>>,
    o0: Seq<Object>,
    m0: Seq<(MsgView, Color)>,
    o1: Seq<Object>,
    m1: Seq<(MsgView, Color)>,
) -> bool {
    let x = o0[PLAYER as int].x + dx;
    let y = o0[PLAYER as int].y + dy;
    ||| (exists|tid: int|
        {
            &&& #[trigger] spec_first_fighter_at(o0, x, y, Some(tid))
            &&& o1.len() == o0.len()
            &&& (forall|j: int| 0 <= j < o0.len() && j != tid ==> #[trigger] o1[j] == o0[j])
            &&& spec_attack_effect(o0[PLAYER as int], o0[tid], o1[tid], m0, m1)
        })
    ||| {
        &&& spec_first_fighter_at(o0, x, y, None)
        &&& o1 == spec_move_by(PLAYER as int, dx, dy, map, o0)
        &&& m1 == m0
    }
}

/// Resolve the player's directional command: attack the first fighter on
/// the destination tile, or else step there under the ordinary movement
/// rules.
pub fn player_move_or_attack(dx: i32, dy: i32, game: &mut Game, objects: &mut Vec<Object>)
    requires
        map_wf(old(game).map@),
        objects_wf(old(objects)@),
        -1 <= dx <= 1,
        -1 <= dy <= 1,
        !(dx == 0 && dy == 0),
    ensures
        msgs_only(*old(game), *final(game)),
        spec_move_or_attack(
            dx as int,
            dy as int,
            old(game).map@,
            old(objects)@,
            old(game).messages@,
            final(objects)@,
            final(game).messages@,
        ),
        final(objects)@.len() == old(objects)@.len(),
        objects_wf(final(objects)@),
        occupancy_ok(old(game).map@, old(objects)@) ==> occupancy_ok(
            old(game).map@,
            final(objects)@,
        ),
{
    let x = objects[PLAYER].x + dx;
    let y = objects[PLAYER].y + dy;

    let target_id = find_fighter_at(objects, x, y);
    match target_id {
        Some(target_id) => {
            assert(objects@[target_id as int].x != objects@[PLAYER as int].x
                || objects@[target_id as int].y != objects@[PLAYER as int].y);
            let (player, target) = mut_two(PLAYER, target_id, objects);
            player.attack(target, game);
            proof {
                let p = old(objects)@[PLAYER as int];
                let t = old(objects)@[target_id as int];
                let dmg = attack_damage(p, t);
                assert(objects@ =~= old(objects)@.update(
                    target_id as int,
                    objects@[target_id as int],
                ));
                if dmg > 0 {
                    lemma_damage_preserves(
                        game.map@,
                        old(objects)@,
                        target_id as int,
                        dmg,
                        objects@[target_id as int],
                    );
                } else {
                    assert(objects@ =~= old(objects)@);
                }
            }
        },
        None => {
            Object::move_by(PLAYER, dx, dy, &game.map, objects);
            proof {
                lemma_move_preserves(game.map@, old(objects)@, PLAYER as int, dx as int, dy as int);
            }
        },
    }
}

/// `r` is the target a ranged item acquires: the fighter-bearing,
/// visible entity other than the player that stands closest to the player
/// (strictly within `max_range + 1`), the earliest such index on a tie.
pub open spec fn spec_closest(
    fov: Fov,
    objects: Seq<Object>,
    max_range: int,
    r: Option<int>,
) -> bool {
    match r {
        None => forall|i: int| !ranged_target_ok(fov, objects, i, max_range),
        Some(id) => {
            &&& ranged_target_ok(fov, objects, id, max_range)
            &&& (forall|j: int|
                #[trigger] ranged_target_ok(fov, objects, j, max_range) ==> target_dist(
                    objects,
                    id,
                ) <= target_dist(objects, j))
            &&& (forall|j: int|
                0 <= j < id && #[trigger] ranged_target_ok(fov, objects, j, max_range)
                    ==> target_dist(objects, j) > target_dist(objects, id))
        },
    }
}

/// Whether the entity at index `i` is a lawful target for a ranged item
/// aimed from the player's position: any visible, fighter-bearing entity
/// other than the player, close enough.
pub open spec fn ranged_target_ok(fov: Fov, objects: Seq<Object>, i: int, max_range: int) -> bool {
    &&& 0 <= i < objects.len()
    &&& i != PLAYER
    &&& objects[i].fighter is Some
    &&& fov.spec_visible(objects[i].x as int, objects[i].y as int)
    &&& target_dist(objects, i) < (max_range + 1) * (max_range + 1)
}

/// Squared distance from the player to the entity at index `i`.
pub open spec fn target_dist(objects: Seq<Object>, i: int) -> int {
    dist_sq(
        objects[PLAYER as int].x as int,
        objects[PLAYER as int].y as int,
        objects[i].x as int,
        objects[i].y as int,
    )
}

/// Find the closest eligible monster strictly within `max_range + 1`
/// tiles of the player, scanning in roster order so the earliest of
/// equally distant candidates wins.
pub fn closest_monster(fov: &Fov, objects: &Vec<Object>, max_range: i32) -> (r: Option<usize>)
    requires
        fov.wf(),
        objects_wf(objects@),
        0 <= max_range,
        (max_range + 1) * (max_range + 1) <= i32::MAX,
    ensures
        match r {
            None => spec_closest(*fov, objects@, max_range as int, None),
            Some(id) => id < objects@.len() && spec_closest(
                *fov,
                objects@,
                max_range as int,
                Some(id as int),
            ),
        },
{
    let mut closest_enemy: Option<usize> = None;
    assert(max_range + 1 <= (max_range + 1) * (max_range + 1)) by (nonlinear_arith)
        requires
            0 <= max_range,
    ;
    let mut closest_dist: i32 = (max_range + 1) * (max_range + 1);

    let mut id: usize = 0;
    while id < objects.len()
        invariant
            fov.wf(),
            objects_wf(objects@),
            id <= objects@.len(),
            0 <= max_range,
            (max_range + 1) * (max_range + 1) <= i32::MAX,
            match closest_enemy {
                None => closest_dist == (max_range + 1) * (max_range + 1) && forall|k: int|
                    0 <= k < id ==> !ranged_target_ok(*fov, objects@, k, max_range as int),
                Some(e) => {
                    &&& e < id
                    &&& ranged_target_ok(*fov, objects@, e as int, max_range as int)
                    &&& closest_dist == target_dist(objects@, e as int)
                    &&& (forall|k: int|
                        0 <= k < id && #[trigger] ranged_target_ok(
                            *fov,
                            objects@,
                            k,
                            max_range as int,
                        ) ==> target_dist(objects@, k) >= closest_dist)
                    &&& (forall|k: int|
                        0 <= k < e && #[trigger] ranged_target_ok(
                            *fov,
                            objects@,
                            k,
                            max_range as int,
                        ) ==> target_dist(objects@, k) > closest_dist)
                },
            },
        decreases objects@.len() - id,
    {
        if id != PLAYER && objects[id].fighter.is_some() && fov.is_visible(
            objects[id].x,
            objects[id].y,
        ) {
            let dist = objects[PLAYER].distance_sq_to(&objects[id]);
            if dist < closest_dist {
                closest_enemy = Some(id);
                closest_dist = dist;
            }
        }
        id = id + 1;
    }
    closest_enemy
}

/// The entity with its hit points restored by `amount`, clamped to
/// `max_hp`; an entity without a fighter is unchanged.
pub open spec fn healed(o: Object, amount: int) -> Object {
    match o.fighter {
        Some(f) => Object {
            fighter: Some(
                Fighter {
                    hp: if f.hp + amount <= f.max_hp {
                        (f.hp + amount) as i32
                    } else {
                        f.max_hp
                    },
                    ..f
                },
            ),
            ..o
        },
        None => o,
    }
}

/// The effect of a healing potion: cancelled at full health (or without a
/// fighter to heal), otherwise the player is healed by `HEAL_AMOUNT` and
/// the potion is spent.
pub open spec fn spec_cast_heal(
    objects: Seq<Object>,
    new_objects: Seq<Object>,
    msgs: Seq<(MsgView, Color)>,
    new_msgs: Seq<(MsgView, Color)>,
    r: UseResult,
) -> bool {
    let p = objects[PLAYER as int];
    if p.fighter is Some {
        if hp_of(p) == p.fighter.unwrap().max_hp {
            &&& r == UseResult::Cancelled
            &&& new_objects == objects
            &&& new_msgs == msgs.push((MsgView::FullHealth, Color::Red))
        } else {
            &&& r == UseResult::UsedUp
            &&& new_objects == objects.update(PLAYER as int, healed(p, HEAL_AMOUNT as int))
            &&& new_msgs == msgs.push((MsgView::WoundsFeelBetter, Color::LightViolet))
        }
    } else {
        &&& r == UseResult::Cancelled
        &&& new_objects == objects
        &&& new_msgs == msgs
    }
}

/// Drink a healing potion: refuse at full health, else restore up to
/// `HEAL_AMOUNT` hit points.
pub fn cast_heal(game: &mut Game, objects: &mut Vec<Object>) -> (r: UseResult)
    requires
        objects_wf(old(objects)@),
    ensures
        msgs_only(*old(game), *final(game)),
        spec_cast_heal(
            old(objects)@,
            final(objects)@,
            old(game).messages@,
            final(game).messages@,
            r,
        ),
        final(objects)@.len() == old(objects)@.len(),
        objects_wf(final(objects)@),
        occupancy_ok(old(game).map@, old(objects)@) ==> occupancy_ok(
            old(game).map@,
            final(objects)@,
        ),
{
    let fighter = objects[PLAYER].fighter;
    if let Some(fighter) = fighter {
        if fighter.hp == fighter.max_hp {
            game.messages.add(Message::FullHealth, Color::Red);
            return UseResult::Cancelled;
        }
        game.messages.add(Message::WoundsFeelBetter, Color::LightViolet);
        let player = &mut objects[PLAYER];
        player.heal(HEAL_AMOUNT);
        proof {
            assert(obj_wf(old(objects)@[PLAYER as int]));
            assert(forall|k: int|
                0 < k < objects@.len() ==> objects@[k] == #[trigger] old(objects)@[k]);
            assert(obj_wf(objects@[PLAYER as int]));
            if occupancy_ok(old(game).map@, old(objects)@) {
                assert forall|a: int, b: int|
                    0 <= a < b < objects@.len() && (#[trigger] objects@[a]).blocks && (
                    #[trigger] objects@[b]).blocks implies !(objects@[a].x == objects@[b].x
                        && objects@[a].y == objects@[b].y) by {
                    assert(old(objects)@[a].blocks && old(objects)@[b].blocks);
                }
            }
        }
        return UseResult::UsedUp;
    }
    UseResult::Cancelled
}

/// The effect of a lightning scroll: the closest eligible monster takes
/// `LIGHTNING_DAMAGE` unmitigated damage; with nobody in range the scroll
/// is kept.
pub open spec fn spec_cast_lightning(
    fov: Fov,
    objects: Seq<Object>,
    new_objects: Seq<Object>,
    msgs: Seq<(MsgView, Color)>,
    new_msgs: Seq<(MsgView, Color)>,
    r: UseResult,
) -> bool {
    if spec_closest(fov, objects, LIGHTNING_RANGE as int, None) {
        &&& r == UseResult::Cancelled
        &&& new_objects == objects
        &&& new_msgs == msgs.push((MsgView::NoTargetInRange, Color::Red))
    } else {
        exists|id: int|
            {
                &&& #[trigger] spec_closest(fov, objects, LIGHTNING_RANGE as int, Some(id))
                &&& r == UseResult::UsedUp
                &&& new_objects.len() == objects.len()
                &&& (forall|j: int|
                    0 <= j < objects.len() && j != id ==> #[trigger] new_objects[j] == objects[j])
                &&& spec_take_damage(objects[id], LIGHTNING_DAMAGE as int, new_objects[id])
                &&& new_msgs == msgs.push(
                    (
                        MsgView::LightningStrike {
                            name: objects[id].name@,
                            damage: LIGHTNING_DAMAGE as int,
                        },
                        Color::LightBlue,
                    ),
                ) + damage_msgs(objects[id], LIGHTNING_DAMAGE as int)
            }
    }
}

/// Loose a lightning bolt at the closest monster in range, bypassing its
/// defense entirely.
pub fn cast_lightning(fov: &Fov, game: &mut Game, objects: &mut Vec<Object>) -> (r: UseResult)
    requires
        fov.wf(),
        objects_wf(old(objects)@),
    ensures
        msgs_only(*old(game), *final(game)),
        spec_cast_lightning(
            *fov,
            old(objects)@,
            final(objects)@,
            old(game).messages@,
            final(game).messages@,
            r,
        ),
        final(objects)@.len() == old(objects)@.len(),
        objects_wf(final(objects)@),
        occupancy_ok(old(game).map@, old(objects)@) ==> occupancy_ok(
            old(game).map@,
            final(objects)@,
        ),
{
    let monster_id = closest_monster(fov, objects, LIGHTNING_RANGE);
    if let Some(monster_id) = monster_id {
        game.messages.add(
            Message::LightningStrike {
                name: objects[monster_id].name.clone(),
                damage: LIGHTNING_DAMAGE,
            },
            Color::LightBlue,
        );
        let target = &mut objects[monster_id];
        target.take_damage(LIGHTNING_DAMAGE, game);
        proof {
            lemma_damage_preserves(
                game.map@,
                old(objects)@,
                monster_id as int,
                LIGHTNING_DAMAGE as int,
                objects@[monster_id as int],
            );
            assert(objects@ =~= old(objects)@.update(
                monster_id as int,
                objects@[monster_id as int],
            ));
        }
        UseResult::UsedUp
    } else {
        game.messages.add(Message::NoTargetInRange, Color::Red);
        UseResult::Cancelled
    }
}

/// The effect of a confusion scroll on its target: the AI it had (or
/// `Basic`, had it none) is wrapped in a `Confused` state that will run
/// for `CONFUSE_NUM_TURNS` turns; everything else about it stays.
pub open spec fn confusion_wrapped(t: Object, nt: Object) -> bool {
    &&& nt == (Object { ai: nt.ai, ..t })
    &&& nt.ai matches Some(ai2) && (ai2 matches Ai::Confused { previous_ai, num_turns } && {
        &&& *previous_ai == (if t.ai is Some {
            t.ai.unwrap()
        } else {
            Ai::Basic
        })
        &&& num_turns == CONFUSE_NUM_TURNS
    })
}

/// The effect of a confusion scroll: the closest eligible monster starts
/// stumbling; with nobody in range the scroll is kept.
pub open spec fn spec_cast_confuse(
    fov: Fov,
    objects: Seq<Object>,
    new_objects: Seq<Object>,
    msgs: Seq<(MsgView, Color)>,
    new_msgs: Seq<(MsgView, Color)>,
    r: UseResult,
) -> bool {
    if spec_closest(fov, objects, CONFUSE_RANGE as int, None) {
        &&& r == UseResult::Cancelled
        &&& new_objects == objects
        &&& new_msgs == msgs.push((MsgView::NoTargetInRange, Color::Red))
    } else {
        exists|id: int|
            {
                &&& #[trigger] spec_closest(fov, objects, CONFUSE_RANGE as int, Some(id))
                &&& r == UseResult::UsedUp
                &&& new_objects.len() == objects.len()
                &&& (forall|j: int|
                    0 <= j < objects.len() && j != id ==> #[trigger] new_objects[j] == objects[j])
                &&& confusion_wrapped(objects[id], new_objects[id])
                &&& new_msgs == msgs.push(
                    (MsgView::ConfusionStarts { name: objects[id].name@ }, Color::LightGreen),
                )
            }
    }
}

/// Confuse the closest monster in range: it keeps its wrapped state for
/// later but stumbles randomly for the next `CONFUSE_NUM_TURNS` turns.
pub fn cast_confuse(fov: &Fov, game: &mut Game, objects: &mut Vec<Object>) -> (r: UseResult)
    requires
        fov.wf(),
        objects_wf(old(objects)@),
    ensures
        msgs_only(*old(game), *final(game)),
        spec_cast_confuse(
            *fov,
            old(objects)@,
            final(objects)@,
            old(game).messages@,
            final(game).messages@,
            r,
        ),
        final(objects)@.len() == old(objects)@.len(),
        objects_wf(final(objects)@),
        occupancy_ok(old(game).map@, old(objects)@) ==> occupancy_ok(
            old(game).map@,
            final(objects)@,
        ),
{
    let monster_id = closest_monster(fov, objects, CONFUSE_RANGE);
    if let Some(monster_id) = monster_id {
        let name = objects[monster_id].name.clone();
        let target = &mut objects[monster_id];
        let old_ai = target.ai.take();
        let previous = match old_ai {
            Some(ai) => ai,
            None => Ai::Basic,
        };
        target.ai = Some(
            Ai::Confused { previous_ai: Box::new(previous), num_turns: CONFUSE_NUM_TURNS },
        );
        game.messages.add(Message::ConfusionStarts { name }, Color::LightGreen);
        proof {
            assert(obj_wf(old(objects)@[monster_id as int]));
            lemma_set_ai_preserves(
                game.map@,
                old(objects)@,
                monster_id as int,
                objects@[monster_id as int].ai,
            );
            assert(objects@ =~= old(objects)@.update(
                monster_id as int,
                with_ai(
                    old(objects)@[monster_id as int],
                    objects@[monster_id as int].ai,
                ),
            ));
        }
        UseResult::UsedUp
    } else {
        game.messages.add(Message::NoTargetInRange, Color::Red);
        UseResult::Cancelled
    }
}

/// Use the inventory entry at `inventory_id`: dispatch on its item kind; a
/// spent item leaves the inventory, a cancelled use keeps it and says so.
/// An entry with no item kind only reports that it cannot be used.
pub fn use_item(inventory_id: usize, fov: &Fov, game: &mut Game, objects: &mut Vec<Object>)
    requires
        fov.wf(),
        objects_wf(old(objects)@),
        game_wf(*old(game)),
        inventory_id < old(game).inventory@.len(),
    ensures
        spec_use_item(
            inventory_id as int,
            *fov,
            *old(game),
            old(objects)@,
            *final(game),
            final(objects)@,
        ),
        final(objects)@.len() == old(objects)@.len(),
        objects_wf(final(objects)@),
        game_wf(*final(game)),
        occupancy_ok(old(game).map@, old(objects)@) ==> occupancy_ok(
            old(game).map@,
            final(objects)@,
        ),
{
    let item = game.inventory[inventory_id].item;
    if let Some(item) = item {
        let result = match item {
            Item::Heal => cast_heal(game, objects),
            Item::Lightning => cast_lightning(fov, game, objects),
            Item::Confuse => cast_confuse(fov, game, objects),
        };
        let ghost cast_msgs = game.messages@;
        match result {
            UseResult::UsedUp => {
                game.inventory.remove(inventory_id);
                proof {
                    assert forall|i: int|
                        0 <= i < game.inventory@.len() implies inv_entry_ok(
                        #[trigger] game.inventory@[i],
                    ) by {
                        if i < inventory_id {
                            assert(game.inventory@[i] == old(game).inventory@[i]);
                        } else {
                            assert(game.inventory@[i] == old(game).inventory@[i + 1]);
                        }
                    }
                }
            },
            UseResult::Cancelled => {
                game.messages.add(Message::Cancelled, Color::White);
            },
        }
        proof {
            let entry = old(game).inventory@[inventory_id as int];
            assert(spec_cast(
                entry.item.unwrap(),
                *fov,
                old(objects)@,
                objects@,
                old(game).messages@,
                cast_msgs,
                result,
            ));
        }
    } else {
        let name = game.inventory[inventory_id].name.clone();
        game.messages.add(Message::CannotUse { name }, Color::White);
    }
}

/// The effect of using the inventory entry at `inventory_id`: its
/// handler's effect, followed by the disposal rule — a spent item leaves
/// the inventory, a cancelled use keeps it and logs the cancellation, and
/// an entry without an item kind is only reported.
pub open spec fn spec_use_item(
    inventory_id: int,
    fov: Fov,
    g0: Game,
    o0: Seq<Object>,
    g1: Game,
    o1: Seq<Object>,
) -> bool {
    let entry = g0.inventory@[inventory_id];
    &&& g1.map == g0.map
    &&& match entry.item {
        None => {
            &&& o1 == o0
            &&& g1.inventory == g0.inventory
            &&& g1.messages@ == g0.messages@.push(
                (MsgView::CannotUse { name: entry.name@ }, Color::White),
            )
        },
        Some(kind) => exists|r: UseResult, cast_msgs: Seq<(MsgView, Color)>|
            {
                &&& #[trigger] spec_cast(kind, fov, o0, o1, g0.messages@, cast_msgs, r)
                &&& (r == UseResult::UsedUp ==> g1.inventory@ == g0.inventory@.remove(inventory_id)
                    && g1.messages@ == cast_msgs)
                &&& (r == UseResult::Cancelled ==> g1.inventory == g0.inventory && g1.messages@
                    == cast_msgs.push((MsgView::Cancelled, Color::White)))
            },
    }
}

/// The effect of using an item of kind `kind`, as the matching handler
/// states it.
pub open spec fn spec_cast(
    kind: Item,
    fov: Fov,
    objects: Seq<Object>,
    new_objects: Seq<Object>,
    msgs: Seq<(MsgView, Color)>,
    new_msgs: Seq<(MsgView, Color)>,
    r: UseResult,
) -> bool {
    match kind {
        Item::Heal => spec_cast_heal(objects, new_objects, msgs, new_msgs, r),
        Item::Lightning => spec_cast_lightning(fov, objects, new_objects, msgs, new_msgs, r),
        Item::Confuse => spec_cast_confuse(fov, objects, new_objects, msgs, new_msgs, r),
    }
}

/// The entity holds an item and lies at `(x, y)`.
pub open spec fn item_at(o: Object, x: int, y: int) -> bool {
    o.x == x && o.y == y && o.item is Some
}

/// `r` is the first roster index holding an item entity at `(x, y)`, or
/// nothing when none lies there.
pub open spec fn spec_first_item_at(objects: Seq<Object>, x: int, y: int, r: Option<int>) -> bool {
    match r {
        None => forall|i: int| 0 <= i < objects.len() ==> !item_at(#[trigger] objects[i], x, y),
        Some(id) => {
            &&& 0 <= id < objects.len()
            &&& item_at(objects[id], x, y)
            &&& forall|i: int| 0 <= i < id ==> !item_at(#[trigger] objects[i], x, y)
        },
    }
}

/// The first roster index holding an item entity at `(x, y)`.
pub fn find_item_at(objects: &Vec<Object>, x: i32, y: i32) -> (r: Option<usize>)
    ensures
        match r {
            None => spec_first_item_at(objects@, x as int, y as int, None),
            Some(id) => id < objects@.len() && spec_first_item_at(
                objects@,
                x as int,
                y as int,
                Some(id as int),
            ),
        },
{
    let mut i: usize = 0;
    while i < objects.len()
        invariant
            i <= objects@.len(),
            forall|k: int| 0 <= k < i ==> !item_at(#[trigger] objects@[k], x as int, y as int),
        decreases objects@.len() - i,
    {
        if objects[i].x == x && objects[i].y == y && objects[i].item.is_some() {
            return Some(i);
        }
        i = i + 1;
    }
    None
}

/// The effect of picking up the entity at `object_id`: refused with a
/// report when the inventory is full, else the entity leaves the world
/// (the roster's last entity taking its slot) and joins the inventory.
pub open spec fn spec_pick_up(
    object_id: int,
    g0: Game,
    o0: Seq<Object>,
    g1: Game,
    o1: Seq<Object>,
) -> bool {
    &&& g1.map == g0.map
    &&& if g0.inventory@.len() >= INVENTORY_CAPACITY {
        &&& o1 == o0
        &&& g1.inventory == g0.inventory
        &&& g1.messages@ == g0.messages@.push(
            (MsgView::InventoryFull { name: o0[object_id].name@ }, Color::Red),
        )
    } else {
        &&& o1 == o0.update(object_id, o0.last()).drop_last()
        &&& g1.inventory@ == g0.inventory@.push(o0[object_id])
        &&& g1.messages@ == g0.messages@.push(
            (MsgView::PickedUp { name: o0[object_id].name@ }, Color::Green),
        )
    }
}

/// Move the entity at `object_id` from the world into the inventory, or
/// report a full inventory and change nothing else.
pub fn pick_item_up(object_id: usize, game: &mut Game, objects: &mut Vec<Object>)
    requires
        objects_wf(old(objects)@),
        game_wf(*old(game)),
        object_id < old(objects)@.len(),
        object_id != PLAYER,
        old(objects)@[object_id as int].item is Some,
    ensures
        spec_pick_up(object_id as int, *old(game), old(objects)@, *final(game), final(objects)@),
        objects_wf(final(objects)@),
        game_wf(*final(game)),
        occupancy_ok(old(game).map@, old(objects)@) ==> occupancy_ok(
            old(game).map@,
            final(objects)@,
        ),
{
    if game.inventory.len() >= INVENTORY_CAPACITY {
        let name = objects[object_id].name.clone();
        game.messages.add(Message::InventoryFull { name }, Color::Red);
    } else {
        let item = objects.swap_remove(object_id);
        game.messages.add(Message::PickedUp { name: item.name.clone() }, Color::Green);
        game.inventory.push(item);
        proof {
            assert forall|i: int| 0 <= i < objects@.len() implies obj_wf(
                #[trigger] objects@[i],
            ) by {
                assert(objects@[i] == old(objects)@.update(
                    object_id as int,
                    old(objects)@.last(),
                )[i]);
            }
        }
    }
}

/// The display names of the inventory's entries, in slot order, for a
/// selection menu to show.
pub fn inventory_names(inventory: &Vec<Object>) -> (r: Vec<String>)
    ensures
        r@.len() == inventory@.len(),
        forall|i: int| 0 <= i < r@.len() ==> (#[trigger] r@[i])@ == inventory@[i].name@,
{
    let mut names: Vec<String> = Vec::new();
    let mut i: usize = 0;
    while i < inventory.len()
        invariant
            i <= inventory@.len(),
            names@.len() == i,
            forall|k: int| 0 <= k < i ==> (#[trigger] names@[k])@ == inventory@[k].name@,
        decreases inventory@.len() - i,
    {
        names.push(inventory[i].name.clone());
        i = i + 1;
    }
    names
}

/// The effect of dropping the inventory entry at `inventory_id`: it
/// leaves the inventory and rejoins the world at the player's feet.
pub open spec fn spec_drop_item(
    inventory_id: int,
    g0: Game,
    o0: Seq<Object>,
    g1: Game,
    o1: Seq<Object>,
) -> bool {
    &&& g1.map == g0.map
    &&& g1.inventory@ == g0.inventory@.remove(inventory_id)
    &&& o1 == o0.push(
        (Object {
            x: o0[PLAYER as int].x,
            y: o0[PLAYER as int].y,
            ..g0.inventory@[inventory_id]
        }),
    )
    &&& g1.messages@ == g0.messages@.push(
        (MsgView::Dropped { name: g0.inventory@[inventory_id].name@ }, Color::Yellow),
    )
}

/// Take the entry at `inventory_id` out of the inventory and put it back
/// into the world at the owner's feet.
pub fn drop_item(inventory_id: usize, game: &mut Game, objects: &mut Vec<Object>)
    requires
        objects_wf(old(objects)@),
        game_wf(*old(game)),
        inventory_id < old(game).inventory@.len(),
    ensures
        spec_drop_item(
            inventory_id as int,
            *old(game),
            old(objects)@,
            *final(game),
            final(objects)@,
        ),
        objects_wf(final(objects)@),
        game_wf(*final(game)),
        occupancy_ok(old(game).map@, old(objects)@) ==> occupancy_ok(
            old(game).map@,
            final(objects)@,
        ),
{
    let mut item = game.inventory.remove(inventory_id);
    let (px, py) = objects[PLAYER].pos();
    item.set_pos(px, py);
    game.messages.add(Message::Dropped { name: item.name.clone() }, Color::Yellow);
    objects.push(item);
    proof {
        assert(inv_entry_ok(old(game).inventory@[inventory_id as int]));
        assert(obj_wf(old(objects)@[PLAYER as int]));
        assert forall|i: int| 0 <= i < objects@.len() implies obj_wf(#[trigger] objects@[i]) by {
            if i < old(objects)@.len() {
                assert(objects@[i] == old(objects)@[i]);
            } else {
                assert(objects@[i] == objects@.last());
            }
        }
    }
}

/// Storing `Basic` back after a basic turn yields exactly the turn
/// relation: the state machine's successor of `Basic` is `Basic`.
proof fn lemma_ai_basic_to_turn(
    fov: Fov,
    map: Seq<Vec<Tile>>,
    objects: Seq<Object>,
    msgs: Seq<(MsgView, Color)>,
    mid_objects: Seq<Object>,
    new_msgs: Seq<(MsgView, Color)>,
    new_objects: Seq<Object>,
    monster_id: int,
)
    requires
        0 <= monster_id < objects.len(),
        monster_id != PLAYER,
        0 <= PLAYER < objects.len(),
        objects[monster_id].ai == Some(Ai::Basic),
        spec_ai_basic(fov, map, objects, msgs, mid_objects, new_msgs, monster_id),
        new_objects == mid_objects.update(
            monster_id,
            with_ai(mid_objects[monster_id], Some(Ai::Basic)),
        ),
    ensures
        spec_ai_turn(fov, map, objects, msgs, new_objects, new_msgs, monster_id, Ai::Basic),
{
    let m = objects[monster_id];
    let p = objects[PLAYER as int];
    let stored = Some(ai_next(Ai::Basic));
    if !fov.spec_visible(m.x as int, m.y as int) {
        assert(new_objects =~= objects.update(monster_id, with_ai(m, stored)));
    } else if dist_sq(m.x as int, m.y as int, p.x as int, p.y as int) >= 4 {
        let step = step_toward(p.x - m.x, p.y - m.y);
        let moved = spec_move_by(monster_id, step.0, step.1, map, objects);
        assert(new_objects =~= moved.update(monster_id, with_ai(moved[monster_id], stored)));
    } else if p.fighter is Some && hp_of(p) > 0 {
        assert(new_objects[monster_id] == with_ai(m, stored));
        assert(forall|i: int|
            0 <= i < objects.len() && i != monster_id && i != PLAYER
                ==> #[trigger] new_objects[i] == objects[i]);
    } else {
        assert(new_objects =~= objects.update(monster_id, with_ai(m, stored)));
    }
}

} // verus!
