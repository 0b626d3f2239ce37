//! What the core hands to a presentation layer: named colors, structured log
//! messages, and the append-only message log. Turning a [`Message`] into
//! display text is the presentation layer's job; the core records which
//! event happened, with the names and numbers it concerns.

use vstd::prelude::*;
use crate::fov::Fov;
use crate::map::{map_wf, set_tile, Tile, TileGrid, MAP_HEIGHT, MAP_WIDTH};
use crate::object::Object;

verus! {

/// A named display color. The presentation layer maps each name to actual
/// channel values; the core only records which color a message or entity
/// carries.
#[derive(Clone, Copy, Debug, PartialEq, Eq, Structural)]
pub enum Color {
    White,
    Red,
    Orange,
    Yellow,
    Green,
    DesaturatedGreen,
    DarkerGreen,
    DarkRed,
    Violet,
    LightViolet,
    LightYellow,
    LightBlue,
    LightGreen,
}

/// One event worth reporting to the player. Each variant carries the names
/// and numbers the report is about.
#[derive(Debug, PartialEq)]
pub enum Message {
    /// Greeting shown when a session starts.
    Welcome,
    /// Prompt shown after the player has died.
    ReplayPrompt,
    /// An attack landed for `damage` hit points.
    AttackHit { attacker: String, target: String, damage: i32 },
    /// An attack dealt no damage.
    AttackNoEffect { attacker: String, target: String },
    /// A monster died.
    Dead { name: String },
    /// The player died.
    PlayerDied,
    /// A confused monster recovered.
    NoLongerConfused { name: String },
    /// A pickup was rejected because the inventory is full.
    InventoryFull { name: String },
    /// An item was picked up.
    PickedUp { name: String },
    /// An item was dropped.
    Dropped { name: String },
    /// The chosen inventory entry has no usable item.
    CannotUse { name: String },
    /// An item use was cancelled.
    Cancelled,
    /// Healing was refused at full health.
    FullHealth,
    /// Healing was applied.
    WoundsFeelBetter,
    /// A lightning bolt struck `name` for `damage` hit points.
    LightningStrike { name: String, damage: i32 },
    /// A confusion spell took hold of `name`.
    ConfusionStarts { name: String },
    /// No enemy was in range for a targeted item.
    NoTargetInRange,
}

/// The mathematical value of a [`Message`]: the same variants, with names
/// as character sequences. Contracts speak of these, never of heap
/// strings.
pub enum MsgView {
    Welcome,
    ReplayPrompt,
    AttackHit { attacker: Seq<char>, target: Seq<char>, damage: int },
    AttackNoEffect { attacker: Seq<char>, target: Seq<char> },
    Dead { name: Seq<char> },
    PlayerDied,
    NoLongerConfused { name: Seq<char> },
    InventoryFull { name: Seq<char> },
    PickedUp { name: Seq<char> },
    Dropped { name: Seq<char> },
    CannotUse { name: Seq<char> },
    Cancelled,
    FullHealth,
    WoundsFeelBetter,
    LightningStrike { name: Seq<char>, damage: int },
    ConfusionStarts { name: Seq<char> },
    NoTargetInRange,
}

impl View for Message {
    type V = MsgView;

    open spec fn view(&self) -> MsgView {
        match self {
            Message::Welcome => MsgView::Welcome,
            Message::ReplayPrompt => MsgView::ReplayPrompt,
            Message::AttackHit { attacker, target, damage } => MsgView::AttackHit {
                attacker: attacker@,
                target: target@,
                damage: *damage as int,
            },
            Message::AttackNoEffect { attacker, target } => MsgView::AttackNoEffect {
                attacker: attacker@,
                target: target@,
            },
            Message::Dead { name } => MsgView::Dead { name: name@ },
            Message::PlayerDied => MsgView::PlayerDied,
            Message::NoLongerConfused { name } => MsgView::NoLongerConfused { name: name@ },
            Message::InventoryFull { name } => MsgView::InventoryFull { name: name@ },
            Message::PickedUp { name } => MsgView::PickedUp { name: name@ },
            Message::Dropped { name } => MsgView::Dropped { name: name@ },
            Message::CannotUse { name } => MsgView::CannotUse { name: name@ },
            Message::Cancelled => MsgView::Cancelled,
            Message::FullHealth => MsgView::FullHealth,
            Message::WoundsFeelBetter => MsgView::WoundsFeelBetter,
            Message::LightningStrike { name, damage } => MsgView::LightningStrike {
                name: name@,
                damage: *damage as int,
            },
            Message::ConfusionStarts { name } => MsgView::ConfusionStarts { name: name@ },
            Message::NoTargetInRange => MsgView::NoTargetInRange,
        }
    }
}

/// The value of one log entry.
pub open spec fn entry_view(e: (Message, Color)) -> (MsgView, Color) {
    (e.0@, e.1)
}

/// The append-only message log: `(message, color)` pairs, oldest first.
/// Unbounded here; display truncation is a presentation concern.
#[derive(Debug)]
pub struct Messages {
    messages: Vec<(Message, Color)>,
}

impl View for Messages {
    type V = Seq<(MsgView, Color)>;

    closed spec fn view(&self) -> Seq<(MsgView, Color)> {
        self.messages@.map_values(|e: (Message, Color)| entry_view(e))
    }
}

impl Messages {
    /// An empty log.
    pub fn new() -> (m: Messages)
        ensures
            m@ == Seq::<(MsgView, Color)>::empty(),
    {
        Messages { messages: Vec::new() }
    }

    /// Append one entry; nothing else ever changes or removes entries.
    pub fn add(&mut self, message: Message, color: Color)
        ensures
            final(self)@ == old(self)@.push((message@, color)),
    {
        self.messages.push((message, color));
        proof {
            assert(self.messages@.map_values(|e: (Message, Color)| entry_view(e))
                =~= old(self).messages@.map_values(|e: (Message, Color)| entry_view(e)).push(
                (message@, color),
            ));
        }
    }

    /// Read access to the whole log, oldest entry first.
    pub fn iter(&self) -> (r: &Vec<(Message, Color)>)
        ensures
            r@.map_values(|e: (Message, Color)| entry_view(e)) == self@,
    {
        &self.messages
    }

    /// Number of entries in the log.
    pub fn len(&self) -> (n: usize)
        ensures
            n == self@.len(),
    {
        self.messages.len()
    }
}

/// Mark every currently visible tile as explored. Exploration is
/// monotone: a tile marked once stays marked, and nothing else about any
/// tile changes.
pub fn reveal_visible(map: &mut TileGrid, fov: &Fov)
    requires
        map_wf(old(map)@),
        fov.wf(),
    ensures
        map_wf(final(map)@),
        forall|x: int, y: int|
            0 <= x < MAP_WIDTH && 0 <= y < MAP_HEIGHT ==> #[trigger] final(map)@[x]@[y] == (Tile {
                explored: old(map)@[x]@[y].explored || fov.spec_visible(x, y),
                ..old(map)@[x]@[y]
            }),
{
    let mut x: i32 = 0;
    while x < MAP_WIDTH
        invariant
            map_wf(map@),
            fov.wf(),
            0 <= x <= MAP_WIDTH,
            forall|i: int, j: int|
                0 <= i < MAP_WIDTH && 0 <= j < MAP_HEIGHT ==> #[trigger] map@[i]@[j] == (Tile {
                    explored: old(map)@[i]@[j].explored || (i < x && fov.spec_visible(i, j)),
                    ..old(map)@[i]@[j]
                }),
        decreases MAP_WIDTH - x,
    {
        let mut y: i32 = 0;
        while y < MAP_HEIGHT
            invariant
                map_wf(map@),
                fov.wf(),
                0 <= x < MAP_WIDTH,
                0 <= y <= MAP_HEIGHT,
                forall|i: int, j: int|
                    0 <= i < MAP_WIDTH && 0 <= j < MAP_HEIGHT ==> #[trigger] map@[i]@[j] == (Tile {
                        explored: old(map)@[i]@[j].explored || (i < x && fov.spec_visible(i, j))
                            || (i == x && j < y && fov.spec_visible(i, j)),
                        ..old(map)@[i]@[j]
                    }),
            decreases MAP_HEIGHT - y,
        {
            if fov.is_visible(x, y) {
                let t = map[x as usize][y as usize];
                set_tile(map, x, y, Tile { explored: true, ..t });
            }
            y = y + 1;
        }
        x = x + 1;
    }
}

/// The names of the entities standing at `(x, y)`, in roster order.
pub open spec fn spec_names_at(objects: Seq<Object>, x: int, y: int) -> Seq<Seq<char>>
    decreases objects.len(),
{
    if objects.len() == 0 {
        Seq::empty()
    } else {
        let rest = spec_names_at(objects.drop_last(), x, y);
        if objects.last().x == x && objects.last().y == y {
            rest.push(objects.last().name@)
        } else {
            rest
        }
    }
}

/// The names to show for the tile at `(x, y)`: the names of everything
/// standing there, in roster order, and nothing when the tile is not in
/// the visible set.
pub fn names_at(x: i32, y: i32, objects: &Vec<Object>, fov: &Fov) -> (r: Vec<String>)
    requires
        fov.wf(),
    ensures
        fov.spec_visible(x as int, y as int) ==> r@.map_values(|s: String| s@) == spec_names_at(
            objects@,
            x as int,
            y as int,
        ),
        !fov.spec_visible(x as int, y as int) ==> r@.len() == 0,
{
    let mut names: Vec<String> = Vec::new();
    if !fov.is_visible(x, y) {
        return names;
    }
    let mut i: usize = 0;
    while i < objects.len()
        invariant
            i <= objects@.len(),
            names@.map_values(|s: String| s@) == spec_names_at(
                objects@.take(i as int),
                x as int,
                y as int,
            ),
        decreases objects@.len() - i,
    {
        let ghost prefix = objects@.take(i as int);
        if objects[i].x == x && objects[i].y == y {
            names.push(objects[i].name.clone());
        }
        proof {
            assert(objects@.take(i + 1).drop_last() =~= prefix);
            assert(objects@.take(i + 1).last() == objects@[i as int]);
            if objects@[i as int].x == x && objects@[i as int].y == y {
                assert(names@.map_values(|s: String| s@) =~= spec_names_at(prefix, x as int, y as int).push(objects@[i as int].name@));
            }
        }
        i = i + 1;
    }
    proof {
        assert(objects@.take(objects@.len() as int) =~= objects@);
    }
    names
}

} // verus!
