//! A turn-based dungeon-crawler core: procedural map generation, an entity
//! roster with combat and status effects, inventory handling, and a turn
//! scheduler, all specified and verified. Rendering, input and the
//! field-of-view computation live outside this crate and talk to it through
//! plain data (see [`fov::Fov`] and [`input::Command`]).

use vstd::prelude::*;

pub mod fov;
pub mod input;
pub mod map;
pub mod object;
pub mod render;
pub mod turn;
mod rng;

use crate::map::{map_wf, TileGrid};
use crate::object::Object;
use crate::render::Messages;

verus! {

/// Index of the player entity in the world's entity collection, by convention.
pub const PLAYER: usize = 0;

/// Everything the world owns besides the entity roster: the tile grid, the
/// message log, and the player's inventory.
#[derive(Debug)]
pub struct Game {
    pub map: TileGrid,
    pub messages: Messages,
    pub inventory: Vec<Object>,
}

/// Entities held in an inventory are items: they carry an item component
/// and none of the components that would let them act on their own.
pub open spec fn inv_entry_ok(o: Object) -> bool {
    &&& o.item is Some
    &&& !o.blocks
    &&& !o.alive
    &&& o.ai is None
    &&& o.fighter is None
}

/// Soundness of the non-roster world state: the grid has its fixed
/// dimensions, and the inventory respects its capacity and holds items
/// only.
pub open spec fn game_wf(g: Game) -> bool {
    &&& map_wf(g.map@)
    &&& g.inventory@.len() <= object::INVENTORY_CAPACITY
    &&& forall|i: int| 0 <= i < g.inventory@.len() ==> inv_entry_ok(#[trigger] g.inventory@[i])
}

/// Two exclusive borrows of distinct entries of one collection. Asking
/// twice for the same index is a contract violation, ruled out here rather
/// than detected at run time.
pub fn mut_two<T>(first_index: usize, second_index: usize, items: &mut Vec<T>) -> (r: (
    &mut T,
    &mut T,
))
    requires
        first_index != second_index,
        first_index < old(items).len(),
        second_index < old(items).len(),
    ensures
        *r.0 == old(items)@[first_index as int],
        *r.1 == old(items)@[second_index as int],
        final(items)@ == old(items)@.update(first_index as int, *final(r.0)).update(
            second_index as int,
            *final(r.1),
        ),
{
    let slice: &mut [T] = items.as_mut_slice();
    if first_index < second_index {
        let (left, right) = slice.split_at_mut(second_index);
        let (_, mid) = left.split_at_mut(first_index);
        let a = mid.first_mut().unwrap();
        let b = right.first_mut().unwrap();
        (a, b)
    } else {
        let (left, right) = slice.split_at_mut(first_index);
        let (_, mid) = left.split_at_mut(second_index);
        let b = mid.first_mut().unwrap();
        let a = right.first_mut().unwrap();
        (a, b)
    }
}

} // verus!

