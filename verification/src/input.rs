//! The input port: the closed set of player commands, their classification
//! into spent and free turns, and the interpreter that applies one command
//! to the world. Reading keys and showing menus is the presentation
//! layer's job; it hands in one resolved [`Command`] per turn.

use vstd::prelude::*;
use crate::fov::Fov;
use crate::map::map_wf;
use crate::object::{
    drop_item, find_item_at, obj_wf, objects_wf, occupancy_ok, pick_item_up,
    player_move_or_attack, spec_drop_item, spec_first_item_at, spec_move_or_attack, spec_pick_up,
    spec_use_item, use_item, Object,
};
use crate::{game_wf, Game, PLAYER};

verus! {

/// How a command left the turn: a world-changing action spends the turn
/// and hands it to the monsters, anything else does not; `Exit` ends the
/// session and `Replay` restarts it after a defeat.
#[derive(Clone, Copy, Debug, PartialEq, Eq, Structural)]
pub enum PlayerAction {
    Replay,
    TookTurn,
    DidntTakeTurn,
    Exit,
}

/// One resolved player command. Menu-driven commands arrive with the
/// chosen inventory index already resolved; a menu that was opened and
/// cancelled arrives as `OpenInventory`.
#[derive(Clone, Copy, Debug, PartialEq, Eq, Structural)]
pub enum Command {
    MoveUp,
    MoveDown,
    MoveLeft,
    MoveRight,
    PickUp,
    OpenInventory,
    UseItem { inventory_index: usize },
    DropItem { inventory_index: usize },
    ToggleFullscreen,
    ConfirmReplay,
    Exit,
}

/// The classification every command receives, as a function of the command
/// and whether the player is alive: movement and item commands spend the
/// turn while alive and are dead keys otherwise; a menu that was opened
/// and cancelled, picking up, and toggling the display never spend it;
/// confirming a replay only means something to a dead player.
pub open spec fn spec_player_action(cmd: Command, objects: Seq<Object>) -> PlayerAction {
    let alive = objects[PLAYER as int].alive;
    match cmd {
        Command::MoveUp | Command::MoveDown | Command::MoveLeft | Command::MoveRight => if alive {
            PlayerAction::TookTurn
        } else {
            PlayerAction::DidntTakeTurn
        },
        Command::PickUp => PlayerAction::DidntTakeTurn,
        Command::OpenInventory => PlayerAction::DidntTakeTurn,
        Command::UseItem { .. } | Command::DropItem { .. } => if alive {
            PlayerAction::TookTurn
        } else {
            PlayerAction::DidntTakeTurn
        },
        Command::ToggleFullscreen => PlayerAction::DidntTakeTurn,
        Command::ConfirmReplay => if alive {
            PlayerAction::DidntTakeTurn
        } else {
            PlayerAction::Replay
        },
        Command::Exit => PlayerAction::Exit,
    }
}

/// Nothing about the world changed.
pub open spec fn spec_unchanged(g0: Game, o0: Seq<Object>, g1: Game, o1: Seq<Object>) -> bool {
    &&& o1 == o0
    &&& g1.inventory == g0.inventory
    &&& g1.messages@ == g0.messages@
}

/// The full effect of one command on the world, together with its
/// classification. A dead player's movement and inventory commands do
/// nothing.
pub open spec fn spec_handle_command(
    cmd: Command,
    fov: Fov,
    g0: Game,
    o0: Seq<Object>,
    g1: Game,
    o1: Seq<Object>,
    r: PlayerAction,
) -> bool {
    let alive = o0[PLAYER as int].alive;
    &&& r == spec_player_action(cmd, o0)
    &&& g1.map == g0.map
    &&& match cmd {
        Command::MoveUp => spec_dir_effect(0, -1, g0, o0, g1, o1),
        Command::MoveDown => spec_dir_effect(0, 1, g0, o0, g1, o1),
        Command::MoveLeft => spec_dir_effect(-1, 0, g0, o0, g1, o1),
        Command::MoveRight => spec_dir_effect(1, 0, g0, o0, g1, o1),
        Command::PickUp => {
            let px = o0[PLAYER as int].x as int;
            let py = o0[PLAYER as int].y as int;
            if alive {
                ||| (exists|oid: int|
                    #[trigger] spec_first_item_at(o0, px, py, Some(oid)) && spec_pick_up(
                        oid,
                        g0,
                        o0,
                        g1,
                        o1,
                    ))
                ||| (spec_first_item_at(o0, px, py, None) && spec_unchanged(g0, o0, g1, o1))
            } else {
                spec_unchanged(g0, o0, g1, o1)
            }
        },
        Command::UseItem { inventory_index } => if alive && inventory_index
            < g0.inventory@.len() {
            spec_use_item(inventory_index as int, fov, g0, o0, g1, o1)
        } else {
            spec_unchanged(g0, o0, g1, o1)
        },
        Command::DropItem { inventory_index } => if alive && inventory_index
            < g0.inventory@.len() {
            spec_drop_item(inventory_index as int, g0, o0, g1, o1)
        } else {
            spec_unchanged(g0, o0, g1, o1)
        },
        Command::OpenInventory | Command::ToggleFullscreen | Command::ConfirmReplay
            | Command::Exit => spec_unchanged(g0, o0, g1, o1),
    }
}

/// A directional command while alive resolves to a move-or-attack; dead,
/// it does nothing.
pub open spec fn spec_dir_effect(
    dx: int,
    dy: int,
    g0: Game,
    o0: Seq<Object>,
    g1: Game,
    o1: Seq<Object>,
) -> bool {
    if o0[PLAYER as int].alive {
        &&& spec_move_or_attack(dx, dy, g0.map@, o0, g0.messages@, o1, g1.messages@)
        &&& g1.inventory == g0.inventory
    } else {
        spec_unchanged(g0, o0, g1, o1)
    }
}

/// Apply one resolved command to the world and classify it. The world's
/// structural invariants are preserved, whatever the command.
pub fn handle_command(cmd: Command, fov: &Fov, game: &mut Game, objects: &mut Vec<Object>) -> (r:
    PlayerAction)
    requires
        fov.wf(),
        map_wf(old(game).map@),
        objects_wf(old(objects)@),
        game_wf(*old(game)),
    ensures
        spec_handle_command(
            cmd,
            *fov,
            *old(game),
            old(objects)@,
            *final(game),
            final(objects)@,
            r,
        ),
        objects_wf(final(objects)@),
        game_wf(*final(game)),
        occupancy_ok(old(game).map@, old(objects)@) ==> occupancy_ok(
            old(game).map@,
            final(objects)@,
        ),
{
    let player_alive = objects[PLAYER].alive;
    match cmd {
        Command::MoveUp => {
            if player_alive {
                player_move_or_attack(0, -1, game, objects);
                PlayerAction::TookTurn
            } else {
                PlayerAction::DidntTakeTurn
            }
        },
        Command::MoveDown => {
            if player_alive {
                player_move_or_attack(0, 1, game, objects);
                PlayerAction::TookTurn
            } else {
                PlayerAction::DidntTakeTurn
            }
        },
        Command::MoveLeft => {
            if player_alive {
                player_move_or_attack(-1, 0, game, objects);
                PlayerAction::TookTurn
            } else {
                PlayerAction::DidntTakeTurn
            }
        },
        Command::MoveRight => {
            if player_alive {
                player_move_or_attack(1, 0, game, objects);
                PlayerAction::TookTurn
            } else {
                PlayerAction::DidntTakeTurn
            }
        },
        Command::PickUp => {
            if player_alive {
                let (px, py) = objects[PLAYER].pos();
                let item_id = find_item_at(objects, px, py);
                if let Some(item_id) = item_id {
                    proof {
                        assert(obj_wf(old(objects)@[PLAYER as int]));
                    }
                    pick_item_up(item_id, game, objects);
                }
            }
            PlayerAction::DidntTakeTurn
        },
        Command::OpenInventory => PlayerAction::DidntTakeTurn,
        Command::UseItem { inventory_index } => {
            if player_alive {
                if inventory_index < game.inventory.len() {
                    use_item(inventory_index, fov, game, objects);
                }
                PlayerAction::TookTurn
            } else {
                PlayerAction::DidntTakeTurn
            }
        },
        Command::DropItem { inventory_index } => {
            if player_alive {
                if inventory_index < game.inventory.len() {
                    drop_item(inventory_index, game, objects);
                }
                PlayerAction::TookTurn
            } else {
                PlayerAction::DidntTakeTurn
            }
        },
        Command::ToggleFullscreen => PlayerAction::DidntTakeTurn,
        Command::ConfirmReplay => {
            if player_alive {
                PlayerAction::DidntTakeTurn
            } else {
                PlayerAction::Replay
            }
        },
        Command::Exit => PlayerAction::Exit,
    }
}

/// Map a menu key to the index of the option it selects: letters select
/// options in display order (`a` the first), case-insensitively; any
/// other key, or a letter past the last option, selects nothing.
pub fn menu_index(choice: char, option_count: usize) -> (r: Option<usize>)
    requires
        option_count <= 26,
    ensures
        ({
            let code_a: int = 'a' as u32 as int;
            let code_z: int = 'z' as u32 as int;
            let upper_a: int = 'A' as u32 as int;
            let upper_z: int = 'Z' as u32 as int;
            let v: int = choice as u32 as int;
            let lower: int = if upper_a <= v <= upper_z {
                v + 32
            } else {
                v
            };
            let selects: bool = code_a <= lower <= code_z && lower - code_a < option_count;
            &&& (selects ==> r == Some((lower - code_a) as usize))
            &&& (!selects ==> r is None)
        }),
{
    let v = choice as u32;
    let lower: u32 = if 'A' as u32 <= v && v <= 'Z' as u32 {
        v + 32
    } else {
        v
    };
    if 'a' as u32 <= lower && lower <= 'z' as u32 {
        let index = (lower - 'a' as u32) as usize;
        if index < option_count {
            Some(index)
        } else {
            None
        }
    } else {
        None
    }
}

} // verus!
