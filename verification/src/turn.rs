//! The turn scheduler: one full turn is the player's resolved command,
//! followed — only if that command spent the turn and left the player
//! alive — by one AI sweep over the roster in collection order.

use vstd::prelude::*;
use crate::fov::Fov;
use crate::input::{handle_command, spec_handle_command, spec_player_action, Command, PlayerAction};
use crate::map::{map_wf, Tile};
use crate::object::{ai_take_turn, objects_wf, occupancy_ok, spec_ai_turn, Object};
use crate::render::{Color, MsgView};
use crate::{game_wf, Game, PLAYER};

verus! {

/// Marks a roster-and-log pair as an intermediate state of an AI sweep;
/// carries no meaning of its own and only anchors the quantifier in
/// [`spec_ai_sweep`].
pub open spec fn sweep_link(objects: Seq<Object>, msgs: Seq<(MsgView, Color)>) -> bool {
    true
}

/// The AI sweep's effect after the first `upto` roster slots have acted:
/// a fold of one [`spec_ai_turn`] relation per AI-bearing entity, in
/// roster order, each over the state its predecessors left behind. An
/// entity without an AI leaves the state untouched.
pub open spec fn spec_ai_sweep(
    fov: Fov,
    map: Seq<Vec<Tile>>,
    objects: Seq<Object>,
    msgs: Seq<(MsgView, Color)>,
    new_objects: Seq<Object>,
    new_msgs: Seq<(MsgView, Color)>,
    upto: nat,
) -> bool
    decreases upto,
{
    if upto == 0 {
        &&& new_objects == objects
        &&& new_msgs == msgs
    } else {
        exists|o_mid: Seq<Object>, m_mid: Seq<(MsgView, Color)>|
            {
                &&& #[trigger] sweep_link(o_mid, m_mid)
                &&& spec_ai_sweep(fov, map, objects, msgs, o_mid, m_mid, (upto - 1) as nat)
                &&& (upto - 1 < o_mid.len() && o_mid[upto - 1].ai is Some ==> spec_ai_turn(
                    fov,
                    map,
                    o_mid,
                    m_mid,
                    new_objects,
                    new_msgs,
                    upto - 1,
                    o_mid[upto - 1].ai.unwrap(),
                ))
                &&& (!(upto - 1 < o_mid.len() && o_mid[upto - 1].ai is Some) ==> new_objects
                    == o_mid && new_msgs == m_mid)
            }
    }
}

/// One more slot extends the sweep's fold: the state the first `id` slots
/// produced, advanced by slot `id`'s turn (or left alone when that slot
/// has no AI), is the state of the first `id + 1` slots.
proof fn lemma_sweep_extend(
    fov: Fov,
    map: Seq<Vec<Tile>>,
    o0: Seq<Object>,
    m0: Seq<(MsgView, Color)>,
    o1: Seq<Object>,
    m1: Seq<(MsgView, Color)>,
    o2: Seq<Object>,
    m2: Seq<(MsgView, Color)>,
    id: nat,
)
    requires
        spec_ai_sweep(fov, map, o0, m0, o1, m1, id),
        (id < o1.len() && o1[id as int].ai is Some) ==> spec_ai_turn(
            fov,
            map,
            o1,
            m1,
            o2,
            m2,
            id as int,
            o1[id as int].ai.unwrap(),
        ),
        !(id < o1.len() && o1[id as int].ai is Some) ==> o2 == o1 && m2 == m1,
    ensures
        spec_ai_sweep(fov, map, o0, m0, o2, m2, (id + 1) as nat),
{
    let upto: nat = (id + 1) as nat;
    assert((upto - 1) as nat == id);
    assert(spec_ai_sweep(fov, map, o0, m0, o2, m2, upto)) by {
        assert(sweep_link(o1, m1));
        assert(spec_ai_sweep(fov, map, o0, m0, o1, m1, (upto - 1) as nat));
        assert(upto - 1 < o1.len() && o1[upto - 1].ai is Some ==> spec_ai_turn(
            fov,
            map,
            o1,
            m1,
            o2,
            m2,
            upto - 1,
            o1[upto - 1].ai.unwrap(),
        ));
        assert(!(upto - 1 < o1.len() && o1[upto - 1].ai is Some) ==> o2 == o1 && m2 == m1);
    }
}

/// Run one full turn: resolve `cmd`, and when it spent the turn and left
/// the player alive, let every AI-bearing entity act once, in roster
/// order. The whole turn is the command's effect followed by the AI
/// sweep's fold; across it the structural and occupancy invariants are
/// preserved and the grid never changes.
pub fn advance_turn(cmd: Command, fov: &Fov, game: &mut Game, objects: &mut Vec<Object>) -> (r:
    PlayerAction)
    requires
        fov.wf(),
        map_wf(old(game).map@),
        objects_wf(old(objects)@),
        game_wf(*old(game)),
    ensures
        r == spec_player_action(cmd, old(objects)@),
        final(game).map == old(game).map,
        objects_wf(final(objects)@),
        game_wf(*final(game)),
        occupancy_ok(old(game).map@, old(objects)@) ==> occupancy_ok(
            old(game).map@,
            final(objects)@,
        ),
        exists|g_mid: Game, o_mid: Seq<Object>|
            {
                &&& #[trigger] spec_handle_command(
                    cmd,
                    *fov,
                    *old(game),
                    old(objects)@,
                    g_mid,
                    o_mid,
                    r,
                )
                &&& final(game).inventory == g_mid.inventory
                &&& if o_mid[PLAYER as int].alive && r == PlayerAction::TookTurn {
                    spec_ai_sweep(
                        *fov,
                        old(game).map@,
                        o_mid,
                        g_mid.messages@,
                        final(objects)@,
                        final(game).messages@,
                        o_mid.len(),
                    )
                } else {
                    final(objects)@ == o_mid && final(game).messages@ == g_mid.messages@
                }
            },
{
    let ghost occ0 = occupancy_ok(old(game).map@, old(objects)@);
    let action = handle_command(cmd, fov, game, objects);
    let ghost g_mid = *game;
    let ghost o_mid = objects@;
    if objects[PLAYER].alive && action == PlayerAction::TookTurn {
        let mut id: usize = 0;
        while id < objects.len()
            invariant
                fov.wf(),
                map_wf(game.map@),
                objects_wf(objects@),
                game_wf(*game),
                game.map == old(game).map,
                game.inventory == g_mid.inventory,
                occ0 ==> occupancy_ok(old(game).map@, objects@),
                id <= objects@.len(),
                objects@.len() == o_mid.len(),
                spec_ai_sweep(
                    *fov,
                    old(game).map@,
                    o_mid,
                    g_mid.messages@,
                    objects@,
                    game.messages@,
                    id as nat,
                ),
            decreases objects@.len() - id,
        {
            let ghost o_prev = objects@;
            let ghost m_prev = game.messages@;
            if objects[id].ai.is_some() {
                ai_take_turn(id, fov, game, objects);
            }
            proof {
                lemma_sweep_extend(
                    *fov,
                    old(game).map@,
                    o_mid,
                    g_mid.messages@,
                    o_prev,
                    m_prev,
                    objects@,
                    game.messages@,
                    id as nat,
                );
            }
            id = id + 1;
        }
    }
    action
}

} // verus!
