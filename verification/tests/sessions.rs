use roguelike::fov::Fov;
use roguelike::input::{Command, PlayerAction};
use roguelike::map::{Tile, TileGrid, MAP_HEIGHT, MAP_WIDTH};
use roguelike::object::{Ai, DeathCallback, Fighter, Item, Object};
use roguelike::render::{Color, Message, Messages};
use roguelike::turn::advance_turn;
use roguelike::Game;

fn empty_map() -> TileGrid {
    let mut map = Vec::new();
    for _ in 0..MAP_WIDTH {
        let mut column = Vec::new();
        for _ in 0..MAP_HEIGHT {
            column.push(Tile::empty());
        }
        map.push(column);
    }
    map
}

fn all_visible() -> Fov {
    let mut fov = Fov::new();
    for x in 0..MAP_WIDTH {
        for y in 0..MAP_HEIGHT {
            fov.set(x, y, true);
        }
    }
    fov
}

fn fresh_game() -> Game {
    Game { map: empty_map(), messages: Messages::new(), inventory: Vec::new() }
}

fn player_at(x: i32, y: i32) -> Object {
    let mut player = Object::new(x, y, '@', "player", Color::White, true);
    player.alive = true;
    player.fighter = Some(Fighter {
        max_hp: 30,
        hp: 30,
        defense: 2,
        power: 5,
        on_death: DeathCallback::Player,
    });
    player
}

fn orc_at(x: i32, y: i32) -> Object {
    let mut orc = Object::new(x, y, 'o', "orc", Color::DesaturatedGreen, true);
    orc.alive = true;
    orc.fighter = Some(Fighter {
        max_hp: 10,
        hp: 10,
        defense: 0,
        power: 3,
        on_death: DeathCallback::Monster,
    });
    orc.ai = Some(Ai::Basic);
    orc
}

#[test]
fn player_fells_a_monster_over_several_turns() {
    let fov = all_visible();
    let mut game = fresh_game();
    // A weakened orc two hits away from death.
    let mut orc = orc_at(6, 5);
    if let Some(f) = orc.fighter.as_mut() {
        f.hp = 6;
    }
    let mut objects = vec![player_at(5, 5), orc];

    // Player power 5 against orc defense 0: five points per blow.
    advance_turn(Command::MoveRight, &fov, &mut game, &mut objects);
    assert_eq!(objects[1].fighter.unwrap().hp, 1);
    advance_turn(Command::MoveRight, &fov, &mut game, &mut objects);
    assert!(!objects[1].alive);
    assert_eq!(objects[1].name, "remains of orc");
    assert!(!objects[1].blocks);
    // The corpse no longer blocks, so the tile can now be entered.
    advance_turn(Command::MoveRight, &fov, &mut game, &mut objects);
    assert_eq!(objects[0].pos(), (6, 5));
}

#[test]
fn monsters_fell_the_player_and_replay_is_offered() {
    let fov = all_visible();
    let mut game = fresh_game();
    let mut player = player_at(5, 5);
    if let Some(f) = player.fighter.as_mut() {
        f.hp = 1;
        f.power = 1;
    }
    // Strong enough to finish a 1-hit-point player in one blow.
    let mut brute = orc_at(6, 5);
    if let Some(f) = brute.fighter.as_mut() {
        f.power = 10;
    }
    let mut objects = vec![player, brute];

    let action = advance_turn(Command::MoveRight, &fov, &mut game, &mut objects);
    assert_eq!(action, PlayerAction::TookTurn);
    assert!(!objects[0].alive);
    let texts: Vec<&Message> = game.messages.iter().iter().map(|e| &e.0).collect();
    assert!(texts.contains(&&Message::PlayerDied));
    // Dead, the player's keys go inert and only the replay key answers.
    assert_eq!(
        advance_turn(Command::MoveRight, &fov, &mut game, &mut objects),
        PlayerAction::DidntTakeTurn
    );
    assert_eq!(
        advance_turn(Command::ConfirmReplay, &fov, &mut game, &mut objects),
        PlayerAction::Replay
    );
}

#[test]
fn using_a_potion_spends_the_turn_and_monsters_react() {
    let fov = all_visible();
    let mut game = fresh_game();
    let mut potion = Object::new(0, 0, '!', "healing potion", Color::Violet, false);
    potion.item = Some(Item::Heal);
    game.inventory.push(potion);
    let mut player = player_at(5, 5);
    if let Some(f) = player.fighter.as_mut() {
        f.hp = 20;
    }
    let mut objects = vec![player, orc_at(9, 5)];

    let action = advance_turn(
        Command::UseItem { inventory_index: 0 },
        &fov,
        &mut game,
        &mut objects,
    );
    assert_eq!(action, PlayerAction::TookTurn);
    assert_eq!(objects[0].fighter.unwrap().hp, 24);
    assert_eq!(game.inventory.len(), 0);
    // The orc used the spent turn to close in.
    assert_eq!(objects[1].pos(), (8, 5));
}

#[test]
fn a_confused_monster_recovers_mid_session() {
    let fov = all_visible();
    let mut game = fresh_game();
    // Keep the monster far away so its basic state would only chase.
    let mut orc = orc_at(60, 60);
    orc.ai = Some(Ai::Confused { previous_ai: Box::new(Ai::Basic), num_turns: 1 });
    let mut objects = vec![player_at(5, 5), orc];

    advance_turn(Command::MoveRight, &fov, &mut game, &mut objects);
    assert_eq!(
        objects[1].ai,
        Some(Ai::Confused { previous_ai: Box::new(Ai::Basic), num_turns: 0 })
    );
    advance_turn(Command::MoveRight, &fov, &mut game, &mut objects);
    assert_eq!(objects[1].ai, Some(Ai::Basic));
    let texts: Vec<&Message> = game.messages.iter().iter().map(|e| &e.0).collect();
    assert!(texts.contains(&&Message::NoLongerConfused { name: "orc".to_string() }));
}
