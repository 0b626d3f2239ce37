use roguelike::fov::Fov;
use roguelike::map::{Tile, TileGrid, MAP_HEIGHT, MAP_WIDTH};
use roguelike::object::{
    ai_take_turn, move_towards, Ai, DeathCallback, Fighter, Object,
};
use roguelike::render::{Color, Message, Messages};
use roguelike::Game;

fn empty_map() -> TileGrid {
    let mut map = Vec::new();
    for _ in 0..MAP_WIDTH {
        let mut column = Vec::new();
        for _ in 0..MAP_HEIGHT {
            column.push(Tile::empty());
        }
        map.push(column);
    }
    map
}

fn all_visible() -> Fov {
    let mut fov = Fov::new();
    for x in 0..MAP_WIDTH {
        for y in 0..MAP_HEIGHT {
            fov.set(x, y, true);
        }
    }
    fov
}

fn fresh_game() -> Game {
    Game { map: empty_map(), messages: Messages::new(), inventory: Vec::new() }
}

fn player_at(x: i32, y: i32) -> Object {
    let mut player = Object::new(x, y, '@', "player", Color::White, true);
    player.alive = true;
    player.fighter = Some(Fighter {
        max_hp: 30,
        hp: 30,
        defense: 2,
        power: 5,
        on_death: DeathCallback::Player,
    });
    player
}

fn orc_at(x: i32, y: i32) -> Object {
    let mut orc = Object::new(x, y, 'o', "orc", Color::DesaturatedGreen, true);
    orc.alive = true;
    orc.fighter = Some(Fighter {
        max_hp: 10,
        hp: 10,
        defense: 0,
        power: 3,
        on_death: DeathCallback::Monster,
    });
    orc.ai = Some(Ai::Basic);
    orc
}

#[test]
fn confusion_counts_down_and_reverts_to_wrapped_state() {
    let fov = Fov::new();
    let mut game = fresh_game();
    let mut objects = vec![player_at(1, 1), orc_at(50, 50)];
    objects[1].ai = Some(Ai::Confused { previous_ai: Box::new(Ai::Basic), num_turns: 2 });

    ai_take_turn(1, &fov, &mut game, &mut objects);
    assert_eq!(
        objects[1].ai,
        Some(Ai::Confused { previous_ai: Box::new(Ai::Basic), num_turns: 1 })
    );
    ai_take_turn(1, &fov, &mut game, &mut objects);
    assert_eq!(
        objects[1].ai,
        Some(Ai::Confused { previous_ai: Box::new(Ai::Basic), num_turns: 0 })
    );
    assert_eq!(game.messages.len(), 0);

    ai_take_turn(1, &fov, &mut game, &mut objects);
    assert_eq!(objects[1].ai, Some(Ai::Basic));
    let entries = game.messages.iter();
    assert_eq!(entries.len(), 1);
    assert_eq!(entries[0].0, Message::NoLongerConfused { name: "orc".to_string() });
}

#[test]
fn confusion_restores_a_nested_state_exactly() {
    let fov = Fov::new();
    let mut game = fresh_game();
    let wrapped = Ai::Confused { previous_ai: Box::new(Ai::Basic), num_turns: 7 };
    let expected = Ai::Confused { previous_ai: Box::new(Ai::Basic), num_turns: 7 };
    let mut objects = vec![player_at(1, 1), orc_at(50, 50)];
    objects[1].ai = Some(Ai::Confused { previous_ai: Box::new(wrapped), num_turns: 0 });

    ai_take_turn(1, &fov, &mut game, &mut objects);
    assert_eq!(objects[1].ai, Some(expected));
}

#[test]
fn confused_monster_stays_within_one_step() {
    let fov = Fov::new();
    let mut game = fresh_game();
    let mut objects = vec![player_at(1, 1), orc_at(50, 50)];
    objects[1].ai = Some(Ai::Confused { previous_ai: Box::new(Ai::Basic), num_turns: 10 });
    for _ in 0..10 {
        let (ox, oy) = objects[1].pos();
        ai_take_turn(1, &fov, &mut game, &mut objects);
        let (nx, ny) = objects[1].pos();
        assert!((nx - ox).abs() <= 1 && (ny - oy).abs() <= 1);
    }
}

#[test]
fn basic_monster_out_of_view_does_nothing() {
    let fov = Fov::new();
    let mut game = fresh_game();
    let mut objects = vec![player_at(1, 1), orc_at(10, 1)];
    ai_take_turn(1, &fov, &mut game, &mut objects);
    assert_eq!(objects[1].pos(), (10, 1));
    assert_eq!(objects[1].ai, Some(Ai::Basic));
    assert_eq!(game.messages.len(), 0);
}

#[test]
fn basic_monster_chases_the_player_when_visible() {
    let fov = all_visible();
    let mut game = fresh_game();
    let mut objects = vec![player_at(1, 1), orc_at(10, 1)];
    ai_take_turn(1, &fov, &mut game, &mut objects);
    assert_eq!(objects[1].pos(), (9, 1));
    assert_eq!(objects[1].ai, Some(Ai::Basic));
}

#[test]
fn basic_monster_attacks_an_adjacent_player() {
    let fov = all_visible();
    let mut game = fresh_game();
    let mut objects = vec![player_at(1, 1), orc_at(2, 1)];
    ai_take_turn(1, &fov, &mut game, &mut objects);
    // Orc power 3 against player defense 2: exactly 1 hit point.
    assert_eq!(objects[0].fighter.unwrap().hp, 29);
    let entries = game.messages.iter();
    assert_eq!(entries.len(), 1);
    assert_eq!(
        entries[0].0,
        Message::AttackHit { attacker: "orc".to_string(), target: "player".to_string(), damage: 1 }
    );
}

#[test]
fn move_towards_takes_a_rounded_unit_step() {
    let map = empty_map();
    let mut objects = vec![player_at(20, 20)];
    move_towards(0, 30, 20, &map, &mut objects);
    assert_eq!(objects[0].pos(), (21, 20));
    move_towards(0, 30, 30, &map, &mut objects);
    assert_eq!(objects[0].pos(), (22, 21));
    move_towards(0, 10, 21, &map, &mut objects);
    assert_eq!(objects[0].pos(), (21, 21));
}

#[test]
fn movement_into_a_wall_is_refused() {
    let mut map = empty_map();
    map[2][1] = Tile::wall();
    let mut objects = vec![player_at(1, 1)];
    Object::move_by(0, 1, 0, &map, &mut objects);
    assert_eq!(objects[0].pos(), (1, 1));
    Object::move_by(0, 0, 1, &map, &mut objects);
    assert_eq!(objects[0].pos(), (1, 2));
}

#[test]
fn movement_onto_a_blocking_entity_is_refused() {
    let map = empty_map();
    let mut objects = vec![player_at(1, 1), orc_at(2, 1)];
    Object::move_by(0, 1, 0, &map, &mut objects);
    assert_eq!(objects[0].pos(), (1, 1));
}

#[test]
fn movement_off_the_grid_is_refused() {
    let map = empty_map();
    let mut objects = vec![player_at(0, 0)];
    Object::move_by(0, -1, 0, &map, &mut objects);
    assert_eq!(objects[0].pos(), (0, 0));
    Object::move_by(0, 0, -1, &map, &mut objects);
    assert_eq!(objects[0].pos(), (0, 0));
}
