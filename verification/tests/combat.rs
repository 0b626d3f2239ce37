use roguelike::map::{Tile, TileGrid, MAP_HEIGHT, MAP_WIDTH};
use roguelike::object::{Ai, DeathCallback, Fighter, Object, UseResult};
use roguelike::render::{Color, Message, Messages};
use roguelike::Game;

fn empty_map() -> TileGrid {
    let mut map = Vec::new();
    for _ in 0..MAP_WIDTH {
        let mut column = Vec::new();
        for _ in 0..MAP_HEIGHT {
            column.push(Tile::empty());
        }
        map.push(column);
    }
    map
}

fn fresh_game() -> Game {
    Game { map: empty_map(), messages: Messages::new(), inventory: Vec::new() }
}

fn player_at(x: i32, y: i32) -> Object {
    let mut player = Object::new(x, y, '@', "player", Color::White, true);
    player.alive = true;
    player.fighter = Some(Fighter {
        max_hp: 30,
        hp: 30,
        defense: 2,
        power: 5,
        on_death: DeathCallback::Player,
    });
    player
}

fn orc_at(x: i32, y: i32) -> Object {
    let mut orc = Object::new(x, y, 'o', "orc", Color::DesaturatedGreen, true);
    orc.alive = true;
    orc.fighter = Some(Fighter {
        max_hp: 10,
        hp: 10,
        defense: 0,
        power: 3,
        on_death: DeathCallback::Monster,
    });
    orc.ai = Some(Ai::Basic);
    orc
}

#[test]
fn attack_deals_power_minus_defense() {
    let mut game = fresh_game();
    let mut attacker = player_at(1, 1);
    if let Some(f) = attacker.fighter.as_mut() {
        f.power = 5;
    }
    let mut target = orc_at(2, 1);
    if let Some(f) = target.fighter.as_mut() {
        f.defense = 2;
        f.hp = 10;
    }
    attacker.attack(&mut target, &mut game);
    assert_eq!(target.fighter.unwrap().hp, 7);
    let entries = game.messages.iter();
    assert_eq!(entries.len(), 1);
    assert_eq!(
        entries[0].0,
        Message::AttackHit {
            attacker: "player".to_string(),
            target: "orc".to_string(),
            damage: 3,
        }
    );
}

#[test]
fn attack_with_low_power_has_no_effect() {
    let mut game = fresh_game();
    let mut attacker = player_at(1, 1);
    if let Some(f) = attacker.fighter.as_mut() {
        f.power = 2;
    }
    let mut target = orc_at(2, 1);
    if let Some(f) = target.fighter.as_mut() {
        f.defense = 5;
        f.hp = 10;
    }
    attacker.attack(&mut target, &mut game);
    assert_eq!(target.fighter.unwrap().hp, 10);
    let entries = game.messages.iter();
    assert_eq!(entries.len(), 1);
    assert_eq!(
        entries[0].0,
        Message::AttackNoEffect { attacker: "player".to_string(), target: "orc".to_string() }
    );
}

#[test]
fn monster_death_transition() {
    let mut game = fresh_game();
    let mut orc = orc_at(2, 1);
    orc.take_damage(10, &mut game);
    assert!(!orc.alive);
    assert!(orc.fighter.is_none());
    assert!(orc.ai.is_none());
    assert!(!orc.blocks);
    assert_eq!(orc.glyph, '%');
    assert_eq!(orc.color, Color::DarkRed);
    assert_eq!(orc.name, "remains of orc");
    let entries = game.messages.iter();
    assert_eq!(entries.len(), 1);
    assert_eq!(entries[0].0, Message::Dead { name: "orc".to_string() });
    assert_eq!(entries[0].1, Color::Orange);
}

#[test]
fn player_death_keeps_components() {
    let mut game = fresh_game();
    let mut player = player_at(1, 1);
    player.take_damage(30, &mut game);
    assert!(!player.alive);
    assert!(player.fighter.is_some());
    assert_eq!(player.fighter.unwrap().hp, 0);
    assert_eq!(player.name, "player");
    assert_eq!(player.glyph, '%');
    assert_eq!(player.color, Color::DarkRed);
    let entries = game.messages.iter();
    assert_eq!(entries.len(), 1);
    assert_eq!(entries[0].0, Message::PlayerDied);
}

#[test]
fn death_is_idempotent() {
    let mut game = fresh_game();
    let mut player = player_at(1, 1);
    player.take_damage(40, &mut game);
    assert!(!player.alive);
    assert_eq!(game.messages.len(), 1);
    let fighter_after_first = player.fighter;
    player.take_damage(40, &mut game);
    assert_eq!(game.messages.len(), 1);
    assert_eq!(player.fighter, fighter_after_first);
    assert_eq!(player.fighter.unwrap().hp, 0);
    assert!(!player.alive);

    let mut orc = orc_at(2, 2);
    orc.take_damage(99, &mut game);
    assert_eq!(game.messages.len(), 2);
    let name_after_death = orc.name.clone();
    orc.take_damage(99, &mut game);
    assert_eq!(game.messages.len(), 2);
    assert_eq!(orc.name, name_after_death);
    assert!(orc.fighter.is_none());
    assert!(orc.ai.is_none());
}

#[test]
fn damage_is_clamped_at_zero() {
    let mut game = fresh_game();
    let mut player = player_at(1, 1);
    player.take_damage(100, &mut game);
    assert_eq!(player.fighter.unwrap().hp, 0);
}

#[test]
fn non_positive_damage_is_a_no_op() {
    let mut game = fresh_game();
    let mut orc = orc_at(2, 1);
    orc.take_damage(0, &mut game);
    orc.take_damage(-5, &mut game);
    assert_eq!(orc.fighter.unwrap().hp, 10);
    assert!(orc.alive);
    assert_eq!(game.messages.len(), 0);
}

#[test]
fn heal_saturates_at_max_hp() {
    let mut game = fresh_game();
    let mut objects = vec![player_at(1, 1)];
    if let Some(f) = objects[0].fighter.as_mut() {
        f.hp = f.max_hp - 2;
    }
    let result = roguelike::object::cast_heal(&mut game, &mut objects);
    assert_eq!(result, UseResult::UsedUp);
    assert_eq!(objects[0].fighter.unwrap().hp, objects[0].fighter.unwrap().max_hp);
}

#[test]
fn heal_at_full_health_is_cancelled() {
    let mut game = fresh_game();
    let mut objects = vec![player_at(1, 1)];
    let result = roguelike::object::cast_heal(&mut game, &mut objects);
    assert_eq!(result, UseResult::Cancelled);
    assert_eq!(objects[0].fighter.unwrap().hp, 30);
    let entries = game.messages.iter();
    assert_eq!(entries.len(), 1);
    assert_eq!(entries[0].0, Message::FullHealth);
}

#[test]
fn heal_never_overshoots() {
    let mut player = player_at(1, 1);
    if let Some(f) = player.fighter.as_mut() {
        f.hp = 29;
    }
    player.heal(4);
    assert_eq!(player.fighter.unwrap().hp, 30);
}
