use roguelike::fov::Fov;
use roguelike::map::{Tile, TileGrid, MAP_HEIGHT, MAP_WIDTH};
use roguelike::object::{
    cast_confuse, cast_lightning, closest_monster, drop_item, inventory_names, pick_item_up,
    use_item, Ai, DeathCallback, Fighter, Item, Object, UseResult, LIGHTNING_RANGE,
};
use roguelike::render::{Color, Message, Messages};
use roguelike::Game;

fn empty_map() -> TileGrid {
    let mut map = Vec::new();
    for _ in 0..MAP_WIDTH {
        let mut column = Vec::new();
        for _ in 0..MAP_HEIGHT {
            column.push(Tile::empty());
        }
        map.push(column);
    }
    map
}

fn all_visible() -> Fov {
    let mut fov = Fov::new();
    for x in 0..MAP_WIDTH {
        for y in 0..MAP_HEIGHT {
            fov.set(x, y, true);
        }
    }
    fov
}

fn fresh_game() -> Game {
    Game { map: empty_map(), messages: Messages::new(), inventory: Vec::new() }
}

fn player_at(x: i32, y: i32) -> Object {
    let mut player = Object::new(x, y, '@', "player", Color::White, true);
    player.alive = true;
    player.fighter = Some(Fighter {
        max_hp: 30,
        hp: 30,
        defense: 2,
        power: 5,
        on_death: DeathCallback::Player,
    });
    player
}

fn orc_at(x: i32, y: i32) -> Object {
    let mut orc = Object::new(x, y, 'o', "orc", Color::DesaturatedGreen, true);
    orc.alive = true;
    orc.fighter = Some(Fighter {
        max_hp: 10,
        hp: 10,
        defense: 0,
        power: 3,
        on_death: DeathCallback::Monster,
    });
    orc.ai = Some(Ai::Basic);
    orc
}

fn potion_at(x: i32, y: i32) -> Object {
    let mut potion = Object::new(x, y, '!', "healing potion", Color::Violet, false);
    potion.item = Some(Item::Heal);
    potion
}

#[test]
fn pick_up_moves_the_item_into_the_inventory() {
    let mut game = fresh_game();
    let mut objects = vec![player_at(1, 1), potion_at(1, 1)];
    pick_item_up(1, &mut game, &mut objects);
    assert_eq!(objects.len(), 1);
    assert_eq!(game.inventory.len(), 1);
    assert_eq!(game.inventory[0].name, "healing potion");
    let entries = game.messages.iter();
    assert_eq!(entries[0].0, Message::PickedUp { name: "healing potion".to_string() });
}

#[test]
fn pick_up_into_a_full_inventory_is_rejected() {
    let mut game = fresh_game();
    for _ in 0..26 {
        game.inventory.push(potion_at(0, 0));
    }
    let mut objects = vec![player_at(1, 1), potion_at(1, 1)];
    pick_item_up(1, &mut game, &mut objects);
    assert_eq!(game.inventory.len(), 26);
    assert_eq!(objects.len(), 2);
    assert_eq!(objects[1].name, "healing potion");
    let entries = game.messages.iter();
    assert_eq!(entries.len(), 1);
    assert_eq!(entries[0].0, Message::InventoryFull { name: "healing potion".to_string() });
    assert_eq!(entries[0].1, Color::Red);
}

#[test]
fn drop_returns_the_item_to_the_player_tile() {
    let mut game = fresh_game();
    let mut objects = vec![player_at(7, 9), potion_at(1, 1)];
    pick_item_up(1, &mut game, &mut objects);
    drop_item(0, &mut game, &mut objects);
    assert_eq!(game.inventory.len(), 0);
    assert_eq!(objects.len(), 2);
    assert_eq!(objects[1].name, "healing potion");
    assert_eq!(objects[1].pos(), (7, 9));
    let entries = game.messages.iter();
    assert_eq!(entries[1].0, Message::Dropped { name: "healing potion".to_string() });
}

#[test]
fn use_heal_consumes_the_potion_when_wounded() {
    let fov = all_visible();
    let mut game = fresh_game();
    game.inventory.push(potion_at(0, 0));
    let mut objects = vec![player_at(1, 1)];
    if let Some(f) = objects[0].fighter.as_mut() {
        f.hp = 10;
    }
    use_item(0, &fov, &mut game, &mut objects);
    assert_eq!(game.inventory.len(), 0);
    assert_eq!(objects[0].fighter.unwrap().hp, 14);
}

#[test]
fn use_heal_at_full_health_keeps_the_potion() {
    let fov = all_visible();
    let mut game = fresh_game();
    game.inventory.push(potion_at(0, 0));
    let mut objects = vec![player_at(1, 1)];
    use_item(0, &fov, &mut game, &mut objects);
    assert_eq!(game.inventory.len(), 1);
    let entries = game.messages.iter();
    assert_eq!(entries.len(), 2);
    assert_eq!(entries[0].0, Message::FullHealth);
    assert_eq!(entries[1].0, Message::Cancelled);
}

#[test]
fn lightning_strikes_the_closest_monster_unmitigated() {
    let fov = all_visible();
    let mut game = fresh_game();
    let mut scroll = Object::new(0, 0, '#', "scroll of lightning bolt", Color::LightYellow, false);
    scroll.item = Some(Item::Lightning);
    game.inventory.push(scroll);
    let mut near = orc_at(3, 1);
    if let Some(f) = near.fighter.as_mut() {
        f.max_hp = 50;
        f.hp = 50;
        f.defense = 30;
    }
    let mut objects = vec![player_at(1, 1), orc_at(5, 1), near];
    use_item(0, &fov, &mut game, &mut objects);
    assert_eq!(game.inventory.len(), 0);
    // The nearer orc takes all 40 points despite its defense of 30.
    assert_eq!(objects[2].fighter.unwrap().hp, 10);
    assert_eq!(objects[1].fighter.unwrap().hp, 10);
}

#[test]
fn lightning_without_a_target_is_cancelled() {
    let fov = Fov::new();
    let mut game = fresh_game();
    let mut objects = vec![player_at(1, 1), orc_at(5, 1)];
    let result = cast_lightning(&fov, &mut game, &mut objects);
    assert_eq!(result, UseResult::Cancelled);
    assert_eq!(objects[1].fighter.unwrap().hp, 10);
    let entries = game.messages.iter();
    assert_eq!(entries[0].0, Message::NoTargetInRange);
}

#[test]
fn confuse_wraps_the_current_state() {
    let fov = all_visible();
    let mut game = fresh_game();
    let mut objects = vec![player_at(1, 1), orc_at(4, 1)];
    let result = cast_confuse(&fov, &mut game, &mut objects);
    assert_eq!(result, UseResult::UsedUp);
    assert_eq!(
        objects[1].ai,
        Some(Ai::Confused { previous_ai: Box::new(Ai::Basic), num_turns: 10 })
    );
    let entries = game.messages.iter();
    assert_eq!(entries[0].0, Message::ConfusionStarts { name: "orc".to_string() });
}

#[test]
fn closest_monster_prefers_the_nearer_target() {
    let fov = all_visible();
    let objects = vec![player_at(1, 1), orc_at(5, 1), orc_at(3, 1)];
    assert_eq!(closest_monster(&fov, &objects, LIGHTNING_RANGE), Some(2));
}

#[test]
fn closest_monster_breaks_ties_in_roster_order() {
    let fov = all_visible();
    let objects = vec![player_at(1, 1), orc_at(4, 1), orc_at(1, 4)];
    assert_eq!(closest_monster(&fov, &objects, LIGHTNING_RANGE), Some(1));
}

#[test]
fn targets_need_no_intelligence() {
    // An entity with a fighter but no AI is a lawful target and, nearer,
    // wins over a farther monster with one.
    let fov = all_visible();
    let mut dummy = Object::new(2, 1, 'd', "training dummy", Color::White, true);
    dummy.alive = true;
    dummy.fighter = Some(Fighter {
        max_hp: 8,
        hp: 8,
        defense: 0,
        power: 0,
        on_death: DeathCallback::Monster,
    });
    let objects = vec![player_at(1, 1), orc_at(4, 1), dummy];
    assert_eq!(closest_monster(&fov, &objects, LIGHTNING_RANGE), Some(2));
}

#[test]
fn confusing_a_target_without_an_ai_defaults_to_basic() {
    let fov = all_visible();
    let mut game = fresh_game();
    let mut dummy = Object::new(3, 1, 'd', "training dummy", Color::White, true);
    dummy.alive = true;
    dummy.fighter = Some(Fighter {
        max_hp: 8,
        hp: 8,
        defense: 0,
        power: 0,
        on_death: DeathCallback::Monster,
    });
    let mut objects = vec![player_at(1, 1), dummy];
    let result = cast_confuse(&fov, &mut game, &mut objects);
    assert_eq!(result, UseResult::UsedUp);
    assert_eq!(
        objects[1].ai,
        Some(Ai::Confused { previous_ai: Box::new(Ai::Basic), num_turns: 10 })
    );
}

#[test]
fn closest_monster_respects_the_range() {
    let fov = all_visible();
    // The orc stands exactly 6 tiles away; a target must lie strictly
    // within `max_range + 1`.
    let objects = vec![player_at(1, 1), orc_at(7, 1)];
    assert_eq!(closest_monster(&fov, &objects, 5), None);
    assert_eq!(closest_monster(&fov, &objects, 6), Some(1));
}

#[test]
fn entry_without_an_item_kind_cannot_be_used() {
    let fov = all_visible();
    let mut game = fresh_game();
    let bare = Object::new(0, 0, '?', "strange trinket", Color::White, false);
    game.inventory.push(bare);
    let mut objects = vec![player_at(1, 1)];
    use_item(0, &fov, &mut game, &mut objects);
    assert_eq!(game.inventory.len(), 1);
    let entries = game.messages.iter();
    assert_eq!(entries[0].0, Message::CannotUse { name: "strange trinket".to_string() });
}

#[test]
fn inventory_names_lists_slots_in_order() {
    let mut inventory = Vec::new();
    inventory.push(potion_at(0, 0));
    let mut scroll = Object::new(0, 0, '#', "scroll of confusion", Color::LightYellow, false);
    scroll.item = Some(Item::Confuse);
    inventory.push(scroll);
    let names = inventory_names(&inventory);
    assert_eq!(names, vec!["healing potion".to_string(), "scroll of confusion".to_string()]);
}
