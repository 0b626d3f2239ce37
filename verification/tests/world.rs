use roguelike::fov::Fov;
use roguelike::map::{Rect, Tile, TileGrid, MAP_HEIGHT, MAP_WIDTH};
use roguelike::object::{is_blocked, DeathCallback, Fighter, Object};
use roguelike::render::{names_at, reveal_visible, Color, Message, Messages};

fn empty_map() -> TileGrid {
    let mut map = Vec::new();
    for _ in 0..MAP_WIDTH {
        let mut column = Vec::new();
        for _ in 0..MAP_HEIGHT {
            column.push(Tile::empty());
        }
        map.push(column);
    }
    map
}

fn player_at(x: i32, y: i32) -> Object {
    let mut player = Object::new(x, y, '@', "player", Color::White, true);
    player.alive = true;
    player.fighter = Some(Fighter {
        max_hp: 30,
        hp: 30,
        defense: 2,
        power: 5,
        on_death: DeathCallback::Player,
    });
    player
}

#[test]
fn tiles_have_their_documented_fields() {
    let empty = Tile::empty();
    assert!(!empty.blocked && !empty.block_sight && !empty.explored);
    let wall = Tile::wall();
    assert!(wall.blocked && wall.block_sight && !wall.explored);
}

#[test]
fn rect_center_and_intersection() {
    let a = Rect::new(0, 0, 10, 10);
    assert_eq!(a.center(), (5, 5));
    let touching = Rect::new(10, 0, 5, 5);
    assert!(a.intersects_with(&touching));
    let separate = Rect::new(11, 0, 5, 5);
    assert!(!a.intersects_with(&separate));
    assert!(!separate.intersects_with(&a));
}

#[test]
fn blocked_by_terrain_and_by_entities() {
    let mut map = empty_map();
    map[4][4] = Tile::wall();
    let objects = vec![player_at(2, 2)];
    assert!(is_blocked(4, 4, &map, &objects));
    assert!(is_blocked(2, 2, &map, &objects));
    assert!(!is_blocked(3, 3, &map, &objects));
}

#[test]
fn non_blocking_entities_do_not_block() {
    let map = empty_map();
    let potion = Object::new(2, 2, '!', "healing potion", Color::Violet, false);
    let objects = vec![potion];
    assert!(!is_blocked(2, 2, &map, &objects));
}

#[test]
fn reveal_visible_marks_exploration_monotonically() {
    let mut map = empty_map();
    let mut fov = Fov::new();
    fov.set(3, 3, true);
    reveal_visible(&mut map, &fov);
    assert!(map[3][3].explored);
    assert!(!map[3][4].explored);
    // The tile stays explored once the visible set moves on.
    let mut fov2 = Fov::new();
    fov2.set(3, 4, true);
    reveal_visible(&mut map, &fov2);
    assert!(map[3][3].explored);
    assert!(map[3][4].explored);
}

#[test]
fn names_are_listed_only_for_visible_tiles() {
    let mut fov = Fov::new();
    fov.set(2, 2, true);
    let objects = vec![
        player_at(2, 2),
        Object::new(2, 2, '!', "healing potion", Color::Violet, false),
        Object::new(3, 2, 'o', "orc", Color::DesaturatedGreen, true),
    ];
    let names = names_at(2, 2, &objects, &fov);
    assert_eq!(names, vec!["player".to_string(), "healing potion".to_string()]);
    assert_eq!(names_at(3, 2, &objects, &fov), Vec::<String>::new());
}

#[test]
fn fov_queries_match_what_was_set() {
    let mut fov = Fov::new();
    assert!(!fov.is_visible(0, 0));
    fov.set(0, 0, true);
    fov.set(10, 20, true);
    assert!(fov.is_visible(0, 0));
    assert!(fov.is_visible(10, 20));
    assert!(!fov.is_visible(10, 21));
    assert!(!fov.is_visible(-1, 5));
    assert!(!fov.is_visible(MAP_WIDTH, 5));
    fov.set(10, 20, false);
    assert!(!fov.is_visible(10, 20));
}

#[test]
fn message_log_is_append_only_in_order() {
    let mut messages = Messages::new();
    assert_eq!(messages.len(), 0);
    messages.add(Message::Welcome, Color::Red);
    messages.add(Message::Cancelled, Color::White);
    let entries = messages.iter();
    assert_eq!(entries.len(), 2);
    assert_eq!(entries[0], (Message::Welcome, Color::Red));
    assert_eq!(entries[1], (Message::Cancelled, Color::White));
}

#[test]
fn squared_distance_orders_like_euclidean_distance() {
    let a = player_at(1, 1);
    let b = player_at(4, 5);
    assert_eq!(a.distance_sq_to(&b), 25);
    assert_eq!(b.distance_sq_to(&a), 25);
    assert_eq!(a.distance_sq_to(&a), 0);
}
