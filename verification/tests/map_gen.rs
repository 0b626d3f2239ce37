use roguelike::map::{make_map_with_rooms, MAP_HEIGHT, MAP_WIDTH};
use roguelike::object::{DeathCallback, Fighter, Object};
use roguelike::render::Color;

fn player() -> Object {
    let mut player = Object::new(0, 0, '@', "player", Color::White, true);
    player.alive = true;
    player.fighter = Some(Fighter {
        max_hp: 30,
        hp: 30,
        defense: 2,
        power: 5,
        on_death: DeathCallback::Player,
    });
    player
}

#[test]
fn generated_rooms_never_overlap() {
    for _ in 0..5 {
        let mut objects = vec![player()];
        let (_map, rooms) = make_map_with_rooms(&mut objects);
        assert!(rooms.len() >= 1);
        for i in 0..rooms.len() {
            for j in 0..rooms.len() {
                if i != j {
                    assert!(!rooms[i].intersects_with(&rooms[j]));
                }
            }
        }
    }
}

#[test]
fn generated_map_is_connected_from_spawn() {
    let mut objects = vec![player()];
    let (map, _rooms) = make_map_with_rooms(&mut objects);
    let (px, py) = objects[0].pos();
    assert!(!map[px as usize][py as usize].blocked);

    // Flood fill over walkable tiles from the player's spawn.
    let w = MAP_WIDTH as usize;
    let h = MAP_HEIGHT as usize;
    let mut reached = vec![vec![false; h]; w];
    let mut stack = vec![(px as usize, py as usize)];
    reached[px as usize][py as usize] = true;
    while let Some((x, y)) = stack.pop() {
        let mut neighbors = Vec::new();
        if x > 0 {
            neighbors.push((x - 1, y));
        }
        if x + 1 < w {
            neighbors.push((x + 1, y));
        }
        if y > 0 {
            neighbors.push((x, y - 1));
        }
        if y + 1 < h {
            neighbors.push((x, y + 1));
        }
        for (nx, ny) in neighbors {
            if !reached[nx][ny] && !map[nx][ny].blocked {
                reached[nx][ny] = true;
                stack.push((nx, ny));
            }
        }
    }
    for x in 0..w {
        for y in 0..h {
            if !map[x][y].blocked {
                assert!(reached[x][y], "walkable tile unreachable from spawn");
            }
        }
    }
}

#[test]
fn generated_entities_respect_occupancy() {
    let mut objects = vec![player()];
    let (map, _rooms) = make_map_with_rooms(&mut objects);
    for o in objects.iter() {
        assert!(0 <= o.x && o.x < MAP_WIDTH);
        assert!(0 <= o.y && o.y < MAP_HEIGHT);
        assert!(!map[o.x as usize][o.y as usize].blocked);
    }
    for i in 0..objects.len() {
        for j in 0..objects.len() {
            if i != j && objects[i].blocks && objects[j].blocks {
                assert!(objects[i].pos() != objects[j].pos());
            }
        }
    }
}

#[test]
fn generated_monsters_and_items_have_known_shapes() {
    let mut objects = vec![player()];
    let (_map, _rooms) = make_map_with_rooms(&mut objects);
    for o in objects.iter().skip(1) {
        match o.name.as_str() {
            "orc" => {
                assert_eq!(o.glyph, 'o');
                assert!(o.alive && o.blocks);
                assert_eq!(o.fighter.unwrap().max_hp, 10);
            },
            "Troll" => {
                assert_eq!(o.glyph, 'T');
                assert!(o.alive && o.blocks);
                assert_eq!(o.fighter.unwrap().max_hp, 16);
            },
            "healing potion" | "scroll of lightning bolt" | "scroll of confusion" => {
                assert!(!o.blocks && !o.alive);
                assert!(o.item.is_some());
            },
            other => panic!("unexpected entity: {}", other),
        }
    }
}
