use sewers::game::Game;
use sewers::mapgen::{from_dungeon_level, make_map, Transition};
use sewers::messages::Rgb;
use sewers::object::{DeathCallback, Fighter, Object};
use sewers::rng::GameRng;
use sewers::tile::{MAP_HEIGHT, MAP_WIDTH};

fn fresh_player() -> Object {
    let mut player = Object::new("Player", 0, 0, '@', Rgb::white(), true);
    player.alive = true;
    player.fighter = Some(Fighter {
        base_max_hp: 100,
        hp: 100,
        base_defence: 1,
        base_power: 2,
        xp: 0,
        on_death: DeathCallback::Player,
    });
    player
}

#[test]
fn depth_table_step_function() {
    let mut table: Vec<Transition> = Vec::new();
    table.push(Transition { level: 4, value: 25 });
    table.push(Transition { level: 6, value: 25 });
    assert_eq!(from_dungeon_level(&table, 1), 0);
    assert_eq!(from_dungeon_level(&table, 4), 25);
    assert_eq!(from_dungeon_level(&table, 5), 25);
    assert_eq!(from_dungeon_level(&table, 6), 25);
    assert_eq!(from_dungeon_level(&table, 10), 25);
}

#[test]
fn depth_table_picks_highest_reached_threshold() {
    let mut table: Vec<Transition> = Vec::new();
    table.push(Transition { level: 1, value: 2 });
    table.push(Transition { level: 4, value: 3 });
    table.push(Transition { level: 6, value: 5 });
    assert_eq!(from_dungeon_level(&table, 0), 0);
    assert_eq!(from_dungeon_level(&table, 1), 2);
    assert_eq!(from_dungeon_level(&table, 3), 2);
    assert_eq!(from_dungeon_level(&table, 4), 3);
    assert_eq!(from_dungeon_level(&table, 5), 3);
    assert_eq!(from_dungeon_level(&table, 6), 5);
    assert_eq!(from_dungeon_level(&table, 99), 5);
}

#[test]
fn depth_table_empty_is_zero() {
    let table: Vec<Transition> = Vec::new();
    assert_eq!(from_dungeon_level(&table, 7), 0);
}

#[test]
fn generated_rooms_are_pairwise_disjoint() {
    for seed in 0..6u64 {
        let mut rng = GameRng::new(seed);
        let mut objects = vec![fresh_player()];
        let (_map, rooms) = make_map(&mut objects, 1, &mut rng).expect("level generated");
        assert!(rooms.len() >= 1);
        for i in 0..rooms.len() {
            for j in 0..rooms.len() {
                if i != j {
                    assert!(
                        !rooms[i].intersects_with(&rooms[j]),
                        "rooms {} and {} overlap with seed {}",
                        i,
                        j,
                        seed
                    );
                }
            }
        }
    }
}

#[test]
fn start_and_stairs_tiles_are_walkable() {
    for seed in 0..6u64 {
        let mut rng = GameRng::new(seed);
        let mut objects = vec![fresh_player()];
        let (map, _rooms) = make_map(&mut objects, 1, &mut rng).expect("level generated");
        let player = &objects[0];
        assert!(!map.get(player.x, player.y).blocked);
        let stairs = objects.last().unwrap();
        assert!(stairs.always_visible);
        assert!(!stairs.blocks);
        assert!(!map.get(stairs.x, stairs.y).blocked);
    }
}

#[test]
fn stairs_reachable_from_start_over_carved_floor() {
    for seed in 0..6u64 {
        let mut rng = GameRng::new(seed);
        let mut objects = vec![fresh_player()];
        let (map, _rooms) = make_map(&mut objects, 1, &mut rng).expect("level generated");
        let start = (objects[0].x, objects[0].y);
        let stairs = objects.last().unwrap();
        let goal = (stairs.x, stairs.y);

        let w = MAP_WIDTH as usize;
        let h = MAP_HEIGHT as usize;
        let mut seen = vec![false; w * h];
        let mut queue = std::collections::VecDeque::new();
        seen[start.0 as usize * h + start.1 as usize] = true;
        queue.push_back(start);
        let mut reached = false;
        while let Some((x, y)) = queue.pop_front() {
            if (x, y) == goal {
                reached = true;
                break;
            }
            for (dx, dy) in [(1, 0), (-1, 0), (0, 1), (0, -1)] {
                let nx = x + dx;
                let ny = y + dy;
                if nx >= 0 && ny >= 0 && nx < MAP_WIDTH && ny < MAP_HEIGHT {
                    let idx = nx as usize * h + ny as usize;
                    if !seen[idx] && !map.get(nx, ny).blocked {
                        seen[idx] = true;
                        queue.push_back((nx, ny));
                    }
                }
            }
        }
        assert!(reached, "stairs unreachable from start with seed {}", seed);
    }
}

#[test]
fn same_seed_generates_the_same_dungeon() {
    let gen = |seed: u64| {
        let mut rng = GameRng::new(seed);
        let mut objects = vec![fresh_player()];
        let (map, rooms) = make_map(&mut objects, 1, &mut rng).expect("level generated");
        let mut tiles = Vec::new();
        for x in 0..MAP_WIDTH {
            for y in 0..MAP_HEIGHT {
                tiles.push(map.get(x, y).blocked);
            }
        }
        let room_boxes: Vec<(i32, i32, i32, i32)> =
            rooms.iter().map(|r| (r.x1, r.y1, r.x2, r.y2)).collect();
        let positions: Vec<(i32, i32, bool)> =
            objects.iter().map(|o| (o.x, o.y, o.fighter.is_some())).collect();
        (tiles, room_boxes, positions)
    };
    assert_eq!(gen(1234), gen(1234));
}

#[test]
fn first_room_spawns_no_monsters() {
    for seed in 0..6u64 {
        let mut rng = GameRng::new(seed);
        let mut objects = vec![fresh_player()];
        let (_map, rooms) = make_map(&mut objects, 1, &mut rng).expect("level generated");
        let first = rooms[0];
        for o in objects.iter().skip(1) {
            if o.fighter.is_some() {
                let inside = o.x > first.x1 && o.x < first.x2 && o.y > first.y1 && o.y < first.y2;
                assert!(!inside, "monster spawned in the first room with seed {}", seed);
            }
        }
    }
}

#[test]
fn game_struct_holds_session_state() {
    let mut rng = GameRng::new(7);
    let mut objects = vec![fresh_player()];
    let (map, _rooms) = make_map(&mut objects, 1, &mut rng).expect("level generated");
    let game = Game {
        map,
        log: sewers::messages::Messages::new(),
        inventory: Vec::new(),
        dungeon_level: 1,
    };
    assert_eq!(game.dungeon_level, 1);
    assert_eq!(game.inventory.len(), 0);
}
