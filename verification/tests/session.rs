use sewers::game::Game;
use sewers::messages::{Messages, Rgb};
use sewers::object::{Ai, DeathCallback, Fighter, Object};
use sewers::rng::GameRng;
use sewers::session::{
    handle_intent, level_up, level_up_pending, level_up_xp, monster_at, new_game,
    player_move_or_attack, LevelUpChoice, PlayerAction, PlayerIntent,
};
use sewers::tile::{MapGrid, Tile, MAP_HEIGHT, MAP_WIDTH};

fn field_game() -> Game {
    let mut map = MapGrid::all_walls();
    for x in 1..MAP_WIDTH - 1 {
        for y in 1..MAP_HEIGHT - 1 {
            map.set(x, y, Tile::empty());
        }
    }
    Game { map, log: Messages::new(), inventory: Vec::new(), dungeon_level: 1 }
}

fn adventurer_at(x: i32, y: i32) -> Object {
    let mut player = Object::new("Player", x, y, '@', Rgb::white(), true);
    player.alive = true;
    player.fighter = Some(Fighter {
        hp: 100,
        base_max_hp: 100,
        base_defence: 1,
        base_power: 2,
        xp: 0,
        on_death: DeathCallback::Player,
    });
    player
}

fn enemy_at(x: i32, y: i32, hp: i32) -> Object {
    let mut orc = Object::new("Orc", x, y, '0', Rgb::light_green(), true);
    orc.alive = true;
    orc.fighter = Some(Fighter {
        hp,
        base_max_hp: if hp >= 1 { hp } else { 1 },
        base_defence: 0,
        base_power: 4,
        xp: 35,
        on_death: DeathCallback::Monster,
    });
    orc.ai = Some(Ai::Basic);
    orc
}

#[test]
fn new_game_starts_with_a_worn_dagger_and_a_live_player() {
    let mut rng = GameRng::new(41);
    let (objects, game) = new_game(&mut rng).expect("session started");
    assert!(objects[0].alive);
    assert_eq!(objects[0].name, "Player".to_string());
    assert_eq!(objects[0].fighter.unwrap().hp, 100);
    assert_eq!(game.dungeon_level, 1);
    assert_eq!(game.inventory.len(), 1);
    assert!(game.inventory[0].equipment.unwrap().equipped);
    assert_eq!(game.log.len(), 1);
    assert!(!game.map.get(objects[0].x, objects[0].y).blocked);
    // the dagger gives the starting player power 2 + 2
    assert_eq!(objects[0].power(&game), 4);
}

#[test]
fn moving_into_a_monster_attacks_it_instead() {
    let mut game = field_game();
    let mut objects = vec![adventurer_at(5, 5), enemy_at(6, 5, 20)];
    player_move_or_attack(1, 0, &mut game, &mut objects);
    // player power 2 vs orc defence 0: 2 damage, nobody moves
    assert_eq!(objects[1].fighter.unwrap().hp, 18);
    assert_eq!((objects[0].x, objects[0].y), (5, 5));
}

#[test]
fn moving_into_open_floor_moves_the_player() {
    let mut game = field_game();
    let mut objects = vec![adventurer_at(5, 5)];
    player_move_or_attack(1, 0, &mut game, &mut objects);
    assert_eq!((objects[0].x, objects[0].y), (6, 5));
}

#[test]
fn moving_into_a_wall_stays_put() {
    let mut game = field_game();
    let mut objects = vec![adventurer_at(1, 1)];
    player_move_or_attack(-1, 0, &mut game, &mut objects);
    assert_eq!((objects[0].x, objects[0].y), (1, 1));
}

#[test]
fn killing_blow_awards_the_experience_to_the_player() {
    let mut game = field_game();
    let mut objects = vec![adventurer_at(5, 5), enemy_at(6, 5, 2)];
    player_move_or_attack(1, 0, &mut game, &mut objects);
    assert!(!objects[1].alive);
    assert_eq!(objects[0].fighter.unwrap().xp, 35);
}

#[test]
fn level_threshold_follows_the_formula() {
    assert_eq!(level_up_xp(1), 350);
    assert_eq!(level_up_xp(2), 500);
}

#[test]
fn leveling_spends_experience_and_raises_the_chosen_stat() {
    let mut game = field_game();
    let mut player = adventurer_at(5, 5);
    if let Some(f) = player.fighter {
        player.fighter = Some(Fighter { xp: 360, ..f });
    }
    let mut objects = vec![player];
    assert!(level_up_pending(&objects));
    level_up(&mut objects, &mut game, LevelUpChoice::Strength);
    let f = objects[0].fighter.unwrap();
    assert_eq!(objects[0].level, 2);
    assert_eq!(f.xp, 10);
    assert_eq!(f.base_power, 3);
    assert_eq!(f.base_max_hp, 100);
    assert_eq!(f.base_defence, 1);
}

#[test]
fn leveling_constitution_raises_current_and_maximum_hit_points() {
    let mut game = field_game();
    let mut player = adventurer_at(5, 5);
    if let Some(f) = player.fighter {
        player.fighter = Some(Fighter { xp: 350, hp: 40, ..f });
    }
    let mut objects = vec![player];
    level_up(&mut objects, &mut game, LevelUpChoice::Constitution);
    let f = objects[0].fighter.unwrap();
    assert_eq!(f.base_max_hp, 120);
    assert_eq!(f.hp, 60);
    assert_eq!(f.xp, 0);
}

#[test]
fn below_the_threshold_nothing_levels() {
    let mut game = field_game();
    let mut objects = vec![adventurer_at(5, 5)];
    assert!(!level_up_pending(&objects));
    level_up(&mut objects, &mut game, LevelUpChoice::Agility);
    assert_eq!(objects[0].level, 1);
    assert_eq!(objects[0].fighter.unwrap().base_defence, 1);
}

#[test]
fn waiting_takes_a_turn_and_menus_do_not() {
    let mut game = field_game();
    let mut rng = GameRng::new(1);
    let mut objects = vec![adventurer_at(5, 5)];
    let r = handle_intent(PlayerIntent::Wait, &mut game, &mut objects, &mut rng).unwrap();
    assert_eq!(r, PlayerAction::TookTurn);
    let r = handle_intent(
        PlayerIntent::OpenInventoryToUse,
        &mut game,
        &mut objects,
        &mut rng,
    )
    .unwrap();
    assert_eq!(r, PlayerAction::DidntTakeTurn);
    let r = handle_intent(PlayerIntent::Exit, &mut game, &mut objects, &mut rng).unwrap();
    assert_eq!(r, PlayerAction::Exit);
}

#[test]
fn a_dead_player_takes_no_turns() {
    let mut game = field_game();
    let mut rng = GameRng::new(1);
    let mut player = adventurer_at(5, 5);
    player.alive = false;
    if let Some(f) = player.fighter {
        player.fighter = Some(Fighter { hp: 0, ..f });
    }
    let mut objects = vec![player];
    let r = handle_intent(PlayerIntent::Move(1, 0), &mut game, &mut objects, &mut rng).unwrap();
    assert_eq!(r, PlayerAction::DidntTakeTurn);
    assert_eq!((objects[0].x, objects[0].y), (5, 5));
}

#[test]
fn pickup_intent_collects_the_item_under_the_player() {
    let mut game = field_game();
    let mut rng = GameRng::new(1);
    let mut floor_potion = Object::new("healing potion", 5, 5, '!', Rgb::violet(), false);
    floor_potion.item = Some(sewers::object::Item::Heal);
    let mut objects = vec![adventurer_at(5, 5), floor_potion];
    let r = handle_intent(PlayerIntent::Pickup, &mut game, &mut objects, &mut rng).unwrap();
    assert_eq!(r, PlayerAction::DidntTakeTurn);
    assert_eq!(game.inventory.len(), 1);
    assert_eq!(objects.len(), 1);
}

#[test]
fn descending_needs_stairs_underfoot() {
    let mut game = field_game();
    let mut rng = GameRng::new(8);
    let mut objects = vec![adventurer_at(5, 5)];
    let r =
        handle_intent(PlayerIntent::DescendStairs, &mut game, &mut objects, &mut rng).unwrap();
    assert_eq!(r, PlayerAction::DidntTakeTurn);
    assert_eq!(game.dungeon_level, 1);

    let mut stairs = Object::new("stairs down", 5, 5, '<', Rgb::white(), false);
    stairs.always_visible = true;
    objects.push(stairs);
    let r =
        handle_intent(PlayerIntent::DescendStairs, &mut game, &mut objects, &mut rng).unwrap();
    assert_eq!(r, PlayerAction::DidntTakeTurn);
    assert_eq!(game.dungeon_level, 2);
    assert!(!game.map.get(objects[0].x, objects[0].y).blocked);
}

#[test]
fn uncover_map_marks_everything_explored() {
    let mut game = field_game();
    let mut rng = GameRng::new(1);
    let mut objects = vec![adventurer_at(5, 5)];
    let r = handle_intent(PlayerIntent::UncoverMap, &mut game, &mut objects, &mut rng).unwrap();
    assert_eq!(r, PlayerAction::DidntTakeTurn);
    for x in 0..MAP_WIDTH {
        for y in 0..MAP_HEIGHT {
            assert!(game.map.get(x, y).explored);
        }
    }
}

#[test]
fn monster_at_finds_only_combatants_on_the_tile() {
    let mut potion = Object::new("healing potion", 7, 5, '!', Rgb::violet(), false);
    potion.item = Some(sewers::object::Item::Heal);
    let objects = vec![adventurer_at(5, 5), potion, enemy_at(7, 5, 20)];
    assert_eq!(monster_at(7, 5, &objects), Some(2));
    assert_eq!(monster_at(8, 5, &objects), None);
    // the player is never a spell target
    assert_eq!(monster_at(5, 5, &objects), None);
}

#[test]
fn number_rendering_matches_decimal() {
    assert_eq!(sewers::messages::u32_to_string(0), "0".to_string());
    assert_eq!(sewers::messages::u32_to_string(7), "7".to_string());
    assert_eq!(sewers::messages::u32_to_string(35), "35".to_string());
    assert_eq!(sewers::messages::u32_to_string(1204), "1204".to_string());
}

#[test]
fn rng_draws_respect_their_ranges() {
    let mut rng = GameRng::new(99);
    for _ in 0..200 {
        let v = rng.range_i32(-1, 2);
        assert!((-1..2).contains(&v));
        let w = rng.range_u32(3, 10);
        assert!((3..10).contains(&w));
    }
}
