use sewers::ai::{ai_take_turn, run_ai_turns};
use sewers::game::Game;
use sewers::messages::{Messages, Rgb};
use sewers::object::{Ai, DeathCallback, Fighter, Object};
use sewers::rng::GameRng;
use sewers::tile::{MapGrid, Tile, MAP_HEIGHT, MAP_WIDTH};

fn open_game() -> Game {
    let mut map = MapGrid::all_walls();
    for x in 1..MAP_WIDTH - 1 {
        for y in 1..MAP_HEIGHT - 1 {
            map.set(x, y, Tile::empty());
        }
    }
    Game { map, log: Messages::new(), inventory: Vec::new(), dungeon_level: 1 }
}

fn player_at(x: i32, y: i32) -> Object {
    let mut player = Object::new("Player", x, y, '@', Rgb::white(), true);
    player.alive = true;
    player.fighter = Some(Fighter {
        hp: 100,
        base_max_hp: 100,
        base_defence: 1,
        base_power: 2,
        xp: 0,
        on_death: DeathCallback::Player,
    });
    player
}

fn orc_at(x: i32, y: i32) -> Object {
    let mut orc = Object::new("Orc", x, y, '0', Rgb::light_green(), true);
    orc.alive = true;
    orc.fighter = Some(Fighter {
        hp: 20,
        base_max_hp: 20,
        base_defence: 0,
        base_power: 4,
        xp: 35,
        on_death: DeathCallback::Monster,
    });
    orc.ai = Some(Ai::Basic);
    orc
}

#[test]
fn confusion_counts_down_and_reverts_on_the_fourth_turn() {
    let mut game = open_game();
    let mut rng = GameRng::new(3);
    let mut objects = vec![player_at(5, 5)];
    let mut confused = orc_at(20, 20);
    confused.ai = Some(Ai::Confused { previous_ai: Box::new(Ai::Basic), num_turns: 2 });
    objects.push(confused);

    ai_take_turn(1, &mut game, &mut objects, false, &mut rng);
    assert_eq!(
        objects[1].ai,
        Some(Ai::Confused { previous_ai: Box::new(Ai::Basic), num_turns: 1 })
    );
    ai_take_turn(1, &mut game, &mut objects, false, &mut rng);
    assert_eq!(
        objects[1].ai,
        Some(Ai::Confused { previous_ai: Box::new(Ai::Basic), num_turns: 0 })
    );
    ai_take_turn(1, &mut game, &mut objects, false, &mut rng);
    assert_eq!(
        objects[1].ai,
        Some(Ai::Confused { previous_ai: Box::new(Ai::Basic), num_turns: -1 })
    );
    // the fourth turn reverts, with no movement taken that turn
    let before = (objects[1].x, objects[1].y);
    let log_before = game.log.len();
    ai_take_turn(1, &mut game, &mut objects, false, &mut rng);
    assert_eq!(objects[1].ai, Some(Ai::Basic));
    assert_eq!((objects[1].x, objects[1].y), before);
    assert_eq!(game.log.len(), log_before + 1);
}

#[test]
fn confused_monster_never_strays_more_than_one_tile_per_turn() {
    let mut game = open_game();
    let mut rng = GameRng::new(11);
    let mut objects = vec![player_at(5, 5)];
    let mut confused = orc_at(20, 20);
    confused.ai = Some(Ai::Confused { previous_ai: Box::new(Ai::Basic), num_turns: 50 });
    objects.push(confused);
    for _ in 0..20 {
        let before = (objects[1].x, objects[1].y);
        ai_take_turn(1, &mut game, &mut objects, false, &mut rng);
        let after = (objects[1].x, objects[1].y);
        assert!((after.0 - before.0).abs() <= 1);
        assert!((after.1 - before.1).abs() <= 1);
    }
}

#[test]
fn visible_distant_monster_closes_in_on_the_player() {
    let mut game = open_game();
    let mut rng = GameRng::new(5);
    let mut objects = vec![player_at(5, 5), orc_at(15, 5)];
    let before = sewers::geom::dist_sq(15, 5, 5, 5);
    for _ in 0..6 {
        ai_take_turn(1, &mut game, &mut objects, true, &mut rng);
    }
    let after = sewers::geom::dist_sq(objects[1].x, objects[1].y, 5, 5);
    assert!(after < before, "monster failed to approach: {} -> {}", before, after);
}

#[test]
fn adjacent_visible_monster_attacks_the_player() {
    let mut game = open_game();
    let mut rng = GameRng::new(5);
    let mut objects = vec![player_at(5, 5), orc_at(6, 5)];
    ai_take_turn(1, &mut game, &mut objects, true, &mut rng);
    // orc power 4 vs player defence 1: exactly 3 damage
    assert_eq!(objects[0].fighter.unwrap().hp, 97);
    assert_eq!(objects[1].ai, Some(Ai::Basic));
}

#[test]
fn adjacent_monster_spares_a_dead_player() {
    let mut game = open_game();
    let mut rng = GameRng::new(5);
    let mut player = player_at(5, 5);
    player.alive = false;
    if let Some(f) = player.fighter {
        player.fighter = Some(Fighter { hp: 0, ..f });
    }
    let mut objects = vec![player, orc_at(6, 5)];
    ai_take_turn(1, &mut game, &mut objects, true, &mut rng);
    assert_eq!(objects[0].fighter.unwrap().hp, 0);
}

#[test]
fn entities_without_behaviour_take_no_turn() {
    let mut game = open_game();
    let mut rng = GameRng::new(9);
    let mut potion = Object::new("healing potion", 9, 9, '!', Rgb::violet(), false);
    potion.item = Some(sewers::object::Item::Heal);
    let mut objects = vec![player_at(5, 5), potion];
    let visible = vec![true, true];
    run_ai_turns(&mut game, &mut objects, &visible, &mut rng);
    assert_eq!((objects[1].x, objects[1].y), (9, 9));
    assert_eq!(game.log.len(), 0);
}

#[test]
fn monsters_act_in_collection_order() {
    let mut game = open_game();
    let mut rng = GameRng::new(5);
    // two adjacent orcs both strike the player in one sweep
    let mut objects = vec![player_at(5, 5), orc_at(6, 5), orc_at(4, 5)];
    let visible = vec![true, true, true];
    run_ai_turns(&mut game, &mut objects, &visible, &mut rng);
    assert_eq!(objects[0].fighter.unwrap().hp, 94);
    // each strike logged one hit message
    assert_eq!(game.log.len(), 2);
}

#[test]
fn walls_block_movement() {
    let mut game = Game {
        map: MapGrid::all_walls(),
        log: Messages::new(),
        inventory: Vec::new(),
        dungeon_level: 1,
    };
    let mut rng = GameRng::new(2);
    let mut objects = vec![player_at(5, 5), orc_at(20, 20)];
    for _ in 0..5 {
        ai_take_turn(1, &mut game, &mut objects, false, &mut rng);
    }
    assert_eq!((objects[1].x, objects[1].y), (20, 20));
}

#[test]
fn a_kill_early_in_the_sweep_stops_later_attacks() {
    let mut game = open_game();
    let mut rng = GameRng::new(5);
    let mut weak_player = player_at(5, 5);
    if let Some(f) = weak_player.fighter {
        weak_player.fighter = Some(Fighter { hp: 3, ..f });
    }
    // both orcs are adjacent; the first one's blow is lethal
    let mut objects = vec![weak_player, orc_at(6, 5), orc_at(4, 5)];
    let visible = vec![true, true, true];
    run_ai_turns(&mut game, &mut objects, &visible, &mut rng);
    assert!(!objects[0].alive);
    assert_eq!(objects[0].fighter.unwrap().hp, 0);
    // one swing and the death notice; the second orc spared the corpse
    assert_eq!(game.log.len(), 2);
}
