use sewers::game::Game;
use sewers::items::{
    cast_confuse, cast_fireball, cast_heal, cast_lightning, drop_item, get_equipped_in_slot,
    pick_item_up, toggle_equipment, use_item, UseResult, UseTarget,
};
use sewers::messages::{Messages, Rgb};
use sewers::object::{Ai, DeathCallback, Equipment, Fighter, Item, Object, Slot};
use sewers::tile::{MapGrid, Tile, MAP_HEIGHT, MAP_WIDTH};

fn arena_game() -> Game {
    let mut map = MapGrid::all_walls();
    for x in 1..MAP_WIDTH - 1 {
        for y in 1..MAP_HEIGHT - 1 {
            map.set(x, y, Tile::empty());
        }
    }
    Game { map, log: Messages::new(), inventory: Vec::new(), dungeon_level: 1 }
}

fn hero_at(x: i32, y: i32, hp: i32) -> Object {
    let mut player = Object::new("Player", x, y, '@', Rgb::white(), true);
    player.alive = true;
    player.fighter = Some(Fighter {
        hp,
        base_max_hp: 100,
        base_defence: 1,
        base_power: 2,
        xp: 0,
        on_death: DeathCallback::Player,
    });
    player
}

fn grunt_at(x: i32, y: i32, hp: i32, xp: i32) -> Object {
    let mut orc = Object::new("Orc", x, y, '0', Rgb::light_green(), true);
    orc.alive = true;
    orc.fighter = Some(Fighter {
        hp,
        base_max_hp: if hp >= 1 { hp } else { 1 },
        base_defence: 0,
        base_power: 4,
        xp,
        on_death: DeathCallback::Monster,
    });
    orc.ai = Some(Ai::Basic);
    orc
}

fn potion() -> Object {
    let mut o = Object::new("healing potion", 0, 0, '!', Rgb::violet(), false);
    o.item = Some(Item::Heal);
    o
}

fn sword(name: &str) -> Object {
    let mut o = Object::new(name, 0, 0, '/', Rgb::sky(), false);
    o.item = Some(Item::Sword);
    o.equipment = Some(Equipment {
        slot: Slot::RightHand,
        equipped: false,
        power_bonus: 3,
        defence_bonus: 0,
        max_hp_bonus: 1,
    });
    o
}

fn helmet() -> Object {
    let mut o = Object::new("helmet", 0, 0, '^', Rgb::darker_orange(), false);
    o.item = Some(Item::Helmet);
    o.equipment = Some(Equipment {
        slot: Slot::Head,
        equipped: false,
        power_bonus: 0,
        defence_bonus: 0,
        max_hp_bonus: 100,
    });
    o
}

#[test]
fn heal_at_full_health_is_cancelled_and_keeps_the_item() {
    let mut game = arena_game();
    game.inventory.push(potion());
    let mut objects = vec![hero_at(5, 5, 100)];
    let visible = vec![true];
    use_item(0, UseTarget::Auto, &mut game, &mut objects, &visible);
    assert_eq!(game.inventory.len(), 1);
    assert_eq!(objects[0].fighter.unwrap().hp, 100);
    // the cancelled use is reported in the log
    let last = &game.log.entries[game.log.entries.len() - 1];
    assert_eq!(last.text, "Cancelled".to_string());
}

#[test]
fn heal_below_full_consumes_the_item_and_heals() {
    let mut game = arena_game();
    game.inventory.push(potion());
    let mut objects = vec![hero_at(5, 5, 50)];
    let visible = vec![true];
    use_item(0, UseTarget::Auto, &mut game, &mut objects, &visible);
    assert_eq!(game.inventory.len(), 0);
    assert_eq!(objects[0].fighter.unwrap().hp, 90);
}

#[test]
fn cast_heal_results_match_the_outcome() {
    let mut game = arena_game();
    let mut objects = vec![hero_at(5, 5, 100)];
    assert_eq!(cast_heal(&mut game, &mut objects), UseResult::Cancelled);
    let mut objects = vec![hero_at(5, 5, 80)];
    assert_eq!(cast_heal(&mut game, &mut objects), UseResult::UsedUp);
    assert_eq!(objects[0].fighter.unwrap().hp, 100);
}

#[test]
fn equip_toggle_is_kept_and_never_shrinks_the_inventory() {
    let mut game = arena_game();
    game.inventory.push(sword("sword"));
    let mut objects = vec![hero_at(5, 5, 100)];
    let visible = vec![true];
    use_item(0, UseTarget::Auto, &mut game, &mut objects, &visible);
    assert_eq!(game.inventory.len(), 1);
    assert!(game.inventory[0].equipment.unwrap().equipped);
    use_item(0, UseTarget::Auto, &mut game, &mut objects, &visible);
    assert_eq!(game.inventory.len(), 1);
    assert!(!game.inventory[0].equipment.unwrap().equipped);
}

#[test]
fn equipping_a_slot_unequips_its_previous_occupant() {
    let mut game = arena_game();
    game.inventory.push(sword("sword a"));
    game.inventory.push(sword("sword b"));
    game.inventory.push(helmet());

    assert_eq!(toggle_equipment(0, &mut game), UseResult::UsedAndKept);
    assert_eq!(toggle_equipment(2, &mut game), UseResult::UsedAndKept);
    assert!(game.inventory[0].equipment.unwrap().equipped);
    assert!(game.inventory[2].equipment.unwrap().equipped);

    // sword b takes the right hand: sword a is released first
    assert_eq!(toggle_equipment(1, &mut game), UseResult::UsedAndKept);
    assert!(!game.inventory[0].equipment.unwrap().equipped);
    assert!(game.inventory[1].equipment.unwrap().equipped);
    // the helmet in its own slot is untouched
    assert!(game.inventory[2].equipment.unwrap().equipped);

    // at most one equipped item per slot, whatever the sequence
    let mut per_slot = [0, 0, 0];
    for o in game.inventory.iter() {
        if let Some(e) = o.equipment {
            if e.equipped {
                let i = match e.slot {
                    Slot::LeftHand => 0,
                    Slot::RightHand => 1,
                    Slot::Head => 2,
                };
                per_slot[i] += 1;
            }
        }
    }
    assert!(per_slot.iter().all(|&c| c <= 1));
    assert_eq!(get_equipped_in_slot(Slot::RightHand, &game.inventory), Some(1));
    assert_eq!(get_equipped_in_slot(Slot::LeftHand, &game.inventory), None);
}

#[test]
fn fireball_burns_everything_in_radius_once_including_the_player() {
    let mut game = arena_game();
    // blast at (5, 5): player in radius, one orc dies, one survives,
    // one stands outside
    let mut objects = vec![
        hero_at(5, 5, 100),
        grunt_at(6, 5, 20, 35),   // dist^2 1: dies (20 - 25 < 0)
        grunt_at(7, 7, 30, 60),   // dist^2 8: survives with 5
        grunt_at(5, 9, 20, 100),  // dist^2 16: untouched
    ];
    let r = cast_fireball(Some((5, 5)), &mut game, &mut objects);
    assert_eq!(r, UseResult::UsedUp);
    assert_eq!(objects[0].fighter.unwrap().hp, 75);
    assert!(!objects[1].alive);
    assert!(objects[1].fighter.is_none());
    assert_eq!(objects[2].fighter.unwrap().hp, 5);
    assert!(objects[2].alive);
    assert_eq!(objects[3].fighter.unwrap().hp, 20);
    // experience comes only from the non-player dead
    assert_eq!(objects[0].fighter.unwrap().xp, 35);
}

#[test]
fn fireball_cancelled_targeting_spends_nothing() {
    let mut game = arena_game();
    let mut objects = vec![hero_at(5, 5, 100), grunt_at(6, 5, 20, 35)];
    let r = cast_fireball(None, &mut game, &mut objects);
    assert_eq!(r, UseResult::Cancelled);
    assert_eq!(objects[1].fighter.unwrap().hp, 20);
}

#[test]
fn lightning_strikes_the_nearest_visible_monster() {
    let mut game = arena_game();
    let mut objects = vec![
        hero_at(5, 5, 100),
        grunt_at(9, 5, 50, 35),  // distance 4
        grunt_at(7, 5, 50, 60),  // distance 2: nearest
    ];
    let visible = vec![true, true, true];
    let r = cast_lightning(&mut game, &mut objects, &visible);
    assert_eq!(r, UseResult::UsedUp);
    assert_eq!(objects[1].fighter.unwrap().hp, 50);
    assert_eq!(objects[2].fighter.unwrap().hp, 10);
}

#[test]
fn lightning_with_nothing_in_range_is_cancelled() {
    let mut game = arena_game();
    // range is 5: a monster 6 tiles away is out of reach
    let mut objects = vec![hero_at(5, 5, 100), grunt_at(11, 5, 50, 35)];
    let visible = vec![true, true];
    let r = cast_lightning(&mut game, &mut objects, &visible);
    assert_eq!(r, UseResult::Cancelled);
    assert_eq!(objects[1].fighter.unwrap().hp, 50);
}

#[test]
fn lightning_ignores_monsters_out_of_sight() {
    let mut game = arena_game();
    let mut objects = vec![hero_at(5, 5, 100), grunt_at(7, 5, 50, 35)];
    let visible = vec![true, false];
    let r = cast_lightning(&mut game, &mut objects, &visible);
    assert_eq!(r, UseResult::Cancelled);
    assert_eq!(objects[1].fighter.unwrap().hp, 50);
}

#[test]
fn confusion_wraps_the_previous_behaviour() {
    let mut game = arena_game();
    let mut objects = vec![hero_at(5, 5, 100), grunt_at(7, 5, 20, 35)];
    let r = cast_confuse(Some(1), &mut game, &mut objects);
    assert_eq!(r, UseResult::UsedUp);
    assert_eq!(
        objects[1].ai,
        Some(Ai::Confused { previous_ai: Box::new(Ai::Basic), num_turns: 8 })
    );
    let r2 = cast_confuse(None, &mut game, &mut objects);
    assert_eq!(r2, UseResult::Cancelled);
}

#[test]
fn pickup_moves_the_item_and_wears_equipment_into_an_empty_slot() {
    let mut game = arena_game();
    let mut blade = sword("sword");
    blade.x = 5;
    blade.y = 5;
    let mut objects = vec![hero_at(5, 5, 100), blade];
    pick_item_up(1, &mut objects, &mut game);
    assert_eq!(objects.len(), 1);
    assert_eq!(game.inventory.len(), 1);
    assert!(game.inventory[0].equipment.unwrap().equipped);
}

#[test]
fn pickup_does_not_wear_equipment_into_an_occupied_slot() {
    let mut game = arena_game();
    let mut worn = sword("sword a");
    if let Some(e) = worn.equipment {
        worn.equipment = Some(Equipment { equipped: true, ..e });
    }
    game.inventory.push(worn);
    let mut blade = sword("sword b");
    blade.x = 5;
    blade.y = 5;
    let mut objects = vec![hero_at(5, 5, 100), blade];
    pick_item_up(1, &mut objects, &mut game);
    assert_eq!(game.inventory.len(), 2);
    assert!(game.inventory[0].equipment.unwrap().equipped);
    assert!(!game.inventory[1].equipment.unwrap().equipped);
}

#[test]
fn pickup_fails_when_the_inventory_is_full() {
    let mut game = arena_game();
    for _ in 0..26 {
        game.inventory.push(potion());
    }
    let mut floor_potion = potion();
    floor_potion.x = 5;
    floor_potion.y = 5;
    let mut objects = vec![hero_at(5, 5, 100), floor_potion];
    pick_item_up(1, &mut objects, &mut game);
    assert_eq!(objects.len(), 2);
    assert_eq!(game.inventory.len(), 26);
    assert_eq!(game.log.len(), 1);
}

#[test]
fn dropping_unequips_and_returns_the_item_to_the_floor() {
    let mut game = arena_game();
    let mut worn = sword("sword");
    if let Some(e) = worn.equipment {
        worn.equipment = Some(Equipment { equipped: true, ..e });
    }
    game.inventory.push(worn);
    let mut objects = vec![hero_at(9, 7, 100)];
    drop_item(0, &mut game, &mut objects);
    assert_eq!(game.inventory.len(), 0);
    assert_eq!(objects.len(), 2);
    let dropped = &objects[1];
    assert_eq!((dropped.x, dropped.y), (9, 7));
    assert!(!dropped.equipment.unwrap().equipped);
}

#[test]
fn unusable_entities_are_reported() {
    let mut game = arena_game();
    let mut trinket = Object::new("strange rock", 0, 0, '.', Rgb::white(), false);
    trinket.item = None;
    game.inventory.push(trinket);
    let mut objects = vec![hero_at(5, 5, 100)];
    let visible = vec![true];
    use_item(0, UseTarget::Auto, &mut game, &mut objects, &visible);
    assert_eq!(game.inventory.len(), 1);
    assert_eq!(game.log.len(), 1);
}

#[test]
fn reconfusing_wraps_the_confused_state_again() {
    let mut game = arena_game();
    let mut objects = vec![hero_at(5, 5, 100), grunt_at(7, 5, 20, 35)];
    cast_confuse(Some(1), &mut game, &mut objects);
    cast_confuse(Some(1), &mut game, &mut objects);
    assert_eq!(
        objects[1].ai,
        Some(Ai::Confused {
            previous_ai: Box::new(Ai::Confused {
                previous_ai: Box::new(Ai::Basic),
                num_turns: 8,
            }),
            num_turns: 8,
        })
    );
}
