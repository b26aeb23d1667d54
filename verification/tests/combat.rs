use sewers::game::Game;
use sewers::messages::{Messages, Rgb};
use sewers::object::{DeathCallback, Fighter, Object};
use sewers::tile::MapGrid;

fn empty_game() -> Game {
    Game {
        map: MapGrid::all_walls(),
        log: Messages::new(),
        inventory: Vec::new(),
        dungeon_level: 1,
    }
}

fn fighter(hp: i32, power: i32, defence: i32, xp: i32) -> Fighter {
    Fighter {
        hp,
        base_max_hp: if hp >= 1 { hp } else { 1 },
        base_defence: defence,
        base_power: power,
        xp,
        on_death: DeathCallback::Monster,
    }
}

fn monster(name: &str, x: i32, y: i32, f: Fighter) -> Object {
    let mut m = Object::new(name, x, y, 'm', Rgb::red(), true);
    m.alive = true;
    m.fighter = Some(f);
    m
}

#[test]
fn attack_power_five_defence_two_deals_three() {
    let mut game = empty_game();
    let mut attacker = monster("Orc", 1, 1, fighter(20, 5, 0, 0));
    let mut target = monster("Troll", 2, 1, fighter(30, 0, 2, 0));
    attacker.attack(&mut target, &mut game);
    assert_eq!(target.fighter.unwrap().hp, 27);
    assert!(target.alive);
}

#[test]
fn attack_power_two_defence_five_deals_nothing() {
    let mut game = empty_game();
    let mut attacker = monster("Orc", 1, 1, fighter(20, 2, 0, 0));
    let mut target = monster("Troll", 2, 1, fighter(30, 0, 5, 0));
    attacker.attack(&mut target, &mut game);
    assert_eq!(target.fighter.unwrap().hp, 30);
    assert!(target.alive);
    assert_eq!(game.log.len(), 1);
}

#[test]
fn death_transition_runs_exactly_once_at_zero_hp() {
    let mut log = Messages::new();
    let mut victim = monster("Orc", 1, 1, fighter(3, 0, 0, 35));
    let xp = victim.take_damage(3, &mut log);
    assert_eq!(xp, Some(35));
    assert!(!victim.alive);
    // the terminal transformation stripped combat and behaviour
    assert!(victim.fighter.is_none());
    assert!(victim.ai.is_none());
    assert!(!victim.blocks);
    assert_eq!(victim.glyph, '%');
    // with no combat capability left, further damage is inert: the
    // transition cannot re-trigger
    let log_len = log.len();
    let xp2 = victim.take_damage(50, &mut log);
    assert_eq!(xp2, None);
    assert!(!victim.alive);
    assert_eq!(log.len(), log_len);
}

#[test]
fn overkill_damage_also_kills() {
    let mut log = Messages::new();
    let mut victim = monster("Orc", 1, 1, fighter(3, 0, 0, 35));
    let xp = victim.take_damage(100, &mut log);
    assert_eq!(xp, Some(35));
    assert!(!victim.alive);
}

#[test]
fn non_positive_damage_changes_nothing() {
    let mut log = Messages::new();
    let mut victim = monster("Orc", 1, 1, fighter(5, 0, 0, 35));
    let xp = victim.take_damage(0, &mut log);
    assert_eq!(xp, None);
    assert_eq!(victim.fighter.unwrap().hp, 5);
    assert!(victim.alive);
}

#[test]
fn killer_banks_the_victims_experience() {
    let mut game = empty_game();
    let mut attacker = monster("Orc", 1, 1, fighter(20, 10, 0, 5));
    let mut target = monster("Troll", 2, 1, fighter(3, 0, 0, 100));
    attacker.attack(&mut target, &mut game);
    assert!(!target.alive);
    assert_eq!(attacker.fighter.unwrap().xp, 105);
}

#[test]
fn monster_corpse_is_renamed() {
    let mut log = Messages::new();
    let mut victim = monster("Orc", 1, 1, fighter(1, 0, 0, 35));
    victim.take_damage(1, &mut log);
    assert_eq!(victim.name, "Remains of Orc".to_string());
}

#[test]
fn heal_caps_at_effective_maximum() {
    let game = empty_game();
    let mut m = monster("Orc", 1, 1, fighter(20, 0, 0, 0));
    if let Some(f) = m.fighter {
        m.fighter = Some(Fighter { hp: 15, ..f });
    }
    m.heal(40, &game);
    assert_eq!(m.fighter.unwrap().hp, 20);
    m.heal(0, &game);
    assert_eq!(m.fighter.unwrap().hp, 20);
}

#[test]
fn player_death_keeps_the_corpse_stats() {
    let mut log = Messages::new();
    let mut player = Object::new("Player", 1, 1, '@', Rgb::white(), true);
    player.alive = true;
    player.fighter = Some(Fighter {
        hp: 2,
        base_max_hp: 100,
        base_defence: 1,
        base_power: 2,
        xp: 50,
        on_death: DeathCallback::Player,
    });
    let xp = player.take_damage(10, &mut log);
    assert_eq!(xp, Some(50));
    assert!(!player.alive);
    assert!(player.fighter.is_some());
    assert_eq!(player.glyph, '%');
    assert_eq!(player.name, "Player".to_string());
}

#[test]
fn player_power_includes_equipped_bonuses_only() {
    let mut game = empty_game();
    let mut sword = Object::new("sword", 0, 0, '/', Rgb::sky(), false);
    sword.item = Some(sewers::object::Item::Sword);
    sword.equipment = Some(sewers::object::Equipment {
        slot: sewers::object::Slot::RightHand,
        equipped: true,
        power_bonus: 3,
        defence_bonus: 0,
        max_hp_bonus: 1,
    });
    let mut shield = Object::new("shield", 0, 0, '*', Rgb::darker_orange(), false);
    shield.item = Some(sewers::object::Item::Shield);
    shield.equipment = Some(sewers::object::Equipment {
        slot: sewers::object::Slot::LeftHand,
        equipped: false,
        power_bonus: 9,
        defence_bonus: 1,
        max_hp_bonus: 1,
    });
    game.inventory.push(sword);
    game.inventory.push(shield);

    let mut player = Object::new("Player", 1, 1, '@', Rgb::white(), true);
    player.fighter = Some(Fighter {
        hp: 100,
        base_max_hp: 100,
        base_defence: 1,
        base_power: 2,
        xp: 0,
        on_death: DeathCallback::Player,
    });
    // equipped sword counts, unequipped shield does not
    assert_eq!(player.power(&game), 5);
    assert_eq!(player.defence(&game), 1);
    assert_eq!(player.max_hp(&game), 101);
    let equipped = player.get_all_equipped(&game);
    assert_eq!(equipped.len(), 1);
    assert_eq!(equipped[0].power_bonus, 3);

    // a monster never collects bonuses, whatever the inventory holds
    let m = monster("Orc", 2, 2, fighter(20, 4, 0, 35));
    assert_eq!(m.power(&game), 4);
    assert_eq!(m.get_all_equipped(&game).len(), 0);
}
