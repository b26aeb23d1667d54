use vstd::prelude::*;
use vstd::string::StringExecFns;
use crate::ai::moved_by;
use crate::game::{
    Game, world_wf, floor_items_ok, total_xp, xp_of, attack_rel, lemma_total_xp_pair,
    lemma_total_xp_update, lemma_total_xp_ge,
};
use crate::items::{slots_unique, inv_items};
use crate::items::pick_item_up;
use crate::mapgen::{make_map, GenerationError};
use crate::object::{Item, Slot, Equipment};
use crate::messages::{Messages, Rgb};
use crate::object::{Object, Fighter, DeathCallback, PLAYER, STAT_LIMIT, HP_LIMIT};
use crate::rng::GameRng;

verus! {

pub const LEVEL_UP_BASE: i32 = 200;

pub const LEVEL_UP_FACTOR: i32 = 150;

/// What resolving one player intent came to.
#[derive(Clone, Copy, Debug, PartialEq, Eq, Structural)]
pub enum PlayerAction {
    TookTurn,
    DidntTakeTurn,
    Exit,
}

/// One blocking read from the input collaborator.  Menu-driven
/// intents (inventory, character sheet) and presentation toggles are
/// resolved by that layer around calls into this crate.
#[derive(Clone, Copy, Debug, PartialEq, Eq, Structural)]
pub enum PlayerIntent {
    Move(i32, i32),
    Wait,
    Pickup,
    DescendStairs,
    UncoverMap,
    OpenInventoryToUse,
    OpenInventoryToDrop,
    ShowCharacterSheet,
    ToggleFullscreen,
    Exit,
}

/// The stat raised on leveling; the menu layer keeps prompting until
/// one of these is chosen, so no invalid choice can reach the core.
#[derive(Clone, Copy, Debug, PartialEq, Eq, Structural)]
pub enum LevelUpChoice {
    Constitution,
    Strength,
    Agility,
}

/// How one player move resolves: when some combat-capable entity
/// stands on the target tile, the first such is attacked (and only
/// attacker and defender change); otherwise the player attempts the
/// step.
pub open spec fn move_or_attack_rel(
    pre: Seq<Object>,
    post: Seq<Object>,
    dx: int,
    dy: int,
    inv: Seq<Object>,
    map: crate::tile::MapGrid,
) -> bool {
    let tx = pre[0].x + dx;
    let ty = pre[0].y + dy;
    if exists|i: int|
        0 <= i < pre.len() && (#[trigger] pre[i]).fighter is Some && pre[i].x == tx && pre[i].y
            == ty {
        exists|tid: int|
            #![trigger pre[tid]]
            {
                &&& 0 < tid < pre.len()
                &&& pre[tid].fighter is Some
                &&& pre[tid].x == tx
                &&& pre[tid].y == ty
                &&& forall|j: int|
                    0 <= j < tid ==> !((#[trigger] pre[j]).fighter is Some && pre[j].x == tx
                        && pre[j].y == ty)
                &&& attack_rel(pre[0], pre[tid], post[0], post[tid], inv)
                &&& forall|j: int| 0 <= j < pre.len() && j != 0 && j != tid ==> post[j] == pre[j]
            }
    } else {
        moved_by(pre, post, 0, dx, dy, map)
    }
}

/// Step toward (dx, dy) or, when a combat-capable entity stands on
/// the target tile, swing at it instead.
pub fn player_move_or_attack(dx: i32, dy: i32, game: &mut Game, objects: &mut Vec<Object>)
    requires
        old(game).wf(),
        world_wf(old(objects)@),
        -1 <= dx <= 1,
        -1 <= dy <= 1,
        !(dx == 0 && dy == 0),
        old(objects)@[0].fighter is Some,
        total_xp(old(objects)@) <= i32::MAX,
    ensures
        final(game).wf(),
        final(game).map == old(game).map,
        final(game).inventory == old(game).inventory,
        final(game).dungeon_level == old(game).dungeon_level,
        final(game).log.extends(old(game).log),
        world_wf(final(objects)@),
        final(objects)@.len() == old(objects)@.len(),
        final(objects)@[0].item == old(objects)@[0].item,
        move_or_attack_rel(
            old(objects)@,
            final(objects)@,
            dx as int,
            dy as int,
            old(game).inventory@,
            old(game).map,
        ),
{
    let x = objects[PLAYER].x + dx;
    let y = objects[PLAYER].y + dy;
    let target_id = find_fighter_at(x, y, objects);
    match target_id {
        Some(tid) => {
            proof {
                assert(objects@[tid as int].x == x && objects@[tid as int].y == y);
                assert(tid != 0);
                assert forall|k: int|
                    0 <= k < objects@.len() implies xp_of(#[trigger] objects@[k]) >= 0 by {
                    assert(objects@[k].wf());
                }
                lemma_total_xp_pair(objects@, 0, tid as int);
            }
            let ghost snap = objects@;
            let mut player = objects.remove(PLAYER);
            let mut monster = objects.remove(tid - 1);
            player.attack(&mut monster, game);
            objects.insert(tid - 1, monster);
            objects.insert(PLAYER, player);
            proof {
                assert(objects@ =~= snap.update(tid as int, monster).update(0, player));
                assert(attack_rel(
                    snap[0],
                    snap[tid as int],
                    objects@[0],
                    objects@[tid as int],
                    old(game).inventory@,
                ));
            }
        },
        None => {
            crate::ai::move_by(PLAYER, dx, dy, &game.map, objects);
        },
    }
}

/// The first combat-capable entity standing on the given tile.
fn find_fighter_at(x: i32, y: i32, objects: &Vec<Object>) -> (r: Option<usize>)
    ensures
        match r {
            Some(id) => {
                &&& id < objects@.len()
                &&& objects@[id as int].fighter is Some
                &&& objects@[id as int].x == x
                &&& objects@[id as int].y == y
                &&& forall|j: int|
                    0 <= j < id ==> !((#[trigger] objects@[j]).fighter is Some && objects@[j].x
                        == x && objects@[j].y == y)
            },
            None => forall|j: int|
                0 <= j < objects@.len() ==> !((#[trigger] objects@[j]).fighter is Some
                    && objects@[j].x == x && objects@[j].y == y),
        },
{
    let n = objects.len();
    let mut i: usize = 0;
    while i < n
        invariant
            i <= n,
            n == objects@.len(),
            forall|j: int|
                0 <= j < i ==> !((#[trigger] objects@[j]).fighter is Some && objects@[j].x == x
                    && objects@[j].y == y),
        decreases n - i,
    {
        let o = &objects[i];
        if o.fighter.is_some() && o.x == x && o.y == y {
            return Some(i);
        }
        i = i + 1;
    }
    None
}

/// The first combat-capable entity other than the player standing on
/// the given tile, if any: targeting resolution for spells.
pub fn monster_at(x: i32, y: i32, objects: &Vec<Object>) -> (r: Option<usize>)
    ensures
        match r {
            Some(id) => {
                &&& 0 < id < objects@.len()
                &&& objects@[id as int].fighter is Some
                &&& objects@[id as int].x == x
                &&& objects@[id as int].y == y
            },
            None => forall|j: int|
                1 <= j < objects@.len() ==> !((#[trigger] objects@[j]).fighter is Some
                    && objects@[j].x == x && objects@[j].y == y),
        },
{
    let n = objects.len();
    let mut i: usize = 1;
    while i < n
        invariant
            1 <= i <= n || n == 0,
            n == objects@.len(),
            forall|j: int|
                1 <= j < i ==> !((#[trigger] objects@[j]).fighter is Some && objects@[j].x == x
                    && objects@[j].y == y),
        decreases n - i,
    {
        let o = &objects[i];
        if o.fighter.is_some() && o.x == x && o.y == y {
            return Some(i);
        }
        i = i + 1;
    }
    None
}

/// The experience threshold for the next level.
pub fn level_up_xp(level: i32) -> (r: i32)
    requires
        1 <= level <= STAT_LIMIT,
    ensures
        r == LEVEL_UP_BASE + level * LEVEL_UP_FACTOR,
{
    proof {
        assert(level * 150 <= 150_000_000) by (nonlinear_arith)
            requires
                1 <= level <= 1_000_000,
        ;
        assert(level * 150 >= 150) by (nonlinear_arith)
            requires
                1 <= level <= 1_000_000,
        ;
    }
    LEVEL_UP_BASE + level * LEVEL_UP_FACTOR
}

/// Whether the player has banked enough experience to level up, so
/// the menu layer knows to prompt for a stat choice.
pub fn level_up_pending(objects: &Vec<Object>) -> (b: bool)
    requires
        objects@.len() >= 1,
        objects@[0].wf(),
    ensures
        b == (objects@[0].fighter matches Some(f) && f.xp >= LEVEL_UP_BASE + objects@[0].level
            * LEVEL_UP_FACTOR),
{
    let player = &objects[PLAYER];
    let threshold = level_up_xp(player.level);
    match player.fighter {
        Some(f) => f.xp >= threshold,
        None => false,
    }
}

/// When the threshold is reached, spend the experience, raise the
/// level, and raise exactly the chosen stat (constitution also heals
/// by its bonus); otherwise nothing happens.
pub fn level_up(objects: &mut Vec<Object>, game: &mut Game, choice: LevelUpChoice)
    requires
        old(objects)@.len() >= 1,
        old(objects)@[0].wf(),
        old(objects)@[0].level < STAT_LIMIT,
        old(objects)@[0].fighter matches Some(f) ==> {
            &&& f.base_max_hp <= STAT_LIMIT - 20
            &&& f.base_power <= STAT_LIMIT - 1
            &&& f.base_defence <= STAT_LIMIT - 1
            &&& f.hp <= HP_LIMIT - 20
        },
    ensures
        final(game).map == old(game).map,
        final(game).inventory == old(game).inventory,
        final(game).dungeon_level == old(game).dungeon_level,
        final(game).log.extends(old(game).log),
        final(objects)@.len() == old(objects)@.len(),
        forall|j: int| 1 <= j < old(objects)@.len() ==> final(objects)@[j] == old(objects)@[j],
        ({
            let pre = old(objects)@[0];
            let threshold = LEVEL_UP_BASE + pre.level * LEVEL_UP_FACTOR;
            match pre.fighter {
                None => final(objects)@ == old(objects)@ && *final(game) == *old(game),
                Some(f) => if f.xp < threshold {
                    final(objects)@ == old(objects)@ && *final(game) == *old(game)
                } else {
                    let f2 = Fighter { xp: (f.xp - threshold) as i32, ..f };
                let f3 = match choice {
                    LevelUpChoice::Constitution => Fighter {
                        base_max_hp: (f2.base_max_hp + 20) as i32,
                        hp: (f2.hp + 20) as i32,
                        ..f2
                    },
                    LevelUpChoice::Strength => Fighter {
                        base_power: (f2.base_power + 1) as i32,
                        ..f2
                    },
                    LevelUpChoice::Agility => Fighter {
                        base_defence: (f2.base_defence + 1) as i32,
                        ..f2
                    },
                };
                    &&& final(objects)@ == old(objects)@.update(
                        0,
                        Object {
                            level: (pre.level + 1) as i32,
                            fighter: Some(f3),
                            ..pre
                        },
                    )
                    &&& final(game).log.entries@.len() == old(game).log.entries@.len() + 1
                },
            }
        }),
        final(objects)@[0].wf(),
{
    let threshold = level_up_xp(objects[PLAYER].level);
    let pending = match objects[PLAYER].fighter {
        Some(f) => f.xp >= threshold,
        None => false,
    };
    if !pending {
        return ;
    }
    let ghost snap = objects@;
    let mut player = objects.remove(PLAYER);
    player.level = player.level + 1;
    let text = String::from_str(
        "Your battle skills grow stronger! You've reached level ",
    ).concat(crate::messages::i32_to_string(player.level).as_str()).concat("!");
    game.log.add(text, Rgb::yellow());
    if let Some(f) = player.fighter {
        let f2 = Fighter { xp: f.xp - threshold, ..f };
        let f3 = match choice {
            LevelUpChoice::Constitution => Fighter {
                base_max_hp: f2.base_max_hp + 20,
                hp: f2.hp + 20,
                ..f2
            },
            LevelUpChoice::Strength => Fighter { base_power: f2.base_power + 1, ..f2 },
            LevelUpChoice::Agility => Fighter { base_defence: f2.base_defence + 1, ..f2 },
        };
        player.fighter = Some(f3);
    }
    objects.insert(PLAYER, player);
    proof {
        assert(objects@ =~= snap.update(0, player));
    }
}


/// Rest briefly (recover half the effective maximum), then descend:
/// the depth rises by one and a fresh, harder level is generated.
pub fn next_level(objects: &mut Vec<Object>, game: &mut Game, rng: &mut GameRng) -> (r: Result<
    (),
    GenerationError,
>)
    requires
        old(game).wf(),
        world_wf(old(objects)@),
        old(objects)@[0].item is None,
        xp_of(old(objects)@[0]) + 15_000 <= i32::MAX,
        old(game).dungeon_level < u32::MAX,
    ensures
        final(game).wf(),
        final(game).inventory == old(game).inventory,
        final(game).log.extends(old(game).log),
        final(game).log.entries@.len() == old(game).log.entries@.len() + 2,
        final(game).dungeon_level == old(game).dungeon_level + 1,
        ({
            let max_hp = old(objects)@[0].spec_max_hp(old(game).inventory@);
            let healed = match old(objects)@[0].fighter {
                None => old(objects)@[0],
                Some(f) => {
                    let hp2 = if f.hp + max_hp / 2 > max_hp {
                        max_hp
                    } else {
                        f.hp + max_hp / 2
                    };
                    Object { fighter: Some(Fighter { hp: hp2 as i32, ..f }), ..old(objects)@[0] }
                },
            };
            match r {
                Ok(u) => {
                    &&& world_wf(final(objects)@)
                    &&& floor_items_ok(final(objects)@)
                    &&& final(objects)@.len() >= 2
                    &&& final(objects)@[0] == (Object {
                        x: final(objects)@[0].x,
                        y: final(objects)@[0].y,
                        ..healed
                    })
                    &&& total_xp(final(objects)@) <= xp_of(old(objects)@[0]) + 15_000
                    &&& !final(game).map.at(
                        final(objects)@[0].x as int,
                        final(objects)@[0].y as int,
                    ).blocked
                },
                Err(e) => {
                    &&& final(game).map == old(game).map
                    &&& final(objects)@.len() == 1
                    &&& final(objects)@[0] == healed
                    &&& world_wf(final(objects)@)
                    &&& floor_items_ok(final(objects)@)
                },
            }
        }),
{
    game.log.add(
        String::from_str("You take a moment to rest and recover your strength."),
        Rgb::violet(),
    );
    let max_hp = objects[PLAYER].max_hp(game);
    let heal_hp = max_hp / 2;
    let ghost snap = objects@;
    let mut player = objects.remove(PLAYER);
    player.heal(heal_hp, game);
    objects.insert(PLAYER, player);
    proof {
        assert(objects@ =~= snap.update(0, player));
        lemma_total_xp_update(snap, 0, player);
    }
    game.log.add(
        String::from_str("After a rare moment of peace you descend deeper into the sewers..."),
        Rgb::red(),
    );
    game.dungeon_level = game.dungeon_level + 1;
    let ghost g1 = *game;
    match make_map(objects, game.dungeon_level, rng) {
        Ok(p) => {
            game.map = p.0;
            Ok(())
        },
        Err(e) => Err(e),
    }
}

/// Start a session: a fresh player holding a worn dagger, the first
/// dungeon level, and a welcome in the log.
pub fn new_game(rng: &mut GameRng) -> (r: Result<(Vec<Object>, Game), GenerationError>)
    ensures
        match r {
            Ok(p) => {
                let objects = p.0;
                let game = p.1;
                &&& game.wf()
                &&& world_wf(objects@)
                &&& floor_items_ok(objects@)
                &&& slots_unique(game.inventory@)
                &&& inv_items(game.inventory@)
                &&& objects@.len() >= 2
                &&& objects@[0].is_player()
                &&& objects@[0].alive
                &&& objects@[0].ai is None
                &&& objects@[0].item is None
                &&& objects@[0].fighter == Some(
                    Fighter {
                        base_max_hp: 100,
                        hp: 100,
                        base_defence: 1,
                        base_power: 2,
                        xp: 0,
                        on_death: DeathCallback::Player,
                    },
                )
                &&& !game.map.at(objects@[0].x as int, objects@[0].y as int).blocked
                &&& game.dungeon_level == 1
                &&& game.inventory@.len() == 1
                &&& game.inventory@[0].item == Some(Item::Sword)
                &&& game.inventory@[0].equipment == Some(
                    Equipment {
                        equipped: true,
                        slot: Slot::LeftHand,
                        max_hp_bonus: 0,
                        defence_bonus: 0,
                        power_bonus: 2,
                    },
                )
                &&& total_xp(objects@) <= 15_000
                &&& game.log.entries@.len() == 1
            },
            Err(e) => true,
        },
{
    let mut player = Object::new("Player", 0, 0, '@', Rgb::white(), true);
    player.alive = true;
    player.fighter = Some(
        Fighter {
            base_max_hp: 100,
            hp: 100,
            base_defence: 1,
            base_power: 2,
            xp: 0,
            on_death: DeathCallback::Player,
        },
    );
    let mut objects: Vec<Object> = Vec::new();
    objects.push(player);
    proof {
        assert(objects@.drop_last() =~= Seq::<Object>::empty());
        assert(total_xp(Seq::<Object>::empty()) == 0);
    }
    match make_map(&mut objects, 1, rng) {
        Err(e) => Err(e),
        Ok(p) => {
            let mut game = Game {
                map: p.0,
                log: Messages::new(),
                inventory: Vec::new(),
                dungeon_level: 1,
            };
            let mut dagger = Object::new("dagger", 0, 0, '-', Rgb::sky(), false);
            dagger.item = Some(Item::Sword);
            dagger.equipment = Some(
                Equipment {
                    equipped: true,
                    slot: Slot::LeftHand,
                    max_hp_bonus: 0,
                    defence_bonus: 0,
                    power_bonus: 2,
                },
            );
            game.inventory.push(dagger);
            game.log.add(
                String::from_str("Welcome stranger! Prepare to perish in the Sewers of the Damned!"),
                Rgb::red(),
            );
            Ok((objects, game))
        },
    }
}

/// Resolve one player intent.  Gameplay intents act only while the
/// player is alive; menu-driven intents are answered by the caller
/// around separate calls into the library, so they take no turn here.
/// Descending can fail outright when no next level can be generated.
pub fn handle_intent(
    intent: PlayerIntent,
    game: &mut Game,
    objects: &mut Vec<Object>,
    rng: &mut GameRng,
) -> (r: Result<PlayerAction, GenerationError>)
    requires
        old(game).wf(),
        world_wf(old(objects)@),
        slots_unique(old(game).inventory@),
        inv_items(old(game).inventory@),
        floor_items_ok(old(objects)@),
        old(objects)@[0].fighter is Some,
        old(objects)@[0].item is None,
        total_xp(old(objects)@) <= i32::MAX - 15_000,
        old(game).dungeon_level < u32::MAX,
        intent matches PlayerIntent::Move(dx, dy) ==> -1 <= dx <= 1 && -1 <= dy <= 1 && !(dx == 0
            && dy == 0),
    ensures
        final(game).wf(),
        world_wf(final(objects)@),
        slots_unique(final(game).inventory@),
        inv_items(final(game).inventory@),
        final(game).log.extends(old(game).log),
        final(objects)@[0].item is None,
        !old(objects)@[0].alive ==> (r == Ok::<PlayerAction, GenerationError>(
            PlayerAction::DidntTakeTurn,
        ) && final(objects)@ == old(objects)@ && *final(game) == *old(game)) || intent
            == PlayerIntent::Exit,
        intent == PlayerIntent::Exit ==> r == Ok::<PlayerAction, GenerationError>(
            PlayerAction::Exit,
        ) && final(objects)@ == old(objects)@ && *final(game) == *old(game),
        old(objects)@[0].alive ==> match intent {
            PlayerIntent::Move(dx, dy) => {
                &&& r == Ok::<PlayerAction, GenerationError>(PlayerAction::TookTurn)
                &&& final(game).map == old(game).map
                &&& final(game).inventory == old(game).inventory
                &&& final(game).dungeon_level == old(game).dungeon_level
                &&& move_or_attack_rel(
                    old(objects)@,
                    final(objects)@,
                    dx as int,
                    dy as int,
                    old(game).inventory@,
                    old(game).map,
                )
            },
            PlayerIntent::Wait => r == Ok::<PlayerAction, GenerationError>(PlayerAction::TookTurn)
                && final(objects)@ == old(objects)@ && *final(game) == *old(game),
            PlayerIntent::Pickup => {
                let px = old(objects)@[0].x;
                let py = old(objects)@[0].y;
                &&& r == Ok::<PlayerAction, GenerationError>(PlayerAction::DidntTakeTurn)
                &&& final(game).map == old(game).map
                &&& final(game).dungeon_level == old(game).dungeon_level
                &&& if exists|i: int|
                    0 <= i < old(objects)@.len() && (#[trigger] old(objects)@[i]).item is Some
                        && old(objects)@[i].x == px && old(objects)@[i].y == py {
                    exists|i: int|
                        #![trigger old(objects)@[i]]
                        {
                            &&& 0 < i < old(objects)@.len()
                            &&& old(objects)@[i].item is Some
                            &&& old(objects)@[i].x == px
                            &&& old(objects)@[i].y == py
                            &&& forall|j: int|
                                0 <= j < i ==> !((#[trigger] old(objects)@[j]).item is Some
                                    && old(objects)@[j].x == px && old(objects)@[j].y == py)
                            &&& crate::items::pick_rel(
                                old(objects)@,
                                final(objects)@,
                                old(game).inventory@,
                                final(game).inventory@,
                                i,
                            )
                        }
                } else {
                    final(objects)@ == old(objects)@ && final(game).inventory == old(
                        game,
                    ).inventory
                }
            },
            PlayerIntent::DescendStairs => {
                &&& final(game).inventory == old(game).inventory
                &&& (!on_stairs(old(objects)@) ==> *final(game) == *old(game) && final(objects)@
                    == old(objects)@ && r == Ok::<PlayerAction, GenerationError>(
                    PlayerAction::DidntTakeTurn,
                ))
                &&& (on_stairs(old(objects)@) ==> final(game).dungeon_level == old(
                    game,
                ).dungeon_level + 1 && (r == Ok::<PlayerAction, GenerationError>(
                    PlayerAction::DidntTakeTurn,
                ) || r is Err))
            },
            PlayerIntent::UncoverMap => {
                &&& r == Ok::<PlayerAction, GenerationError>(PlayerAction::DidntTakeTurn)
                &&& final(objects)@ == old(objects)@
                &&& final(game).inventory == old(game).inventory
                &&& final(game).dungeon_level == old(game).dungeon_level
                &&& forall|x: int, y: int|
                    crate::tile::MapGrid::in_bounds(x, y) ==> {
                        &&& (#[trigger] final(game).map.at(x, y)).explored
                        &&& final(game).map.at(x, y).blocked == old(game).map.at(x, y).blocked
                        &&& final(game).map.at(x, y).block_sight == old(game).map.at(
                            x,
                            y,
                        ).block_sight
                    }
            },
            PlayerIntent::Exit => r == Ok::<PlayerAction, GenerationError>(PlayerAction::Exit),
            _ => r == Ok::<PlayerAction, GenerationError>(PlayerAction::DidntTakeTurn) && final(objects)@ == old(objects)@ && *final(game) == *old(game),
        },
{
    if let PlayerIntent::Exit = intent {
        return Ok(PlayerAction::Exit);
    }
    let alive = objects[PLAYER].alive;
    if !alive {
        return Ok(PlayerAction::DidntTakeTurn);
    }
    match intent {
        PlayerIntent::Move(dx, dy) => {
            player_move_or_attack(dx, dy, game, objects);
            Ok(PlayerAction::TookTurn)
        },
        PlayerIntent::Wait => Ok(PlayerAction::TookTurn),
        PlayerIntent::Pickup => {
            let px = objects[PLAYER].x;
            let py = objects[PLAYER].y;
            match find_item_at(px, py, objects) {
                Some(item_id) => {
                    let ghost pre = objects@;
                    proof {
                        assert(item_id != 0);
                    }
                    pick_item_up(item_id, objects, game);
                    proof {
                        let post = objects@;
                        if post.len() < pre.len() {
                            assert(post == pre.update(item_id as int, pre.last()).drop_last());
                            assert forall|k: int| 0 <= k < post.len() implies {
                                &&& (#[trigger] post[k]).wf()
                                &&& (k >= 1 && post[k].fighter is Some ==> post[k].alive)
                                &&& (post[k].ai is Some ==> post[k].fighter is Some)
                                &&& (k >= 1 ==> (post[k].fighter matches Some(f) ==> f.on_death
                                    is Monster))
                                &&& (post[k].item is Some ==> post[k].fighter is None
                                    && post[k].ai is None && (post[k].equipment matches Some(e)
                                    ==> !e.equipped))
                            } by {
                                if k == item_id {
                                    assert(post[k] == pre[pre.len() - 1]);
                                } else {
                                    assert(post[k] == pre[k]);
                                }
                            }
                        }
                    }
                },
                None => {},
            }
            Ok(PlayerAction::DidntTakeTurn)
        },
        PlayerIntent::DescendStairs => {
            let on_stairs = standing_on_stairs(objects);
            if on_stairs {
                proof {
                    assert forall|k: int|
                        0 <= k < objects@.len() implies xp_of(#[trigger] objects@[k]) >= 0 by {
                        assert(objects@[k].wf());
                    }
                    lemma_total_xp_ge(objects@, 0);
                }
                match next_level(objects, game, rng) {
                    Ok(u) => Ok(PlayerAction::DidntTakeTurn),
                    Err(e) => Err(e),
                }
            } else {
                Ok(PlayerAction::DidntTakeTurn)
            }
        },
        PlayerIntent::UncoverMap => {
            game.map.uncover();
            Ok(PlayerAction::DidntTakeTurn)
        },
        _ => Ok(PlayerAction::DidntTakeTurn),
    }
}

/// The first entity with an item capability on the given tile.
fn find_item_at(x: i32, y: i32, objects: &Vec<Object>) -> (r: Option<usize>)
    ensures
        match r {
            Some(id) => {
                &&& id < objects@.len()
                &&& objects@[id as int].item is Some
                &&& objects@[id as int].x == x
                &&& objects@[id as int].y == y
                &&& forall|j: int|
                    0 <= j < id ==> !((#[trigger] objects@[j]).item is Some && objects@[j].x == x
                        && objects@[j].y == y)
            },
            None => forall|j: int|
                0 <= j < objects@.len() ==> !((#[trigger] objects@[j]).item is Some
                    && objects@[j].x == x && objects@[j].y == y),
        },
{
    let n = objects.len();
    let mut i: usize = 0;
    while i < n
        invariant
            i <= n,
            n == objects@.len(),
            forall|j: int|
                0 <= j < i ==> !((#[trigger] objects@[j]).item is Some && objects@[j].x == x
                    && objects@[j].y == y),
        decreases n - i,
    {
        let o = &objects[i];
        if o.x == x && o.y == y && o.item.is_some() {
            return Some(i);
        }
        i = i + 1;
    }
    None
}

/// Whether any stairs entity shares the player's tile.
pub open spec fn on_stairs(objs: Seq<Object>) -> bool {
    exists|i: int|
        0 <= i < objs.len() && (#[trigger] objs[i]).name@ == "stairs down"@ && objs[i].x
            == objs[0].x && objs[i].y == objs[0].y
}

fn standing_on_stairs(objects: &Vec<Object>) -> (b: bool)
    requires
        objects@.len() >= 1,
    ensures
        b == on_stairs(objects@),
{
    let stairs_name = String::from_str("stairs down");
    let px = objects[PLAYER].x;
    let py = objects[PLAYER].y;
    let n = objects.len();
    let mut i: usize = 0;
    while i < n
        invariant
            i <= n,
            n == objects@.len(),
            stairs_name@ == "stairs down"@,
            px == objects@[0].x,
            py == objects@[0].y,
            forall|j: int|
                0 <= j < i ==> !((#[trigger] objects@[j]).name@ == "stairs down"@ && objects@[j].x
                    == objects@[0].x && objects@[j].y == objects@[0].y),
        decreases n - i,
    {
        let o = &objects[i];
        if o.x == px && o.y == py && o.name == stairs_name {
            return true;
        }
        i = i + 1;
    }
    false
}

} // verus!
