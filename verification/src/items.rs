use vstd::prelude::*;
use vstd::string::StringExecFns;
use crate::game::{
    Game, INVENTORY_CAP, world_wf, total_xp, xp_of, total_xp_upto, lemma_total_xp_pair,
    lemma_total_xp_upto_full, lemma_total_xp_upto_mono,
};
use crate::geom::{spec_dist_sq, coord_ok};
use crate::messages::Rgb;
use crate::object::{
    Object, Fighter, Equipment, Slot, Item, Ai, PLAYER, take_damage_rel, spec_damage_xp,
    spec_dies, spec_player_damaged,
};

verus! {

pub const HEAL_AMOUNT: i32 = 40;

pub const LIGHTNING_RANGE: i32 = 5;

pub const LIGHTNING_DAMAGE: i32 = 40;

pub const CONFUSE_RANGE: i32 = 10;

pub const CONFUSE_NUM_TURNS: i32 = 8;

pub const FIREBALL_RADIUS: i32 = 3;

pub const FIREBALL_DAMAGE: i32 = 25;

/// What using an item came to: consumed, aborted (the item stays),
/// or used but kept (equipment toggles).
#[derive(Clone, Copy, Debug, PartialEq, Eq, Structural)]
pub enum UseResult {
    UsedUp,
    Cancelled,
    UsedAndKept,
}

/// The entity is an equipped piece of equipment sitting in `slot`.
pub open spec fn equipped_in(o: Object, slot: Slot) -> bool {
    o.equipment matches Some(e) && e.equipped && e.slot == slot
}

/// Everything in the inventory is a pure item: usable or wearable,
/// with no combat stats or behaviour of its own.
pub open spec fn inv_items(inv: Seq<Object>) -> bool {
    forall|j: int|
        0 <= j < inv.len() ==> {
            &&& (#[trigger] inv[j]).item is Some
            &&& inv[j].fighter is None
            &&& inv[j].ai is None
        }
}

/// At most one inventory entry is equipped per slot.
pub open spec fn slots_unique(inv: Seq<Object>) -> bool {
    forall|i: int, j: int, s: Slot|
        #![trigger equipped_in(inv[i], s), equipped_in(inv[j], s)]
        0 <= i < inv.len() && 0 <= j < inv.len() && equipped_in(inv[i], s) && equipped_in(
            inv[j],
            s,
        ) ==> i == j
}

/// The first inventory entry equipped in `slot`, if any.
pub fn get_equipped_in_slot(slot: Slot, inventory: &Vec<Object>) -> (r: Option<usize>)
    ensures
        match r {
            Some(i) => {
                &&& i < inventory@.len()
                &&& equipped_in(inventory@[i as int], slot)
                &&& forall|j: int| 0 <= j < i ==> !equipped_in(#[trigger] inventory@[j], slot)
            },
            None => forall|j: int|
                0 <= j < inventory@.len() ==> !equipped_in(#[trigger] inventory@[j], slot),
        },
{
    let n = inventory.len();
    let mut i: usize = 0;
    while i < n
        invariant
            i <= n,
            n == inventory@.len(),
            forall|j: int| 0 <= j < i ==> !equipped_in(#[trigger] inventory@[j], slot),
        decreases n - i,
    {
        let o = &inventory[i];
        if let Some(e) = o.equipment {
            if e.equipped && e.slot == slot {
                return Some(i);
            }
        }
        i = i + 1;
    }
    None
}

/// Wear or take off the item at `inventory_id`.  Equipping first
/// clears whatever currently occupies the slot, so one slot never
/// carries two equipped items; the physical item is always kept.
#[verifier::rlimit(50)]
pub fn toggle_equipment(inventory_id: usize, game: &mut Game) -> (r: UseResult)
    requires
        old(game).wf(),
        inventory_id < old(game).inventory@.len(),
        slots_unique(old(game).inventory@),
        inv_items(old(game).inventory@),
    ensures
        final(game).wf(),
        slots_unique(final(game).inventory@),
        final(game).map == old(game).map,
        final(game).dungeon_level == old(game).dungeon_level,
        final(game).log.extends(old(game).log),
        final(game).inventory@.len() == old(game).inventory@.len(),
        forall|j: int|
            0 <= j < old(game).inventory@.len() ==> (#[trigger] final(game).inventory@[j]).item
                == old(game).inventory@[j].item,
        match old(game).inventory@[inventory_id as int].equipment {
            None => {
                &&& r == UseResult::Cancelled
                &&& final(game).inventory == old(game).inventory
                &&& final(game).log == old(game).log
            },
            Some(e) => {
                &&& r == UseResult::UsedAndKept
                &&& if e.equipped {
                    final(game).inventory@ == old(game).inventory@.update(
                        inventory_id as int,
                        Object {
                            equipment: Some(Equipment { equipped: false, ..e }),
                            ..old(game).inventory@[inventory_id as int]
                        },
                    )
                } else {
                    {
                        let pre = old(game).inventory@;
                        let post = final(game).inventory@;
                        &&& equipped_in(post[inventory_id as int], e.slot)
                        &&& post[inventory_id as int] == (Object {
                            equipment: Some(Equipment { equipped: true, ..e }),
                            ..pre[inventory_id as int]
                        })
                        &&& forall|j: int|
                            0 <= j < pre.len() && j != inventory_id ==> ((#[trigger] post[j])
                                == pre[j] || (equipped_in(pre[j], e.slot) && (
                            pre[j].equipment matches Some(pe) && post[j] == (Object {
                                equipment: Some(Equipment { equipped: false, ..pe }),
                                ..pre[j]
                            }))))
                    }
                }
            },
        },
{
    let ghost pre = game.inventory@;
    let equipment = match game.inventory[inventory_id].equipment {
        Some(e) => e,
        None => {
            return UseResult::Cancelled;
        },
    };
    if let Some(old_equipment) = get_equipped_in_slot(equipment.slot, &game.inventory) {
        let ghost snap = game.inventory@;
        let mut occ = game.inventory.remove(old_equipment);
        occ.unequip(&mut game.log);
        game.inventory.insert(old_equipment, occ);
        proof {
            assert(game.inventory@ =~= snap.update(old_equipment as int, occ));
        }
    }
    let ghost mid = game.inventory@;
    proof {
        if equipment.equipped {
            assert(equipped_in(pre[inventory_id as int], equipment.slot));
        }
    }
    if equipment.equipped {
        let ghost snap = game.inventory@;
        let mut me = game.inventory.remove(inventory_id);
        me.unequip(&mut game.log);
        game.inventory.insert(inventory_id, me);
        proof {
            assert(game.inventory@ =~= snap.update(inventory_id as int, me));
            assert(game.inventory@ =~= pre.update(inventory_id as int, me));
        }
    } else {
        let ghost snap = game.inventory@;
        let mut me = game.inventory.remove(inventory_id);
        me.equip(&mut game.log);
        game.inventory.insert(inventory_id, me);
        proof {
            assert(game.inventory@ =~= snap.update(inventory_id as int, me));
        }
    }
    UseResult::UsedAndKept
}


/// Drink the potion: heal a fixed amount, refusing at full health.
pub fn cast_heal(game: &mut Game, objects: &mut Vec<Object>) -> (r: UseResult)
    requires
        old(game).wf(),
        old(objects)@.len() >= 1,
        old(objects)@[0].wf(),
    ensures
        final(game).wf(),
        final(game).map == old(game).map,
        final(game).inventory == old(game).inventory,
        final(game).dungeon_level == old(game).dungeon_level,
        final(game).log.extends(old(game).log),
        final(objects)@.len() == old(objects)@.len(),
        forall|j: int| 1 <= j < old(objects)@.len() ==> final(objects)@[j] == old(objects)@[j],
        world_wf(old(objects)@) ==> world_wf(final(objects)@),
        final(objects)@[0].ai == old(objects)@[0].ai,
        final(objects)@[0].fighter is Some <==> old(objects)@[0].fighter is Some,
        match old(objects)@[0].fighter {
            None => {
                &&& r == UseResult::Cancelled
                &&& final(objects)@ == old(objects)@
                &&& *final(game) == *old(game)
            },
            Some(f) => {
                let max_hp = old(objects)@[0].spec_max_hp(old(game).inventory@);
                if f.hp == max_hp {
                    &&& r == UseResult::Cancelled
                    &&& final(objects)@ == old(objects)@
                    &&& final(game).log.entries@.len() == old(game).log.entries@.len() + 1
                } else {
                    &&& r == UseResult::UsedUp
                    &&& final(game).log.entries@.len() == old(game).log.entries@.len() + 1
                    &&& ({
                        let hp2 = if f.hp + HEAL_AMOUNT > max_hp {
                            max_hp
                        } else {
                            f.hp + HEAL_AMOUNT
                        };
                        final(objects)@ == old(objects)@.update(
                            0,
                            Object {
                                fighter: Some(Fighter { hp: hp2 as i32, ..f }),
                                ..old(objects)@[0]
                            },
                        )
                    })
                }
            },
        },
{
    if let Some(f) = objects[PLAYER].fighter {
        let max = objects[PLAYER].max_hp(game);
        if f.hp == max {
            game.log.add(String::from_str("You are already at full health."), Rgb::red());
            return UseResult::Cancelled;
        }
        game.log.add(String::from_str("Your wounds are healing!"), Rgb::light_violet());
        let ghost snap = objects@;
        let mut player = objects.remove(PLAYER);
        player.heal(HEAL_AMOUNT, game);
        objects.insert(PLAYER, player);
        proof {
            assert(objects@ =~= snap.update(0, player));
        }
        return UseResult::UsedUp;
    }
    UseResult::Cancelled
}

/// A monster that lightning can strike: visible, hostile, able to act.
pub open spec fn strike_candidate(objs: Seq<Object>, visible: Seq<bool>, id: int) -> bool {
    &&& 0 < id < objs.len()
    &&& objs[id].fighter is Some
    &&& objs[id].ai is Some
    &&& visible[id]
}

/// The nearest visible hostile within `max_range` of the player (the
/// first one, when several tie); none when every candidate sits at or
/// beyond the range bound.
pub fn closest_monster(max_range: i32, objects: &Vec<Object>, visible: &Vec<bool>) -> (r: Option<
    usize,
>)
    requires
        0 <= max_range <= 1_000,
        objects@.len() >= 1,
        forall|i: int| 0 <= i < objects@.len() ==> (#[trigger] objects@[i]).wf(),
        visible@.len() == objects@.len(),
    ensures
        ({
            let p = objects@[0];
            let bound = (max_range + 1) * (max_range + 1);
            match r {
                Some(id) => {
                    let d = spec_dist_sq(
                        p.x as int,
                        p.y as int,
                        objects@[id as int].x as int,
                        objects@[id as int].y as int,
                    );
                    &&& strike_candidate(objects@, visible@, id as int)
                    &&& d < bound
                    &&& forall|j: int|
                        strike_candidate(objects@, visible@, j) ==> {
                            let dj = spec_dist_sq(
                                p.x as int,
                                p.y as int,
                                (#[trigger] objects@[j]).x as int,
                                objects@[j].y as int,
                            );
                            dj > d || (dj == d && j >= id)
                        }
                },
                None => forall|j: int|
                    strike_candidate(objects@, visible@, j) ==> spec_dist_sq(
                        p.x as int,
                        p.y as int,
                        (#[trigger] objects@[j]).x as int,
                        objects@[j].y as int,
                    ) >= bound,
            }
        }),
{
    let mut closest_enemy: Option<usize> = None;
    let b: i64 = (max_range + 1) as i64;
    proof {
        assert(0 <= b * b <= 1_002_001) by (nonlinear_arith)
            requires
                1 <= b <= 1001,
        ;
    }
    let mut closest_dist: i64 = b * b;
    let ghost bound = closest_dist as int;
    let n = objects.len();
    let mut id: usize = 0;
    while id < n
        invariant
            id <= n,
            n == objects@.len() >= 1,
            visible@.len() == objects@.len(),
            forall|i: int| 0 <= i < objects@.len() ==> (#[trigger] objects@[i]).wf(),
            bound == (max_range + 1) * (max_range + 1),
            0 <= max_range <= 1_000,
            match closest_enemy {
                None => closest_dist == bound && forall|j: int|
                    j < id && strike_candidate(objects@, visible@, j) ==> spec_dist_sq(
                        objects@[0].x as int,
                        objects@[0].y as int,
                        (#[trigger] objects@[j]).x as int,
                        objects@[j].y as int,
                    ) >= bound,
                Some(c) => {
                    &&& c < id
                    &&& strike_candidate(objects@, visible@, c as int)
                    &&& closest_dist == spec_dist_sq(
                        objects@[0].x as int,
                        objects@[0].y as int,
                        objects@[c as int].x as int,
                        objects@[c as int].y as int,
                    )
                    &&& closest_dist < bound
                    &&& forall|j: int|
                        j < id && strike_candidate(objects@, visible@, j) ==> {
                            let dj = spec_dist_sq(
                                objects@[0].x as int,
                                objects@[0].y as int,
                                (#[trigger] objects@[j]).x as int,
                                objects@[j].y as int,
                            );
                            dj > closest_dist || (dj == closest_dist && j >= c)
                        }
                },
            },
        decreases n - id,
    {
        let is_candidate = id != PLAYER && objects[id].fighter.is_some() && objects[id].ai.is_some()
            && visible[id];
        if is_candidate {
            let dist = objects[PLAYER].distance_sq_to(&objects[id]);
            if dist < closest_dist {
                closest_enemy = Some(id);
                closest_dist = dist;
            }
        }
        id = id + 1;
    }
    closest_enemy
}

/// Strike the nearest visible hostile in range with a fixed bolt of
/// damage, banking any kill on the player; with no target in range
/// the scroll is not spent.
pub fn cast_lightning(game: &mut Game, objects: &mut Vec<Object>, visible: &Vec<bool>) -> (r:
    UseResult)
    requires
        old(game).wf(),
        world_wf(old(objects)@),
        visible@.len() == old(objects)@.len(),
        old(objects)@[0].fighter is Some,
        total_xp(old(objects)@) <= i32::MAX,
    ensures
        final(game).wf(),
        final(game).map == old(game).map,
        final(game).inventory == old(game).inventory,
        final(game).dungeon_level == old(game).dungeon_level,
        final(game).log.extends(old(game).log),
        world_wf(final(objects)@),
        final(objects)@.len() == old(objects)@.len(),
        if forall|j: int|
            strike_candidate(old(objects)@, visible@, j) ==> spec_dist_sq(
                old(objects)@[0].x as int,
                old(objects)@[0].y as int,
                (#[trigger] old(objects)@[j]).x as int,
                old(objects)@[j].y as int,
            ) >= (LIGHTNING_RANGE + 1) * (LIGHTNING_RANGE + 1) {
            &&& r == UseResult::Cancelled
            &&& final(objects)@ == old(objects)@
            &&& final(game).log.entries@.len() == old(game).log.entries@.len() + 1
        } else {
            &&& r == UseResult::UsedUp
            &&& exists|id: int|
                #![trigger old(objects)@[id]]
                {
                    let pre = old(objects)@;
                    let post = final(objects)@;
                    let d = spec_dist_sq(
                        pre[0].x as int,
                        pre[0].y as int,
                        pre[id].x as int,
                        pre[id].y as int,
                    );
                    &&& strike_candidate(pre, visible@, id)
                    &&& d < (LIGHTNING_RANGE + 1) * (LIGHTNING_RANGE + 1)
                    &&& forall|j: int|
                        strike_candidate(pre, visible@, j) ==> {
                            let dj = spec_dist_sq(
                                pre[0].x as int,
                                pre[0].y as int,
                                (#[trigger] pre[j]).x as int,
                                pre[j].y as int,
                            );
                            dj > d || (dj == d && j >= id)
                        }
                    &&& take_damage_rel(pre[id], post[id], LIGHTNING_DAMAGE as int)
                    &&& (match spec_damage_xp(pre[id], LIGHTNING_DAMAGE as int) {
                        Some(g) => pre[0].fighter matches Some(pf) && post[0] == (Object {
                            fighter: Some(Fighter { xp: (pf.xp + g) as i32, ..pf }),
                            ..pre[0]
                        }),
                        None => post[0] == pre[0],
                    })
                    &&& forall|j: int| 0 <= j < pre.len() && j != id && j != 0 ==> post[j] == pre[j]
                }
        },
{
    let monster_id = closest_monster(LIGHTNING_RANGE, objects, visible);
    if let Some(mid) = monster_id {
        let text = String::from_str("A lightning strikes ").concat(
            objects[mid].name.as_str(),
        ).concat(" with a loud thunder for ").concat(
            crate::messages::i32_to_string(LIGHTNING_DAMAGE).as_str(),
        ).concat(" damage!");
        game.log.add(text, Rgb::light_blue());
        let ghost pre = objects@;
        proof {
            assert forall|k: int| 0 <= k < pre.len() implies xp_of(#[trigger] pre[k]) >= 0 by {
                assert(pre[k].wf());
            }
            lemma_total_xp_pair(pre, mid as int, 0);
        }
        let mut monster = objects.remove(mid);
        let xp_res = monster.take_damage(LIGHTNING_DAMAGE, &mut game.log);
        objects.insert(mid, monster);
        proof {
            assert(objects@ =~= pre.update(mid as int, monster));
        }
        if let Some(xp) = xp_res {
            let ghost snap = objects@;
            let mut player = objects.remove(PLAYER);
            if let Some(pf) = player.fighter {
                player.fighter = Some(Fighter { xp: pf.xp + xp, ..pf });
            }
            objects.insert(PLAYER, player);
            proof {
                assert(objects@ =~= snap.update(0, player));
            }
        }
        UseResult::UsedUp
    } else {
        game.log.add(String::from_str("No enemy is close enough to strike."), Rgb::red());
        UseResult::Cancelled
    }
}

/// Swap the target's behaviour for a confused state that wraps it (a
/// target with no behaviour is treated as basic); cancelled targeting
/// leaves everything in place.
pub fn cast_confuse(target: Option<usize>, game: &mut Game, objects: &mut Vec<Object>) -> (r:
    UseResult)
    requires
        old(game).wf(),
        world_wf(old(objects)@),
        match target {
            Some(id) => 0 < id < old(objects)@.len() && old(objects)@[id as int].fighter is Some,
            None => true,
        },
    ensures
        final(game).wf(),
        final(game).map == old(game).map,
        final(game).inventory == old(game).inventory,
        final(game).dungeon_level == old(game).dungeon_level,
        final(game).log.extends(old(game).log),
        final(objects)@.len() == old(objects)@.len(),
        world_wf(final(objects)@),
        match target {
            None => {
                &&& r == UseResult::Cancelled
                &&& final(objects)@ == old(objects)@
                &&& final(game).log.entries@.len() == old(game).log.entries@.len() + 1
            },
            Some(id) => {
                &&& r == UseResult::UsedUp
                &&& final(game).log.entries@.len() == old(game).log.entries@.len() + 1
                &&& (final(objects)@[id as int].ai matches Some(a) && a matches Ai::Confused {
                    previous_ai,
                    num_turns,
                } && num_turns == CONFUSE_NUM_TURNS && *previous_ai == (match old(
                    objects,
                )@[id as int].ai {
                    Some(prev) => prev,
                    None => Ai::Basic,
                }))
                &&& final(objects)@ == old(objects)@.update(
                    id as int,
                    Object { ai: final(objects)@[id as int].ai, ..old(objects)@[id as int] },
                )
            },
        },
{
    if let Some(mid) = target {
        let ghost pre = objects@;
        let mut monster = objects.remove(mid);
        let old_ai = match monster.ai {
            Some(a) => a,
            None => Ai::Basic,
        };
        monster.ai = Some(
            Ai::Confused { previous_ai: Box::new(old_ai), num_turns: CONFUSE_NUM_TURNS },
        );
        objects.insert(mid, monster);
        proof {
            assert(objects@ =~= pre.update(mid as int, monster));
        }
        let text = objects[mid].name.clone().concat(" starts stumbling around!");
        game.log.add(text, Rgb::light_green());
        UseResult::UsedUp
    } else {
        game.log.add(String::from_str("No enemy is close enough to strike."), Rgb::red());
        UseResult::Cancelled
    }
}


/// The blast hits every live combatant within its radius of (x, y).
pub open spec fn fireball_hits(o: Object, x: int, y: int) -> bool {
    &&& o.fighter is Some
    &&& o.alive
    &&& spec_dist_sq(o.x as int, o.y as int, x, y) <= FIREBALL_RADIUS * FIREBALL_RADIUS
}

/// The experience the blast frees among the first `n` entities,
/// counting non-player kills only.
pub open spec fn fireball_gain_upto(objs: Seq<Object>, x: int, y: int, n: int) -> int
    decreases n,
{
    if n <= 0 {
        0
    } else {
        fireball_gain_upto(objs, x, y, n - 1) + if n - 1 != 0 && fireball_hits(objs[n - 1], x, y)
            && spec_dies(objs[n - 1], FIREBALL_DAMAGE as int) {
            xp_of(objs[n - 1])
        } else {
            0
        }
    }
}

/// Burn everything with combat stats within a fixed radius of the
/// chosen tile, the player included; experience from the non-player
/// dead accrues to the player.  Cancelled targeting spends nothing.
#[verifier::loop_isolation(false)]
#[verifier::rlimit(30)]
pub fn cast_fireball(target: Option<(i32, i32)>, game: &mut Game, objects: &mut Vec<Object>) -> (r:
    UseResult)
    requires
        old(game).wf(),
        world_wf(old(objects)@),
        old(objects)@[0].fighter matches Some(pf) && pf.on_death is Player,
        total_xp(old(objects)@) <= i32::MAX,
        match target {
            Some(t) => coord_ok(t.0 as int) && coord_ok(t.1 as int),
            None => true,
        },
    ensures
        final(game).wf(),
        final(game).map == old(game).map,
        final(game).inventory == old(game).inventory,
        final(game).dungeon_level == old(game).dungeon_level,
        final(game).log.extends(old(game).log),
        world_wf(final(objects)@),
        final(objects)@.len() == old(objects)@.len(),
        match target {
            None => {
                &&& r == UseResult::Cancelled
                &&& final(objects)@ == old(objects)@
                &&& final(game).log == old(game).log
            },
            Some(t) => {
                let x = t.0 as int;
                let y = t.1 as int;
                let pre = old(objects)@;
                let post = final(objects)@;
                &&& r == UseResult::UsedUp
                &&& forall|id: int|
                    1 <= id < pre.len() ==> if fireball_hits(#[trigger] pre[id], x, y) {
                        take_damage_rel(pre[id], post[id], FIREBALL_DAMAGE as int)
                    } else {
                        post[id] == pre[id]
                    }
                &&& ({
                    let gain = fireball_gain_upto(pre, x, y, pre.len() as int);
                    let pm = if fireball_hits(pre[0], x, y) {
                        spec_player_damaged(pre[0], FIREBALL_DAMAGE as int)
                    } else {
                        pre[0]
                    };
                    pm.fighter matches Some(pf2) && post[0] == (Object {
                        fighter: Some(Fighter { xp: (pf2.xp + gain) as i32, ..pf2 }),
                        ..pm
                    })
                })
            },
        },
{
    let t = match target {
        Some(t) => t,
        None => {
            return UseResult::Cancelled;
        },
    };
    let x = t.0;
    let y = t.1;
    game.log.add(
        String::from_str("The fireball explodes, burning everything within ").concat(
            crate::messages::i32_to_string(FIREBALL_RADIUS).as_str(),
        ).concat(" tiles!"),
        Rgb::orange(),
    );
    let ghost pre = objects@;
    proof {
        assert forall|k: int| 0 <= k < pre.len() implies xp_of(#[trigger] pre[k]) >= 0 by {
            assert(pre[k].wf());
        }
        lemma_total_xp_upto_full(pre);
    }
    let mut xp_to_gain: i32 = 0;
    let n = objects.len();
    let mut id: usize = 0;
    while id < n
        invariant
            id <= n,
            objects@.len() == n,
            forall|j: int| id <= j < n ==> objects@[j] == pre[j],
            forall|j: int|
                1 <= j < id ==> if fireball_hits(#[trigger] pre[j], x as int, y as int) {
                    take_damage_rel(pre[j], objects@[j], FIREBALL_DAMAGE as int)
                } else {
                    objects@[j] == pre[j]
                },
            id > 0 ==> (if fireball_hits(pre[0], x as int, y as int) {
                take_damage_rel(pre[0], objects@[0], FIREBALL_DAMAGE as int)
            } else {
                objects@[0] == pre[0]
            }),
            forall|j: int| 0 <= j < n ==> (#[trigger] objects@[j]).wf(),
            xp_to_gain == fireball_gain_upto(pre, x as int, y as int, id as int),
            0 <= xp_to_gain,
            xp_to_gain <= total_xp_upto(pre, id as int) - (if id > 0 {
                xp_of(pre[0])
            } else {
                0
            }),
            game.log.extends(old(game).log),
            game.map == old(game).map,
            game.inventory == old(game).inventory,
            game.dungeon_level == old(game).dungeon_level,
        decreases n - id,
    {
        let o_ref = &objects[id];
        let hit = o_ref.fighter.is_some() && o_ref.alive && o_ref.distance_sq(x, y) <= (
        FIREBALL_RADIUS * FIREBALL_RADIUS) as i64;
        proof {
            lemma_total_xp_upto_mono(pre, id as int + 1, n as int);
        }
        if hit {
            let text = String::from_str("The ").concat(objects[id].name.as_str()).concat(
                " gets burned for ",
            ).concat(crate::messages::i32_to_string(FIREBALL_DAMAGE).as_str()).concat(
                " hit points.",
            );
            game.log.add(text, Rgb::orange());
            let ghost snap = objects@;
            let ghost g_log = game.log;
            let mut o = objects.remove(id);
            let res = o.take_damage(FIREBALL_DAMAGE, &mut game.log);
            objects.insert(id, o);
            proof {
                assert(objects@ =~= snap.update(id as int, o));
                crate::messages::Messages::lemma_extends_trans(game.log, g_log, old(game).log);
            }
            if let Some(xp) = res {
                if id != PLAYER {
                    xp_to_gain = xp_to_gain + xp;
                }
            }
        }
        id = id + 1;
    }
    proof {
        assert(total_xp_upto(pre, n as int) == total_xp(pre));
    }
    let ghost processed = objects@;
    let mut player = objects.remove(PLAYER);
    if let Some(pf2) = player.fighter {
        player.fighter = Some(Fighter { xp: pf2.xp + xp_to_gain, ..pf2 });
    }
    objects.insert(PLAYER, player);
    proof {
        assert(objects@ =~= processed.update(0, player));
        assert(take_damage_rel(pre[0], processed[0], FIREBALL_DAMAGE as int) || processed[0]
            == pre[0]);
        let post = objects@;
        assert forall|i: int|
            1 <= i < post.len() implies {
            &&& ((#[trigger] post[i]).fighter is Some ==> post[i].alive)
            &&& (post[i].ai is Some ==> post[i].fighter is Some)
            &&& (post[i].fighter matches Some(f) ==> f.on_death is Monster)
            &&& post[i].wf()
        } by {
            assert(post[i] == processed[i]);
            if fireball_hits(pre[i], x as int, y as int) {
                assert(take_damage_rel(pre[i], processed[i], FIREBALL_DAMAGE as int));
                assert(pre[i].wf());
                assert(pre[i].fighter matches Some(f) ==> f.on_death is Monster);
            } else {
                assert(processed[i] == pre[i]);
            }
        }
        assert(post[0].wf());
    }
    UseResult::UsedUp
}


/// How an item use is aimed: most items aim themselves, confusion
/// takes a chosen monster, a fireball takes a chosen tile.  A `None`
/// inside means the player cancelled the targeting.
pub enum UseTarget {
    Auto,
    Monster(Option<usize>),
    Tile(Option<(i32, i32)>),
}

/// The targeting mode an item's effect needs.
pub open spec fn target_matches(item: Item, t: UseTarget) -> bool {
    match item {
        Item::Confuse => t is Monster,
        Item::Fireball => t is Tile,
        _ => t is Auto,
    }
}

/// Dispatch one inventory item to its effect handler and honour the
/// outcome: a consumed item leaves the inventory, a cancelled use
/// leaves it in place (and says so), equipment is always kept.
pub fn use_item(
    inventory_id: usize,
    target: UseTarget,
    game: &mut Game,
    objects: &mut Vec<Object>,
    visible: &Vec<bool>,
)
    requires
        old(game).wf(),
        world_wf(old(objects)@),
        inventory_id < old(game).inventory@.len(),
        slots_unique(old(game).inventory@),
        old(game).inventory@[inventory_id as int].item is Some ==> inv_items(
            old(game).inventory@,
        ),
        visible@.len() == old(objects)@.len(),
        old(objects)@[0].fighter matches Some(pf) && pf.on_death is Player,
        total_xp(old(objects)@) <= i32::MAX,
        match old(game).inventory@[inventory_id as int].item {
            Some(it) => target_matches(it, target) && (match target {
                UseTarget::Monster(Some(t)) => 0 < t < old(objects)@.len() && old(
                    objects,
                )@[t as int].fighter is Some,
                UseTarget::Tile(Some(t)) => coord_ok(t.0 as int) && coord_ok(t.1 as int),
                _ => true,
            }),
            None => true,
        },
    ensures
        final(game).wf(),
        final(game).map == old(game).map,
        final(game).dungeon_level == old(game).dungeon_level,
        final(game).log.extends(old(game).log),
        world_wf(final(objects)@),
        final(objects)@.len() == old(objects)@.len(),
        slots_unique(final(game).inventory@),
        inv_items(old(game).inventory@) ==> inv_items(final(game).inventory@),
        match old(game).inventory@[inventory_id as int].item {
            None => {
                &&& final(game).inventory == old(game).inventory
                &&& final(objects)@ == old(objects)@
                &&& final(game).log.entries@.len() == old(game).log.entries@.len() + 1
            },
            Some(it) => match it {
                Item::Heal => {
                    let consumed = old(objects)@[0].fighter matches Some(f) && f.hp != old(
                        objects,
                    )@[0].spec_max_hp(old(game).inventory@);
                    if consumed {
                        final(game).inventory@ == old(game).inventory@.remove(inventory_id as int)
                    } else {
                        final(game).inventory == old(game).inventory && final(objects)@ == old(
                            objects,
                        )@
                    }
                },
                Item::Lightning => {
                    let none_in_range = forall|j: int|
                        strike_candidate(old(objects)@, visible@, j) ==> spec_dist_sq(
                            old(objects)@[0].x as int,
                            old(objects)@[0].y as int,
                            (#[trigger] old(objects)@[j]).x as int,
                            old(objects)@[j].y as int,
                        ) >= (LIGHTNING_RANGE + 1) * (LIGHTNING_RANGE + 1);
                    if none_in_range {
                        final(game).inventory == old(game).inventory && final(objects)@ == old(
                            objects,
                        )@
                    } else {
                        final(game).inventory@ == old(game).inventory@.remove(inventory_id as int)
                    }
                },
                Item::Confuse => match target {
                    UseTarget::Monster(Some(t)) => {
                        &&& final(game).inventory@ == old(game).inventory@.remove(
                            inventory_id as int,
                        )
                        &&& (final(objects)@[t as int].ai matches Some(a) && a matches
                            Ai::Confused { previous_ai, num_turns } && num_turns
                            == CONFUSE_NUM_TURNS && *previous_ai == (match old(
                            objects,
                        )@[t as int].ai {
                            Some(prev) => prev,
                            None => Ai::Basic,
                        }))
                        &&& final(objects)@ == old(objects)@.update(
                            t as int,
                            Object { ai: final(objects)@[t as int].ai, ..old(objects)@[t as int] },
                        )
                    },
                    _ => final(game).inventory == old(game).inventory && final(objects)@ == old(
                        objects,
                    )@,
                },
                Item::Fireball => match target {
                    UseTarget::Tile(Some(t)) => final(game).inventory@ == old(
                        game,
                    ).inventory@.remove(inventory_id as int),
                    _ => final(game).inventory == old(game).inventory && final(objects)@ == old(
                        objects,
                    )@,
                },
                _ => {
                    &&& final(game).inventory@.len() == old(game).inventory@.len()
                    &&& final(objects)@ == old(objects)@
                    &&& (old(game).inventory@[inventory_id as int].equipment matches Some(e)
                        ==> (if e.equipped {
                        final(game).inventory@ == old(game).inventory@.update(
                            inventory_id as int,
                            Object {
                                equipment: Some(Equipment { equipped: false, ..e }),
                                ..old(game).inventory@[inventory_id as int]
                            },
                        )
                    } else {
                        equipped_in(final(game).inventory@[inventory_id as int], e.slot)
                    }))
                },
            },
        },
{
    let it = game.inventory[inventory_id].item;
    match it {
        None => {
            let text = String::from_str("The ").concat(
                game.inventory[inventory_id].name.as_str(),
            ).concat(" cannot be used.");
            game.log.add(text, Rgb::white());
        },
        Some(item) => {
            let ghost g0 = *game;
            let result = match item {
                Item::Heal => cast_heal(game, objects),
                Item::Lightning => cast_lightning(game, objects, visible),
                Item::Confuse => {
                    let t = match target {
                        UseTarget::Monster(t) => t,
                        _ => None,
                    };
                    cast_confuse(t, game, objects)
                },
                Item::Fireball => {
                    let t = match target {
                        UseTarget::Tile(t) => t,
                        _ => None,
                    };
                    cast_fireball(t, game, objects)
                },
                Item::Sword => toggle_equipment(inventory_id, game),
                Item::Shield => toggle_equipment(inventory_id, game),
                Item::Helmet => toggle_equipment(inventory_id, game),
            };
            match result {
                UseResult::UsedUp => {
                    let removed = game.inventory.remove(inventory_id);
                },
                UseResult::Cancelled => {
                    let ghost g1 = *game;
                    game.log.add(String::from_str("Cancelled"), Rgb::white());
                    proof {
                        crate::messages::Messages::lemma_extends_trans(
                            game.log,
                            g1.log,
                            old(game).log,
                        );
                    }
                },
                UseResult::UsedAndKept => {},
            }
        },
    }
}

/// Appending an entry that is either not worn, or worn in a slot no
/// existing entry occupies, keeps slots unique.
proof fn lemma_slots_unique_push(inv: Seq<Object>, o: Object)
    requires
        slots_unique(inv),
        forall|s: Slot|
            equipped_in(o, s) ==> forall|j: int|
                0 <= j < inv.len() ==> !equipped_in(#[trigger] inv[j], s),
    ensures
        slots_unique(inv.push(o)),
{
    let post = inv.push(o);
    assert forall|i: int, j: int, s: Slot|
        #![trigger equipped_in(post[i], s), equipped_in(post[j], s)]
        0 <= i < post.len() && 0 <= j < post.len() && equipped_in(post[i], s) && equipped_in(
        post[j],
        s,
    ) implies i == j by {
        if i < inv.len() && j < inv.len() {
            assert(equipped_in(inv[i], s) && equipped_in(inv[j], s));
        } else if i == inv.len() && j < inv.len() {
            assert(equipped_in(o, s));
            assert(!equipped_in(inv[j], s));
        } else if j == inv.len() && i < inv.len() {
            assert(equipped_in(o, s));
            assert(!equipped_in(inv[i], s));
        }
    }
}

/// How one pickup rewrites the floor and the inventory: a full
/// inventory refuses it; otherwise the last floor entity takes the
/// picked one's index and the item lands at the end of the inventory,
/// worn at once when its slot was free.
pub open spec fn pick_rel(
    pre_objs: Seq<Object>,
    post_objs: Seq<Object>,
    pre_inv: Seq<Object>,
    post_inv: Seq<Object>,
    id: int,
) -> bool {
    if pre_inv.len() >= INVENTORY_CAP {
        &&& post_objs == pre_objs
        &&& post_inv == pre_inv
    } else {
        let item = pre_objs[id];
        &&& post_objs == pre_objs.update(id, pre_objs.last()).drop_last()
        &&& post_inv.len() == pre_inv.len() + 1
        &&& (match item.equipment {
            None => post_inv == pre_inv.push(item),
            Some(e) => {
                let auto = forall|j: int|
                    0 <= j < pre_inv.len() ==> !equipped_in(#[trigger] pre_inv[j], e.slot);
                if auto {
                    post_inv == pre_inv.push(
                        Object { equipment: Some(Equipment { equipped: true, ..e }), ..item },
                    )
                } else {
                    post_inv == pre_inv.push(item)
                }
            },
        })
    }
}

/// Move the entity at `object_id` from the floor into the inventory
/// (the last floor entity takes its index).  A full inventory refuses
/// the pickup; equipment landing in an empty slot is worn at once.
pub fn pick_item_up(object_id: usize, objects: &mut Vec<Object>, game: &mut Game)
    requires
        old(game).wf(),
        0 < object_id < old(objects)@.len(),
        old(objects)@[object_id as int].wf(),
        old(objects)@[object_id as int].item is Some,
        old(objects)@[object_id as int].fighter is None,
        old(objects)@[object_id as int].ai is None,
        old(objects)@[object_id as int].equipment matches Some(e) ==> !e.equipped,
        slots_unique(old(game).inventory@),
        inv_items(old(game).inventory@),
    ensures
        final(game).wf(),
        final(game).map == old(game).map,
        final(game).dungeon_level == old(game).dungeon_level,
        final(game).log.extends(old(game).log),
        slots_unique(final(game).inventory@),
        inv_items(final(game).inventory@),
        pick_rel(
            old(objects)@,
            final(objects)@,
            old(game).inventory@,
            final(game).inventory@,
            object_id as int,
        ),
        old(game).inventory@.len() >= INVENTORY_CAP ==> final(game).log.entries@.len() == old(
            game,
        ).log.entries@.len() + 1,
{
    if game.inventory.len() >= INVENTORY_CAP {
        let text = String::from_str("Your inventory is full, cannot pick up ").concat(
            objects[object_id].name.as_str(),
        ).concat(".");
        game.log.add(text, Rgb::red());
    } else {
        let ghost item_g = old(objects)@[object_id as int];
        let item = objects.swap_remove(object_id);
        let text = String::from_str("You picked up a ").concat(item.name.as_str()).concat("!");
        game.log.add(text, Rgb::green());
        let index = game.inventory.len();
        let equip_opt = item.equipment;
        game.inventory.push(item);
        if let Some(e) = equip_opt {
            match get_equipped_in_slot(e.slot, &game.inventory) {
                None => {
                    let ghost g1 = *game;
                    let ghost snap = game.inventory@;
                    let mut me = game.inventory.remove(index);
                    me.equip(&mut game.log);
                    game.inventory.insert(index, me);
                    proof {
                        assert(game.inventory@ =~= snap.update(index as int, me));
                        assert(game.inventory@ =~= old(game).inventory@.push(me));
                        crate::messages::Messages::lemma_extends_trans(
                            game.log,
                            g1.log,
                            old(game).log,
                        );
                        assert(me == (Object {
                            equipment: Some(Equipment { equipped: true, ..e }),
                            ..item_g
                        }));
                        assert forall|j: int|
                            0 <= j < old(game).inventory@.len() implies !equipped_in(
                            #[trigger] old(game).inventory@[j],
                            e.slot,
                        ) by {
                            assert(snap[j] == old(game).inventory@[j]);
                            assert(!equipped_in(snap[j], e.slot));
                        }
                        assert forall|s: Slot|
                            equipped_in(me, s) implies forall|j: int|
                                0 <= j < old(game).inventory@.len() ==> !equipped_in(
                                    #[trigger] old(game).inventory@[j],
                                    s,
                                ) by {
                            assert(s == e.slot);
                        }
                        lemma_slots_unique_push(old(game).inventory@, me);
                    }
                },
                Some(occ) => {
                    proof {
                        if occ < old(game).inventory@.len() {
                            assert(equipped_in(old(game).inventory@[occ as int], e.slot));
                        } else {
                            assert(equipped_in(item_g, e.slot));
                        }
                        lemma_slots_unique_push(old(game).inventory@, item_g);
                    }
                },
            }
        } else {
            proof {
                lemma_slots_unique_push(old(game).inventory@, item_g);
            }
        }
    }
}

/// Move the item at `inventory_id` back to the floor at the player's
/// feet, taking it off first if it was worn.
pub fn drop_item(inventory_id: usize, game: &mut Game, objects: &mut Vec<Object>)
    requires
        old(game).wf(),
        inventory_id < old(game).inventory@.len(),
        old(objects)@.len() >= 1,
        0 <= old(objects)@[0].x <= crate::tile::MAP_WIDTH,
        0 <= old(objects)@[0].y <= crate::tile::MAP_HEIGHT,
        slots_unique(old(game).inventory@),
        inv_items(old(game).inventory@),
    ensures
        final(game).wf(),
        final(game).map == old(game).map,
        final(game).dungeon_level == old(game).dungeon_level,
        final(game).log.extends(old(game).log),
        slots_unique(final(game).inventory@),
        inv_items(final(game).inventory@),
        final(game).inventory@ == old(game).inventory@.remove(inventory_id as int),
        ({
            let item = old(game).inventory@[inventory_id as int];
            let dropped = Object {
                x: old(objects)@[0].x,
                y: old(objects)@[0].y,
                equipment: match item.equipment {
                    Some(e) => Some(Equipment { equipped: false, ..e }),
                    None => None,
                },
                ..item
            };
            final(objects)@ == old(objects)@.push(dropped)
        }),
{
    let mut item = game.inventory.remove(inventory_id);
    if item.equipment.is_some() {
        item.unequip(&mut game.log);
    }
    let px = objects[PLAYER].x;
    let py = objects[PLAYER].y;
    item.set_pos(px, py);
    let ghost g1 = *game;
    let text = String::from_str("You dropped a ").concat(item.name.as_str()).concat(".");
    game.log.add(text, Rgb::yellow());
    proof {
        crate::messages::Messages::lemma_extends_trans(game.log, g1.log, old(game).log);
    }
    objects.push(item);
}

} // verus!
