use vstd::prelude::*;
use vstd::string::StringExecFns;
use crate::messages::{Messages, Rgb};
use crate::object::{
    Object, Fighter, Equipment, spec_dies, spec_damage_xp, take_damage_rel, STAT_LIMIT, HP_LIMIT,
};
use crate::tile::{MapGrid, MAP_WIDTH, MAP_HEIGHT};

verus! {

/// Inventory capacity: one slot per alphabetic menu key.
pub const INVENTORY_CAP: usize = 26;

/// A well-formed inventory: bounded, and every entity in it is sound.
pub open spec fn inv_wf(inv: Seq<Object>) -> bool {
    &&& inv.len() <= INVENTORY_CAP
    &&& forall|i: int| 0 <= i < inv.len() ==> (#[trigger] inv[i]).wf()
}

/// Every entity of a collection is sound.
pub open spec fn objs_wf(objs: Seq<Object>) -> bool {
    forall|i: int| 0 <= i < objs.len() ==> (#[trigger] objs[i]).wf()
}

/// The sound shape of the whole entity collection: the player sits at
/// index 0; every non-player fighter is a live monster (death strips
/// the capability); behaviour always comes with combat stats.
pub open spec fn world_wf(objs: Seq<Object>) -> bool {
    &&& objs.len() >= 1
    &&& forall|i: int| 0 <= i < objs.len() ==> (#[trigger] objs[i]).wf()
    &&& forall|i: int|
        1 <= i < objs.len() && (#[trigger] objs[i]).fighter is Some ==> objs[i].alive
    &&& forall|i: int|
        0 <= i < objs.len() && (#[trigger] objs[i]).ai is Some ==> objs[i].fighter is Some
    &&& forall|i: int|
        1 <= i < objs.len() ==> ((#[trigger] objs[i]).fighter matches Some(f) ==> f.on_death
            is Monster)
}

/// Items lying on the floor are inert: no combat stats, no behaviour,
/// and any equipment data unworn.
pub open spec fn floor_items_ok(objs: Seq<Object>) -> bool {
    forall|i: int|
        0 <= i < objs.len() && (#[trigger] objs[i]).item is Some ==> {
            &&& objs[i].fighter is None
            &&& objs[i].ai is None
            &&& (objs[i].equipment matches Some(e) ==> !e.equipped)
        }
}

/// The experience banked on one entity.
pub open spec fn xp_of(o: Object) -> int {
    match o.fighter {
        Some(f) => f.xp as int,
        None => 0,
    }
}

/// All experience in the collection.  A kill only moves experience to
/// the killer, so this total bounds any single award.
pub open spec fn total_xp(objs: Seq<Object>) -> int
    decreases objs.len(),
{
    if objs.len() == 0 {
        0
    } else {
        total_xp(objs.drop_last()) + xp_of(objs.last())
    }
}

pub proof fn lemma_total_xp_nonneg(objs: Seq<Object>)
    requires
        forall|i: int| 0 <= i < objs.len() ==> xp_of(#[trigger] objs[i]) >= 0,
    ensures
        total_xp(objs) >= 0,
    decreases objs.len(),
{
    if objs.len() > 0 {
        lemma_total_xp_nonneg(objs.drop_last());
    }
}

pub proof fn lemma_total_xp_ge(objs: Seq<Object>, i: int)
    requires
        forall|k: int| 0 <= k < objs.len() ==> xp_of(#[trigger] objs[k]) >= 0,
        0 <= i < objs.len(),
    ensures
        xp_of(objs[i]) <= total_xp(objs),
    decreases objs.len(),
{
    lemma_total_xp_nonneg(objs.drop_last());
    if i < objs.len() - 1 {
        lemma_total_xp_ge(objs.drop_last(), i);
    }
}

pub proof fn lemma_total_xp_pair(objs: Seq<Object>, i: int, j: int)
    requires
        forall|k: int| 0 <= k < objs.len() ==> xp_of(#[trigger] objs[k]) >= 0,
        0 <= i < objs.len(),
        0 <= j < objs.len(),
        i != j,
    ensures
        xp_of(objs[i]) + xp_of(objs[j]) <= total_xp(objs),
    decreases objs.len(),
{
    if i == objs.len() - 1 {
        lemma_total_xp_ge(objs.drop_last(), j);
    } else if j == objs.len() - 1 {
        lemma_total_xp_ge(objs.drop_last(), i);
    } else {
        lemma_total_xp_pair(objs.drop_last(), i, j);
    }
}

/// Rewriting one entity rewrites the total pointwise.
pub proof fn lemma_total_xp_update(objs: Seq<Object>, i: int, o2: Object)
    requires
        0 <= i < objs.len(),
    ensures
        total_xp(objs.update(i, o2)) == total_xp(objs) - xp_of(objs[i]) + xp_of(o2),
    decreases objs.len(),
{
    let upd = objs.update(i, o2);
    if i == objs.len() - 1 {
        assert(upd.drop_last() =~= objs.drop_last());
    } else {
        assert(upd.drop_last() =~= objs.drop_last().update(i, o2));
        lemma_total_xp_update(objs.drop_last(), i, o2);
    }
}

/// The experience among the first `n` entities.
pub open spec fn total_xp_upto(objs: Seq<Object>, n: int) -> int
    decreases n,
{
    if n <= 0 {
        0
    } else {
        total_xp_upto(objs, n - 1) + xp_of(objs[n - 1])
    }
}

proof fn lemma_total_xp_upto_drop_last(objs: Seq<Object>, n: int)
    requires
        0 <= n <= objs.len() - 1,
    ensures
        total_xp_upto(objs.drop_last(), n) == total_xp_upto(objs, n),
    decreases n,
{
    if n > 0 {
        lemma_total_xp_upto_drop_last(objs, n - 1);
    }
}

pub proof fn lemma_total_xp_upto_full(objs: Seq<Object>)
    ensures
        total_xp_upto(objs, objs.len() as int) == total_xp(objs),
    decreases objs.len(),
{
    if objs.len() > 0 {
        lemma_total_xp_upto_full(objs.drop_last());
        lemma_total_xp_upto_drop_last(objs, objs.len() - 1);
    }
}

pub proof fn lemma_total_xp_upto_mono(objs: Seq<Object>, a: int, b: int)
    requires
        forall|k: int| 0 <= k < objs.len() ==> xp_of(#[trigger] objs[k]) >= 0,
        0 <= a <= b <= objs.len(),
    ensures
        total_xp_upto(objs, a) <= total_xp_upto(objs, b),
    decreases b - a,
{
    if a < b {
        lemma_total_xp_upto_mono(objs, a, b - 1);
    }
}

pub proof fn lemma_total_xp_push(objs: Seq<Object>, o: Object)
    ensures
        total_xp(objs.push(o)) == total_xp(objs) + xp_of(o),
{
    assert(objs.push(o).drop_last() =~= objs);
}

/// Session state next to the entity collection: the grid, the log, the
/// player's inventory and the current depth.
pub struct Game {
    pub map: MapGrid,
    pub log: Messages,
    pub inventory: Vec<Object>,
    pub dungeon_level: u32,
}

impl Game {
    pub open spec fn wf(self) -> bool {
        &&& self.map.wf()
        &&& inv_wf(self.inventory@)
    }
}

pub open spec fn power_bonus_of(o: Object) -> int {
    match o.equipment {
        Some(e) => if e.equipped {
            e.power_bonus as int
        } else {
            0
        },
        None => 0,
    }
}

pub open spec fn defence_bonus_of(o: Object) -> int {
    match o.equipment {
        Some(e) => if e.equipped {
            e.defence_bonus as int
        } else {
            0
        },
        None => 0,
    }
}

pub open spec fn max_hp_bonus_of(o: Object) -> int {
    match o.equipment {
        Some(e) => if e.equipped {
            e.max_hp_bonus as int
        } else {
            0
        },
        None => 0,
    }
}

pub open spec fn power_bonus_sum(inv: Seq<Object>) -> int
    decreases inv.len(),
{
    if inv.len() == 0 {
        0
    } else {
        power_bonus_sum(inv.drop_last()) + power_bonus_of(inv.last())
    }
}

pub open spec fn defence_bonus_sum(inv: Seq<Object>) -> int
    decreases inv.len(),
{
    if inv.len() == 0 {
        0
    } else {
        defence_bonus_sum(inv.drop_last()) + defence_bonus_of(inv.last())
    }
}

pub open spec fn max_hp_bonus_sum(inv: Seq<Object>) -> int
    decreases inv.len(),
{
    if inv.len() == 0 {
        0
    } else {
        max_hp_bonus_sum(inv.drop_last()) + max_hp_bonus_of(inv.last())
    }
}

impl Object {
    /// Effective power: base stat plus, for the player only, the sum
    /// of power bonuses over equipped inventory items.
    pub open spec fn spec_power(self, inv: Seq<Object>) -> int {
        (match self.fighter {
            Some(f) => f.base_power as int,
            None => 0,
        }) + if self.is_player() {
            power_bonus_sum(inv)
        } else {
            0
        }
    }

    /// Effective defence, formed like `spec_power`.
    pub open spec fn spec_defence(self, inv: Seq<Object>) -> int {
        (match self.fighter {
            Some(f) => f.base_defence as int,
            None => 0,
        }) + if self.is_player() {
            defence_bonus_sum(inv)
        } else {
            0
        }
    }

    /// Effective maximum hit points, formed like `spec_power`.
    pub open spec fn spec_max_hp(self, inv: Seq<Object>) -> int {
        (match self.fighter {
            Some(f) => f.base_max_hp as int,
            None => 0,
        }) + if self.is_player() {
            max_hp_bonus_sum(inv)
        } else {
            0
        }
    }
}

proof fn lemma_bonus_sums_bounded(inv: Seq<Object>)
    requires
        forall|i: int| 0 <= i < inv.len() ==> (#[trigger] inv[i]).wf(),
    ensures
        -(inv.len() as int) * (STAT_LIMIT as int) <= power_bonus_sum(inv) <= (inv.len() as int) * (
        STAT_LIMIT as int),
        -(inv.len() as int) * (STAT_LIMIT as int) <= defence_bonus_sum(inv) <= (inv.len() as int) * (
        STAT_LIMIT as int),
        0 <= max_hp_bonus_sum(inv) <= (inv.len() as int) * (STAT_LIMIT as int),
    decreases inv.len(),
{
    if inv.len() > 0 {
        lemma_bonus_sums_bounded(inv.drop_last());
    }
}

/// How one swing changes attacker and defender: damage is effective
/// power minus effective defence; only positive damage is applied, and
/// a kill banks the defender's experience on the attacker.
pub open spec fn attack_rel(
    pre_a: Object,
    pre_t: Object,
    post_a: Object,
    post_t: Object,
    inv: Seq<Object>,
) -> bool {
    let dmg = pre_a.spec_power(inv) - pre_t.spec_defence(inv);
    if dmg > 0 {
        &&& take_damage_rel(pre_t, post_t, dmg)
        &&& match spec_damage_xp(pre_t, dmg) {
            Some(gained) => pre_a.fighter matches Some(af) && post_a == (Object {
                fighter: Some(Fighter { xp: (af.xp + gained) as i32, ..af }),
                ..pre_a
            }),
            None => post_a == pre_a,
        }
    } else {
        &&& post_t == pre_t
        &&& post_a == pre_a
    }
}

impl Object {
    /// Whether the entity is the one the equipment bonuses apply to.
    pub fn check_is_player(&self) -> (b: bool)
        ensures
            b == self.is_player(),
    {
        let p = String::from_str("Player");
        self.name == p
    }

    /// The equipment currently worn, in inventory order; empty for
    /// anyone but the player.
    pub fn get_all_equipped(&self, game: &Game) -> (r: Vec<Equipment>)
        requires
            game.wf(),
        ensures
            r@ == if self.is_player() {
                equipped_list(game.inventory@)
            } else {
                Seq::<Equipment>::empty()
            },
    {
        let mut r: Vec<Equipment> = Vec::new();
        if !self.check_is_player() {
            return r;
        }
        let n = game.inventory.len();
        let mut i: usize = 0;
        while i < n
            invariant
                i <= n,
                n == game.inventory@.len(),
                r@ == equipped_list(game.inventory@.subrange(0, i as int)),
            decreases n - i,
        {
            let o = &game.inventory[i];
            if let Some(e) = o.equipment {
                if e.equipped {
                    r.push(e);
                }
            }
            proof {
                let pre = game.inventory@.subrange(0, i as int);
                let cur = game.inventory@.subrange(0, i as int + 1);
                assert(cur.drop_last() =~= pre);
                assert(cur.last() == game.inventory@[i as int]);
            }
            i = i + 1;
        }
        proof {
            assert(game.inventory@.subrange(0, game.inventory@.len() as int) =~= game.inventory@);
        }
        r
    }

    /// Effective power as executable code.
    pub fn power(&self, game: &Game) -> (p: i32)
        requires
            self.wf(),
            game.wf(),
        ensures
            p == self.spec_power(game.inventory@),
            -27_000_000 <= p <= 27_000_000,
    {
        let base: i32 = match self.fighter {
            Some(f) => f.base_power,
            None => 0,
        };
        let bonus: i32 = if self.check_is_player() {
            power_bonus(&game.inventory)
        } else {
            0
        };
        base + bonus
    }

    /// Effective defence as executable code.
    pub fn defence(&self, game: &Game) -> (p: i32)
        requires
            self.wf(),
            game.wf(),
        ensures
            p == self.spec_defence(game.inventory@),
            -27_000_000 <= p <= 27_000_000,
    {
        let base: i32 = match self.fighter {
            Some(f) => f.base_defence,
            None => 0,
        };
        let bonus: i32 = if self.check_is_player() {
            defence_bonus(&game.inventory)
        } else {
            0
        };
        base + bonus
    }

    /// Effective maximum hit points as executable code.
    pub fn max_hp(&self, game: &Game) -> (p: i32)
        requires
            self.wf(),
            game.wf(),
        ensures
            p == self.spec_max_hp(game.inventory@),
            0 <= p <= 27_000_000,
            self.fighter is Some ==> p >= 1,
    {
        proof {
            lemma_bonus_sums_bounded(game.inventory@);
        }
        let base: i32 = match self.fighter {
            Some(f) => f.base_max_hp,
            None => 0,
        };
        let bonus: i32 = if self.check_is_player() {
            max_hp_bonus(&game.inventory)
        } else {
            0
        };
        base + bonus
    }

    /// Restore up to `amount` hit points, never beyond the effective
    /// maximum (hit points already above it are clamped down to it).
    pub fn heal(&mut self, amount: i32, game: &Game)
        requires
            old(self).wf(),
            game.wf(),
            0 <= amount <= HP_LIMIT,
        ensures
            final(self).wf(),
            match old(self).fighter {
                None => *final(self) == *old(self),
                Some(f) => {
                    let max_hp = old(self).spec_max_hp(game.inventory@);
                    let hp2 = if f.hp + amount > max_hp {
                        max_hp
                    } else {
                        f.hp + amount
                    };
                    *final(self) == (Object {
                        fighter: Some(Fighter { hp: hp2 as i32, ..f }),
                        ..*old(self)
                    })
                },
            },
    {
        let max_hp = self.max_hp(game);
        proof {
            lemma_bonus_sums_bounded(game.inventory@);
        }
        if let Some(f) = self.fighter {
            let mut hp2 = f.hp + amount;
            if hp2 > max_hp {
                hp2 = max_hp;
            }
            self.fighter = Some(Fighter { hp: hp2, ..f });
        }
    }

    /// Swing at `target`: damage is the attacker's effective power
    /// minus the defender's effective defence; non-positive damage has
    /// no effect.  Experience from a kill is banked on the attacker.
    pub fn attack(&mut self, target: &mut Object, game: &mut Game)
        requires
            old(self).wf(),
            old(target).wf(),
            old(game).wf(),
            old(self).fighter is Some,
            old(target).fighter is Some ==> old(target).alive,
            old(self).fighter matches Some(af) ==> (old(target).fighter matches Some(tf)
                ==> af.xp + tf.xp <= i32::MAX),
        ensures
            final(self).wf(),
            final(target).wf(),
            final(game).wf(),
            final(game).map == old(game).map,
            final(game).inventory == old(game).inventory,
            final(game).dungeon_level == old(game).dungeon_level,
            final(game).log.extends(old(game).log),
            attack_rel(
                *old(self),
                *old(target),
                *final(self),
                *final(target),
                old(game).inventory@,
            ),
            ({
                let dmg = old(self).spec_power(old(game).inventory@) - old(target).spec_defence(
                    old(game).inventory@,
                );
                final(game).log.entries@.len() == old(game).log.entries@.len() + 1 + if dmg > 0
                    && spec_dies(*old(target), dmg) {
                    1int
                } else {
                    0int
                }
            }),
    {
        let damage = self.power(game) - target.defence(game);
        if damage > 0 {
            let text = self.name.clone().concat(" swings and hits ").concat(
                target.name.as_str(),
            ).concat(" for ").concat(crate::messages::i32_to_string(damage).as_str()).concat(
                " damage!",
            );
            game.log.add(text, Rgb::white());
            if let Some(xp) = target.take_damage(damage, &mut game.log) {
                if let Some(af) = self.fighter {
                    self.fighter = Some(Fighter { xp: af.xp + xp, ..af });
                }
            }
        } else {
            let text = self.name.clone().concat(" attacks the ").concat(
                target.name.as_str(),
            ).concat(" but it has no effect!");
            game.log.add(text, Rgb::white());
        }
    }
}

/// The equipped items of an inventory, in order.
pub open spec fn equipped_list(inv: Seq<Object>) -> Seq<Equipment>
    decreases inv.len(),
{
    if inv.len() == 0 {
        Seq::empty()
    } else {
        equipped_list(inv.drop_last()) + (match inv.last().equipment {
            Some(e) => if e.equipped {
                seq![e]
            } else {
                Seq::<Equipment>::empty()
            },
            None => Seq::<Equipment>::empty(),
        })
    }
}

fn power_bonus(inventory: &Vec<Object>) -> (b: i32)
    requires
        inv_wf(inventory@),
    ensures
        b == power_bonus_sum(inventory@),
        -26_000_000 <= b <= 26_000_000,
{
    let n = inventory.len();
    let mut total: i32 = 0;
    let mut i: usize = 0;
    while i < n
        invariant
            i <= n,
            n == inventory@.len(),
            inv_wf(inventory@),
            total == power_bonus_sum(inventory@.subrange(0, i as int)),
            -(i as int) * (STAT_LIMIT as int) <= total <= (i as int) * (STAT_LIMIT as int),
        decreases n - i,
    {
        let o = &inventory[i];
        let add_val: i32 = match o.equipment {
            Some(e) => if e.equipped {
                e.power_bonus
            } else {
                0
            },
            None => 0,
        };
        proof {
            let pre = inventory@.subrange(0, i as int);
            let cur = inventory@.subrange(0, i as int + 1);
            assert(cur.drop_last() =~= pre);
            assert(cur.last() == inventory@[i as int]);
        }
        total = total + add_val;
        i = i + 1;
    }
    proof {
        assert(inventory@.subrange(0, inventory@.len() as int) =~= inventory@);
    }
    total
}

fn defence_bonus(inventory: &Vec<Object>) -> (b: i32)
    requires
        inv_wf(inventory@),
    ensures
        b == defence_bonus_sum(inventory@),
        -26_000_000 <= b <= 26_000_000,
{
    let n = inventory.len();
    let mut total: i32 = 0;
    let mut i: usize = 0;
    while i < n
        invariant
            i <= n,
            n == inventory@.len(),
            inv_wf(inventory@),
            total == defence_bonus_sum(inventory@.subrange(0, i as int)),
            -(i as int) * (STAT_LIMIT as int) <= total <= (i as int) * (STAT_LIMIT as int),
        decreases n - i,
    {
        let o = &inventory[i];
        let add_val: i32 = match o.equipment {
            Some(e) => if e.equipped {
                e.defence_bonus
            } else {
                0
            },
            None => 0,
        };
        proof {
            let pre = inventory@.subrange(0, i as int);
            let cur = inventory@.subrange(0, i as int + 1);
            assert(cur.drop_last() =~= pre);
            assert(cur.last() == inventory@[i as int]);
        }
        total = total + add_val;
        i = i + 1;
    }
    proof {
        assert(inventory@.subrange(0, inventory@.len() as int) =~= inventory@);
    }
    total
}

fn max_hp_bonus(inventory: &Vec<Object>) -> (b: i32)
    requires
        inv_wf(inventory@),
    ensures
        b == max_hp_bonus_sum(inventory@),
        0 <= b <= 26_000_000,
{
    let n = inventory.len();
    let mut total: i32 = 0;
    let mut i: usize = 0;
    while i < n
        invariant
            i <= n,
            n == inventory@.len(),
            inv_wf(inventory@),
            total == max_hp_bonus_sum(inventory@.subrange(0, i as int)),
            0 <= total <= (i as int) * (STAT_LIMIT as int),
        decreases n - i,
    {
        let o = &inventory[i];
        let add_val: i32 = match o.equipment {
            Some(e) => if e.equipped {
                e.max_hp_bonus
            } else {
                0
            },
            None => 0,
        };
        proof {
            let pre = inventory@.subrange(0, i as int);
            let cur = inventory@.subrange(0, i as int + 1);
            assert(cur.drop_last() =~= pre);
            assert(cur.last() == inventory@[i as int]);
        }
        total = total + add_val;
        i = i + 1;
    }
    proof {
        assert(inventory@.subrange(0, inventory@.len() as int) =~= inventory@);
    }
    total
}

/// Whether (x, y) cannot be stepped on: outside the grid, a blocking
/// tile, or occupied by a blocking entity.
pub open spec fn spec_is_blocked(x: int, y: int, map: MapGrid, objects: Seq<Object>) -> bool {
    ||| !MapGrid::in_bounds(x, y)
    ||| map.at(x, y).blocked
    ||| exists|i: int|
        0 <= i < objects.len() && (#[trigger] objects[i]).blocks && objects[i].x == x
            && objects[i].y == y
}

pub fn is_blocked(x: i32, y: i32, map: &MapGrid, objects: &Vec<Object>) -> (b: bool)
    requires
        map.wf(),
    ensures
        b == spec_is_blocked(x as int, y as int, *map, objects@),
{
    if x < 0 || y < 0 || x >= MAP_WIDTH || y >= MAP_HEIGHT {
        return true;
    }
    if map.get(x, y).blocked {
        return true;
    }
    let n = objects.len();
    let mut i: usize = 0;
    while i < n
        invariant
            i <= n,
            n == objects@.len(),
            forall|j: int|
                0 <= j < i ==> !((#[trigger] objects@[j]).blocks && objects@[j].x == x
                    && objects@[j].y == y),
        decreases n - i,
    {
        let o = &objects[i];
        if o.blocks && o.x == x && o.y == y {
            return true;
        }
        i = i + 1;
    }
    false
}

} // verus!
