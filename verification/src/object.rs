use vstd::prelude::*;
use vstd::string::StringExecFns;
use crate::geom::{coord_ok, spec_dist_sq, dist_sq};
use crate::messages::{Messages, Rgb, i32_to_string};
use crate::tile::{MAP_WIDTH, MAP_HEIGHT};

verus! {

/// Index of the player in the entity collection, fixed for a session.
pub const PLAYER: usize = 0;

/// Base stats and equipment bonuses stay within this bound, so the
/// derived-stat sums over a full inventory fit an `i32`.
pub const STAT_LIMIT: i32 = 1_000_000;

/// Bound on hit points and on a single damage application.
pub const HP_LIMIT: i32 = 100_000_000;

/// Which terminal transformation runs when an entity dies.
#[derive(Clone, Copy, Debug, PartialEq, Eq, Structural)]
pub enum DeathCallback {
    Player,
    Monster,
}

/// Equipment slots; at most one equipped item may occupy each.
#[derive(Clone, Copy, Debug, PartialEq, Eq, Structural)]
pub enum Slot {
    LeftHand,
    RightHand,
    Head,
}

/// The effect an item has when used.
#[derive(Clone, Copy, Debug, PartialEq, Eq, Structural)]
pub enum Item {
    Heal,
    Lightning,
    Confuse,
    Fireball,
    Sword,
    Shield,
    Helmet,
}

/// Combat capability.
#[derive(Clone, Copy, Debug, PartialEq, Eq, Structural)]
pub struct Fighter {
    pub hp: i32,
    pub base_max_hp: i32,
    pub base_defence: i32,
    pub base_power: i32,
    pub xp: i32,
    pub on_death: DeathCallback,
}

/// Behaviour state.  `Confused` wraps the prior state so it can be
/// restored when the confusion expires; the game never nests it.
#[derive(Debug, PartialEq)]
pub enum Ai {
    Basic,
    Confused { previous_ai: Box<Ai>, num_turns: i32 },
}

/// Equip capability: a slot and the stat bonuses granted while equipped.
#[derive(Clone, Copy, Debug, PartialEq, Eq, Structural)]
pub struct Equipment {
    pub slot: Slot,
    pub equipped: bool,
    pub power_bonus: i32,
    pub defence_bonus: i32,
    pub max_hp_bonus: i32,
}

pub open spec fn fighter_wf(f: Fighter) -> bool {
    &&& 1 <= f.base_max_hp <= STAT_LIMIT
    &&& -STAT_LIMIT <= f.base_defence <= STAT_LIMIT
    &&& -STAT_LIMIT <= f.base_power <= STAT_LIMIT
    &&& 0 <= f.xp
    &&& -HP_LIMIT <= f.hp <= HP_LIMIT
}

pub open spec fn equipment_wf(e: Equipment) -> bool {
    &&& -STAT_LIMIT <= e.power_bonus <= STAT_LIMIT
    &&& -STAT_LIMIT <= e.defence_bonus <= STAT_LIMIT
    &&& 0 <= e.max_hp_bonus <= STAT_LIMIT
}

/// The fighter after one damage application (only positive damage
/// changes hit points).
pub open spec fn spec_after_damage(f: Fighter, damage: int) -> Fighter {
    if damage > 0 {
        Fighter { hp: (f.hp - damage) as i32, ..f }
    } else {
        f
    }
}

/// Whether one damage application kills the entity.
pub open spec fn spec_dies(pre: Object, damage: int) -> bool {
    pre.fighter matches Some(f) && spec_after_damage(f, damage).hp <= 0
}

/// The experience handed to the killer by one damage application.
pub open spec fn spec_damage_xp(pre: Object, damage: int) -> Option<i32> {
    match pre.fighter {
        None => None,
        Some(f) => if spec_after_damage(f, damage).hp <= 0 {
            Some(f.xp)
        } else {
            None
        },
    }
}

/// How one damage application transforms an entity: hit points drop,
/// and on death the terminal transformation for its policy runs.
pub open spec fn take_damage_rel(pre: Object, post: Object, damage: int) -> bool {
    match pre.fighter {
        None => post == pre,
        Some(f) => {
            let f2 = spec_after_damage(f, damage);
            if f2.hp <= 0 {
                &&& !post.alive
                &&& (f.on_death is Player ==> post == (Object {
                    alive: false,
                    glyph: '%',
                    color: (Rgb { r: 191, g: 0, b: 0 }),
                    fighter: Some(f2),
                    ..pre
                }))
                &&& (f.on_death is Monster ==> {
                    &&& post == (Object {
                        alive: false,
                        glyph: '%',
                        color: (Rgb { r: 191, g: 0, b: 0 }),
                        blocks: false,
                        fighter: None,
                        ai: None,
                        name: post.name,
                        ..pre
                    })
                    &&& post.name@ == "Remains of "@ + pre.name@
                })
            } else {
                post == (Object { fighter: Some(f2), ..pre })
            }
        },
    }
}

/// The damage transform for an entity whose death policy keeps its
/// combat stats (the player): with that policy, `take_damage_rel`
/// pins the outcome to exactly this value.
pub open spec fn spec_player_damaged(o: Object, damage: int) -> Object {
    match o.fighter {
        None => o,
        Some(f) => {
            let f2 = spec_after_damage(f, damage);
            if f2.hp <= 0 {
                Object {
                    alive: false,
                    glyph: '%',
                    color: (Rgb { r: 191, g: 0, b: 0 }),
                    fighter: Some(f2),
                    ..o
                }
            } else {
                Object { fighter: Some(f2), ..o }
            }
        },
    }
}

/// A game entity: player, monster, item on the floor, stairs.  The
/// capability slots are independent; any subset may be present.
#[derive(Debug)]
pub struct Object {
    pub name: String,
    pub x: i32,
    pub y: i32,
    pub glyph: char,
    pub color: Rgb,
    pub blocks: bool,
    pub always_visible: bool,
    pub alive: bool,
    pub fighter: Option<Fighter>,
    pub ai: Option<Ai>,
    pub item: Option<Item>,
    pub equipment: Option<Equipment>,
    pub level: i32,
}

impl Object {
    pub open spec fn wf(self) -> bool {
        &&& coord_ok(self.x as int)
        &&& coord_ok(self.y as int)
        &&& (self.fighter matches Some(f) ==> fighter_wf(f))
        &&& (self.equipment matches Some(e) ==> equipment_wf(e))
        &&& (self.alive ==> (self.fighter matches Some(f) ==> f.hp >= 1))
        &&& 1 <= self.level <= STAT_LIMIT
    }

    /// Equipment bonuses apply only to the entity named this way.
    pub open spec fn is_player(self) -> bool {
        self.name@ == "Player"@
    }

    pub fn new(name: &str, x: i32, y: i32, glyph: char, color: Rgb, blocks: bool) -> (o: Object)
        requires
            coord_ok(x as int),
            coord_ok(y as int),
        ensures
            o.name@ == name@,
            o.x == x,
            o.y == y,
            o.glyph == glyph,
            o.color == color,
            o.blocks == blocks,
            !o.always_visible,
            !o.alive,
            o.fighter is None,
            o.ai is None,
            o.item is None,
            o.equipment is None,
            o.level == 1,
            o.wf(),
    {
        Object {
            name: String::from_str(name),
            x,
            y,
            glyph,
            color,
            blocks,
            always_visible: false,
            alive: false,
            fighter: None,
            ai: None,
            item: None,
            equipment: None,
            level: 1,
        }
    }

    pub fn pos(&self) -> (p: (i32, i32))
        ensures
            p.0 == self.x,
            p.1 == self.y,
    {
        (self.x, self.y)
    }

    /// Move to (x, y), ignoring requests outside the map's bounding box.
    pub fn set_pos(&mut self, x: i32, y: i32)
        ensures
            if x < 0 || y < 0 || x > MAP_WIDTH || y > MAP_HEIGHT {
                *final(self) == *old(self)
            } else {
                *final(self) == (Object { x, y, ..*old(self) })
            },
    {
        if x < 0 || y < 0 || x > MAP_WIDTH || y > MAP_HEIGHT {
            return ;
        }
        self.x = x;
        self.y = y;
    }

    /// Squared distance to another entity.
    pub fn distance_sq_to(&self, other: &Object) -> (d: i64)
        requires
            self.wf(),
            other.wf(),
        ensures
            d == spec_dist_sq(self.x as int, self.y as int, other.x as int, other.y as int),
    {
        dist_sq(self.x, self.y, other.x, other.y)
    }

    /// Squared distance to a tile.
    pub fn distance_sq(&self, x: i32, y: i32) -> (d: i64)
        requires
            self.wf(),
            coord_ok(x as int),
            coord_ok(y as int),
        ensures
            d == spec_dist_sq(self.x as int, self.y as int, x as int, y as int),
    {
        dist_sq(self.x, self.y, x, y)
    }

    /// Apply `damage` (ignored unless positive).  If hit points fall to
    /// zero or below the entity dies: `alive` is cleared, the terminal
    /// transformation for its death policy runs, and the entity's
    /// banked experience is returned for the killer to collect.
    /// Damaging an already-dead fighter is a caller error, excluded by
    /// the precondition.
    pub fn take_damage(&mut self, damage: i32, log: &mut Messages) -> (xp: Option<i32>)
        requires
            old(self).wf(),
            -HP_LIMIT <= damage <= HP_LIMIT,
            old(self).fighter is Some ==> old(self).alive,
        ensures
            final(self).wf(),
            final(log).extends(*old(log)),
            take_damage_rel(*old(self), *final(self), damage as int),
            xp == spec_damage_xp(*old(self), damage as int),
            final(log).entries@.len() == old(log).entries@.len() + if spec_dies(
                *old(self),
                damage as int,
            ) {
                1int
            } else {
                0int
            },
    {
        if let Some(f) = self.fighter {
            if damage > 0 {
                self.fighter = Some(Fighter { hp: f.hp - damage, ..f });
            }
        }
        if let Some(f) = self.fighter {
            if f.hp <= 0 {
                self.alive = false;
                f.on_death.callback(self, log);
                return Some(f.xp);
            }
        }
        None
    }

    /// Mark the equipment as worn, logging the change; nothing happens
    /// if it is already worn, and a complaint is logged for entities
    /// that cannot be equipped.
    pub fn equip(&mut self, log: &mut Messages)
        ensures
            final(log).extends(*old(log)),
            if old(self).item is None {
                &&& *final(self) == *old(self)
                &&& final(log).entries@.len() == old(log).entries@.len() + 1
            } else {
                match old(self).equipment {
                    None => {
                        &&& *final(self) == *old(self)
                        &&& final(log).entries@.len() == old(log).entries@.len() + 1
                    },
                    Some(e) => {
                        if e.equipped {
                            &&& *final(self) == *old(self)
                            &&& *final(log) == *old(log)
                        } else {
                            &&& *final(self) == (Object {
                                equipment: Some(Equipment { equipped: true, ..e }),
                                ..*old(self)
                            })
                            &&& final(log).entries@.len() == old(log).entries@.len() + 1
                        }
                    },
                }
            },
    {
        if self.item.is_none() {
            let text = String::from_str("Can't equip ").concat(self.name.as_str()).concat(
                " as it is not an item.",
            );
            log.add(text, Rgb::red());
            return ;
        }
        if let Some(e) = self.equipment {
            if !e.equipped {
                self.equipment = Some(Equipment { equipped: true, ..e });
                let text = String::from_str("Equipped ").concat(self.name.as_str()).concat(
                    " on ",
                ).concat(slot_label(e.slot)).concat(".");
                log.add(text, Rgb::light_green());
            }
        } else {
            let text = String::from_str("Can't equip ").concat(self.name.as_str()).concat(
                " as it is not an equipment.",
            );
            log.add(text, Rgb::red());
        }
    }

    /// Take the equipment off, logging the change; nothing happens if
    /// it is not worn, and a complaint is logged for entities that
    /// cannot be equipped.
    pub fn unequip(&mut self, log: &mut Messages)
        ensures
            final(log).extends(*old(log)),
            if old(self).item is None {
                &&& *final(self) == *old(self)
                &&& final(log).entries@.len() == old(log).entries@.len() + 1
            } else {
                match old(self).equipment {
                    None => {
                        &&& *final(self) == *old(self)
                        &&& final(log).entries@.len() == old(log).entries@.len() + 1
                    },
                    Some(e) => {
                        if !e.equipped {
                            &&& *final(self) == *old(self)
                            &&& *final(log) == *old(log)
                        } else {
                            &&& *final(self) == (Object {
                                equipment: Some(Equipment { equipped: false, ..e }),
                                ..*old(self)
                            })
                            &&& final(log).entries@.len() == old(log).entries@.len() + 1
                        }
                    },
                }
            },
    {
        if self.item.is_none() {
            let text = String::from_str("Can't unequip ").concat(self.name.as_str()).concat(
                " as it's not an item",
            );
            log.add(text, Rgb::red());
            return ;
        }
        if let Some(e) = self.equipment {
            if e.equipped {
                self.equipment = Some(Equipment { equipped: false, ..e });
                let text = String::from_str("Unequipped ").concat(self.name.as_str()).concat(
                    " on ",
                ).concat(slot_label(e.slot)).concat(".");
                log.add(text, Rgb::light_yellow());
            }
        } else {
            let text = String::from_str("Can't unequip ").concat(self.name.as_str()).concat(
                " as it is not an equipment.",
            );
            log.add(text, Rgb::red());
        }
    }
}

impl DeathCallback {
    /// Run the terminal transformation this policy selects.
    pub fn callback(self, object: &mut Object, log: &mut Messages)
        requires
            self is Monster ==> (old(object).fighter matches Some(f) && f.xp >= 0),
        ensures
            final(log).extends(*old(log)),
            final(log).entries@.len() == old(log).entries@.len() + 1,
            self is Player ==> *final(object) == (Object {
                glyph: '%',
                color: (Rgb { r: 191, g: 0, b: 0 }),
                ..*old(object)
            }),
            self is Monster ==> {
                &&& *final(object) == (Object {
                    glyph: '%',
                    color: (Rgb { r: 191, g: 0, b: 0 }),
                    blocks: false,
                    fighter: None,
                    ai: None,
                    name: final(object).name,
                    ..*old(object)
                })
                &&& final(object).name@ == "Remains of "@ + old(object).name@
            },
    {
        match self {
            DeathCallback::Player => player_death(object, log),
            DeathCallback::Monster => monster_death(object, log),
        }
    }
}

/// Where an equipped item sits, for log messages.
pub fn slot_label(slot: Slot) -> (r: &'static str)
    ensures
        slot is LeftHand ==> r@ == "left hand"@,
        slot is RightHand ==> r@ == "right hand"@,
        slot is Head ==> r@ == "head"@,
{
    match slot {
        Slot::LeftHand => "left hand",
        Slot::RightHand => "right hand",
        Slot::Head => "head",
    }
}

/// Terminal transformation for the player: the corpse keeps its stats
/// and stays where it fell.
pub fn player_death(player: &mut Object, log: &mut Messages)
    ensures
        final(log).extends(*old(log)),
        final(log).entries@.len() == old(log).entries@.len() + 1,
        *final(player) == (Object {
            glyph: '%',
            color: (Rgb { r: 191, g: 0, b: 0 }),
            ..*old(player)
        }),
{
    log.add(String::from_str("You die!"), Rgb::red());
    player.glyph = '%';
    player.color = Rgb::dark_red();
}

/// Terminal transformation for a monster: it becomes a harmless,
/// walkable corpse with no combat or behaviour capabilities.
pub fn monster_death(monster: &mut Object, log: &mut Messages)
    requires
        old(monster).fighter matches Some(f) && f.xp >= 0,
    ensures
        final(log).extends(*old(log)),
        final(log).entries@.len() == old(log).entries@.len() + 1,
        *final(monster) == (Object {
            glyph: '%',
            color: (Rgb { r: 191, g: 0, b: 0 }),
            blocks: false,
            fighter: None,
            ai: None,
            name: final(monster).name,
            ..*old(monster)
        }),
        final(monster).name@ == "Remains of "@ + old(monster).name@,
{
    let f_xp: i32 = match monster.fighter {
        Some(f) => f.xp,
        None => 0,
    };
    let xp_text = i32_to_string(f_xp);
    let text = monster.name.clone().concat(" dies! You gain ").concat(xp_text.as_str()).concat(
        " XP.",
    );
    log.add(text, Rgb::orange());
    monster.glyph = '%';
    monster.color = Rgb::dark_red();
    monster.blocks = false;
    monster.fighter = None;
    monster.ai = None;
    let new_name = String::from_str("Remains of ").concat(monster.name.as_str());
    monster.name = new_name;
}

} // verus!
