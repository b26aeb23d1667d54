use vstd::prelude::*;
use crate::game::{is_blocked, xp_of, total_xp, lemma_total_xp_push};
use crate::geom::Rect;
use crate::messages::Rgb;
use crate::object::{Object, Fighter, Ai, DeathCallback, Item, Equipment, Slot};
use crate::rng::GameRng;
use crate::tile::{Tile, MapGrid, MAP_WIDTH, MAP_HEIGHT};

verus! {

/// What map generation may append to the entity collection: sound
/// items (no combat data) and live monsters with modest experience.
pub open spec fn spawned_ok(o: Object) -> bool {
    &&& o.wf()
    &&& (o.fighter is Some ==> (o.ai is Some && o.alive && o.blocks))
    &&& (o.ai is Some ==> o.fighter is Some)
    &&& (o.fighter matches Some(f) ==> f.on_death is Monster)
    &&& (o.ai matches Some(a) ==> a == Ai::Basic)
    &&& (o.item is Some ==> o.fighter is None && o.ai is None)
    &&& (o.item is Some ==> (o.equipment matches Some(e) ==> !e.equipped))
    &&& xp_of(o) <= 100
}

/// A room fully inside the grid, with side lengths the generator uses.
pub open spec fn room_placed(r: Rect) -> bool {
    &&& 0 <= r.x1
    &&& r.x2 < MAP_WIDTH
    &&& 0 <= r.y1
    &&& r.y2 < MAP_HEIGHT
    &&& 6 <= r.x2 - r.x1 <= 10
    &&& 6 <= r.y2 - r.y1 <= 10
}

pub const ROOM_MAX_SIZE: i32 = 10;

pub const ROOM_MIN_SIZE: i32 = 6;

pub const MAX_ROOMS: i32 = 30;

/// Map generation failed outright: no room could be placed.
#[derive(Clone, Copy, Debug, PartialEq, Eq, Structural)]
pub enum GenerationError {
    NoRoomAccepted,
}

/// One step of a depth-scaling table: from `level` on, the table
/// yields `value` (unless a later entry supersedes it).
#[derive(Clone, Copy, Debug, PartialEq, Eq, Structural)]
pub struct Transition {
    pub level: u32,
    pub value: u32,
}

/// The value of the last entry whose `level` threshold has been
/// reached, or 0 below every threshold.
pub open spec fn spec_from_dungeon_level(table: Seq<Transition>, level: u32) -> u32
    decreases table.len(),
{
    if table.len() == 0 {
        0
    } else if level >= table.last().level {
        table.last().value
    } else {
        spec_from_dungeon_level(table.drop_last(), level)
    }
}

pub fn from_dungeon_level(table: &Vec<Transition>, level: u32) -> (r: u32)
    ensures
        r == spec_from_dungeon_level(table@, level),
        r == 0 || exists|i: int| 0 <= i < table@.len() && r == (#[trigger] table@[i]).value,
{
    proof {
        assert(table@.subrange(0, table@.len() as int) =~= table@);
        lemma_from_dungeon_level_value(table@, level);
    }
    let mut i: usize = table.len();
    while i > 0
        invariant
            i <= table@.len(),
            spec_from_dungeon_level(table@.subrange(0, i as int), level)
                == spec_from_dungeon_level(table@, level),
        decreases i,
    {
        i = i - 1;
        let t = table[i];
        proof {
            let cur = table@.subrange(0, i as int + 1);
            assert(cur.last() == table@[i as int]);
            assert(cur.drop_last() =~= table@.subrange(0, i as int));
        }
        if level >= t.level {
            return t.value;
        }
    }
    proof {
        assert(table@.subrange(0, 0) =~= Seq::<Transition>::empty());
    }
    0
}

/// The result is always 0 or a value drawn from the table.
pub proof fn lemma_from_dungeon_level_value(table: Seq<Transition>, level: u32)
    ensures
        spec_from_dungeon_level(table, level) == 0 || exists|i: int|
            0 <= i < table.len() && spec_from_dungeon_level(table, level) == (
            #[trigger] table[i]).value,
    decreases table.len(),
{
    if table.len() > 0 && level < table.last().level {
        lemma_from_dungeon_level_value(table.drop_last(), level);
        let r = spec_from_dungeon_level(table, level);
        if r != 0 {
            let i = choose|i: int|
                0 <= i < table.drop_last().len() && r == (#[trigger] table.drop_last()[i]).value;
            assert(table[i].value == r);
        }
    }
}

/// Below every threshold of the table, the result is 0.
pub proof fn lemma_from_dungeon_level_below(table: Seq<Transition>, level: u32)
    requires
        forall|i: int| 0 <= i < table.len() ==> level < (#[trigger] table[i]).level,
    ensures
        spec_from_dungeon_level(table, level) == 0,
    decreases table.len(),
{
    if table.len() > 0 {
        lemma_from_dungeon_level_below(table.drop_last(), level);
    }
}

/// The step-function shape: where entry `i` is reached and every later
/// entry is not, the table yields exactly `table[i].value`.  On a table
/// sorted by ascending threshold, that `i` is the highest threshold at
/// or below `level`.
pub proof fn lemma_from_dungeon_level_step(table: Seq<Transition>, level: u32, i: int)
    requires
        0 <= i < table.len(),
        table[i].level <= level,
        forall|k: int| i < k < table.len() ==> level < (#[trigger] table[k]).level,
    ensures
        spec_from_dungeon_level(table, level) == table[i].value,
    decreases table.len(),
{
    if i == table.len() - 1 {
    } else {
        assert(level < table[table.len() - 1].level);
        assert(table.drop_last()[i] == table[i]);
        lemma_from_dungeon_level_step(table.drop_last(), level, i);
    }
}

/// Sum of the first `n` weights.
pub open spec fn weights_prefix_sum(ws: Seq<u32>, n: int) -> int
    decreases n,
{
    if n <= 0 {
        0
    } else {
        weights_prefix_sum(ws, n - 1) + ws[n - 1]
    }
}

/// Draw an index with probability proportional to its weight; an index
/// with zero weight is never drawn.
pub fn weighted_pick(rng: &mut GameRng, weights: &Vec<u32>) -> (idx: usize)
    requires
        weights_prefix_sum(weights@, weights@.len() as int) > 0,
        weights_prefix_sum(weights@, weights@.len() as int) <= u32::MAX,
        forall|n: int|
            0 <= n <= weights@.len() ==> #[trigger] weights_prefix_sum(weights@, n) >= 0,
    ensures
        idx < weights@.len(),
        weights@[idx as int] > 0,
{
    let n = weights.len();
    let mut total: u32 = 0;
    let mut i: usize = 0;
    while i < n
        invariant
            i <= n,
            n == weights@.len(),
            total == weights_prefix_sum(weights@, i as int),
            forall|k: int|
                0 <= k <= weights@.len() ==> #[trigger] weights_prefix_sum(weights@, k) >= 0,
            weights_prefix_sum(weights@, weights@.len() as int) <= u32::MAX,
        decreases n - i,
    {
        proof {
            lemma_weights_prefix_sum_mono(weights@, i as int + 1, n as int);
        }
        total = total + weights[i];
        i = i + 1;
    }
    let draw = rng.range_u32(0, total);
    let mut acc: u32 = 0;
    let mut j: usize = 0;
    while j < n
        invariant
            j <= n,
            n == weights@.len(),
            acc == weights_prefix_sum(weights@, j as int),
            draw >= acc,
            draw < weights_prefix_sum(weights@, n as int),
            weights_prefix_sum(weights@, n as int) <= u32::MAX,
            forall|k: int|
                0 <= k <= weights@.len() ==> #[trigger] weights_prefix_sum(weights@, k) >= 0,
        decreases n - j,
    {
        let w = weights[j];
        proof {
            lemma_weights_prefix_sum_mono(weights@, j as int + 1, n as int);
        }
        if draw < acc + w {
            return j;
        }
        acc = acc + w;
        j = j + 1;
    }
    proof {
        assert(false);
    }
    unreached()
}

proof fn lemma_weights_prefix_sum_mono(ws: Seq<u32>, a: int, b: int)
    requires
        0 <= a <= b <= ws.len(),
    ensures
        weights_prefix_sum(ws, a) <= weights_prefix_sum(ws, b),
    decreases b - a,
{
    if a < b {
        lemma_weights_prefix_sum_mono(ws, a, b - 1);
    }
}

proof fn lemma_weights_prefix_sum_nonneg(ws: Seq<u32>)
    ensures
        forall|n: int| 0 <= n <= ws.len() ==> #[trigger] weights_prefix_sum(ws, n) >= 0,
{
    assert forall|n: int| 0 <= n <= ws.len() implies #[trigger] weights_prefix_sum(ws, n)
        >= 0 by {
        lemma_weights_prefix_sum_mono(ws, 0, n);
    }
}

proof fn lemma_weights_prefix_sum_upper(ws: Seq<u32>, w: int, n: int)
    requires
        forall|i: int| 0 <= i < ws.len() ==> (#[trigger] ws[i]) <= w,
        0 <= n <= ws.len(),
    ensures
        weights_prefix_sum(ws, n) <= n * w,
    decreases n,
{
    if n > 0 {
        lemma_weights_prefix_sum_upper(ws, w, n - 1);
        assert(ws[n - 1] <= w);
        assert(weights_prefix_sum(ws, n) == weights_prefix_sum(ws, n - 1) + ws[n - 1]);
        assert((n - 1) * w + w == n * w) by (nonlinear_arith);
    } else {
        assert(n * w == 0) by (nonlinear_arith)
            requires
                n == 0,
        ;
    }
}

/// Carving only ever opens tiles: what was walkable stays walkable.
pub open spec fn monotone_carve(pre: MapGrid, post: MapGrid) -> bool {
    forall|x: int, y: int|
        MapGrid::in_bounds(x, y) && !(#[trigger] pre.at(x, y)).blocked ==> !(#[trigger] post.at(
            x,
            y,
        )).blocked
}

/// Carve a horizontal corridor covering both endpoints.
pub fn create_h_tunnel(x1: i32, x2: i32, y: i32, map: &mut MapGrid)
    requires
        old(map).wf(),
        0 <= x1 < MAP_WIDTH,
        0 <= x2 < MAP_WIDTH,
        0 <= y < MAP_HEIGHT,
    ensures
        final(map).wf(),
        monotone_carve(*old(map), *final(map)),
        forall|x: int|
            (if x1 <= x2 {
                x1 as int
            } else {
                x2 as int
            }) <= x <= (if x1 <= x2 {
                x2 as int
            } else {
                x1 as int
            }) ==> !(#[trigger] final(map).at(x, y as int)).blocked,
{
    let lo: i32 = if x1 <= x2 {
        x1
    } else {
        x2
    };
    let hi: i32 = if x1 <= x2 {
        x2
    } else {
        x1
    };
    let mut x: i32 = lo;
    while x < hi + 1
        invariant
            lo <= x <= hi + 1,
            0 <= lo <= hi < MAP_WIDTH,
            0 <= y < MAP_HEIGHT,
            map.wf(),
            monotone_carve(*old(map), *map),
            forall|k: int| lo <= k < x ==> !(#[trigger] map.at(k, y as int)).blocked,
        decreases hi + 1 - x,
    {
        map.set(x, y, Tile::empty());
        x = x + 1;
    }
}

/// Carve a vertical corridor covering both endpoints.
pub fn create_v_tunnel(x: i32, y1: i32, y2: i32, map: &mut MapGrid)
    requires
        old(map).wf(),
        0 <= x < MAP_WIDTH,
        0 <= y1 < MAP_HEIGHT,
        0 <= y2 < MAP_HEIGHT,
    ensures
        final(map).wf(),
        monotone_carve(*old(map), *final(map)),
        forall|y: int|
            (if y1 <= y2 {
                y1 as int
            } else {
                y2 as int
            }) <= y <= (if y1 <= y2 {
                y2 as int
            } else {
                y1 as int
            }) ==> !(#[trigger] final(map).at(x as int, y)).blocked,
{
    let lo: i32 = if y1 <= y2 {
        y1
    } else {
        y2
    };
    let hi: i32 = if y1 <= y2 {
        y2
    } else {
        y1
    };
    let mut y: i32 = lo;
    while y < hi + 1
        invariant
            lo <= y <= hi + 1,
            0 <= lo <= hi < MAP_HEIGHT,
            0 <= x < MAP_WIDTH,
            map.wf(),
            monotone_carve(*old(map), *map),
            forall|k: int| lo <= k < y ==> !(#[trigger] map.at(x as int, k)).blocked,
        decreases hi + 1 - y,
    {
        map.set(x, y, Tile::empty());
        y = y + 1;
    }
}


/// The entity at index `i` stands strictly inside the room, on a tile
/// the map does not block, that no earlier blocking entity occupies.
pub open spec fn spawn_tile_ok(objs: Seq<Object>, i: int, room: Rect, map: MapGrid) -> bool {
    let o = objs[i];
    &&& room.x1 < o.x < room.x2
    &&& room.y1 < o.y < room.y2
    &&& !map.at(o.x as int, o.y as int).blocked
    &&& forall|j: int|
        0 <= j < i ==> ((#[trigger] objs[j]).blocks ==> !(objs[j].x == o.x && objs[j].y == o.y))
}

/// Entities among the first `n` that carry an item capability.
pub open spec fn items_spawned(objs: Seq<Object>, n: int) -> int
    decreases n,
{
    if n <= 0 {
        0
    } else {
        items_spawned(objs, n - 1) + if objs[n - 1].item is Some {
            1int
        } else {
            0
        }
    }
}

/// Entities among the first `n` that carry combat stats.
pub open spec fn monsters_spawned(objs: Seq<Object>, n: int) -> int
    decreases n,
{
    if n <= 0 {
        0
    } else {
        monsters_spawned(objs, n - 1) + if objs[n - 1].fighter is Some {
            1int
        } else {
            0
        }
    }
}

proof fn lemma_spawn_counts_prefix(a: Seq<Object>, b: Seq<Object>, n: int)
    requires
        0 <= n <= a.len(),
        n <= b.len(),
        forall|j: int| 0 <= j < n ==> (#[trigger] a[j]) == b[j],
    ensures
        items_spawned(a, n) == items_spawned(b, n),
        monsters_spawned(a, n) == monsters_spawned(b, n),
    decreases n,
{
    if n > 0 {
        lemma_spawn_counts_prefix(a, b, n - 1);
    }
}

/// Populate one room: a few items on walkable tiles and, outside the
/// first room, a few monsters whose mix hardens with depth.  Spawn
/// tiles are sampled strictly inside the room and rejected when
/// blocked; appended counts stay within the depth-scaled maxima.
#[verifier::loop_isolation(false)]
pub fn place_objects(
    room: Rect,
    objects: &mut Vec<Object>,
    map: &MapGrid,
    first_room: bool,
    level: u32,
    rng: &mut GameRng,
)
    requires
        map.wf(),
        room_placed(room),
    ensures
        old(objects)@.is_prefix_of(final(objects)@),
        forall|i: int|
            old(objects)@.len() <= i < final(objects)@.len() ==> spawned_ok(
                #[trigger] final(objects)@[i],
            ),
        first_room ==> forall|i: int|
            old(objects)@.len() <= i < final(objects)@.len()
                ==> (#[trigger] final(objects)@[i]).fighter is None
                && final(objects)@[i].ai is None,
        total_xp(final(objects)@) <= total_xp(old(objects)@) + 500,
        forall|i: int|
            old(objects)@.len() <= i < final(objects)@.len() ==> #[trigger] spawn_tile_ok(
                final(objects)@,
                i,
                room,
                *map,
            ),
        ({
            let appended = final(objects)@.subrange(
                old(objects)@.len() as int,
                final(objects)@.len() as int,
            );
            &&& items_spawned(appended, appended.len() as int) <= spec_from_dungeon_level(
                seq![(Transition { level: 1, value: 1 }), (Transition { level: 4, value: 2 })],
                level,
            ) as int
            &&& monsters_spawned(appended, appended.len() as int) <= spec_from_dungeon_level(
                seq![
                    (Transition { level: 1, value: 2 }),
                    (Transition { level: 4, value: 3 }),
                    (Transition { level: 6, value: 5 }),
                ],
                level,
            ) as int
        }),
{
    let ghost base_len = objects@.len();
    let ghost base_total = total_xp(objects@);
    let ghost mut items_count: int = 0;
    let ghost mut monsters_count: int = 0;

    let mut t_lightning: Vec<Transition> = Vec::new();
    t_lightning.push(Transition { level: 4, value: 25 });
    let mut t_fireball: Vec<Transition> = Vec::new();
    t_fireball.push(Transition { level: 6, value: 25 });
    let mut t_confuse: Vec<Transition> = Vec::new();
    t_confuse.push(Transition { level: 2, value: 10 });
    let mut t_sword: Vec<Transition> = Vec::new();
    t_sword.push(Transition { level: 4, value: 5 });
    let mut t_shield: Vec<Transition> = Vec::new();
    t_shield.push(Transition { level: 8, value: 15 });
    let mut t_helmet: Vec<Transition> = Vec::new();
    t_helmet.push(Transition { level: 5, value: 20 });

    let mut item_weights: Vec<u32> = Vec::new();
    item_weights.push(35);
    item_weights.push(from_dungeon_level(&t_lightning, level));
    item_weights.push(from_dungeon_level(&t_fireball, level));
    item_weights.push(from_dungeon_level(&t_confuse, level));
    item_weights.push(from_dungeon_level(&t_sword, level));
    item_weights.push(from_dungeon_level(&t_shield, level));
    item_weights.push(from_dungeon_level(&t_helmet, level));
    proof {
        lemma_weights_prefix_sum_nonneg(item_weights@);
        assert(weights_prefix_sum(item_weights@, 0) == 0);
        assert(weights_prefix_sum(item_weights@, 1) == 35);
        lemma_weights_prefix_sum_mono(item_weights@, 1, 7);
        lemma_weights_prefix_sum_upper(item_weights@, 35, 7);
    }

    let mut t_max_items: Vec<Transition> = Vec::new();
    t_max_items.push(Transition { level: 1, value: 1 });
    t_max_items.push(Transition { level: 4, value: 2 });
    let max_items = from_dungeon_level(&t_max_items, level);
    proof {
        assert(t_max_items@ =~= seq![
            (Transition { level: 1, value: 1 }),
            (Transition { level: 4, value: 2 }),
        ]);
    }
    let num_items = rng.range_u32(0, max_items + 1);

    let mut k: u32 = 0;
    while k < num_items
        invariant
            k <= num_items,
            old(objects)@.is_prefix_of(objects@),
            forall|i: int|
                base_len <= i < objects@.len() ==> spawned_ok(#[trigger] objects@[i])
                    && objects@[i].fighter is None && objects@[i].ai is None,
            total_xp(objects@) == base_total,
            objects@.len() >= base_len,
            forall|i: int|
                base_len <= i < objects@.len() ==> #[trigger] spawn_tile_ok(
                    objects@,
                    i,
                    room,
                    *map,
                ),
            items_count == items_spawned(
                objects@.subrange(base_len as int, objects@.len() as int),
                objects@.len() - base_len,
            ),
            monsters_count == monsters_spawned(
                objects@.subrange(base_len as int, objects@.len() as int),
                objects@.len() - base_len,
            ),
            0 <= items_count <= k,
            monsters_count == 0,
        decreases num_items - k,
    {
        let x = rng.range_i32(room.x1 + 1, room.x2);
        let y = rng.range_i32(room.y1 + 1, room.y2);
        if !is_blocked(x, y, map, objects) {
            let pick = weighted_pick(rng, &item_weights);
            let item_obj: Object = if pick == 0 {
                let mut o = Object::new("healing potion", x, y, '!', Rgb::violet(), false);
                o.item = Some(Item::Heal);
                o
            } else if pick == 1 {
                let mut o = Object::new("scroll of lightning", x, y, '#', Rgb::light_yellow(), false);
                o.item = Some(Item::Lightning);
                o
            } else if pick == 2 {
                let mut o = Object::new("scroll of fireball", x, y, '#', Rgb::light_yellow(), false);
                o.item = Some(Item::Fireball);
                o
            } else if pick == 3 {
                let mut o = Object::new("scroll of confusion", x, y, '&', Rgb::light_yellow(), false);
                o.item = Some(Item::Confuse);
                o
            } else if pick == 4 {
                let mut o = Object::new("sword", x, y, '/', Rgb::sky(), false);
                o.item = Some(Item::Sword);
                o.equipment = Some(
                    Equipment {
                        equipped: false,
                        power_bonus: 3,
                        defence_bonus: 0,
                        max_hp_bonus: 1,
                        slot: Slot::RightHand,
                    },
                );
                o
            } else if pick == 5 {
                let mut o = Object::new("shield", x, y, '*', Rgb::darker_orange(), false);
                o.item = Some(Item::Shield);
                o.equipment = Some(
                    Equipment {
                        equipped: false,
                        power_bonus: 0,
                        defence_bonus: 1,
                        max_hp_bonus: 1,
                        slot: Slot::LeftHand,
                    },
                );
                o
            } else {
                let mut o = Object::new("helmet", x, y, '^', Rgb::darker_orange(), false);
                o.item = Some(Item::Helmet);
                o.equipment = Some(
                    Equipment {
                        equipped: false,
                        power_bonus: 0,
                        defence_bonus: 0,
                        max_hp_bonus: 100,
                        slot: Slot::Head,
                    },
                );
                o
            };
            let ghost snap = objects@;
            proof {
                lemma_total_xp_push(objects@, item_obj);
            }
            objects.push(item_obj);
            proof {
                let s1 = snap.subrange(base_len as int, snap.len() as int);
                let s2 = objects@.subrange(base_len as int, objects@.len() as int);
                assert(s2.drop_last() =~= s1);
                assert(s2.last() == item_obj);
                lemma_spawn_counts_prefix(s2, s1, s1.len() as int);
                items_count = items_count + 1;
                assert(spawn_tile_ok(objects@, objects@.len() - 1, room, *map));
                assert forall|i: int|
                    base_len <= i < objects@.len() - 1 implies #[trigger] spawn_tile_ok(
                    objects@,
                    i,
                    room,
                    *map,
                ) by {
                    assert(spawn_tile_ok(snap, i, room, *map));
                    assert(objects@[i] == snap[i]);
                    assert forall|j: int|
                        0 <= j < i implies ((#[trigger] objects@[j]).blocks ==> !(objects@[j].x
                        == objects@[i].x && objects@[j].y == objects@[i].y)) by {
                        assert(objects@[j] == snap[j]);
                    }
                }
            }
        }
        k = k + 1;
    }

    proof {
        assert(spec_from_dungeon_level(
            seq![
                (Transition { level: 1, value: 2 }),
                (Transition { level: 4, value: 3 }),
                (Transition { level: 6, value: 5 }),
            ],
            level,
        ) >= 0);
    }
    if first_room {
        return ;
    }

    let mut t_troll: Vec<Transition> = Vec::new();
    t_troll.push(Transition { level: 3, value: 15 });
    t_troll.push(Transition { level: 5, value: 30 });
    t_troll.push(Transition { level: 7, value: 60 });
    let troll_chance = from_dungeon_level(&t_troll, level);

    let mut monster_weights: Vec<u32> = Vec::new();
    monster_weights.push(80);
    monster_weights.push(troll_chance);
    proof {
        lemma_weights_prefix_sum_nonneg(monster_weights@);
        assert(weights_prefix_sum(monster_weights@, 0) == 0);
        assert(weights_prefix_sum(monster_weights@, 1) == 80);
        lemma_weights_prefix_sum_mono(monster_weights@, 1, 2);
        lemma_weights_prefix_sum_upper(monster_weights@, 80, 2);
    }

    let mut t_max_monsters: Vec<Transition> = Vec::new();
    t_max_monsters.push(Transition { level: 1, value: 2 });
    t_max_monsters.push(Transition { level: 4, value: 3 });
    t_max_monsters.push(Transition { level: 6, value: 5 });
    let max_monsters = from_dungeon_level(&t_max_monsters, level);
    proof {
        assert(t_max_monsters@ =~= seq![
            (Transition { level: 1, value: 2 }),
            (Transition { level: 4, value: 3 }),
            (Transition { level: 6, value: 5 }),
        ]);
    }
    let num_monsters = rng.range_u32(0, max_monsters + 1);

    let mut m: u32 = 0;
    while m < num_monsters
        invariant
            m <= num_monsters,
            old(objects)@.is_prefix_of(objects@),
            forall|i: int|
                base_len <= i < objects@.len() ==> spawned_ok(#[trigger] objects@[i]),
            total_xp(objects@) <= base_total + 100 * (m as int),
            objects@.len() >= base_len,
            forall|i: int|
                base_len <= i < objects@.len() ==> #[trigger] spawn_tile_ok(
                    objects@,
                    i,
                    room,
                    *map,
                ),
            items_count == items_spawned(
                objects@.subrange(base_len as int, objects@.len() as int),
                objects@.len() - base_len,
            ),
            monsters_count == monsters_spawned(
                objects@.subrange(base_len as int, objects@.len() as int),
                objects@.len() - base_len,
            ),
            0 <= items_count <= max_items,
            0 <= monsters_count <= m,
        decreases num_monsters - m,
    {
        let x = rng.range_i32(room.x1 + 1, room.x2);
        let y = rng.range_i32(room.y1 + 1, room.y2);
        if !is_blocked(x, y, map, objects) {
            let pick = weighted_pick(rng, &monster_weights);
            let mut monster: Object = if pick == 0 {
                let mut orc = Object::new("Orc", x, y, '0', Rgb::light_green(), true);
                orc.fighter = Some(
                    Fighter {
                        hp: 20,
                        base_max_hp: 20,
                        base_defence: 0,
                        base_power: 4,
                        xp: 35,
                        on_death: DeathCallback::Monster,
                    },
                );
                orc.ai = Some(Ai::Basic);
                orc
            } else {
                let mut troll = Object::new("Troll", x, y, 'T', Rgb::red(), true);
                troll.fighter = Some(
                    Fighter {
                        hp: 30,
                        base_max_hp: 30,
                        base_defence: 2,
                        base_power: 8,
                        xp: 100,
                        on_death: DeathCallback::Monster,
                    },
                );
                troll.ai = Some(Ai::Basic);
                troll
            };
            monster.alive = true;
            let ghost snap = objects@;
            proof {
                lemma_total_xp_push(objects@, monster);
            }
            objects.push(monster);
            proof {
                let s1 = snap.subrange(base_len as int, snap.len() as int);
                let s2 = objects@.subrange(base_len as int, objects@.len() as int);
                assert(s2.drop_last() =~= s1);
                assert(s2.last() == monster);
                lemma_spawn_counts_prefix(s2, s1, s1.len() as int);
                monsters_count = monsters_count + 1;
                assert(spawn_tile_ok(objects@, objects@.len() - 1, room, *map));
                assert forall|i: int|
                    base_len <= i < objects@.len() - 1 implies #[trigger] spawn_tile_ok(
                    objects@,
                    i,
                    room,
                    *map,
                ) by {
                    assert(spawn_tile_ok(snap, i, room, *map));
                    assert(objects@[i] == snap[i]);
                    assert forall|j: int|
                        0 <= j < i implies ((#[trigger] objects@[j]).blocks ==> !(objects@[j].x
                        == objects@[i].x && objects@[j].y == objects@[i].y)) by {
                        assert(objects@[j] == snap[j]);
                    }
                }
            }
        }
        m = m + 1;
    }
}

/// Carve one room: a walkable interior with scattered bushes, randomly
/// breached walls to soften the rectangle, then its population.
#[verifier::loop_isolation(false)]
pub fn create_room(
    room: Rect,
    map: &mut MapGrid,
    objects: &mut Vec<Object>,
    first_room: bool,
    level: u32,
    rng: &mut GameRng,
)
    requires
        old(map).wf(),
        room_placed(room),
    ensures
        final(map).wf(),
        monotone_carve(*old(map), *final(map)),
        forall|x: int, y: int|
            room.x1 < x < room.x2 && room.y1 < y < room.y2 ==> !(#[trigger] final(map).at(
                x,
                y,
            )).blocked,
        old(objects)@.is_prefix_of(final(objects)@),
        forall|i: int|
            old(objects)@.len() <= i < final(objects)@.len() ==> spawned_ok(
                #[trigger] final(objects)@[i],
            ),
        first_room ==> forall|i: int|
            old(objects)@.len() <= i < final(objects)@.len()
                ==> (#[trigger] final(objects)@[i]).fighter is None
                && final(objects)@[i].ai is None,
        total_xp(final(objects)@) <= total_xp(old(objects)@) + 500,
{
    let mut tile_weights: Vec<u32> = Vec::new();
    tile_weights.push(10);
    tile_weights.push(90);
    proof {
        lemma_weights_prefix_sum_nonneg(tile_weights@);
        assert(weights_prefix_sum(tile_weights@, 0) == 0);
        assert(weights_prefix_sum(tile_weights@, 1) == 10);
        assert(weights_prefix_sum(tile_weights@, 2) == 100);
    }

    let mut x: i32 = room.x1 + 1;
    while x < room.x2
        invariant
            room.x1 + 1 <= x <= room.x2,
            map.wf(),
            monotone_carve(*old(map), *map),
            forall|i: int, j: int|
                room.x1 < i < x && room.y1 < j < room.y2 ==> !(#[trigger] map.at(i, j)).blocked,
        decreases room.x2 - x,
    {
        let mut y: i32 = room.y1 + 1;
        while y < room.y2
            invariant
                room.y1 + 1 <= y <= room.y2,
                room.x1 + 1 <= x < room.x2,
                map.wf(),
                monotone_carve(*old(map), *map),
                forall|i: int, j: int|
                    room.x1 < i < x && room.y1 < j < room.y2 ==> !(#[trigger] map.at(i, j)).blocked,
                forall|j: int| room.y1 < j < y ==> !(#[trigger] map.at(x as int, j)).blocked,
            decreases room.y2 - y,
        {
            let pick = weighted_pick(rng, &tile_weights);
            let t = if pick == 0 {
                Tile::bushes()
            } else {
                Tile::empty()
            };
            map.set(x, y, t);
            y = y + 1;
        }
        x = x + 1;
    }

    let mut burrow_weights: Vec<u32> = Vec::new();
    burrow_weights.push(60);
    burrow_weights.push(40);
    proof {
        lemma_weights_prefix_sum_nonneg(burrow_weights@);
        assert(weights_prefix_sum(burrow_weights@, 0) == 0);
        assert(weights_prefix_sum(burrow_weights@, 1) == 60);
        assert(weights_prefix_sum(burrow_weights@, 2) == 100);
    }

    let mut wx: i32 = room.x1 + 1;
    while wx < room.x2 - 1
        invariant
            room.x1 + 1 <= wx <= room.x2,
            map.wf(),
            monotone_carve(*old(map), *map),
            forall|i: int, j: int|
                room.x1 < i < room.x2 && room.y1 < j < room.y2 ==> !(#[trigger] map.at(
                    i,
                    j,
                )).blocked,
        decreases room.x2 - 1 - wx,
    {
        if !(wx <= 0 || wx >= MAP_WIDTH) {
            if weighted_pick(rng, &burrow_weights) == 1 {
                map.set(wx, room.y1, Tile::empty());
            }
            if weighted_pick(rng, &burrow_weights) == 1 {
                map.set(wx, room.y2, Tile::empty());
            }
        }
        wx = wx + 1;
    }
    let mut wy: i32 = room.y1 + 1;
    while wy < room.y2 - 1
        invariant
            room.y1 + 1 <= wy <= room.y2,
            map.wf(),
            monotone_carve(*old(map), *map),
            forall|i: int, j: int|
                room.x1 < i < room.x2 && room.y1 < j < room.y2 ==> !(#[trigger] map.at(
                    i,
                    j,
                )).blocked,
        decreases room.y2 - 1 - wy,
    {
        if !(wy <= 0 || wy >= MAP_HEIGHT) {
            if weighted_pick(rng, &burrow_weights) == 1 {
                map.set(room.x1, wy, Tile::empty());
            }
            if weighted_pick(rng, &burrow_weights) == 1 {
                map.set(room.x2, wy, Tile::empty());
            }
        }
        wy = wy + 1;
    }

    place_objects(room, objects, map, first_room, level, rng);
}


/// Every accepted room's centre is a walkable tile.
pub open spec fn centers_open(rooms: Seq<Rect>, map: MapGrid) -> bool {
    forall|i: int|
        0 <= i < rooms.len() ==> !map.at(
            (#[trigger] rooms[i]).center_x(),
            rooms[i].center_y(),
        ).blocked
}

proof fn lemma_centers_open_monotone(rooms: Seq<Rect>, pre: MapGrid, post: MapGrid)
    requires
        centers_open(rooms, pre),
        monotone_carve(pre, post),
        forall|i: int| 0 <= i < rooms.len() ==> room_placed(#[trigger] rooms[i]),
    ensures
        centers_open(rooms, post),
{
    assert forall|i: int|
        0 <= i < rooms.len() implies !post.at(
        (#[trigger] rooms[i]).center_x(),
        rooms[i].center_y(),
    ).blocked by {
        let r0 = rooms[i];
        assert(r0.x1 < r0.center_x() < r0.x2);
        assert(r0.y1 < r0.center_y() < r0.y2);
        assert(MapGrid::in_bounds(r0.center_x(), r0.center_y()));
    }
}

/// Generate a level: up to `MAX_ROOMS` random room candidates, each
/// kept only if it overlaps no accepted room, connected in acceptance
/// order by an L-shaped pair of tunnels, then softened by a smoothing
/// pass.  The player starts at the first room's centre and the stairs
/// stand at the last room's centre, both on walkable tiles, and the
/// accepted rooms are returned pairwise disjoint.  If not a single
/// room could be placed the level is rejected outright.
#[verifier::loop_isolation(false)]
pub fn make_map(objects: &mut Vec<Object>, level: u32, rng: &mut GameRng) -> (r: Result<
    (MapGrid, Vec<Rect>),
    GenerationError,
>)
    requires
        old(objects)@.len() >= 1,
        old(objects)@[0].wf(),
        old(objects)@[0].ai is Some ==> old(objects)@[0].fighter is Some,
        old(objects)@[0].item is None,
    ensures
        match r {
            Ok(p) => {
                let map = p.0;
                let rooms = p.1;
                &&& map.wf()
                &&& rooms@.len() >= 1
                &&& forall|i: int| 0 <= i < rooms@.len() ==> room_placed(#[trigger] rooms@[i])
                &&& forall|i: int, j: int|
                    #![trigger rooms@[i], rooms@[j]]
                    0 <= i < j < rooms@.len() ==> !rooms@[i].spec_intersects(rooms@[j])
                &&& final(objects)@.len() >= 2
                &&& final(objects)@[0] == (Object {
                    x: rooms@[0].center_x() as i32,
                    y: rooms@[0].center_y() as i32,
                    ..old(objects)@[0]
                })
                &&& !map.at(final(objects)@[0].x as int, final(objects)@[0].y as int).blocked
                &&& forall|i: int|
                    1 <= i < final(objects)@.len() ==> spawned_ok(#[trigger] final(objects)@[i])
                &&& ({
                    let s = final(objects)@.last();
                    &&& s.always_visible
                    &&& !s.blocks
                    &&& s.fighter is None
                    &&& s.ai is None
                    &&& s.item is None
                    &&& s.equipment is None
                    &&& s.x == rooms@[rooms@.len() - 1].center_x()
                    &&& s.y == rooms@[rooms@.len() - 1].center_y()
                    &&& !map.at(s.x as int, s.y as int).blocked
                })
                &&& crate::game::world_wf(final(objects)@)
                &&& crate::game::floor_items_ok(final(objects)@)
                &&& final(objects)@[0].ai == old(objects)@[0].ai
                &&& total_xp(final(objects)@) <= xp_of(old(objects)@[0]) + 15_000
            },
            Err(_) => {
                &&& final(objects)@.len() == 1
                &&& final(objects)@[0] == old(objects)@[0]
            },
        },
{
    let mut map = MapGrid::all_walls();
    objects.truncate(1);
    proof {
        assert(objects@ =~= old(objects)@.subrange(0, 1));
        assert(objects@.drop_last() =~= Seq::<Object>::empty());
        assert(total_xp(Seq::<Object>::empty()) == 0);
        assert(total_xp(objects@) == xp_of(old(objects)@[0]));
    }
    let ghost player0 = objects@[0];
    let mut rooms: Vec<Rect> = Vec::new();
    let mut attempt: i32 = 0;
    while attempt < MAX_ROOMS
        invariant
            0 <= attempt <= MAX_ROOMS,
            map.wf(),
            rooms@.len() <= attempt,
            forall|i: int| 0 <= i < rooms@.len() ==> room_placed(#[trigger] rooms@[i]),
            forall|i: int, j: int|
                #![trigger rooms@[i], rooms@[j]]
                0 <= i < j < rooms@.len() ==> !rooms@[i].spec_intersects(rooms@[j]),
            centers_open(rooms@, map),
            objects@.len() >= 1,
            rooms@.len() == 0 ==> objects@.len() == 1 && objects@[0] == player0,
            rooms@.len() >= 1 ==> objects@[0] == (Object {
                x: rooms@[0].center_x() as i32,
                y: rooms@[0].center_y() as i32,
                ..player0
            }),
            forall|i: int| 1 <= i < objects@.len() ==> spawned_ok(#[trigger] objects@[i]),
            total_xp(objects@) <= xp_of(player0) + 500 * rooms@.len(),
        decreases MAX_ROOMS - attempt,
    {
        let w = rng.range_i32(ROOM_MIN_SIZE, ROOM_MAX_SIZE + 1);
        let h = rng.range_i32(ROOM_MIN_SIZE, ROOM_MAX_SIZE + 1);
        let x = rng.range_i32(0, MAP_WIDTH - w);
        let y = rng.range_i32(0, MAP_HEIGHT - h);
        let new_room = Rect::new(x, y, w, h);

        let mut failed = false;
        let mut ri: usize = 0;
        while ri < rooms.len()
            invariant
                ri <= rooms@.len(),
                !failed ==> forall|j: int|
                    0 <= j < ri ==> !new_room.spec_intersects(#[trigger] rooms@[j]),
            decreases rooms@.len() - ri,
        {
            if new_room.intersects_with(&rooms[ri]) {
                failed = true;
            }
            ri = ri + 1;
        }

        if !failed {
            let ghost map_entry = map;
            let ghost objs_entry = objects@;
            let first = rooms.len() == 0;
            create_room(new_room, &mut map, objects, first, level, rng);
            proof {
                lemma_centers_open_monotone(rooms@, map_entry, map);
                assert(objs_entry =~= objects@.subrange(0, objs_entry.len() as int));
                assert forall|i: int|
                    1 <= i < objects@.len() implies spawned_ok(#[trigger] objects@[i]) by {
                    if i < objs_entry.len() {
                        assert(objects@[i] == objs_entry[i]);
                    }
                }
            }
            let c = new_room.center();
            proof {
                assert(new_room.x1 < new_room.center_x() < new_room.x2);
                assert(new_room.y1 < new_room.center_y() < new_room.y2);
            }
            if first {
                let ghost snap = objects@;
                let mut player = objects.remove(0);
                player.set_pos(c.0, c.1);
                objects.insert(0, player);
                proof {
                    assert(objects@ =~= snap.update(0, player));
                    crate::game::lemma_total_xp_update(snap, 0, player);
                    assert forall|i: int|
                        1 <= i < objects@.len() implies spawned_ok(#[trigger] objects@[i]) by {
                        assert(objects@[i] == snap[i]);
                        assert(spawned_ok(snap[i]));
                    }
                }
            } else {
                let prev = rooms[rooms.len() - 1];
                let pc = prev.center();
                proof {
                    assert(prev.x1 <= prev.center_x() <= prev.x2);
                    assert(prev.y1 <= prev.center_y() <= prev.y2);
                }
                let ghost map_a = map;
                if rng.coin() {
                    create_h_tunnel(pc.0, c.0, pc.1, &mut map);
                    let ghost map_b = map;
                    create_v_tunnel(c.0, pc.1, c.1, &mut map);
                    proof {
                        lemma_centers_open_monotone(rooms@, map_a, map_b);
                        lemma_centers_open_monotone(rooms@, map_b, map);
                    }
                } else {
                    create_v_tunnel(pc.0, pc.1, c.1, &mut map);
                    let ghost map_b = map;
                    create_h_tunnel(pc.0, c.0, c.1, &mut map);
                    proof {
                        lemma_centers_open_monotone(rooms@, map_a, map_b);
                        lemma_centers_open_monotone(rooms@, map_b, map);
                    }
                }
            }
            let ghost rooms_pre = rooms@;
            rooms.push(new_room);
            proof {
                assert(rooms@.drop_last() =~= rooms_pre);
                assert forall|i: int|
                    0 <= i < rooms@.len() implies !map.at(
                    (#[trigger] rooms@[i]).center_x(),
                    rooms@[i].center_y(),
                ).blocked by {
                    if i < rooms@.len() - 1 {
                        assert(rooms@[i] == rooms_pre[i]);
                    } else {
                        assert(rooms@[i] == new_room);
                    }
                }
            }
        }
        attempt = attempt + 1;
    }

    // Soften generation artifacts: a wall tile with few wall
    // neighbours becomes floor.
    let ghost pre_smooth = map;
    let mut sx: i32 = 2;
    while sx < MAP_WIDTH - 2
        invariant
            2 <= sx <= MAP_WIDTH - 2,
            map.wf(),
            monotone_carve(pre_smooth, map),
        decreases MAP_WIDTH - 2 - sx,
    {
        let mut sy: i32 = 2;
        while sy < MAP_HEIGHT - 2
            invariant
                2 <= sy <= MAP_HEIGHT - 2,
                map.wf(),
                monotone_carve(pre_smooth, map),
            decreases MAP_HEIGHT - 2 - sy,
        {
            let mut walls: i32 = 0;
            let mut dx: i32 = sx - 1;
            while dx < sx + 2
                invariant
                    sx - 1 <= dx <= sx + 2,
                    0 <= walls <= 3 * (dx - (sx - 1)),
                decreases sx + 2 - dx,
            {
                let mut dy: i32 = sy - 1;
                while dy < sy + 2
                    invariant
                        sy - 1 <= dy <= sy + 2,
                        sx - 1 <= dx < sx + 2,
                        0 <= walls <= 3 * (dx - (sx - 1)) + (dy - (sy - 1)),
                    decreases sy + 2 - dy,
                {
                    let t = map.get(dx, dy);
                    if t.blocked && t.block_sight {
                        walls = walls + 1;
                    }
                    dy = dy + 1;
                }
                dx = dx + 1;
            }
            let t = map.get(sx, sy);
            if walls < 5 && t.blocked {
                map.set(sx, sy, Tile::empty());
            }
            sy = sy + 1;
        }
        sx = sx + 1;
    }

    if rooms.len() == 0 {
        return Err(GenerationError::NoRoomAccepted);
    }
    let last = rooms[rooms.len() - 1];
    let lc = last.center();
    proof {
        assert(last.x1 < last.center_x() < last.x2);
        assert(last.y1 < last.center_y() < last.y2);
    }
    let mut stairs = Object::new("stairs down", lc.0, lc.1, '<', Rgb::white(), false);
    stairs.always_visible = true;
    proof {
        lemma_total_xp_push(objects@, stairs);
    }
    objects.push(stairs);
    Ok((map, rooms))
}

} // verus!
