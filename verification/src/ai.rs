use vstd::prelude::*;
use vstd::string::StringExecFns;
use crate::game::{
    Game, world_wf, total_xp, xp_of, spec_is_blocked, is_blocked, attack_rel,
    lemma_total_xp_update, lemma_total_xp_pair,
};
use crate::geom::{COORD_LIMIT, spec_dist_sq};
use crate::messages::Rgb;
use crate::object::{Object, Ai, PLAYER};
use crate::rng::GameRng;
use crate::tile::MapGrid;

verus! {

/// Counters inside a behaviour state never sit below the value the
/// expiry check looks for, so the per-turn decrement cannot underflow.
pub open spec fn ai_turns_ok(a: Ai) -> bool
    decreases a,
{
    match a {
        Ai::Basic => true,
        Ai::Confused { previous_ai, num_turns } => num_turns >= -1 && ai_turns_ok(*previous_ai),
    }
}

/// The invariants the per-turn simulation threads along: a sound
/// world, a behaviour-free player, bounded confusion counters, and
/// (while the player lives) an experience total that still fits the
/// award arithmetic.
pub open spec fn sim_wf(objs: Seq<Object>, game: Game) -> bool {
    &&& world_wf(objs)
    &&& game.wf()
    &&& objs[0].ai is None
    &&& forall|i: int|
        0 <= i < objs.len() ==> ((#[trigger] objs[i]).ai matches Some(a) ==> ai_turns_ok(a))
    &&& (objs[0].alive ==> total_xp(objs) <= i32::MAX)
}

/// The effect of one attempted step: either the target tile was free
/// and only the walker moved onto it, or nothing changed at all.
pub open spec fn moved_by(
    pre: Seq<Object>,
    post: Seq<Object>,
    id: int,
    dx: int,
    dy: int,
    map: MapGrid,
) -> bool {
    let o = pre[id];
    if !spec_is_blocked(o.x + dx, o.y + dy, map, pre) {
        post == pre.update(id, Object { x: (o.x + dx) as i32, y: (o.y + dy) as i32, ..o })
    } else {
        post == pre
    }
}

/// Some single-tile step (each axis offset in -1..=1) was attempted.
pub open spec fn one_step_of(pre: Seq<Object>, post: Seq<Object>, id: int, map: MapGrid) -> bool {
    exists|dx: int, dy: int|
        -1 <= dx <= 1 && -1 <= dy <= 1 && moved_by(pre, post, id, dx, dy, map)
}

/// Step the entity at `id` by (dx, dy) unless the target is blocked.
pub fn move_by(id: usize, dx: i32, dy: i32, map: &MapGrid, objects: &mut Vec<Object>)
    requires
        map.wf(),
        id < old(objects)@.len(),
        old(objects)@[id as int].wf(),
        -COORD_LIMIT <= dx <= COORD_LIMIT,
        -COORD_LIMIT <= dy <= COORD_LIMIT,
    ensures
        moved_by(old(objects)@, final(objects)@, id as int, dx as int, dy as int, *map),
        final(objects)@.len() == old(objects)@.len(),
        final(objects)@[id as int].wf(),
        forall|j: int|
            0 <= j < old(objects)@.len() && j != id ==> final(objects)@[j] == old(objects)@[j],
        final(objects)@[id as int].fighter == old(objects)@[id as int].fighter,
        final(objects)@[id as int].ai == old(objects)@[id as int].ai,
        total_xp(final(objects)@) == total_xp(old(objects)@),
{
    let o_ref = &objects[id];
    let x = o_ref.x;
    let y = o_ref.y;
    if !is_blocked(x + dx, y + dy, map, objects) {
        let ghost snap = objects@;
        let mut o = objects.remove(id);
        o.set_pos(x + dx, y + dy);
        objects.insert(id, o);
        proof {
            assert(objects@ =~= snap.update(id as int, o));
            lemma_total_xp_update(snap, id as int, o);
        }
    }
}

/// The axis component of the rounded unit vector toward a target: it
/// becomes a full step exactly when it carries at least half the
/// distance (the boundary cannot fall between integers).
pub open spec fn step_toward(d: int, other: int) -> int {
    if 3 * (d * d) >= other * other {
        if d > 0 {
            1
        } else if d < 0 {
            -1
        } else {
            0
        }
    } else {
        0
    }
}

fn step_component(d: i32, other: i32) -> (s: i32)
    requires
        -30_000 <= d <= 30_000,
        -30_000 <= other <= 30_000,
    ensures
        s == step_toward(d as int, other as int),
        -1 <= s <= 1,
{
    let d64 = d as i64;
    let o64 = other as i64;
    proof {
        assert(0 <= d64 * d64 <= 900_000_000 && 0 <= o64 * o64 <= 900_000_000)
            by (nonlinear_arith)
            requires
                -30_000 <= d64 <= 30_000,
                -30_000 <= o64 <= 30_000,
        ;
    }
    let sq_d = d64 * d64;
    let sq_o = o64 * o64;
    if 3 * sq_d >= sq_o {
        if d > 0 {
            1
        } else if d < 0 {
            -1
        } else {
            0
        }
    } else {
        0
    }
}

/// Step one tile toward (target_x, target_y) using the rounded unit
/// vector; a fair coin sometimes swaps the two axis offsets, a
/// deliberate drift that walks monsters around corners.
pub fn move_towards(
    id: usize,
    target_x: i32,
    target_y: i32,
    map: &MapGrid,
    objects: &mut Vec<Object>,
    rng: &mut GameRng,
)
    requires
        map.wf(),
        id < old(objects)@.len(),
        old(objects)@[id as int].wf(),
        -2 * COORD_LIMIT <= target_x <= 2 * COORD_LIMIT,
        -2 * COORD_LIMIT <= target_y <= 2 * COORD_LIMIT,
    ensures
        ({
            let sx = step_toward(
                target_x - old(objects)@[id as int].x,
                target_y - old(objects)@[id as int].y,
            );
            let sy = step_toward(
                target_y - old(objects)@[id as int].y,
                target_x - old(objects)@[id as int].x,
            );
            moved_by(old(objects)@, final(objects)@, id as int, sx, sy, *map) || moved_by(
                old(objects)@,
                final(objects)@,
                id as int,
                sy,
                sx,
                *map,
            )
        }),
        one_step_of(old(objects)@, final(objects)@, id as int, *map),
        final(objects)@.len() == old(objects)@.len(),
        final(objects)@[id as int].wf(),
        forall|j: int|
            0 <= j < old(objects)@.len() && j != id ==> final(objects)@[j] == old(objects)@[j],
        final(objects)@[id as int].fighter == old(objects)@[id as int].fighter,
        final(objects)@[id as int].ai == old(objects)@[id as int].ai,
        total_xp(final(objects)@) == total_xp(old(objects)@),
{
    let o_ref = &objects[id];
    let dx = target_x - o_ref.x;
    let dy = target_y - o_ref.y;
    let sx = step_component(dx, dy);
    let sy = step_component(dy, dx);
    if rng.coin() {
        move_by(id, sx, sy, map, objects);
    } else {
        move_by(id, sy, sx, map, objects);
    }
}

/// Pull the behaviour state out of the entity at `id`, leaving none.
fn take_ai(objects: &mut Vec<Object>, id: usize) -> (a: Option<Ai>)
    requires
        id < old(objects)@.len(),
    ensures
        a == old(objects)@[id as int].ai,
        final(objects)@ == old(objects)@.update(
            id as int,
            Object { ai: None, ..old(objects)@[id as int] },
        ),
{
    let ghost snap = objects@;
    let mut o = objects.remove(id);
    let a = o.ai;
    o.ai = None;
    objects.insert(id, o);
    proof {
        assert(objects@ =~= snap.update(id as int, o));
    }
    a
}

/// Store a behaviour state on the entity at `id`.
fn set_ai(objects: &mut Vec<Object>, id: usize, a: Option<Ai>)
    requires
        id < old(objects)@.len(),
    ensures
        final(objects)@ == old(objects)@.update(
            id as int,
            Object { ai: a, ..old(objects)@[id as int] },
        ),
{
    let ghost snap = objects@;
    let mut o = objects.remove(id);
    o.ai = a;
    objects.insert(id, o);
    proof {
        assert(objects@ =~= snap.update(id as int, o));
    }
}


/// One confused turn: while the counter runs, stagger one random tile
/// and count down; once it has run out, announce recovery and restore
/// the wrapped behaviour without moving.
pub fn ai_confused(
    monster_id: usize,
    game: &mut Game,
    objects: &mut Vec<Object>,
    previous_ai: Box<Ai>,
    num_turns: i32,
    rng: &mut GameRng,
) -> (new_ai: Ai)
    requires
        old(game).wf(),
        monster_id < old(objects)@.len(),
        old(objects)@[monster_id as int].wf(),
        num_turns > i32::MIN,
    ensures
        final(game).wf(),
        final(game).map == old(game).map,
        final(game).inventory == old(game).inventory,
        final(game).dungeon_level == old(game).dungeon_level,
        final(game).log.extends(old(game).log),
        final(objects)@.len() == old(objects)@.len(),
        forall|j: int|
            0 <= j < old(objects)@.len() && j != monster_id ==> final(objects)@[j] == old(
                objects,
            )@[j],
        total_xp(final(objects)@) == total_xp(old(objects)@),
        final(objects)@[monster_id as int].wf(),
        final(objects)@[monster_id as int].fighter == old(objects)@[monster_id as int].fighter,
        final(objects)@[monster_id as int].ai == old(objects)@[monster_id as int].ai,
        if num_turns < 0 {
            &&& new_ai == *previous_ai
            &&& final(objects)@ == old(objects)@
            &&& final(game).log.entries@.len() == old(game).log.entries@.len() + 1
        } else {
            &&& new_ai == (Ai::Confused { previous_ai, num_turns: (num_turns - 1) as i32 })
            &&& one_step_of(old(objects)@, final(objects)@, monster_id as int, old(game).map)
            &&& final(game).log == old(game).log
        },
{
    if num_turns < 0 {
        let text = objects[monster_id].name.clone().concat(" is no longer confused!");
        game.log.add(text, Rgb::red());
        *previous_ai
    } else {
        let ox = rng.range_i32(-1, 2);
        let oy = rng.range_i32(-1, 2);
        move_by(monster_id, ox, oy, &game.map, objects);
        proof {
            assert(moved_by(
                old(objects)@,
                objects@,
                monster_id as int,
                ox as int,
                oy as int,
                game.map,
            ));
        }
        Ai::Confused { previous_ai, num_turns: num_turns - 1 }
    }
}

/// One basic-monster turn: a visible monster closes in on the player
/// (or strikes when adjacent and the player is alive); an unseen one
/// drifts one random tile.
pub fn ai_basic(
    monster_id: usize,
    game: &mut Game,
    objects: &mut Vec<Object>,
    monster_visible: bool,
    rng: &mut GameRng,
) -> (new_ai: Ai)
    requires
        old(game).wf(),
        world_wf(old(objects)@),
        0 < monster_id < old(objects)@.len(),
        old(objects)@[monster_id as int].fighter is Some,
        old(objects)@[0].ai is None,
        old(objects)@[0].alive ==> total_xp(old(objects)@) <= i32::MAX,
    ensures
        new_ai == Ai::Basic,
        final(game).wf(),
        final(game).map == old(game).map,
        final(game).inventory == old(game).inventory,
        final(game).dungeon_level == old(game).dungeon_level,
        final(game).log.extends(old(game).log),
        world_wf(final(objects)@),
        final(objects)@.len() == old(objects)@.len(),
        forall|j: int|
            0 <= j < old(objects)@.len() && j != monster_id && j != 0 ==> final(objects)@[j]
                == old(objects)@[j],
        final(objects)@[monster_id as int].ai == old(objects)@[monster_id as int].ai,
        final(objects)@[0].ai == old(objects)@[0].ai,
        final(objects)@[0].alive ==> old(objects)@[0].alive,
        final(objects)@[0].alive ==> total_xp(final(objects)@) == total_xp(old(objects)@),
        ({
            let pre = old(objects)@;
            let d = spec_dist_sq(
                pre[monster_id as int].x as int,
                pre[monster_id as int].y as int,
                pre[0].x as int,
                pre[0].y as int,
            );
            if monster_visible {
                if d >= 4 {
                    let sx = step_toward(
                        pre[0].x - pre[monster_id as int].x,
                        pre[0].y - pre[monster_id as int].y,
                    );
                    let sy = step_toward(
                        pre[0].y - pre[monster_id as int].y,
                        pre[0].x - pre[monster_id as int].x,
                    );
                    &&& (moved_by(pre, final(objects)@, monster_id as int, sx, sy, old(game).map)
                        || moved_by(pre, final(objects)@, monster_id as int, sy, sx, old(game).map))
                    &&& one_step_of(pre, final(objects)@, monster_id as int, old(game).map)
                    &&& final(objects)@[0] == pre[0]
                } else if pre[0].alive {
                    attack_rel(
                        pre[monster_id as int],
                        pre[0],
                        final(objects)@[monster_id as int],
                        final(objects)@[0],
                        old(game).inventory@,
                    )
                } else {
                    final(objects)@ == pre
                }
            } else {
                &&& one_step_of(pre, final(objects)@, monster_id as int, old(game).map)
                &&& final(objects)@[0] == pre[0]
            }
        }),
{
    let mx = objects[monster_id].x;
    let my = objects[monster_id].y;
    if monster_visible {
        let dsq = objects[monster_id].distance_sq_to(&objects[PLAYER]);
        if dsq >= 4 {
            let px = objects[PLAYER].x;
            let py = objects[PLAYER].y;
            move_towards(monster_id, px, py, &game.map, objects, rng);
        } else if objects[PLAYER].alive {
            let ghost snap = objects@;
            proof {
                assert forall|k: int| 0 <= k < snap.len() implies xp_of(#[trigger] snap[k])
                    >= 0 by {
                    assert(snap[k].wf());
                }
                lemma_total_xp_pair(snap, monster_id as int, 0);
            }
            let mut monster = objects.remove(monster_id);
            let mut player = objects.remove(PLAYER);
            monster.attack(&mut player, game);
            objects.insert(PLAYER, player);
            objects.insert(monster_id, monster);
            proof {
                assert(objects@ =~= snap.update(0, player).update(monster_id as int, monster));
                lemma_total_xp_update(snap, 0, player);
                lemma_total_xp_update(snap.update(0, player), monster_id as int, monster);
            }
        }
    } else {
        let ox = rng.range_i32(-1, 2);
        let oy = rng.range_i32(-1, 2);
        move_towards(monster_id, mx + ox, my + oy, &game.map, objects, rng);
    }
    Ai::Basic
}

/// Resolve one entity's turn: nothing happens without a behaviour
/// state; otherwise the state acts and its successor is stored back.
/// A confused state whose counter has run out reverts to the wrapped
/// state on the turn it would otherwise act, taking no other action.
pub fn ai_take_turn(
    monster_id: usize,
    game: &mut Game,
    objects: &mut Vec<Object>,
    monster_visible: bool,
    rng: &mut GameRng,
)
    requires
        sim_wf(old(objects)@, *old(game)),
        monster_id < old(objects)@.len(),
    ensures
        sim_wf(final(objects)@, *final(game)),
        final(objects)@.len() == old(objects)@.len(),
        final(game).map == old(game).map,
        final(game).inventory == old(game).inventory,
        final(game).dungeon_level == old(game).dungeon_level,
        final(game).log.extends(old(game).log),
        forall|j: int|
            0 <= j < old(objects)@.len() && j != monster_id && j != 0 ==> final(objects)@[j]
                == old(objects)@[j],
        final(objects)@[0].alive ==> old(objects)@[0].alive,
        old(objects)@[monster_id as int].ai is None ==> final(objects)@ == old(objects)@
            && *final(game) == *old(game),
        old(objects)@[monster_id as int].ai == Some(Ai::Basic)
            ==> final(objects)@[monster_id as int].ai == Some(Ai::Basic),
        (old(objects)@[monster_id as int].ai matches Some(Ai::Confused { previous_ai, num_turns })
            ==> {
            if num_turns < 0 {
                &&& final(objects)@ == old(objects)@.update(
                    monster_id as int,
                    Object { ai: Some(*previous_ai), ..old(objects)@[monster_id as int] },
                )
                &&& final(game).log.entries@.len() == old(game).log.entries@.len() + 1
            } else {
                &&& final(objects)@[monster_id as int].ai == Some(
                    Ai::Confused { previous_ai, num_turns: (num_turns - 1) as i32 },
                )
                &&& final(objects)@[0] == old(objects)@[0]
                &&& final(objects)@[monster_id as int].fighter
                    == old(objects)@[monster_id as int].fighter
                &&& -1 <= final(objects)@[monster_id as int].x
                    - old(objects)@[monster_id as int].x <= 1
                &&& -1 <= final(objects)@[monster_id as int].y
                    - old(objects)@[monster_id as int].y <= 1
                &&& final(game).log == old(game).log
            }
        }),
{
    let ghost pre = objects@;
    let a = take_ai(objects, monster_id);
    match a {
        None => {
            proof {
                assert(objects@ =~= pre);
            }
        },
        Some(ai_state) => {
            proof {
                assert(pre[monster_id as int].ai is Some);
                assert(pre[monster_id as int].fighter is Some);
                assert(monster_id != 0);
                lemma_total_xp_update(
                    pre,
                    monster_id as int,
                    Object { ai: None, ..pre[monster_id as int] },
                );
            }
            match ai_state {
                Ai::Basic => {
                    let ghost mid = objects@;
                    let new_ai = ai_basic(monster_id, game, objects, monster_visible, rng);
                    let ghost stepped = objects@;
                    set_ai(objects, monster_id, Some(new_ai));
                    proof {
                        lemma_total_xp_update(
                            stepped,
                            monster_id as int,
                            Object { ai: Some(new_ai), ..stepped[monster_id as int] },
                        );
                    }
                },
                Ai::Confused { previous_ai, num_turns } => {
                    let ghost mid = objects@;
                    let new_ai = ai_confused(
                        monster_id,
                        game,
                        objects,
                        previous_ai,
                        num_turns,
                        rng,
                    );
                    let ghost stepped = objects@;
                    set_ai(objects, monster_id, Some(new_ai));
                    proof {
                        lemma_total_xp_update(
                            stepped,
                            monster_id as int,
                            Object { ai: Some(new_ai), ..stepped[monster_id as int] },
                        );
                        if num_turns < 0 {
                            assert(objects@ =~= pre.update(
                                monster_id as int,
                                Object { ai: Some(new_ai), ..pre[monster_id as int] },
                            ));
                        }
                    }
                },
            }
        },
    }
}

/// Resolve the turn of every entity that carries a behaviour state, in
/// collection order: earlier-indexed monsters act before later ones.
/// `visible` holds, per entity, whether its tile is currently lit, as
/// sampled by the display collaborator before the sweep.
/// How one sweep rewrites a single non-player entity: no behaviour
/// means no turn and no change; basic behaviour stays basic; a
/// confused state either ticks down (moving at most one tile, combat
/// stats untouched) or, once expired, reverts exactly to the wrapped
/// state with no other change.
pub open spec fn turn_transition(pre_o: Object, post_o: Object) -> bool {
    match pre_o.ai {
        None => post_o == pre_o,
        Some(a) => match a {
            Ai::Basic => post_o.ai == Some(Ai::Basic),
            Ai::Confused { previous_ai, num_turns } => {
                if num_turns < 0 {
                    post_o == (Object { ai: Some(*previous_ai), ..pre_o })
                } else {
                    &&& post_o.ai == Some(
                        Ai::Confused { previous_ai, num_turns: (num_turns - 1) as i32 },
                    )
                    &&& post_o.fighter == pre_o.fighter
                    &&& -1 <= post_o.x - pre_o.x <= 1
                    &&& -1 <= post_o.y - pre_o.y <= 1
                }
            },
        },
    }
}

pub fn run_ai_turns(
    game: &mut Game,
    objects: &mut Vec<Object>,
    visible: &Vec<bool>,
    rng: &mut GameRng,
)
    requires
        sim_wf(old(objects)@, *old(game)),
        visible@.len() == old(objects)@.len(),
    ensures
        sim_wf(final(objects)@, *final(game)),
        final(objects)@.len() == old(objects)@.len(),
        final(game).map == old(game).map,
        final(game).inventory == old(game).inventory,
        final(game).dungeon_level == old(game).dungeon_level,
        final(game).log.extends(old(game).log),
        forall|i: int|
            1 <= i < old(objects)@.len() ==> turn_transition(
                old(objects)@[i],
                #[trigger] final(objects)@[i],
            ),
{
    let n = objects.len();
    let mut id: usize = 0;
    while id < n
        invariant
            sim_wf(objects@, *game),
            objects@.len() == n,
            n == visible@.len(),
            game.map == old(game).map,
            game.inventory == old(game).inventory,
            game.dungeon_level == old(game).dungeon_level,
            game.log.extends(old(game).log),
            id <= n,
            forall|j: int|
                1 <= j < id ==> turn_transition(old(objects)@[j], #[trigger] objects@[j]),
            forall|j: int| id <= j < n && j >= 1 ==> #[trigger] objects@[j] == old(objects)@[j],
        decreases n - id,
    {
        let has_ai = objects[id].ai.is_some();
        if has_ai {
            let ghost g_mid = *game;
            ai_take_turn(id, game, objects, visible[id], rng);
            proof {
                crate::messages::Messages::lemma_extends_trans(
                    game.log,
                    g_mid.log,
                    old(game).log,
                );
            }
        }
        id = id + 1;
    }
}

} // verus!
