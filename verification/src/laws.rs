//! The simulation's stated laws, proved once and for all over the tick
//! model rather than sampled by tests.

use vstd::prelude::*;
use crate::entities::Enemy;
use crate::geom::{Vec2, dist_sq};
use crate::world::{Model, wf_model, tick_step, spawn_step, move_enemies_step, targeting_step,
    fire_step, move_projectiles_step, projectile_collision_step, tower_collision_step, sweep_step,
    moved_enemy, flagged_enemy, spawned_enemy, find_enemy, nearest_enemy, remaining_enemies,
    lemma_remaining_enemies_contains, lemma_surviving_enemies_contains};

verus! {

/// There is exactly one tower for the simulation's whole life: it is a
/// plain, non-optional field of the world, created with it and never
/// removed — and a tick never moves it, never changes its range, and never
/// touches the configuration.
pub proof fn lemma_tower_persists(m: Model, dt: int, vw: int, vh: int, rx: int, ry: int)
    ensures
        tick_step(m, dt, vw, vh, rx, ry).tower.pos == m.tower.pos,
        tick_step(m, dt, vw, vh, rx, ry).tower.range == m.tower.range,
        tick_step(m, dt, vw, vh, rx, ry).config == m.config,
{
}

/// An enemy's direction (and speed, and handle) is fixed at spawn: however
/// the tick moves, flags or destroys enemies, an enemy alive before and
/// after a tick carries the same direction and speed it had before.
pub proof fn lemma_enemy_direction_fixed(
    m: Model,
    dt: int,
    vw: int,
    vh: int,
    rx: int,
    ry: int,
    i: int,
    j: int,
)
    requires
        wf_model(m),
        0 <= i < m.enemies.len(),
        0 <= j < tick_step(m, dt, vw, vh, rx, ry).enemies.len(),
        tick_step(m, dt, vw, vh, rx, ry).enemies[j].id == m.enemies[i].id,
    ensures
        tick_step(m, dt, vw, vh, rx, ry).enemies[j].dir == m.enemies[i].dir,
        tick_step(m, dt, vw, vh, rx, ry).enemies[j].speed == m.enemies[i].speed,
{
    let m1 = spawn_step(m, dt, vw, vh, rx, ry);
    let m2 = move_enemies_step(m1, dt);
    let m3 = targeting_step(m2);
    let m4 = fire_step(m3, dt);
    let m5 = move_projectiles_step(m4, dt);
    let m6 = projectile_collision_step(m5);
    let m7 = tower_collision_step(m6);
    let post = sweep_step(m7);
    let e7 = post.enemies[j];
    lemma_remaining_enemies_contains(m7.enemies, j);
    let k7 = choose|k: int| 0 <= k < m7.enemies.len() && m7.enemies[k] == e7;
    assert(m7.enemies[k7] == flagged_enemy(
        m6.enemies[k7],
        m6.tower.pos,
        m6.config.enemy_half_extent as int,
        m6.config.tower_half_extent as int,
    ));
    let e6 = m6.enemies[k7];
    lemma_surviving_enemies_contains(
        m5.enemies,
        m5.projectiles,
        m5.config.projectile_radius as int,
        m5.config.enemy_half_extent as int,
        k7,
    );
    let k5 = choose|k: int| 0 <= k < m5.enemies.len() && m5.enemies[k] == e6;
    assert(m5.enemies == m2.enemies);
    assert(m2.enemies[k5] == moved_enemy(m1.enemies[k5], dt));
    let e1 = m1.enemies[k5];
    assert(e7.dir == e1.dir && e7.speed == e1.speed && e7.id == e1.id);
    if k5 < m.enemies.len() {
        assert(e1 == m.enemies[k5]);
        if k5 != i {
            if k5 < i {
                assert(m.enemies[k5].id < m.enemies[i].id);
            } else {
                assert(m.enemies[i].id < m.enemies[k5].id);
            }
            assert(false);
        }
    } else {
        assert(e1 == spawned_enemy(m, vw, vh, rx, ry));
        assert(m.enemies[i].id < m.next_id);
        assert(false);
    }
}

/// The handle a resolved enemy is found under is its own.
pub proof fn lemma_find_enemy_id(es: Seq<crate::entities::Enemy>, id: u64)
    requires
        find_enemy(es, id) is Some,
    ensures
        find_enemy(es, id).unwrap().id == id,
    decreases es.len(),
{
    if es.len() > 0 && es[0].id != id {
        lemma_find_enemy_id(es.drop_first(), id);
    }
}

/// A projectile is never created without a target: besides the handle field
/// being non-optional by construction, the one projectile Fire Control can
/// add is locked on a handle that resolves to a living enemy at creation.
pub proof fn lemma_projectile_created_locked(m: Model, dt: int)
    requires
        fire_step(m, dt).projectiles.len() > m.projectiles.len(),
    ensures
        find_enemy(m.enemies, fire_step(m, dt).projectiles.last().target) is Some,
{
    let p = fire_step(m, dt).projectiles.last();
    let id = m.tower.target.unwrap();
    let e = find_enemy(m.enemies, id).unwrap();
    lemma_find_enemy_id(m.enemies, id);
    assert(p.target == e.id == id);
}

/// Running the Targeting Engine twice with no state change between the
/// calls selects the same target as running it once.
pub proof fn lemma_targeting_idempotent(m: Model)
    ensures
        targeting_step(targeting_step(m)) == targeting_step(m),
{
    assert(targeting_step(targeting_step(m)).tower == targeting_step(m).tower);
}

/// Given zero living enemies, Fire Control never creates a projectile,
/// whatever the cooldown state and whatever stale handle the tower holds.
pub proof fn lemma_fire_control_no_enemies(m: Model, dt: int)
    requires
        m.enemies.len() == 0,
    ensures
        fire_step(m, dt).projectiles == m.projectiles,
{
}

/// The collided flag is never cleared: an enemy flagged before the tower
/// check is still flagged after it, so the flag moves false to true at most
/// once before the sweep removes the enemy.
pub proof fn lemma_collided_flag_permanent(m: Model, j: int)
    requires
        0 <= j < m.enemies.len(),
        m.enemies[j].collided,
    ensures
        tower_collision_step(m).enemies[j].collided,
{
}

/// The sweep is complete: no enemy that survives it carries the collided
/// flag.
pub proof fn lemma_sweep_destroys_flagged(es: Seq<Enemy>, j: int)
    requires
        0 <= j < remaining_enemies(es).len(),
    ensures
        !remaining_enemies(es)[j].collided,
    decreases es.len(),
{
    if es.len() > 0 {
        let rest = remaining_enemies(es.drop_last());
        if j < rest.len() {
            lemma_sweep_destroys_flagged(es.drop_last(), j);
        }
    }
}

/// The nearest enemy the Targeting Engine selects is one of the living
/// enemies it scanned.
pub proof fn lemma_nearest_is_alive(es: Seq<Enemy>, p: Vec2)
    requires
        nearest_enemy(es, p) is Some,
    ensures
        es.contains(nearest_enemy(es, p).unwrap()),
    decreases es.len(),
{
    if es.len() > 0 {
        match nearest_enemy(es.drop_last(), p) {
            None => {
                assert(es[es.len() - 1] == es.last());
            },
            Some(b) => {
                if dist_sq(es.last().pos, p) < dist_sq(b.pos, p) {
                    assert(es[es.len() - 1] == es.last());
                } else {
                    lemma_nearest_is_alive(es.drop_last(), p);
                    let k = choose|k: int|
                        0 <= k < es.drop_last().len() && es.drop_last()[k] == b;
                    assert(es[k] == b);
                }
            },
        }
    }
}

/// A living enemy's handle resolves.
pub proof fn lemma_member_found(es: Seq<Enemy>, k: int)
    requires
        0 <= k < es.len(),
    ensures
        find_enemy(es, es[k].id) is Some,
    decreases es.len(),
{
    if es[0].id != es[k].id {
        lemma_member_found(es.drop_first(), k - 1);
        assert(es.drop_first()[k - 1] == es[k]);
    }
}

/// The handle the Targeting Engine sets, when it sets one, references a
/// currently living enemy; otherwise it is cleared.
pub proof fn lemma_target_resolves(m: Model)
    requires
        targeting_step(m).tower.target is Some,
    ensures
        find_enemy(m.enemies, targeting_step(m).tower.target.unwrap()) is Some,
{
    lemma_nearest_is_alive(m.enemies, m.tower.pos);
    let e = nearest_enemy(m.enemies, m.tower.pos).unwrap();
    let k = choose|k: int| 0 <= k < m.enemies.len() && m.enemies[k] == e;
    lemma_member_found(m.enemies, k);
}

} // verus!
