//! The simulated entities — tower, enemies, projectiles — their repeating
//! timers, and the configuration constants that govern a simulation.

use vstd::prelude::*;
use crate::geom::{Vec2, in_play, dir_bounded};
use crate::num::abs_val;
use crate::{SPEED_LIMIT, HALF_LIMIT, DT_MAX};

verus! {

/// Longest interval a repeating timer may have, in milliseconds.
pub const INTERVAL_LIMIT: u64 = 1_000_000_000;

/// The constants a simulation runs with. Distances are in milli-units
/// (one world unit is 1000), speeds in milli-units per millisecond,
/// intervals in milliseconds.
#[derive(Clone, Copy, PartialEq, Eq, Structural, Debug)]
pub struct Config {
    /// How often an enemy spawns.
    pub spawn_interval: u64,
    /// How fast enemies travel toward the tower.
    pub enemy_speed: i64,
    /// Half the side of an enemy's square collision box.
    pub enemy_half_extent: i64,
    /// Half the side of the tower's square collision box.
    pub tower_half_extent: i64,
    /// How close an enemy must be before the tower fires at it.
    pub tower_range: i64,
    /// How often the tower may fire.
    pub fire_interval: u64,
    /// How fast projectiles travel.
    pub projectile_speed: i64,
    /// Radius of a projectile's circular collision shape.
    pub projectile_radius: i64,
}

/// The bounds that keep every simulation step's arithmetic exact.
pub open spec fn wf_config(c: Config) -> bool {
    &&& 1 <= c.spawn_interval <= INTERVAL_LIMIT
    &&& 1 <= c.fire_interval <= INTERVAL_LIMIT
    &&& 0 <= c.enemy_speed <= SPEED_LIMIT
    &&& 0 <= c.projectile_speed <= SPEED_LIMIT
    &&& 0 <= c.enemy_half_extent <= HALF_LIMIT
    &&& 0 <= c.tower_half_extent <= HALF_LIMIT
    &&& 0 <= c.projectile_radius <= HALF_LIMIT
    &&& 0 <= c.tower_range <= HALF_LIMIT
}

/// The configuration the game ships with: an enemy every 2 s at 100 units/s
/// in a 10x10 box, a 40x40 tower with range 200 firing every 0.2 s,
/// projectiles at 100 units/s with radius 2.5.
pub open spec fn default_config() -> Config {
    Config {
        spawn_interval: 2000,
        enemy_speed: 100,
        enemy_half_extent: 5000,
        tower_half_extent: 20000,
        tower_range: 200_000,
        fire_interval: 200,
        projectile_speed: 100,
        projectile_radius: 2500,
    }
}

impl Default for Config {
    fn default() -> (c: Config)
        ensures
            c == default_config(),
            wf_config(c),
    {
        Config {
            spawn_interval: 2000,
            enemy_speed: 100,
            enemy_half_extent: 5000,
            tower_half_extent: 20000,
            tower_range: 200_000,
            fire_interval: 200,
            projectile_speed: 100,
            projectile_radius: 2500,
        }
    }
}

/// A repeating countdown: fires each time `elapsed` would reach `interval`,
/// then keeps the remainder.
#[derive(Clone, Copy, PartialEq, Eq, Structural, Debug)]
pub struct TimerState {
    pub elapsed: u64,
    pub interval: u64,
}

pub open spec fn wf_timer(t: TimerState) -> bool {
    &&& 1 <= t.interval <= INTERVAL_LIMIT
    &&& t.elapsed < t.interval
}

/// Whether the timer completes its repeating interval during a tick of `dt`.
pub open spec fn timer_fires(t: TimerState, dt: int) -> bool {
    t.elapsed + dt >= t.interval
}

/// The timer after a tick of `dt`: elapsed time accumulates and wraps to its
/// remainder modulo the interval on completion.
pub open spec fn timer_after(t: TimerState, dt: int) -> TimerState {
    if timer_fires(t, dt) {
        TimerState {
            elapsed: ((t.elapsed + dt) % (t.interval as int)) as u64,
            interval: t.interval,
        }
    } else {
        TimerState { elapsed: (t.elapsed + dt) as u64, interval: t.interval }
    }
}

/// Advance a repeating timer by `dt` milliseconds; report completion.
pub fn tick_timer(t: &mut TimerState, dt: u64) -> (fired: bool)
    requires
        wf_timer(*old(t)),
        dt <= DT_MAX,
    ensures
        *final(t) == timer_after(*old(t), dt as int),
        fired == timer_fires(*old(t), dt as int),
        wf_timer(*final(t)),
{
    let total: u64 = t.elapsed + dt;
    if total >= t.interval {
        t.elapsed = total % t.interval;
        true
    } else {
        t.elapsed = total;
        false
    }
}

/// An enemy: spawned off-screen, it walks a fixed straight line toward where
/// the tower stood when it spawned.
#[derive(Clone, Copy, PartialEq, Eq, Structural, Debug)]
pub struct Enemy {
    /// Stable handle; never reused within one simulation.
    pub id: u64,
    pub pos: Vec2,
    /// Fixed at spawn as tower position minus spawn position; stored
    /// unnormalized, consumers normalize each tick.
    pub dir: Vec2,
    pub speed: i64,
    /// Set once the enemy reaches the tower; the sweeper then removes it.
    pub collided: bool,
}

pub open spec fn wf_enemy(e: Enemy) -> bool {
    &&& in_play(e.pos)
    &&& dir_bounded(e.dir)
    &&& 0 <= e.speed <= SPEED_LIMIT
}

/// A projectile: fired from the tower straight at where its target stood,
/// locked by handle on that one enemy. There is no projectile without a
/// target: the handle field is not optional.
#[derive(Clone, Copy, PartialEq, Eq, Structural, Debug)]
pub struct Projectile {
    /// Stable handle; never reused within one simulation.
    pub id: u64,
    pub pos: Vec2,
    /// Fixed at firing time as the target's position minus the tower's; not
    /// updated as the target moves.
    pub dir: Vec2,
    pub speed: i64,
    /// Handle of the enemy this projectile is locked on.
    pub target: u64,
}

pub open spec fn wf_projectile(p: Projectile) -> bool {
    &&& in_play(p.pos)
    &&& dir_bounded(p.dir)
    &&& 0 <= p.speed <= SPEED_LIMIT
}

/// The tower: stationary, retargeted every tick, fires on a repeating
/// cooldown.
#[derive(Clone, Copy, PartialEq, Eq, Debug)]
pub struct Tower {
    pub pos: Vec2,
    /// Engagement range: the tower fires only at enemies nearer than this.
    pub range: i64,
    pub cooldown: TimerState,
    /// Handle of the nearest living enemy, recomputed every tick; `None`
    /// when no enemy exists. Revalidated before every use.
    pub target: Option<u64>,
}

pub open spec fn wf_tower(t: Tower) -> bool {
    &&& in_play(t.pos)
    &&& 0 <= t.range <= HALF_LIMIT
    &&& wf_timer(t.cooldown)
}

/// Direction bounds hold of any difference of two on-field points.
pub proof fn lemma_diff_dir_bounded(a: Vec2, b: Vec2, d: Vec2)
    requires
        in_play(a),
        in_play(b),
        d.x == a.x - b.x,
        d.y == a.y - b.y,
    ensures
        dir_bounded(d),
{
    assert(abs_val(d.x as int) <= 2 * crate::POS_LIMIT);
    assert(abs_val(d.y as int) <= 2 * crate::POS_LIMIT);
}

} // verus!
