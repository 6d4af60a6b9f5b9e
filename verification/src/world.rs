//! The simulation itself: the world state, the mathematical model of one
//! tick, and the per-stage systems, each proved to implement its model step.
//!
//! A tick runs five stage-groups in a fixed order: spawn, enemy motion,
//! targeting then fire control, projectile motion then projectile collision,
//! tower collision then the lifecycle sweep. No two stage-groups interleave.

use vstd::prelude::*;
use crate::geom::{Vec2, in_play, dist_sq, dist_sq_at, aabb_overlap, aabb_overlap_at,
    circle_box_overlap, circle_box_overlap_at, advance, advance_pos, spawn_pos, spawn_pos_at};
use crate::entities::{Config, wf_config, TimerState, wf_timer, timer_fires,
    timer_after, tick_timer, Enemy, wf_enemy, Projectile, wf_projectile, Tower, wf_tower,
    lemma_diff_dir_bounded};
use crate::{DT_MAX, VIEW_LIMIT};

verus! {

/// The whole simulation state. There is exactly one tower for the life of
/// the simulation: it is a plain field, created with the world and never
/// removed.
pub struct World {
    pub config: Config,
    pub tower: Tower,
    pub spawn_timer: TimerState,
    pub enemies: Vec<Enemy>,
    pub projectiles: Vec<Projectile>,
    /// The next fresh entity handle; handles are never reused.
    pub next_id: u64,
}

/// The mathematical model of a world: the same state with the entity vectors
/// read as sequences.
#[verifier::ext_equal]
pub ghost struct Model {
    pub config: Config,
    pub tower: Tower,
    pub spawn_timer: TimerState,
    pub enemies: Seq<Enemy>,
    pub projectiles: Seq<Projectile>,
    pub next_id: int,
}

impl View for World {
    type V = Model;

    open spec fn view(&self) -> Model {
        Model {
            config: self.config,
            tower: self.tower,
            spawn_timer: self.spawn_timer,
            enemies: self.enemies@,
            projectiles: self.projectiles@,
            next_id: self.next_id as int,
        }
    }
}

/// Enemy handles appear in spawn order and are pairwise distinct.
pub open spec fn enemy_ids_increasing(es: Seq<Enemy>) -> bool {
    forall|i: int, j: int| 0 <= i < j < es.len() ==> es[i].id < es[j].id
}

pub open spec fn enemy_ids_below(es: Seq<Enemy>, n: int) -> bool {
    forall|i: int| 0 <= i < es.len() ==> es[i].id < n
}

/// Projectile handles appear in firing order and are pairwise distinct.
pub open spec fn projectile_ids_increasing(ps: Seq<Projectile>) -> bool {
    forall|i: int, j: int| 0 <= i < j < ps.len() ==> ps[i].id < ps[j].id
}

pub open spec fn projectile_ids_below(ps: Seq<Projectile>, n: int) -> bool {
    forall|i: int| 0 <= i < ps.len() ==> ps[i].id < n
}

/// Well-formedness of a model: every entity lies on the playfield within the
/// arithmetic bounds, timers are in range, and handles are fresh, ordered
/// and below the handle counter.
pub open spec fn wf_model(m: Model) -> bool {
    &&& wf_config(m.config)
    &&& wf_tower(m.tower)
    &&& wf_timer(m.spawn_timer)
    &&& forall|i: int| 0 <= i < m.enemies.len() ==> wf_enemy(#[trigger] m.enemies[i])
    &&& forall|i: int| 0 <= i < m.projectiles.len() ==> wf_projectile(#[trigger] m.projectiles[i])
    &&& enemy_ids_increasing(m.enemies)
    &&& enemy_ids_below(m.enemies, m.next_id)
    &&& projectile_ids_increasing(m.projectiles)
    &&& projectile_ids_below(m.projectiles, m.next_id)
    &&& 0 <= m.next_id <= u64::MAX
}

/// The model a fresh simulation starts from: the tower at the origin with
/// its cooldown and the spawn timer at zero, no target, no enemies, no
/// projectiles.
pub open spec fn initial_model(c: Config) -> Model {
    Model {
        config: c,
        tower: Tower {
            pos: Vec2 { x: 0, y: 0 },
            range: c.tower_range,
            cooldown: TimerState { elapsed: 0, interval: c.fire_interval },
            target: None,
        },
        spawn_timer: TimerState { elapsed: 0, interval: c.spawn_interval },
        enemies: Seq::empty(),
        projectiles: Seq::empty(),
        next_id: 0,
    }
}

impl World {
    /// Set up a simulation: the tower exists from the start, exactly once.
    pub fn new(config: Config) -> (w: World)
        requires
            wf_config(config),
        ensures
            w@ == initial_model(config),
            wf_model(w@),
    {
        let w = World {
            config,
            tower: Tower {
                pos: Vec2 { x: 0, y: 0 },
                range: config.tower_range,
                cooldown: TimerState { elapsed: 0, interval: config.fire_interval },
                target: None,
            },
            spawn_timer: TimerState { elapsed: 0, interval: config.spawn_interval },
            enemies: Vec::new(),
            projectiles: Vec::new(),
            next_id: 0,
        };
        proof {
            assert(w@ =~= initial_model(config));
        }
        w
    }
}

/// The enemy the spawner creates: placed by `spawn_pos`, headed from there
/// toward the tower, at the configured speed, under a fresh handle.
pub open spec fn spawned_enemy(m: Model, vw: int, vh: int, rx: int, ry: int) -> Enemy {
    let pos = spawn_pos(vw, vh, rx, ry);
    Enemy {
        id: m.next_id as u64,
        pos,
        dir: Vec2 {
            x: (m.tower.pos.x - pos.x) as i64,
            y: (m.tower.pos.y - pos.y) as i64,
        },
        speed: m.config.enemy_speed,
        collided: false,
    }
}

/// One run of the Spawner: the spawn timer advances by `dt`; each time it
/// completes, exactly one enemy appears for the one tower present.
pub open spec fn spawn_step(m: Model, dt: int, vw: int, vh: int, rx: int, ry: int) -> Model {
    let t2 = timer_after(m.spawn_timer, dt);
    if timer_fires(m.spawn_timer, dt) {
        Model {
            spawn_timer: t2,
            enemies: m.enemies.push(spawned_enemy(m, vw, vh, rx, ry)),
            next_id: m.next_id + 1,
            ..m
        }
    } else {
        Model { spawn_timer: t2, ..m }
    }
}

impl World {
    /// The Spawner. `rx` and `ry` are the sampled direction offsets; the
    /// step is deterministic in them, so a seeded generator reproduces it.
    pub fn spawn_enemy(&mut self, dt: u64, vw: i64, vh: i64, rx: i64, ry: i64)
        requires
            wf_model(old(self)@),
            dt <= DT_MAX,
            0 <= vw <= VIEW_LIMIT,
            0 <= vh <= VIEW_LIMIT,
            old(self)@.next_id < u64::MAX,
        ensures
            final(self)@ == spawn_step(old(self)@, dt as int, vw as int, vh as int, rx as int, ry as int),
            wf_model(final(self)@),
    {
        let fired = tick_timer(&mut self.spawn_timer, dt);
        if fired {
            let pos = spawn_pos_at(vw, vh, rx, ry);
            let dir = Vec2 { x: self.tower.pos.x - pos.x, y: self.tower.pos.y - pos.y };
            proof {
                lemma_diff_dir_bounded(self.tower.pos, pos, dir);
            }
            let e = Enemy {
                id: self.next_id,
                pos,
                dir,
                speed: self.config.enemy_speed,
                collided: false,
            };
            self.enemies.push(e);
            self.next_id = self.next_id + 1;
        }
        proof {
            assert(self@ =~= spawn_step(
                old(self)@,
                dt as int,
                vw as int,
                vh as int,
                rx as int,
                ry as int,
            ));
        }
    }
}

/// An enemy after one motion step: only its position changes.
pub open spec fn moved_enemy(e: Enemy, dt: int) -> Enemy {
    Enemy { pos: advance(e.pos, e.dir, e.speed as int, dt), ..e }
}

/// One run of the Motion Integrator over the enemies.
pub open spec fn move_enemies_step(m: Model, dt: int) -> Model {
    Model { enemies: m.enemies.map_values(|e: Enemy| moved_enemy(e, dt)), ..m }
}

/// A projectile after one motion step: only its position changes.
pub open spec fn moved_projectile(p: Projectile, dt: int) -> Projectile {
    Projectile { pos: advance(p.pos, p.dir, p.speed as int, dt), ..p }
}

/// One run of the Motion Integrator over the projectiles.
pub open spec fn move_projectiles_step(m: Model, dt: int) -> Model {
    Model { projectiles: m.projectiles.map_values(|p: Projectile| moved_projectile(p, dt)), ..m }
}

impl World {
    /// The Motion Integrator for enemies: each advances along its fixed
    /// direction at its fixed speed.
    pub fn update_enemy_position(&mut self, dt: u64)
        requires
            wf_model(old(self)@),
            dt <= DT_MAX,
        ensures
            final(self)@ == move_enemies_step(old(self)@, dt as int),
            wf_model(final(self)@),
    {
        let ghost m0 = self@;
        let mut moved: Vec<Enemy> = Vec::new();
        let mut i: usize = 0;
        while i < self.enemies.len()
            invariant
                wf_model(m0),
                self@ == m0,
                dt <= DT_MAX,
                i <= m0.enemies.len(),
                moved@.len() == i as int,
                forall|j: int| 0 <= j < i ==> moved@[j] == moved_enemy(#[trigger] m0.enemies[j], dt as int),
            decreases m0.enemies.len() - i,
        {
            let e = self.enemies[i];
            let np = advance_pos(e.pos, e.dir, e.speed, dt);
            moved.push(Enemy { pos: np, ..e });
            i = i + 1;
        }
        self.enemies = moved;
        proof {
            assert(self@.enemies =~= m0.enemies.map_values(|e: Enemy| moved_enemy(e, dt as int)));
            assert(self@ =~= move_enemies_step(old(self)@, dt as int));
        }
    }

    /// The Motion Integrator for projectiles: each advances along its fixed
    /// direction at its fixed speed.
    pub fn update_projectiles_position(&mut self, dt: u64)
        requires
            wf_model(old(self)@),
            dt <= DT_MAX,
        ensures
            final(self)@ == move_projectiles_step(old(self)@, dt as int),
            wf_model(final(self)@),
    {
        let ghost m0 = self@;
        let mut moved: Vec<Projectile> = Vec::new();
        let mut i: usize = 0;
        while i < self.projectiles.len()
            invariant
                wf_model(m0),
                self@ == m0,
                dt <= DT_MAX,
                i <= m0.projectiles.len(),
                moved@.len() == i as int,
                forall|j: int| 0 <= j < i ==> moved@[j] == moved_projectile(
                    #[trigger] m0.projectiles[j],
                    dt as int,
                ),
            decreases m0.projectiles.len() - i,
        {
            let p = self.projectiles[i];
            let np = advance_pos(p.pos, p.dir, p.speed, dt);
            moved.push(Projectile { pos: np, ..p });
            i = i + 1;
        }
        self.projectiles = moved;
        proof {
            assert(self@.projectiles =~= m0.projectiles.map_values(
                |p: Projectile| moved_projectile(p, dt as int),
            ));
            assert(self@ =~= move_projectiles_step(old(self)@, dt as int));
        }
    }
}

/// The first-seen nearest living enemy: scanning in creation order, a later
/// enemy displaces the best only when strictly nearer, so among equally near
/// enemies the first encountered wins.
pub open spec fn nearest_enemy(es: Seq<Enemy>, p: Vec2) -> Option<Enemy>
    decreases es.len(),
{
    if es.len() == 0 {
        None
    } else {
        match nearest_enemy(es.drop_last(), p) {
            None => Some(es.last()),
            Some(b) => if dist_sq(es.last().pos, p) < dist_sq(b.pos, p) {
                Some(es.last())
            } else {
                Some(b)
            },
        }
    }
}

/// The handle the Targeting Engine locks: the first-seen nearest enemy's,
/// or none when no enemy exists.
pub open spec fn nearest_target(es: Seq<Enemy>, p: Vec2) -> Option<u64> {
    match nearest_enemy(es, p) {
        None => None,
        Some(e) => Some(e.id),
    }
}

/// One run of the Targeting Engine: the tower's target is unconditionally
/// overwritten with the first-seen nearest enemy, cleared when none exists.
pub open spec fn targeting_step(m: Model) -> Model {
    Model { tower: Tower { target: nearest_target(m.enemies, m.tower.pos), ..m.tower }, ..m }
}

impl World {
    /// The Targeting Engine: a full rescan of the living enemies by squared
    /// Euclidean distance (squaring preserves the comparisons exactly).
    pub fn tower_choose_target(&mut self)
        requires
            wf_model(old(self)@),
        ensures
            final(self)@ == targeting_step(old(self)@),
            wf_model(final(self)@),
    {
        let ghost m0 = self@;
        let mut best: Option<u64> = None;
        let mut best_d: i128 = 0;
        let mut i: usize = 0;
        while i < self.enemies.len()
            invariant
                wf_model(m0),
                self@ == m0,
                i <= m0.enemies.len(),
                match nearest_enemy(m0.enemies.subrange(0, i as int), m0.tower.pos) {
                    None => best is None,
                    Some(e) => best == Some(e.id) && best_d == dist_sq(e.pos, m0.tower.pos),
                },
            decreases m0.enemies.len() - i,
        {
            let e = self.enemies[i];
            let d = dist_sq_at(e.pos, self.tower.pos);
            proof {
                assert(m0.enemies.subrange(0, i + 1).drop_last() =~= m0.enemies.subrange(
                    0,
                    i as int,
                ));
                assert(m0.enemies.subrange(0, i + 1).last() == m0.enemies[i as int]);
            }
            match best {
                None => {
                    best = Some(e.id);
                    best_d = d;
                },
                Some(_) => {
                    if d < best_d {
                        best = Some(e.id);
                        best_d = d;
                    }
                },
            }
            i = i + 1;
        }
        proof {
            assert(m0.enemies.subrange(0, m0.enemies.len() as int) =~= m0.enemies);
        }
        self.tower.target = best;
        proof {
            assert(self@ =~= targeting_step(old(self)@));
        }
    }
}

/// Resolve a handle against the living enemies: the first enemy carrying
/// it, or none — a destroyed enemy's handle resolves to nothing.
pub open spec fn find_enemy(es: Seq<Enemy>, id: u64) -> Option<Enemy>
    decreases es.len(),
{
    if es.len() == 0 {
        None
    } else if es[0].id == id {
        Some(es[0])
    } else {
        find_enemy(es.drop_first(), id)
    }
}

/// The projectile Fire Control creates: at the tower, headed toward where
/// the target stands now (a snapshot, never tracked), locked on it by
/// handle, under a fresh handle of its own.
pub open spec fn fired_projectile(m: Model, e: Enemy) -> Projectile {
    Projectile {
        id: m.next_id as u64,
        pos: m.tower.pos,
        dir: Vec2 {
            x: (e.pos.x - m.tower.pos.x) as i64,
            y: (e.pos.y - m.tower.pos.y) as i64,
        },
        speed: m.config.projectile_speed,
        target: e.id,
    }
}

/// One run of Fire Control: the cooldown always advances by `dt`; exactly
/// one projectile is created iff the tower holds a target handle, the handle
/// still resolves to a living enemy, that enemy is strictly nearer than the
/// tower's range, and the cooldown completed this tick. A handle that no
/// longer resolves skips the shot without error.
pub open spec fn fire_step(m: Model, dt: int) -> Model {
    let fired = timer_fires(m.tower.cooldown, dt);
    let base = Model { tower: Tower { cooldown: timer_after(m.tower.cooldown, dt), ..m.tower }, ..m };
    match m.tower.target {
        None => base,
        Some(id) => match find_enemy(m.enemies, id) {
            None => base,
            Some(e) => if dist_sq(e.pos, m.tower.pos) < m.tower.range * m.tower.range && fired {
                Model {
                    projectiles: m.projectiles.push(fired_projectile(m, e)),
                    next_id: m.next_id + 1,
                    ..base
                }
            } else {
                base
            },
        },
    }
}

/// Scan the enemies for a handle, first match wins.
fn find_enemy_at(es: &Vec<Enemy>, id: u64) -> (r: Option<usize>)
    ensures
        match r {
            Some(i) => i < es@.len() && es@[i as int].id == id && find_enemy(es@, id) == Some(
                es@[i as int],
            ),
            None => find_enemy(es@, id) is None,
        },
{
    let mut i: usize = 0;
    proof {
        assert(es@.skip(0) =~= es@);
    }
    while i < es.len()
        invariant
            i <= es@.len(),
            find_enemy(es@, id) == find_enemy(es@.skip(i as int), id),
            forall|j: int| 0 <= j < i ==> (#[trigger] es@[j]).id != id,
        decreases es@.len() - i,
    {
        proof {
            assert(es@.skip(i as int).len() > 0);
            assert(es@.skip(i as int)[0] == es@[i as int]);
            assert(es@.skip(i as int).drop_first() =~= es@.skip(i + 1));
        }
        if es[i].id == id {
            return Some(i);
        }
        i = i + 1;
    }
    proof {
        assert(es@.skip(es@.len() as int).len() == 0);
    }
    None
}

impl World {
    /// Fire Control. The cooldown ticks every call, target or not; zero
    /// living enemies can never yield a projectile.
    pub fn tower_shoot_target(&mut self, dt: u64)
        requires
            wf_model(old(self)@),
            dt <= DT_MAX,
            old(self)@.next_id < u64::MAX,
        ensures
            final(self)@ == fire_step(old(self)@, dt as int),
            wf_model(final(self)@),
            old(self)@.enemies.len() == 0 ==> final(self)@.projectiles == old(self)@.projectiles,
    {
        let ghost m0 = self@;
        let fired = tick_timer(&mut self.tower.cooldown, dt);
        match self.tower.target {
            None => {},
            Some(id) => {
                match find_enemy_at(&self.enemies, id) {
                    None => {},
                    Some(k) => {
                        let e = self.enemies[k];
                        let d = dist_sq_at(e.pos, self.tower.pos);
                        proof {
                            let rw = self.tower.range as i128;
                            assert(0 <= rw * rw <= 1_000_000_000_000_000_000) by (nonlinear_arith)
                                requires
                                    0 <= rw <= 1_000_000_000,
                            ;
                        }
                        let r2: i128 = (self.tower.range as i128) * (self.tower.range as i128);
                        if d < r2 && fired {
                            let dir = Vec2 {
                                x: e.pos.x - self.tower.pos.x,
                                y: e.pos.y - self.tower.pos.y,
                            };
                            proof {
                                lemma_diff_dir_bounded(e.pos, self.tower.pos, dir);
                            }
                            let p = Projectile {
                                id: self.next_id,
                                pos: self.tower.pos,
                                dir,
                                speed: self.config.projectile_speed,
                                target: id,
                            };
                            self.projectiles.push(p);
                            self.next_id = self.next_id + 1;
                        }
                    },
                }
            },
        }
        proof {
            assert(self@ =~= fire_step(m0, dt as int));
        }
    }
}

/// A projectile survives the collision pass iff its handle still resolves
/// and it does not overlap its target: an orphaned projectile is destroyed
/// immediately, a hitting one together with its target.
pub open spec fn proj_survives(p: Projectile, es: Seq<Enemy>, radius: int, half: int) -> bool {
    match find_enemy(es, p.target) {
        None => false,
        Some(e) => !circle_box_overlap(p.pos, radius, e.pos, half),
    }
}

/// No projectile locked on this enemy overlaps it.
pub open spec fn enemy_unhit(e: Enemy, ps: Seq<Projectile>, radius: int, half: int) -> bool {
    forall|i: int|
        0 <= i < ps.len() ==> !((#[trigger] ps[i]).target == e.id && circle_box_overlap(
            ps[i].pos,
            radius,
            e.pos,
            half,
        ))
}

/// The projectiles that survive the collision pass, in order.
pub open spec fn surviving_projectiles(
    ps: Seq<Projectile>,
    es: Seq<Enemy>,
    radius: int,
    half: int,
) -> Seq<Projectile>
    decreases ps.len(),
{
    if ps.len() == 0 {
        Seq::empty()
    } else {
        let rest = surviving_projectiles(ps.drop_last(), es, radius, half);
        if proj_survives(ps.last(), es, radius, half) {
            rest.push(ps.last())
        } else {
            rest
        }
    }
}

/// The enemies no projectile hits this pass, in order.
pub open spec fn surviving_enemies(
    es: Seq<Enemy>,
    ps: Seq<Projectile>,
    radius: int,
    half: int,
) -> Seq<Enemy>
    decreases es.len(),
{
    if es.len() == 0 {
        Seq::empty()
    } else {
        let rest = surviving_enemies(es.drop_last(), ps, radius, half);
        if enemy_unhit(es.last(), ps, radius, half) {
            rest.push(es.last())
        } else {
            rest
        }
    }
}

/// One run of the projectile half of the Collision Resolver, against a
/// snapshot of the state: each projectile resolves its handle and checks
/// circle-against-box overlap with its one target; a hit destroys both
/// members of the pair in the same step, an unresolvable handle destroys
/// the projectile alone.
pub open spec fn projectile_collision_step(m: Model) -> Model {
    let radius = m.config.projectile_radius as int;
    let half = m.config.enemy_half_extent as int;
    Model {
        enemies: surviving_enemies(m.enemies, m.projectiles, radius, half),
        projectiles: surviving_projectiles(m.projectiles, m.enemies, radius, half),
        ..m
    }
}

/// An enemy after the tower-overlap check: the collided flag is set when the
/// enemy's box overlaps the tower's, and is never cleared.
pub open spec fn flagged_enemy(e: Enemy, tpos: Vec2, eh: int, th: int) -> Enemy {
    Enemy { collided: e.collided || aabb_overlap(e.pos, eh, tpos, th), ..e }
}

/// One run of the tower half of the Collision Resolver: box-against-box
/// overlap flags the enemy; destruction is deferred to the sweep.
pub open spec fn tower_collision_step(m: Model) -> Model {
    Model {
        enemies: m.enemies.map_values(
            |e: Enemy|
                flagged_enemy(
                    e,
                    m.tower.pos,
                    m.config.enemy_half_extent as int,
                    m.config.tower_half_extent as int,
                ),
        ),
        ..m
    }
}

/// The enemies the sweep keeps: those not flagged as collided.
pub open spec fn remaining_enemies(es: Seq<Enemy>) -> Seq<Enemy>
    decreases es.len(),
{
    if es.len() == 0 {
        Seq::empty()
    } else {
        let rest = remaining_enemies(es.drop_last());
        if !es.last().collided {
            rest.push(es.last())
        } else {
            rest
        }
    }
}

/// One run of the Lifecycle Sweeper: every enemy flagged as collided is
/// destroyed, strictly after the tower-overlap check.
pub open spec fn sweep_step(m: Model) -> Model {
    Model { enemies: remaining_enemies(m.enemies), ..m }
}

/// Does any projectile locked on this enemy overlap it?
fn any_projectile_hits(ps: &Vec<Projectile>, e: Enemy, radius: i64, half: i64) -> (hit: bool)
    requires
        forall|i: int| 0 <= i < ps@.len() ==> wf_projectile(#[trigger] ps@[i]),
        in_play(e.pos),
        0 <= radius <= crate::HALF_LIMIT,
        0 <= half <= crate::HALF_LIMIT,
    ensures
        hit == !enemy_unhit(e, ps@, radius as int, half as int),
{
    let mut i: usize = 0;
    while i < ps.len()
        invariant
            i <= ps@.len(),
            forall|i: int| 0 <= i < ps@.len() ==> wf_projectile(#[trigger] ps@[i]),
            in_play(e.pos),
            0 <= radius <= crate::HALF_LIMIT,
            0 <= half <= crate::HALF_LIMIT,
            forall|j: int|
                0 <= j < i ==> !((#[trigger] ps@[j]).target == e.id && circle_box_overlap(
                    ps@[j].pos,
                    radius as int,
                    e.pos,
                    half as int,
                )),
        decreases ps@.len() - i,
    {
        let p = ps[i];
        if p.target == e.id && circle_box_overlap_at(p.pos, radius, e.pos, half) {
            return true;
        }
        i = i + 1;
    }
    false
}

impl World {
    /// The projectile half of the Collision Resolver, then the pairwise
    /// removals, all decided against the pre-pass snapshot.
    pub fn check_projectile_collision(&mut self)
        requires
            wf_model(old(self)@),
        ensures
            final(self)@ == projectile_collision_step(old(self)@),
            wf_model(final(self)@),
    {
        let ghost m0 = self@;
        let radius = self.config.projectile_radius;
        let half = self.config.enemy_half_extent;
        let mut kept_ps: Vec<Projectile> = Vec::new();
        let mut i: usize = 0;
        while i < self.projectiles.len()
            invariant
                wf_model(m0),
                self@ == m0,
                radius == m0.config.projectile_radius,
                half == m0.config.enemy_half_extent,
                i <= m0.projectiles.len(),
                kept_ps@ == surviving_projectiles(
                    m0.projectiles.subrange(0, i as int),
                    m0.enemies,
                    radius as int,
                    half as int,
                ),
            decreases m0.projectiles.len() - i,
        {
            let p = self.projectiles[i];
            let keep: bool = match find_enemy_at(&self.enemies, p.target) {
                None => false,
                Some(k) => {
                    let e = self.enemies[k];
                    !circle_box_overlap_at(p.pos, radius, e.pos, half)
                },
            };
            if keep {
                kept_ps.push(p);
            }
            proof {
                assert(m0.projectiles.subrange(0, i + 1).drop_last() =~= m0.projectiles.subrange(
                    0,
                    i as int,
                ));
                assert(m0.projectiles.subrange(0, i + 1).last() == m0.projectiles[i as int]);
            }
            i = i + 1;
        }
        let mut kept_es: Vec<Enemy> = Vec::new();
        let mut j: usize = 0;
        while j < self.enemies.len()
            invariant
                wf_model(m0),
                self@ == m0,
                radius == m0.config.projectile_radius,
                half == m0.config.enemy_half_extent,
                j <= m0.enemies.len(),
                kept_es@ == surviving_enemies(
                    m0.enemies.subrange(0, j as int),
                    m0.projectiles,
                    radius as int,
                    half as int,
                ),
            decreases m0.enemies.len() - j,
        {
            let e = self.enemies[j];
            let hit = any_projectile_hits(&self.projectiles, e, radius, half);
            if !hit {
                kept_es.push(e);
            }
            proof {
                assert(m0.enemies.subrange(0, j + 1).drop_last() =~= m0.enemies.subrange(
                    0,
                    j as int,
                ));
                assert(m0.enemies.subrange(0, j + 1).last() == m0.enemies[j as int]);
            }
            j = j + 1;
        }
        self.projectiles = kept_ps;
        self.enemies = kept_es;
        proof {
            assert(m0.projectiles.subrange(0, m0.projectiles.len() as int) =~= m0.projectiles);
            assert(m0.enemies.subrange(0, m0.enemies.len() as int) =~= m0.enemies);
            assert(self@ =~= projectile_collision_step(m0));
            lemma_surviving_projectiles_wf(
                m0.projectiles,
                m0.enemies,
                m0.config.projectile_radius as int,
                m0.config.enemy_half_extent as int,
                m0.next_id,
            );
            lemma_surviving_enemies_wf(
                m0.enemies,
                m0.projectiles,
                m0.config.projectile_radius as int,
                m0.config.enemy_half_extent as int,
                m0.next_id,
            );
        }
    }

    /// The tower half of the Collision Resolver: enemies that reach the
    /// tower are flagged, not yet destroyed.
    pub fn check_enemy_player_collision(&mut self)
        requires
            wf_model(old(self)@),
        ensures
            final(self)@ == tower_collision_step(old(self)@),
            wf_model(final(self)@),
    {
        let ghost m0 = self@;
        let half = self.config.enemy_half_extent;
        let thalf = self.config.tower_half_extent;
        let mut flagged: Vec<Enemy> = Vec::new();
        let mut i: usize = 0;
        while i < self.enemies.len()
            invariant
                wf_model(m0),
                self@ == m0,
                half == m0.config.enemy_half_extent,
                thalf == m0.config.tower_half_extent,
                i <= m0.enemies.len(),
                flagged@.len() == i as int,
                forall|j: int|
                    0 <= j < i ==> flagged@[j] == flagged_enemy(
                        #[trigger] m0.enemies[j],
                        m0.tower.pos,
                        half as int,
                        thalf as int,
                    ),
            decreases m0.enemies.len() - i,
        {
            let e = self.enemies[i];
            let overlap = aabb_overlap_at(e.pos, half, self.tower.pos, thalf);
            let c = e.collided || overlap;
            flagged.push(Enemy { collided: c, ..e });
            i = i + 1;
        }
        self.enemies = flagged;
        proof {
            assert(self@.enemies =~= m0.enemies.map_values(
                |e: Enemy|
                    flagged_enemy(
                        e,
                        m0.tower.pos,
                        m0.config.enemy_half_extent as int,
                        m0.config.tower_half_extent as int,
                    ),
            ));
            assert(self@ =~= tower_collision_step(m0));
        }
    }

    /// The Lifecycle Sweeper: destroys every enemy whose collided flag is
    /// set.
    pub fn despawn_collided_enemies(&mut self)
        requires
            wf_model(old(self)@),
        ensures
            final(self)@ == sweep_step(old(self)@),
            wf_model(final(self)@),
    {
        let ghost m0 = self@;
        let mut kept: Vec<Enemy> = Vec::new();
        let mut i: usize = 0;
        while i < self.enemies.len()
            invariant
                wf_model(m0),
                self@ == m0,
                i <= m0.enemies.len(),
                kept@ == remaining_enemies(m0.enemies.subrange(0, i as int)),
            decreases m0.enemies.len() - i,
        {
            let e = self.enemies[i];
            if !e.collided {
                kept.push(e);
            }
            proof {
                assert(m0.enemies.subrange(0, i + 1).drop_last() =~= m0.enemies.subrange(
                    0,
                    i as int,
                ));
                assert(m0.enemies.subrange(0, i + 1).last() == m0.enemies[i as int]);
            }
            i = i + 1;
        }
        self.enemies = kept;
        proof {
            assert(m0.enemies.subrange(0, m0.enemies.len() as int) =~= m0.enemies);
            assert(self@ =~= sweep_step(m0));
            lemma_remaining_enemies_wf(m0.enemies, m0.next_id);
        }
    }
}

/// One whole tick: the five stage-groups in their fixed order — Spawner;
/// Motion Integrator over enemies; Targeting Engine then Fire Control;
/// Motion Integrator over projectiles then projectile collision; tower
/// collision then the Lifecycle Sweeper.
pub open spec fn tick_step(m: Model, dt: int, vw: int, vh: int, rx: int, ry: int) -> Model {
    let m1 = spawn_step(m, dt, vw, vh, rx, ry);
    let m2 = move_enemies_step(m1, dt);
    let m3 = targeting_step(m2);
    let m4 = fire_step(m3, dt);
    let m5 = move_projectiles_step(m4, dt);
    let m6 = projectile_collision_step(m5);
    let m7 = tower_collision_step(m6);
    sweep_step(m7)
}

impl World {
    /// One simulation tick, deterministic in the sampled offsets `(rx, ry)`.
    pub fn tick(&mut self, dt: u64, vw: i64, vh: i64, rx: i64, ry: i64)
        requires
            wf_model(old(self)@),
            dt <= DT_MAX,
            0 <= vw <= VIEW_LIMIT,
            0 <= vh <= VIEW_LIMIT,
            old(self)@.next_id < u64::MAX - 1,
        ensures
            final(self)@ == tick_step(
                old(self)@,
                dt as int,
                vw as int,
                vh as int,
                rx as int,
                ry as int,
            ),
            wf_model(final(self)@),
    {
        self.spawn_enemy(dt, vw, vh, rx, ry);
        self.update_enemy_position(dt);
        self.tower_choose_target();
        self.tower_shoot_target(dt);
        self.update_projectiles_position(dt);
        self.check_projectile_collision();
        self.check_enemy_player_collision();
        self.despawn_collided_enemies();
    }

    /// One simulation tick with the offsets drawn from the thread-local
    /// generator: whatever is drawn, the tick is a `tick_step` for offsets
    /// within the sampled range.
    pub fn tick_random(&mut self, dt: u64, vw: i64, vh: i64)
        requires
            wf_model(old(self)@),
            dt <= DT_MAX,
            0 <= vw <= VIEW_LIMIT,
            0 <= vh <= VIEW_LIMIT,
            old(self)@.next_id < u64::MAX - 1,
        ensures
            exists|rx: int, ry: int|
                -100_000 <= rx < 100_000 && -100_000 <= ry < 100_000 && final(self)@ == tick_step(
                    old(self)@,
                    dt as int,
                    vw as int,
                    vh as int,
                    rx,
                    ry,
                ),
            wf_model(final(self)@),
    {
        let mut rng = crate::rng::thread_rng_handle();
        let rx = crate::rng::gen_spawn_offset(&mut rng);
        let ry = crate::rng::gen_spawn_offset(&mut rng);
        self.tick(dt, vw, vh, rx, ry);
        proof {
            let rxi = rx as int;
            let ryi = ry as int;
            assert(-100_000 <= rxi < 100_000);
            assert(-100_000 <= ryi < 100_000);
            assert(self@ == tick_step(old(self)@, dt as int, vw as int, vh as int, rxi, ryi));
        }
    }
}

/// Every surviving projectile is one of the originals.
pub proof fn lemma_surviving_projectiles_contains(
    ps: Seq<Projectile>,
    es: Seq<Enemy>,
    radius: int,
    half: int,
    j: int,
)
    requires
        0 <= j < surviving_projectiles(ps, es, radius, half).len(),
    ensures
        ps.contains(surviving_projectiles(ps, es, radius, half)[j]),
    decreases ps.len(),
{
    let r = surviving_projectiles(ps, es, radius, half);
    if ps.len() > 0 {
        let rest = surviving_projectiles(ps.drop_last(), es, radius, half);
        if j < rest.len() {
            lemma_surviving_projectiles_contains(ps.drop_last(), es, radius, half, j);
            let k = choose|k: int| 0 <= k < ps.drop_last().len() && ps.drop_last()[k] == rest[j];
            assert(ps[k] == r[j]);
        } else {
            assert(ps[ps.len() - 1] == r[j]);
        }
    }
}

/// The collision pass keeps the projectiles well formed and their handles
/// ordered and fresh.
pub proof fn lemma_surviving_projectiles_wf(
    ps: Seq<Projectile>,
    es: Seq<Enemy>,
    radius: int,
    half: int,
    n: int,
)
    requires
        forall|i: int| 0 <= i < ps.len() ==> wf_projectile(#[trigger] ps[i]),
        projectile_ids_increasing(ps),
        projectile_ids_below(ps, n),
    ensures
        forall|i: int|
            0 <= i < surviving_projectiles(ps, es, radius, half).len() ==> wf_projectile(
                #[trigger] surviving_projectiles(ps, es, radius, half)[i],
            ),
        projectile_ids_increasing(surviving_projectiles(ps, es, radius, half)),
        projectile_ids_below(surviving_projectiles(ps, es, radius, half), n),
    decreases ps.len(),
{
    let r = surviving_projectiles(ps, es, radius, half);
    if ps.len() > 0 {
        lemma_surviving_projectiles_wf(ps.drop_last(), es, radius, half, n);
        let rest = surviving_projectiles(ps.drop_last(), es, radius, half);
        if proj_survives(ps.last(), es, radius, half) {
            assert forall|i: int| 0 <= i < rest.len() implies rest[i].id < ps.last().id by {
                lemma_surviving_projectiles_contains(ps.drop_last(), es, radius, half, i);
                let k = choose|k: int|
                    0 <= k < ps.drop_last().len() && ps.drop_last()[k] == rest[i];
                assert(ps[k] == rest[i]);
            }
        }
    }
}

/// Every surviving enemy is one of the originals.
pub proof fn lemma_surviving_enemies_contains(
    es: Seq<Enemy>,
    ps: Seq<Projectile>,
    radius: int,
    half: int,
    j: int,
)
    requires
        0 <= j < surviving_enemies(es, ps, radius, half).len(),
    ensures
        es.contains(surviving_enemies(es, ps, radius, half)[j]),
    decreases es.len(),
{
    let r = surviving_enemies(es, ps, radius, half);
    if es.len() > 0 {
        let rest = surviving_enemies(es.drop_last(), ps, radius, half);
        if j < rest.len() {
            lemma_surviving_enemies_contains(es.drop_last(), ps, radius, half, j);
            let k = choose|k: int| 0 <= k < es.drop_last().len() && es.drop_last()[k] == rest[j];
            assert(es[k] == r[j]);
        } else {
            assert(es[es.len() - 1] == r[j]);
        }
    }
}

/// The collision pass keeps the enemies well formed and their handles
/// ordered and fresh.
pub proof fn lemma_surviving_enemies_wf(
    es: Seq<Enemy>,
    ps: Seq<Projectile>,
    radius: int,
    half: int,
    n: int,
)
    requires
        forall|i: int| 0 <= i < es.len() ==> wf_enemy(#[trigger] es[i]),
        enemy_ids_increasing(es),
        enemy_ids_below(es, n),
    ensures
        forall|i: int|
            0 <= i < surviving_enemies(es, ps, radius, half).len() ==> wf_enemy(
                #[trigger] surviving_enemies(es, ps, radius, half)[i],
            ),
        enemy_ids_increasing(surviving_enemies(es, ps, radius, half)),
        enemy_ids_below(surviving_enemies(es, ps, radius, half), n),
    decreases es.len(),
{
    let r = surviving_enemies(es, ps, radius, half);
    if es.len() > 0 {
        lemma_surviving_enemies_wf(es.drop_last(), ps, radius, half, n);
        let rest = surviving_enemies(es.drop_last(), ps, radius, half);
        if enemy_unhit(es.last(), ps, radius, half) {
            assert forall|i: int| 0 <= i < rest.len() implies rest[i].id < es.last().id by {
                lemma_surviving_enemies_contains(es.drop_last(), ps, radius, half, i);
                let k = choose|k: int|
                    0 <= k < es.drop_last().len() && es.drop_last()[k] == rest[i];
                assert(es[k] == rest[i]);
            }
        }
    }
}

/// Every enemy the sweep keeps is one of the originals.
pub proof fn lemma_remaining_enemies_contains(es: Seq<Enemy>, j: int)
    requires
        0 <= j < remaining_enemies(es).len(),
    ensures
        es.contains(remaining_enemies(es)[j]),
    decreases es.len(),
{
    let r = remaining_enemies(es);
    if es.len() > 0 {
        let rest = remaining_enemies(es.drop_last());
        if j < rest.len() {
            lemma_remaining_enemies_contains(es.drop_last(), j);
            let k = choose|k: int| 0 <= k < es.drop_last().len() && es.drop_last()[k] == rest[j];
            assert(es[k] == r[j]);
        } else {
            assert(es[es.len() - 1] == r[j]);
        }
    }
}

/// The sweep keeps the enemies well formed and their handles ordered and
/// fresh.
pub proof fn lemma_remaining_enemies_wf(es: Seq<Enemy>, n: int)
    requires
        forall|i: int| 0 <= i < es.len() ==> wf_enemy(#[trigger] es[i]),
        enemy_ids_increasing(es),
        enemy_ids_below(es, n),
    ensures
        forall|i: int|
            0 <= i < remaining_enemies(es).len() ==> wf_enemy(#[trigger] remaining_enemies(es)[i]),
        enemy_ids_increasing(remaining_enemies(es)),
        enemy_ids_below(remaining_enemies(es), n),
    decreases es.len(),
{
    let r = remaining_enemies(es);
    if es.len() > 0 {
        lemma_remaining_enemies_wf(es.drop_last(), n);
        let rest = remaining_enemies(es.drop_last());
        if !es.last().collided {
            assert forall|i: int| 0 <= i < rest.len() implies rest[i].id < es.last().id by {
                lemma_remaining_enemies_contains(es.drop_last(), i);
                let k = choose|k: int|
                    0 <= k < es.drop_last().len() && es.drop_last()[k] == rest[i];
                assert(es[k] == rest[i]);
            }
        }
    }
}

} // verus!
