use tower_sim::entities::{Config, Enemy, Projectile};
use tower_sim::geom::Vec2;
use tower_sim::world::World;

fn world() -> World {
    World::new(Config::default())
}

fn enemy_at(id: u64, x: i64, y: i64) -> Enemy {
    Enemy {
        id,
        pos: Vec2 { x, y },
        dir: Vec2 { x: -x, y: -y },
        speed: 100,
        collided: false,
    }
}

#[test]
fn tower_alone_at_origin() {
    let w = world();
    assert_eq!(w.tower.pos, Vec2 { x: 0, y: 0 });
    assert_eq!(w.tower.range, 200_000);
    assert!(w.tower.target.is_none());
    assert!(w.enemies.is_empty());
    assert!(w.projectiles.is_empty());
}

#[test]
fn tower_persists_across_ticks() {
    let mut w = world();
    for _ in 0..10 {
        w.tick(16, 1_000_000, 500_000, 37, -91);
    }
    assert_eq!(w.tower.pos, Vec2 { x: 0, y: 0 });
    assert_eq!(w.tower.range, 200_000);
}

#[test]
fn spawner_creates_one_enemy_per_interval() {
    let mut w = world();
    w.spawn_enemy(1_999, 1_000_000, 500_000, 100, 0);
    assert_eq!(w.enemies.len(), 0);
    w.spawn_enemy(1, 1_000_000, 500_000, 100, 0);
    assert_eq!(w.enemies.len(), 1);
    let e = &w.enemies[0];
    assert_eq!(e.pos, Vec2 { x: 1_500_000, y: 250_000 });
    assert_eq!(e.dir, Vec2 { x: -1_500_000, y: -250_000 });
    assert_eq!(e.speed, 100);
    assert!(!e.collided);
}

#[test]
fn enemy_direction_fixed_while_moving() {
    let mut w = world();
    w.enemies.push(enemy_at(0, 150_000, 80_000));
    w.next_id = 1;
    let dir_before = w.enemies[0].dir;
    let pos_before = w.enemies[0].pos;
    w.tick(16, 1_000_000, 500_000, 0, 0);
    let moved: Vec<&Enemy> = w.enemies.iter().filter(|e| e.id == 0).collect();
    assert_eq!(moved.len(), 1);
    assert_eq!(moved[0].dir, dir_before);
    assert_ne!(moved[0].pos, pos_before);
}

#[test]
fn targeting_picks_nearest_enemy() {
    let mut w = world();
    w.enemies.push(enemy_at(0, 150_000, 0));
    w.enemies.push(enemy_at(1, 50_000, 0));
    w.next_id = 2;
    w.tower_choose_target();
    assert_eq!(w.tower.target, Some(1));
}

#[test]
fn targeting_tie_first_seen_wins() {
    let mut w = world();
    w.enemies.push(enemy_at(0, 100_000, 0));
    w.enemies.push(enemy_at(1, -100_000, 0));
    w.next_id = 2;
    w.tower_choose_target();
    assert_eq!(w.tower.target, Some(0));
}

#[test]
fn targeting_clears_without_enemies() {
    let mut w = world();
    w.tower.target = Some(7);
    w.tower_choose_target();
    assert_eq!(w.tower.target, None);
}

#[test]
fn targeting_twice_same_result() {
    let mut w = world();
    w.enemies.push(enemy_at(0, 120_000, -30_000));
    w.enemies.push(enemy_at(1, 90_000, 10_000));
    w.next_id = 2;
    w.tower_choose_target();
    let first = w.tower.target;
    w.tower_choose_target();
    assert_eq!(w.tower.target, first);
}

#[test]
fn fire_control_shoots_enemy_in_range() {
    let mut w = world();
    w.enemies.push(enemy_at(3, 150_000, 0));
    w.next_id = 4;
    w.tower_choose_target();
    w.tower_shoot_target(200);
    assert_eq!(w.projectiles.len(), 1);
    let p = &w.projectiles[0];
    assert_eq!(p.target, 3);
    assert_eq!(p.pos, Vec2 { x: 0, y: 0 });
    assert_eq!(p.dir, Vec2 { x: 150_000, y: 0 });
    assert_eq!(p.speed, 100);
    assert_eq!(w.enemies[0].dir, Vec2 { x: -150_000, y: 0 });
}

#[test]
fn fire_control_respects_range_strictly() {
    let mut w = world();
    w.enemies.push(enemy_at(0, 200_000, 0));
    w.next_id = 1;
    w.tower_choose_target();
    w.tower_shoot_target(200);
    assert_eq!(w.projectiles.len(), 0);
    let mut w2 = world();
    w2.enemies.push(enemy_at(0, 199_999, 0));
    w2.next_id = 1;
    w2.tower_choose_target();
    w2.tower_shoot_target(200);
    assert_eq!(w2.projectiles.len(), 1);
}

#[test]
fn fire_control_waits_for_cooldown() {
    let mut w = world();
    w.enemies.push(enemy_at(0, 100_000, 0));
    w.next_id = 1;
    w.tower_choose_target();
    w.tower_shoot_target(199);
    assert_eq!(w.projectiles.len(), 0);
    w.tower_shoot_target(1);
    assert_eq!(w.projectiles.len(), 1);
}

#[test]
fn fire_control_never_fires_without_enemies() {
    let mut w = world();
    w.tower.target = Some(9);
    w.tower.cooldown.elapsed = 199;
    w.tower_shoot_target(10_000);
    assert_eq!(w.projectiles.len(), 0);
}

#[test]
fn fire_control_skips_stale_handle() {
    let mut w = world();
    w.enemies.push(enemy_at(5, 100_000, 0));
    w.next_id = 6;
    w.tower.target = Some(2);
    w.tower_shoot_target(200);
    assert_eq!(w.projectiles.len(), 0);
}

#[test]
fn enemy_reaching_tower_is_flagged_and_swept() {
    let mut w = world();
    w.enemies.push(enemy_at(0, 5_000, 5_000));
    w.next_id = 1;
    w.check_enemy_player_collision();
    assert_eq!(w.enemies.len(), 1);
    assert!(w.enemies[0].collided);
    w.despawn_collided_enemies();
    assert!(w.enemies.is_empty());
}

#[test]
fn distant_enemy_is_not_flagged() {
    let mut w = world();
    w.enemies.push(enemy_at(0, 25_001, 0));
    w.next_id = 1;
    w.check_enemy_player_collision();
    assert!(!w.enemies[0].collided);
    w.despawn_collided_enemies();
    assert_eq!(w.enemies.len(), 1);
}

#[test]
fn projectile_hit_destroys_both() {
    let mut w = world();
    w.enemies.push(enemy_at(1, 10_000, 100));
    w.projectiles.push(Projectile {
        id: 2,
        pos: Vec2 { x: 10_000, y: 0 },
        dir: Vec2 { x: 0, y: 100 },
        speed: 100,
        target: 1,
    });
    w.next_id = 3;
    w.check_projectile_collision();
    assert!(w.enemies.is_empty());
    assert!(w.projectiles.is_empty());
}

#[test]
fn projectile_missing_target_is_destroyed() {
    let mut w = world();
    w.projectiles.push(Projectile {
        id: 2,
        pos: Vec2 { x: 10_000, y: 0 },
        dir: Vec2 { x: 1, y: 0 },
        speed: 100,
        target: 99,
    });
    w.next_id = 3;
    w.check_projectile_collision();
    assert!(w.projectiles.is_empty());
}

#[test]
fn projectile_far_from_target_survives() {
    let mut w = world();
    w.enemies.push(enemy_at(1, 100_000, 0));
    w.projectiles.push(Projectile {
        id: 2,
        pos: Vec2 { x: 0, y: 0 },
        dir: Vec2 { x: 1, y: 0 },
        speed: 100,
        target: 1,
    });
    w.next_id = 3;
    w.check_projectile_collision();
    assert_eq!(w.enemies.len(), 1);
    assert_eq!(w.projectiles.len(), 1);
}

#[test]
fn full_tick_tracks_and_destroys() {
    let mut w = world();
    w.enemies.push(enemy_at(0, 10_000, 100));
    w.projectiles.push(Projectile {
        id: 1,
        pos: Vec2 { x: 9_000, y: 0 },
        dir: Vec2 { x: 1_000, y: 0 },
        speed: 100,
        target: 0,
    });
    w.next_id = 2;
    // the projectile moves onto its target this tick and both are removed
    w.tick(10, 1_000_000, 500_000, 0, 0);
    assert!(w.projectiles.iter().all(|p| p.id != 1));
    assert!(w.enemies.iter().all(|e| e.id != 0));
}

#[test]
fn pairwise_removal_is_decided_against_the_snapshot() {
    // two projectiles locked on one enemy: the overlapping one and the enemy
    // go in the same pass; the distant one survives the pass, is orphaned,
    // and is destroyed by the next pass
    let mut w = world();
    w.enemies.push(enemy_at(1, 10_000, 0));
    w.projectiles.push(Projectile {
        id: 2,
        pos: Vec2 { x: 10_000, y: 0 },
        dir: Vec2 { x: 1, y: 0 },
        speed: 100,
        target: 1,
    });
    w.projectiles.push(Projectile {
        id: 3,
        pos: Vec2 { x: 500_000, y: 0 },
        dir: Vec2 { x: 1, y: 0 },
        speed: 100,
        target: 1,
    });
    w.next_id = 4;
    w.check_projectile_collision();
    assert!(w.enemies.is_empty());
    assert_eq!(w.projectiles.len(), 1);
    assert_eq!(w.projectiles[0].id, 3);
    w.check_projectile_collision();
    assert!(w.projectiles.is_empty());
}

#[test]
fn sweep_keeps_survivors_in_order() {
    let mut w = world();
    for (id, x) in [(0u64, 100_000i64), (1, 110_000), (2, 120_000), (3, 130_000)] {
        w.enemies.push(enemy_at(id, x, 0));
    }
    w.next_id = 4;
    w.enemies[0].collided = true;
    w.enemies[2].collided = true;
    w.despawn_collided_enemies();
    let ids: Vec<u64> = w.enemies.iter().map(|e| e.id).collect();
    assert_eq!(ids, vec![1, 3]);
}

#[test]
fn random_tick_spawns_within_band() {
    // isolate the spawner: motionless enemies and a cooldown far longer
    // than the tick, so whatever the draw, the tick only spawns
    let mut config = Config::default();
    config.enemy_speed = 0;
    config.fire_interval = 1_000_000_000;
    let mut w = World::new(config);
    w.tick_random(2_000, 1_000_000, 500_000);
    assert_eq!(w.enemies.len(), 1);
    assert_eq!(w.next_id, 1);
    let e = &w.enemies[0];
    assert_eq!(e.id, 0);
    assert!(e.pos.x >= 500_000 - 1_000_000 && e.pos.x <= 500_000 + 1_000_000);
    assert!(e.pos.y >= 250_000 - 500_000 && e.pos.y <= 250_000 + 500_000);
    assert_eq!(e.dir, Vec2 { x: -e.pos.x, y: -e.pos.y });
}
