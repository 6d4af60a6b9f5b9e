use tower_sim::num::{isqrt, clamp_i64};
use tower_sim::geom::{Vec2, dist_sq_at, aabb_overlap_at, circle_box_overlap_at, advance_pos,
    spawn_pos_at};
use tower_sim::entities::TimerState;
use tower_sim::entities::tick_timer;

#[test]
fn isqrt_small_values() {
    assert_eq!(isqrt(0), 0);
    assert_eq!(isqrt(1), 1);
    assert_eq!(isqrt(2), 1);
    assert_eq!(isqrt(3), 1);
    assert_eq!(isqrt(4), 2);
    assert_eq!(isqrt(99), 9);
    assert_eq!(isqrt(100), 10);
}

#[test]
fn isqrt_large_values() {
    assert_eq!(isqrt(1_000_000_000_000_000_000_000_000), 1_000_000_000_000);
    assert_eq!(isqrt(u128::MAX), 18_446_744_073_709_551_615);
}

#[test]
fn clamp_within_and_outside() {
    assert_eq!(clamp_i64(5, 0, 10), 5);
    assert_eq!(clamp_i64(-5, 0, 10), 0);
    assert_eq!(clamp_i64(15, 0, 10), 10);
}

#[test]
fn squared_distance_exact() {
    let a = Vec2 { x: 3000, y: 4000 };
    let b = Vec2 { x: 0, y: 0 };
    assert_eq!(dist_sq_at(a, b), 25_000_000);
}

#[test]
fn box_overlap_touching_counts() {
    let a = Vec2 { x: 0, y: 0 };
    let b = Vec2 { x: 25_000, y: 0 };
    assert!(aabb_overlap_at(a, 20_000, b, 5_000));
    let c = Vec2 { x: 25_001, y: 0 };
    assert!(!aabb_overlap_at(a, 20_000, c, 5_000));
}

#[test]
fn circle_box_overlap_boundary() {
    let boxc = Vec2 { x: 0, y: 0 };
    let at = Vec2 { x: 7_600, y: 0 };
    assert!(circle_box_overlap_at(at, 2_600, boxc, 5_000));
    let beyond = Vec2 { x: 7_601, y: 0 };
    assert!(!circle_box_overlap_at(beyond, 2_600, boxc, 5_000));
}

#[test]
fn circle_inside_box_overlaps() {
    let boxc = Vec2 { x: 10_000, y: 100 };
    let at = Vec2 { x: 10_000, y: 0 };
    assert!(circle_box_overlap_at(at, 2_500, boxc, 5_000));
}

#[test]
fn advance_along_axis() {
    let p = Vec2 { x: 0, y: 0 };
    let d = Vec2 { x: 1_000, y: 0 };
    let r = advance_pos(p, d, 100, 10);
    assert_eq!(r, Vec2 { x: 1_000, y: 0 });
}

#[test]
fn advance_diagonal_rounds_down() {
    let p = Vec2 { x: 100, y: 200 };
    let d = Vec2 { x: 3_000, y: 4_000 };
    let r = advance_pos(p, d, 100, 10);
    assert_eq!(r, Vec2 { x: 700, y: 1_000 });
}

#[test]
fn advance_zero_direction_stays_put() {
    let p = Vec2 { x: 42, y: -7 };
    let d = Vec2 { x: 0, y: 0 };
    let r = advance_pos(p, d, 100, 1_000);
    assert_eq!(r, p);
}

#[test]
fn advance_negative_direction() {
    let p = Vec2 { x: 0, y: 0 };
    let d = Vec2 { x: -1_000, y: 0 };
    let r = advance_pos(p, d, 100, 10);
    assert_eq!(r, Vec2 { x: -1_000, y: 0 });
}

#[test]
fn spawn_position_off_screen() {
    let r = spawn_pos_at(1_000_000, 500_000, 100, 0);
    assert_eq!(r, Vec2 { x: 1_500_000, y: 250_000 });
}

#[test]
fn spawn_position_negative_offset() {
    let r = spawn_pos_at(1_000_000, 500_000, 0, -50);
    assert_eq!(r, Vec2 { x: 500_000, y: -250_000 });
}

#[test]
fn spawn_position_zero_offset_falls_back() {
    let r = spawn_pos_at(1_000_000, 500_000, 0, 0);
    assert_eq!(r, Vec2 { x: 1_500_000, y: 250_000 });
}

#[test]
fn timer_wraps_on_completion() {
    let mut t = TimerState { elapsed: 150, interval: 200 };
    let fired = tick_timer(&mut t, 75);
    assert!(fired);
    assert_eq!(t.elapsed, 25);
    assert_eq!(t.interval, 200);
}

#[test]
fn timer_accumulates_before_completion() {
    let mut t = TimerState { elapsed: 0, interval: 200 };
    let fired = tick_timer(&mut t, 199);
    assert!(!fired);
    assert_eq!(t.elapsed, 199);
}

#[test]
fn timer_fires_exactly_at_interval() {
    let mut t = TimerState { elapsed: 100, interval: 200 };
    let fired = tick_timer(&mut t, 100);
    assert!(fired);
    assert_eq!(t.elapsed, 0);
}
