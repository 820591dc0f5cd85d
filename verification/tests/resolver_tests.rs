use platform_core::aabb::IAabb;
use platform_core::components::{Actor, CollisionStatus, Dynamic, Static};
use platform_core::resolver::{is_intersect, resolve_collisions};
use platform_core::vec2::{FxVec2, IVec2, SCALE};

fn actor(vx: i64, vy: i64, dpx: i64, dpy: i64) -> Actor {
    Actor {
        max_speed: 2_000 * SCALE,
        acceleration: FxVec2::zero(),
        velocity: FxVec2::new(vx, vy),
        dp: FxVec2::new(dpx, dpy),
        collision: CollisionStatus::FreeFall,
    }
}

fn body(hx: i32, hy: i32, x: i32, y: i32) -> Dynamic {
    Dynamic { aabb: IAabb::new(IVec2::new(hx, hy), IVec2::new(x, y)) }
}

fn wall(hx: i32, hy: i32, x: i32, y: i32) -> Static {
    Static { aabb: IAabb::new(IVec2::new(hx, hy), IVec2::new(x, y)) }
}

#[test]
fn store_query_finds_any_overlap() {
    let statics = vec![wall(10, 10, 100, 0), wall(10, 10, 0, 0)];
    let probe = IAabb::new(IVec2::new(5, 5), IVec2::new(3, 3));
    assert!(is_intersect(&probe, &statics));
    let far = IAabb::new(IVec2::new(5, 5), IVec2::new(50, 50));
    assert!(!is_intersect(&far, &statics));
    assert!(!is_intersect(&probe, &Vec::<Static>::new()));
}

#[test]
fn sub_unit_motion_is_a_no_op() {
    let statics = vec![wall(10, 10, 25, 0)];
    let mut a = actor(5 * SCALE, -3 * SCALE, 900, -999);
    let mut d = body(10, 10, 0, 0);
    resolve_collisions(&mut a, &mut d, &statics);
    assert_eq!(d.aabb.position, IVec2::new(0, 0));
    assert_eq!(a.velocity, FxVec2::new(5 * SCALE, -3 * SCALE));
    assert_eq!(a.dp, FxVec2::new(900, -999));
    assert_eq!(a.collision, CollisionStatus::FreeFall);
}

#[test]
fn free_flight_is_lossless() {
    let statics: Vec<Static> = Vec::new();
    let mut a = actor(7 * SCALE, 0, 10 * SCALE, 9_900);
    let mut d = body(10, 10, 0, 0);
    resolve_collisions(&mut a, &mut d, &statics);
    // Ten whole units along the major axis, the truncated scaled share
    // (9900 * 10 / 10000 = 9 units) along the minor one.
    assert_eq!(d.aabb.position, IVec2::new(10, 9));
    assert_eq!(a.dp, FxVec2::new(0, 900));
    assert_eq!(a.velocity, FxVec2::new(7 * SCALE, 0));
    assert_eq!(a.collision, CollisionStatus::FreeFall);
}

#[test]
fn free_flight_negative_diagonal() {
    let statics: Vec<Static> = Vec::new();
    let mut a = actor(0, 0, -5 * SCALE, -20 * SCALE);
    let mut d = body(10, 10, 3, 4);
    resolve_collisions(&mut a, &mut d, &statics);
    // y is major: 20 units down, x moves -5 * 20 / 20 = -5 units.
    assert_eq!(d.aabb.position, IVec2::new(-2, -16));
    assert_eq!(a.dp, FxVec2::new(0, 0));
    assert_eq!(a.collision, CollisionStatus::FreeFall);
}

#[test]
fn wall_stop() {
    // Actor at the origin, a wall to the right: strict overlap begins
    // at x = 6, so the march stops with the last safe position x = 5.
    let statics = vec![wall(10, 10, 25, 0)];
    let mut a = actor(5 * SCALE, 0, 20 * SCALE, 0);
    let mut d = body(10, 10, 0, 0);
    resolve_collisions(&mut a, &mut d, &statics);
    assert_eq!(d.aabb.position, IVec2::new(5, 0));
    assert_eq!(a.velocity.x, 0);
    assert_eq!(a.dp.x, 0);
    assert_eq!(a.collision, CollisionStatus::WallHug);
    assert!(!is_intersect(&d.aabb, &statics));
}

#[test]
fn ground_landing() {
    // Floor top edge at y = -20; a box of half-extent 10 first strictly
    // overlaps at center y = -11, so the actor rests at y = -10 and the
    // probe one unit below detects ground.
    let statics = vec![wall(10, 10, 0, -30)];
    let mut a = actor(0, -15 * SCALE, 0, -15 * SCALE);
    let mut d = body(10, 10, 0, 0);
    resolve_collisions(&mut a, &mut d, &statics);
    assert_eq!(d.aabb.position, IVec2::new(0, -10));
    assert_eq!(a.velocity.y, 0);
    assert_eq!(a.dp.y, 0);
    assert_eq!(a.collision, CollisionStatus::Standing);
    assert!(!is_intersect(&d.aabb, &statics));
}

#[test]
fn sliding_along_a_floor() {
    // Diagonal motion into a wide floor: the y axis is blocked, the x
    // axis keeps sliding to the full requested displacement.
    let statics = vec![wall(500, 10, 0, -30)];
    let mut a = actor(2 * SCALE, -5 * SCALE, 8 * SCALE, -8 * SCALE);
    let mut d = body(10, 10, 0, -5);
    resolve_collisions(&mut a, &mut d, &statics);
    // Strict overlap begins at center y = -11: y freezes at -10 after
    // five steps down, x walks all eight requested units.
    assert_eq!(d.aabb.position, IVec2::new(8, -10));
    assert_eq!(a.velocity, FxVec2::new(2 * SCALE, 0));
    assert_eq!(a.dp.y, 0);
    assert_eq!(a.dp.x, 0);
    assert_eq!(a.collision, CollisionStatus::Standing);
    assert!(!is_intersect(&d.aabb, &statics));
}

#[test]
fn repeated_resolution_at_rest_is_idempotent() {
    let statics = vec![wall(10, 10, 0, -30)];
    let mut a = actor(0, 0, 0, 0);
    a.collision = CollisionStatus::Standing;
    let mut d = body(10, 10, 0, -10);
    resolve_collisions(&mut a, &mut d, &statics);
    let pos_once = d.aabb.position;
    let vel_once = a.velocity;
    let dp_once = a.dp;
    let st_once = a.collision;
    resolve_collisions(&mut a, &mut d, &statics);
    assert_eq!(d.aabb.position, pos_once);
    assert_eq!(a.velocity, vel_once);
    assert_eq!(a.dp, dp_once);
    assert_eq!(a.collision, st_once);
    assert_eq!(d.aabb.position, IVec2::new(0, -10));
}

#[test]
fn one_unit_step_boundary() {
    // Major magnitude exactly one grid unit: a single ministep.
    let statics: Vec<Static> = Vec::new();
    let mut a = actor(0, 0, SCALE, SCALE);
    let mut d = body(10, 10, 0, 0);
    resolve_collisions(&mut a, &mut d, &statics);
    assert_eq!(d.aabb.position, IVec2::new(1, 1));
    assert_eq!(a.dp, FxVec2::new(0, 0));
}

#[test]
fn just_above_one_unit_boundary() {
    // Major magnitude just above one grid unit: still a single
    // ministep, the remainder stays pending.
    let statics: Vec<Static> = Vec::new();
    let mut a = actor(0, 0, SCALE + 1, 500);
    let mut d = body(10, 10, 0, 0);
    resolve_collisions(&mut a, &mut d, &statics);
    assert_eq!(d.aabb.position, IVec2::new(1, 0));
    assert_eq!(a.dp, FxVec2::new(1, 500));
    assert_eq!(a.collision, CollisionStatus::FreeFall);
}

#[test]
fn corner_slide_passes_under_a_block() {
    // A box dead ahead on the diagonal: the diagonal march stops at the
    // last safe step (5, 5), but the x-only retry with y frozen at 5
    // passes under the block, so the actor slides through along x and
    // only the y axis is stopped.
    let statics = vec![wall(10, 10, 25, 25)];
    let mut a = actor(3 * SCALE, 3 * SCALE, 20 * SCALE, 20 * SCALE);
    let mut d = body(10, 10, 0, 0);
    resolve_collisions(&mut a, &mut d, &statics);
    assert_eq!(d.aabb.position, IVec2::new(20, 5));
    assert_eq!(a.velocity, FxVec2::new(3 * SCALE, 0));
    assert_eq!(a.dp, FxVec2::new(0, 0));
    assert_eq!(a.collision, CollisionStatus::FreeFall);
    assert!(!is_intersect(&d.aabb, &statics));
}
