use platform_core::components::{Actor, CollisionStatus, Dynamic, Static};
use platform_core::aabb::IAabb;
use platform_core::kinematics::{
    apply_gravity, isqrt_u128, player_control, update_position_delta, ControlInput,
    CONTROL_SPEED, GRAVITY, JUMP_SPEED,
};
use platform_core::resolver::resolve_collisions;
use platform_core::vec2::{abs_i64, div_trunc_i64, FxVec2, IVec2, SCALE};

fn resting_actor() -> Actor {
    Actor {
        max_speed: 2_000 * SCALE,
        acceleration: FxVec2::zero(),
        velocity: FxVec2::zero(),
        dp: FxVec2::zero(),
        collision: CollisionStatus::FreeFall,
    }
}

#[test]
fn integration_advances_velocity_and_displacement() {
    let mut a = resting_actor();
    a.acceleration = FxVec2::new(0, -GRAVITY);
    // A sixteen-millisecond tick.
    update_position_delta(&mut a, 16);
    assert_eq!(a.velocity, FxVec2::new(0, -48_000));
    assert_eq!(a.dp, FxVec2::new(0, -768));
    assert_eq!(a.acceleration, FxVec2::zero());
}

#[test]
fn integration_clamps_speed_preserving_direction() {
    let mut a = resting_actor();
    a.max_speed = 5_000;
    a.velocity = FxVec2::new(6_000, 8_000);
    update_position_delta(&mut a, 0);
    // Length 10000 is over the cap: both components scale by 5000/10000.
    assert_eq!(a.velocity, FxVec2::new(3_000, 4_000));
}

#[test]
fn clamp_with_inexact_root_stays_under_the_cap() {
    // Squared length 26 exceeds the squared cap 25 and has no exact
    // root: the components divide by the rounded-up root 6, so the
    // result (4, 0) stays within the cap instead of overshooting it.
    let mut a = resting_actor();
    a.max_speed = 5;
    a.velocity = FxVec2::new(5, 1);
    update_position_delta(&mut a, 0);
    assert_eq!(a.velocity, FxVec2::new(4, 0));
    let mut b = resting_actor();
    b.max_speed = 5;
    b.velocity = FxVec2::new(-5, 1);
    update_position_delta(&mut b, 0);
    assert_eq!(b.velocity, FxVec2::new(-4, 0));
    assert!(b.velocity.x * b.velocity.x + b.velocity.y * b.velocity.y <= 25);
}

#[test]
fn integration_leaves_slow_velocity_unclamped() {
    let mut a = resting_actor();
    a.max_speed = 5_000;
    a.velocity = FxVec2::new(3_000, 4_000);
    update_position_delta(&mut a, 10);
    // Length exactly 5000 is within the cap.
    assert_eq!(a.velocity, FxVec2::new(3_000, 4_000));
    assert_eq!(a.dp, FxVec2::new(30, 40));
}

#[test]
fn gravity_accumulates_unless_standing() {
    let mut a = resting_actor();
    apply_gravity(&mut a);
    apply_gravity(&mut a);
    assert_eq!(a.acceleration, FxVec2::new(0, -2 * GRAVITY));
    let mut s = resting_actor();
    s.collision = CollisionStatus::Standing;
    apply_gravity(&mut s);
    assert_eq!(s.acceleration, FxVec2::zero());
}

#[test]
fn control_adds_horizontal_displacement() {
    let mut a = resting_actor();
    let input = ControlInput { left: false, right: true, jump: false };
    player_control(&mut a, input, 16);
    // 500 units per second for sixteen milliseconds: eight whole units.
    assert_eq!(a.dp, FxVec2::new(8_000, 0));
    assert_eq!(a.velocity, FxVec2::zero());
}

#[test]
fn control_opposite_keys_cancel() {
    let mut a = resting_actor();
    let input = ControlInput { left: true, right: true, jump: false };
    player_control(&mut a, input, 16);
    assert_eq!(a.dp, FxVec2::zero());
    let left = ControlInput { left: true, right: false, jump: false };
    player_control(&mut a, left, 16);
    assert_eq!(a.dp, FxVec2::new(-8_000, 0));
    assert_eq!(CONTROL_SPEED, 500 * SCALE);
}

#[test]
fn jump_needs_ground_contact() {
    let mut a = resting_actor();
    a.velocity = FxVec2::new(1_000, -2_000);
    let input = ControlInput { left: false, right: false, jump: true };
    player_control(&mut a, input, 16);
    assert_eq!(a.velocity, FxVec2::new(1_000, -2_000));
    a.collision = CollisionStatus::Standing;
    player_control(&mut a, input, 16);
    assert_eq!(a.velocity, FxVec2::new(0, JUMP_SPEED));
}

#[test]
fn standing_suppresses_gravity_reaccumulation() {
    // A standing actor with nothing pending stays at the same height
    // over a full tick: gravity, integration, resolution.
    let statics = vec![Static {
        aabb: IAabb::new(IVec2::new(100, 10), IVec2::new(0, -30)),
    }];
    let mut a = resting_actor();
    a.collision = CollisionStatus::Standing;
    let mut d = Dynamic { aabb: IAabb::new(IVec2::new(10, 10), IVec2::new(0, -10)) };
    apply_gravity(&mut a);
    update_position_delta(&mut a, 16);
    resolve_collisions(&mut a, &mut d, &statics);
    assert_eq!(d.aabb.position, IVec2::new(0, -10));
    assert_eq!(a.velocity, FxVec2::zero());
    assert_eq!(a.collision, CollisionStatus::Standing);
}

#[test]
fn falling_actor_lands_over_several_ticks() {
    // Free fall from rest onto a floor: repeated ticks accumulate
    // gravity until the actor lands and stays put.
    let statics = vec![Static {
        aabb: IAabb::new(IVec2::new(500, 15), IVec2::new(0, -300)),
    }];
    let mut a = resting_actor();
    let mut d = Dynamic { aabb: IAabb::new(IVec2::new(15, 30), IVec2::new(0, -100)) };
    for _ in 0..60 {
        apply_gravity(&mut a);
        update_position_delta(&mut a, 16);
        resolve_collisions(&mut a, &mut d, &statics);
    }
    // Floor top edge at -285, actor half-extent 30: first strict
    // overlap at center -256, rest one unit above it, bottom edge
    // touching the floor.
    assert_eq!(d.aabb.position, IVec2::new(0, -255));
    assert_eq!(a.collision, CollisionStatus::Standing);
    assert_eq!(a.velocity.y, 0);
}

#[test]
fn integer_square_root_rounds_down() {
    assert_eq!(isqrt_u128(0), 0);
    assert_eq!(isqrt_u128(1), 1);
    assert_eq!(isqrt_u128(24), 4);
    assert_eq!(isqrt_u128(25), 5);
    assert_eq!(isqrt_u128(26), 5);
    assert_eq!(isqrt_u128(10_000_000_000_000_000), 100_000_000);
}

#[test]
fn truncating_division_rounds_toward_zero() {
    assert_eq!(div_trunc_i64(7, 2), 3);
    assert_eq!(div_trunc_i64(-7, 2), -3);
    assert_eq!(div_trunc_i64(999, 1000), 0);
    assert_eq!(div_trunc_i64(-999, 1000), 0);
    assert_eq!(abs_i64(-5), 5);
    assert_eq!(abs_i64(5), 5);
}
