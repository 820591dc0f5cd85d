//! Integrator and per-tick force and control contributions: advances
//! acceleration into velocity (clamped to the maximum speed) and
//! velocity into pending displacement, and applies gravity and the
//! player's per-tick input snapshot.

use vstd::prelude::*;
use crate::aabb::AabbModel;
use crate::components::{actor_wf, Actor, ActorModel, CollisionStatus};
use crate::resolver::{major_abs, off_y, resolve_body, sub_unit, x_is_major, y_hit};
use crate::vec2::{
    div_trunc_i128, div_trunc_i64, sabs, trunc_div, FxVec2, Vec2Model, MAX_DT, MAX_FX, SCALE,
};

verus! {

/// Downward acceleration added each tick while not standing, in
/// subunits per second squared.
pub const GRAVITY: i64 = 3_000 * SCALE;

/// Horizontal control speed, in subunits per second.
pub const CONTROL_SPEED: i64 = 500 * SCALE;

/// Vertical take-off speed of a jump, in subunits per second.
pub const JUMP_SPEED: i64 = 900 * SCALE;

/// Largest integer whose square does not exceed `n`.
pub open spec fn sqrt_floor(n: int) -> int
    decreases n,
{
    if n <= 0 {
        0
    } else {
        let r = sqrt_floor(n - 1);
        if (r + 1) * (r + 1) <= n {
            r + 1
        } else {
            r
        }
    }
}

/// `sqrt_floor` is the rounded-down square root.
pub proof fn lemma_sqrt_floor_bounds(n: int)
    requires
        n >= 0,
    ensures
        0 <= sqrt_floor(n),
        sqrt_floor(n) * sqrt_floor(n) <= n,
        n < (sqrt_floor(n) + 1) * (sqrt_floor(n) + 1),
    decreases n,
{
    if n == 0 {
    } else {
        lemma_sqrt_floor_bounds(n - 1);
        let r = sqrt_floor(n - 1);
        if (r + 1) * (r + 1) <= n {
            assert((r + 1 + 1) * (r + 1 + 1) > n) by (nonlinear_arith)
                requires
                    r >= 0,
                    n - 1 < (r + 1) * (r + 1),
                    (r + 1) * (r + 1) <= n,
            ;
        }
    }
}

/// Any integer within the square-root bounds is `sqrt_floor`.
pub proof fn lemma_sqrt_floor_unique(n: int, r: int)
    requires
        n >= 0,
        r >= 0,
        r * r <= n,
        n < (r + 1) * (r + 1),
    ensures
        r == sqrt_floor(n),
{
    lemma_sqrt_floor_bounds(n);
    let s = sqrt_floor(n);
    assert(r == s) by (nonlinear_arith)
        requires
            r >= 0,
            s >= 0,
            r * r <= n,
            n < (r + 1) * (r + 1),
            s * s <= n,
            n < (s + 1) * (s + 1),
    ;
}

/// Rounded-down square root by binary search.
pub fn isqrt_u128(n: u128) -> (r: u128)
    requires
        n < 0x1000000000000000000,
    ensures
        r as int == sqrt_floor(n as int),
        r <= 0x1000000000,
        r * r <= n,
        (n as int) < (r as int + 1) * (r as int + 1),
{
    let mut lo: u128 = 0;
    let mut hi: u128 = 0x1000000000;
    proof {
        assert((0x1000000000int + 1) * (0x1000000000int + 1) > n as int);
    }
    while lo < hi
        invariant
            lo <= hi <= 0x1000000000,
            lo as int * lo as int <= n as int,
            (n as int) < (hi as int + 1) * (hi as int + 1),
        decreases hi - lo,
    {
        let mid: u128 = lo + (hi - lo + 1) / 2;
        proof {
            let d = hi as int - lo as int;
            vstd::arithmetic::div_mod::lemma_div_is_ordered(d + 1, 2 * d, 2);
            vstd::arithmetic::div_mod::lemma_div_multiples_vanish(d, 2);
            vstd::arithmetic::div_mod::lemma_div_pos_is_pos(d + 1, 2);
            assert(lo < mid <= hi);
            assert(mid as int * mid as int <= 0x1000000000int * 0x1000000000int)
                by (nonlinear_arith)
                requires
                    0 <= mid as int <= 0x1000000000int,
            ;
        }
        if mid * mid <= n {
            lo = mid;
        } else {
            hi = mid - 1;
        }
    }
    proof {
        lemma_sqrt_floor_unique(n as int, lo as int);
    }
    lo
}

/// Magnitude of the quotient is bounded by the quotient of the bound.
pub proof fn lemma_trunc_div_bound(a: int, b: int, m: int)
    requires
        b > 0,
        sabs(a) <= m,
    ensures
        sabs(trunc_div(a, b)) <= m / b,
{
    if a >= 0 {
        vstd::arithmetic::div_mod::lemma_div_pos_is_pos(a, b);
        vstd::arithmetic::div_mod::lemma_div_is_ordered(a, m, b);
    } else {
        vstd::arithmetic::div_mod::lemma_div_pos_is_pos(-a, b);
        vstd::arithmetic::div_mod::lemma_div_is_ordered(-a, m, b);
    }
}

/// Smallest integer whose square is at least `n`.
pub open spec fn sqrt_ceil(n: int) -> int {
    if sqrt_floor(n) * sqrt_floor(n) == n {
        sqrt_floor(n)
    } else {
        sqrt_floor(n) + 1
    }
}

/// `sqrt_ceil` is the rounded-up square root.
pub proof fn lemma_sqrt_ceil_bounds(n: int)
    requires
        n >= 0,
    ensures
        sqrt_floor(n) <= sqrt_ceil(n) <= sqrt_floor(n) + 1,
        n <= sqrt_ceil(n) * sqrt_ceil(n),
        n >= 1 ==> sqrt_ceil(n) >= 1,
{
    lemma_sqrt_floor_bounds(n);
    let r = sqrt_floor(n);
    if r * r == n && n >= 1 {
        assert(r >= 1) by (nonlinear_arith)
            requires
                r >= 0,
                r * r >= 1,
        ;
    }
}

/// Components rescaled by `m / l` keep their squared length within
/// `m * m` whenever `l` dominates the original length.
proof fn lemma_scaled_length_capped(ax: int, ay: int, m: int, l: int)
    requires
        0 <= ax,
        0 <= ay,
        0 <= m,
        1 <= l,
        ax * ax + ay * ay <= l * l,
    ensures
        ((ax * m) / l) * ((ax * m) / l) + ((ay * m) / l) * ((ay * m) / l) <= m * m,
{
    let px = (ax * m) / l;
    let py = (ay * m) / l;
    assert(ax * m >= 0 && ay * m >= 0) by (nonlinear_arith)
        requires
            0 <= ax,
            0 <= ay,
            0 <= m,
    ;
    vstd::arithmetic::div_mod::lemma_div_pos_is_pos(ax * m, l);
    vstd::arithmetic::div_mod::lemma_div_pos_is_pos(ay * m, l);
    vstd::arithmetic::div_mod::lemma_fundamental_div_mod(ax * m, l);
    vstd::arithmetic::div_mod::lemma_mod_bound(ax * m, l);
    vstd::arithmetic::div_mod::lemma_fundamental_div_mod(ay * m, l);
    vstd::arithmetic::div_mod::lemma_mod_bound(ay * m, l);
    assert(l * px <= ax * m);
    assert(l * py <= ay * m);
    assert(px * px * (l * l) <= (ax * m) * (ax * m)) by (nonlinear_arith)
        requires
            0 <= px,
            0 <= l * px <= ax * m,
            1 <= l,
    ;
    assert(py * py * (l * l) <= (ay * m) * (ay * m)) by (nonlinear_arith)
        requires
            0 <= py,
            0 <= l * py <= ay * m,
            1 <= l,
    ;
    assert((ax * m) * (ax * m) + (ay * m) * (ay * m) == (ax * ax + ay * ay) * (m * m))
        by (nonlinear_arith);
    assert((ax * ax + ay * ay) * (m * m) <= (l * l) * (m * m)) by (nonlinear_arith)
        requires
            ax * ax + ay * ay <= l * l,
            0 <= m,
    ;
    assert(px * px + py * py <= m * m) by (nonlinear_arith)
        requires
            px * px * (l * l) + py * py * (l * l) <= (l * l) * (m * m),
            1 <= l,
    ;
}

/// Velocity clamped to the maximum speed: if its squared length
/// exceeds the squared cap, each component is rescaled by `max_speed`
/// over the rounded-up length, truncating toward zero, so the squared
/// magnitude never exceeds the squared cap; otherwise it is returned
/// unchanged.
pub open spec fn clamp_velocity(v: Vec2Model, max_speed: int) -> Vec2Model {
    let len2 = v.x * v.x + v.y * v.y;
    if len2 > max_speed * max_speed {
        let l = sqrt_ceil(len2);
        Vec2Model { x: trunc_div(v.x * max_speed, l), y: trunc_div(v.y * max_speed, l) }
    } else {
        v
    }
}

/// The clamp caps the squared magnitude at the squared maximum speed,
/// and leaves a velocity already within the limit untouched.
pub proof fn lemma_clamp_velocity_caps(v: Vec2Model, max_speed: int)
    requires
        max_speed >= 0,
    ensures
        ({
            let c = clamp_velocity(v, max_speed);
            c.x * c.x + c.y * c.y <= max_speed * max_speed
        }),
        v.x * v.x + v.y * v.y <= max_speed * max_speed ==> clamp_velocity(v, max_speed) == v,
{
    let len2 = v.x * v.x + v.y * v.y;
    let m = max_speed;
    if len2 > m * m {
        assert(m * m >= 0) by (nonlinear_arith)
            requires
                m >= 0,
        ;
        lemma_sqrt_ceil_bounds(len2);
        let l = sqrt_ceil(len2);
        let ax = sabs(v.x);
        let ay = sabs(v.y);
        assert(ax * ax + ay * ay == len2) by (nonlinear_arith)
            requires
                ax == sabs(v.x),
                ay == sabs(v.y),
                len2 == v.x * v.x + v.y * v.y,
        ;
        lemma_scaled_length_capped(ax, ay, m, l);
        lemma_trunc_div_square(v.x, m, l);
        lemma_trunc_div_square(v.y, m, l);
    }
}

/// Squaring a truncated quotient loses the sign of the dividend.
proof fn lemma_trunc_div_square(x: int, m: int, l: int)
    requires
        m >= 0,
        l >= 1,
    ensures
        trunc_div(x * m, l) * trunc_div(x * m, l) == ((sabs(x) * m) / l) * ((sabs(x) * m) / l),
{
    if x >= 0 {
        assert(x * m >= 0) by (nonlinear_arith)
            requires
                x >= 0,
                m >= 0,
        ;
    } else {
        assert(x * m <= 0 && (-x) * m == -(x * m)) by (nonlinear_arith)
            requires
                x < 0,
                m >= 0,
        ;
        let q = ((-x) * m) / l;
        if x * m == 0 {
            vstd::arithmetic::div_mod::lemma_div_basics_1(l);
        } else {
            assert((-q) * (-q) == q * q) by (nonlinear_arith);
        }
    }
}

/// One integration step: acceleration advances velocity, velocity is
/// clamped to the maximum speed, the clamped velocity advances the
/// pending displacement, and the acceleration accumulator is reset.
pub open spec fn integrate_step(a: ActorModel, dt: int) -> ActorModel {
    let v1 = Vec2Model {
        x: a.velocity.x + trunc_div(a.acceleration.x * dt, SCALE as int),
        y: a.velocity.y + trunc_div(a.acceleration.y * dt, SCALE as int),
    };
    let v2 = clamp_velocity(v1, a.max_speed);
    let dp2 = Vec2Model {
        x: a.dp.x + trunc_div(v2.x * dt, SCALE as int),
        y: a.dp.y + trunc_div(v2.y * dt, SCALE as int),
    };
    ActorModel {
        max_speed: a.max_speed,
        acceleration: Vec2Model { x: 0, y: 0 },
        velocity: v2,
        dp: dp2,
        collision: a.collision,
    }
}

/// Gravity's contribution to the acceleration accumulator: a constant
/// downward vector, suppressed while the actor stands on ground.
pub open spec fn gravity_step(a: ActorModel) -> ActorModel {
    if a.collision == CollisionStatus::Standing {
        a
    } else {
        ActorModel {
            max_speed: a.max_speed,
            acceleration: Vec2Model { x: a.acceleration.x, y: a.acceleration.y - GRAVITY },
            velocity: a.velocity,
            dp: a.dp,
            collision: a.collision,
        }
    }
}

/// Per-tick input snapshot: which horizontal keys are held, and
/// whether the jump key was just pressed (edge-detected).
#[derive(Clone, Copy, Debug, PartialEq, Eq, Structural)]
pub struct ControlInput {
    pub left: bool,
    pub right: bool,
    pub jump: bool,
}

/// Normalized horizontal intent of the input snapshot.
pub open spec fn control_dir(input: ControlInput) -> int {
    (if input.right {
        1int
    } else {
        0int
    }) - (if input.left {
        1int
    } else {
        0int
    })
}

/// The player's contribution this tick: a jump replaces the velocity
/// with a vertical take-off (only while standing), and the horizontal
/// intent adds to the pending displacement.
pub open spec fn control_step(a: ActorModel, input: ControlInput, dt: int) -> ActorModel {
    let v = if input.jump && a.collision == CollisionStatus::Standing {
        Vec2Model { x: 0, y: JUMP_SPEED as int }
    } else {
        a.velocity
    };
    let dp = Vec2Model {
        x: a.dp.x + trunc_div(control_dir(input) * CONTROL_SPEED * dt, SCALE as int),
        y: a.dp.y,
    };
    ActorModel {
        max_speed: a.max_speed,
        acceleration: a.acceleration,
        velocity: v,
        dp,
        collision: a.collision,
    }
}

/// One integration step of an actor, to run once per tick before the
/// resolver. `dt` is the tick duration in subunits of a second.
pub fn update_position_delta(a: &mut Actor, dt: i64)
    requires
        actor_wf(old(a)@),
        0 <= dt <= MAX_DT,
    ensures
        final(a)@ == integrate_step(old(a)@, dt as int),
        final(a)@.velocity.x * final(a)@.velocity.x + final(a)@.velocity.y * final(a)@.velocity.y
            <= old(a)@.max_speed * old(a)@.max_speed,
{
    proof {
        assert(a@.acceleration.x * dt <= MAX_FX * MAX_DT && a@.acceleration.x * dt >= -MAX_FX
            * MAX_DT && a@.acceleration.y * dt <= MAX_FX * MAX_DT && a@.acceleration.y * dt
            >= -MAX_FX * MAX_DT) by (nonlinear_arith)
            requires
                sabs(a@.acceleration.x) <= MAX_FX,
                sabs(a@.acceleration.y) <= MAX_FX,
                0 <= dt <= MAX_DT,
        ;
        lemma_trunc_div_bound(a@.acceleration.x * dt, SCALE as int, MAX_FX as int * MAX_DT as int);
        lemma_trunc_div_bound(a@.acceleration.y * dt, SCALE as int, MAX_FX as int * MAX_DT as int);
        assert(MAX_FX as int * MAX_DT as int / (SCALE as int) == 20_000_000_000int);
    }
    let vx1: i64 = a.velocity.x + div_trunc_i64(a.acceleration.x * dt, SCALE);
    let vy1: i64 = a.velocity.y + div_trunc_i64(a.acceleration.y * dt, SCALE);
    let ghost v1 = Vec2Model { x: vx1 as int, y: vy1 as int };
    let lx: i128 = vx1 as i128;
    let ly: i128 = vy1 as i128;
    proof {
        assert(lx * lx + ly * ly < 0x1000000000000000000 && lx * lx >= 0 && ly * ly >= 0)
            by (nonlinear_arith)
            requires
                sabs(lx as int) <= 22_000_000_000,
                sabs(ly as int) <= 22_000_000_000,
        ;
        assert(a@.max_speed * a@.max_speed <= MAX_FX as int * MAX_FX as int) by (nonlinear_arith)
            requires
                0 <= a@.max_speed <= MAX_FX,
        ;
    }
    let len2: i128 = lx * lx + ly * ly;
    let ms: i128 = a.max_speed as i128;
    let (vx2, vy2): (i64, i64) = if len2 > ms * ms {
        proof {
            assert(ms * ms >= 0) by (nonlinear_arith);
            assert(len2 as u128 as int == len2 as int);
        }
        let l_u: u128 = isqrt_u128(len2 as u128);
        let lc_u: u128 = if l_u * l_u == len2 as u128 {
            l_u
        } else {
            l_u + 1
        };
        proof {
            assert(l_u as int == sqrt_floor(len2 as int));
            assert(lc_u as int == sqrt_ceil(len2 as int));
            lemma_sqrt_ceil_bounds(len2 as int);
            assert(lc_u >= 1) by (nonlinear_arith)
                requires
                    (len2 as int) >= 1,
                    (len2 as int) <= (lc_u as int) * (lc_u as int),
                    lc_u >= 0,
            ;
        }
        let l: i128 = lc_u as i128;
        proof {
            assert(sabs(lx as int) <= l_u as int && sabs(ly as int) <= l_u as int)
                by (nonlinear_arith)
                requires
                    (lx as int) * (lx as int) <= len2 as int,
                    (ly as int) * (ly as int) <= len2 as int,
                    (len2 as int) < (l_u as int + 1) * (l_u as int + 1),
                    l_u >= 0,
            ;
            assert(sabs(lx as int) <= l as int && sabs(ly as int) <= l as int);
            assert(sabs(lx as int * ms as int) <= l as int * ms as int && l as int * ms as int
                <= 0x1000000001int * 2_000_000_000int) by (nonlinear_arith)
                requires
                    sabs(lx as int) <= l as int,
                    0 <= ms <= 2_000_000_000,
                    1 <= l <= 0x1000000001,
            ;
            assert(sabs(ly as int * ms as int) <= l as int * ms as int) by (nonlinear_arith)
                requires
                    sabs(ly as int) <= l as int,
                    0 <= ms,
                    l >= 1,
            ;
            lemma_trunc_div_bound(lx as int * ms as int, l as int, l as int * ms as int);
            lemma_trunc_div_bound(ly as int * ms as int, l as int, l as int * ms as int);
            vstd::arithmetic::div_mod::lemma_div_multiples_vanish(ms as int, l as int);
        }
        let qx: i128 = div_trunc_i128(lx * ms, l);
        let qy: i128 = div_trunc_i128(ly * ms, l);
        (qx as i64, qy as i64)
    } else {
        (vx1, vy1)
    };
    proof {
        assert(Vec2Model { x: vx2 as int, y: vy2 as int } == clamp_velocity(v1, a@.max_speed));
        assert(sabs(vx2 as int) <= 22_000_000_000 && sabs(vy2 as int) <= 22_000_000_000);
        assert(vx2 as int * dt <= 22_000_000_000 * MAX_DT && vx2 as int * dt >= -22_000_000_000
            * MAX_DT && vy2 as int * dt <= 22_000_000_000 * MAX_DT && vy2 as int * dt
            >= -22_000_000_000 * MAX_DT) by (nonlinear_arith)
            requires
                sabs(vx2 as int) <= 22_000_000_000,
                sabs(vy2 as int) <= 22_000_000_000,
                0 <= dt <= MAX_DT,
        ;
        lemma_trunc_div_bound(vx2 as int * dt, SCALE as int, 22_000_000_000int * MAX_DT as int);
        lemma_trunc_div_bound(vy2 as int * dt, SCALE as int, 22_000_000_000int * MAX_DT as int);
    }
    let dpx2: i64 = a.dp.x + div_trunc_i64(vx2 * dt, SCALE);
    let dpy2: i64 = a.dp.y + div_trunc_i64(vy2 * dt, SCALE);
    proof {
        lemma_clamp_velocity_caps(v1, a@.max_speed);
    }
    a.velocity = FxVec2 { x: vx2, y: vy2 };
    a.dp = FxVec2 { x: dpx2, y: dpy2 };
    a.acceleration = FxVec2 { x: 0, y: 0 };
}

/// Adds the constant downward gravity vector to the acceleration
/// accumulator, unless the actor is standing on ground.
pub fn apply_gravity(a: &mut Actor)
    requires
        old(a)@.acceleration.y - GRAVITY >= i64::MIN,
    ensures
        final(a)@ == gravity_step(old(a)@),
{
    if a.collision != CollisionStatus::Standing {
        a.acceleration = FxVec2 { x: a.acceleration.x, y: a.acceleration.y - GRAVITY };
    }
}

/// Applies one input snapshot: jumping while standing replaces the
/// velocity with a vertical take-off, and held horizontal keys add
/// control motion to the pending displacement.
pub fn player_control(a: &mut Actor, input: ControlInput, dt: i64)
    requires
        0 <= dt <= MAX_DT,
        sabs(old(a)@.dp.x) <= MAX_FX,
    ensures
        final(a)@ == control_step(old(a)@, input, dt as int),
{
    if input.jump && a.collision == CollisionStatus::Standing {
        a.velocity = FxVec2 { x: 0, y: JUMP_SPEED };
    }
    let dir: i64 = (if input.right {
        1i64
    } else {
        0i64
    }) - (if input.left {
        1i64
    } else {
        0i64
    });
    proof {
        assert(sabs(dir as int * (CONTROL_SPEED as int) * dt) <= CONTROL_SPEED as int
            * MAX_DT as int) by (nonlinear_arith)
            requires
                -1 <= dir <= 1,
                0 <= dt <= MAX_DT as int,
                CONTROL_SPEED as int >= 0,
        ;
        lemma_trunc_div_bound(
            dir as int * CONTROL_SPEED as int * dt,
            SCALE as int,
            CONTROL_SPEED as int * MAX_DT as int,
        );
    }
    a.dp = FxVec2 { x: a.dp.x + div_trunc_i64(dir * CONTROL_SPEED * dt, SCALE), y: a.dp.y };
}

/// Standing suppresses gravity re-accumulation: once standing, a tick
/// with no input and no vertical motion pending adds no force, adds no
/// vertical displacement, and leaves the actor at the same height.
pub proof fn lemma_standing_keeps_height(
    a: ActorModel,
    d: AabbModel,
    statics: Seq<AabbModel>,
    dt: int,
)
    requires
        a.collision == CollisionStatus::Standing,
        a.velocity.y == 0,
        a.dp.y == 0,
        a.acceleration.x == 0,
        a.acceleration.y == 0,
        dt >= 0,
    ensures
        gravity_step(a) == a,
        integrate_step(gravity_step(a), dt).velocity.y == 0,
        integrate_step(gravity_step(a), dt).dp.y == 0,
        resolve_body(d, integrate_step(gravity_step(a), dt).dp, statics).position.y
            == d.position.y,
{
    let a1 = integrate_step(a, dt);
    let v1 = Vec2Model {
        x: a.velocity.x + trunc_div(a.acceleration.x * dt, SCALE as int),
        y: a.velocity.y + trunc_div(a.acceleration.y * dt, SCALE as int),
    };
    assert(v1.y == 0);
    let len2 = v1.x * v1.x + v1.y * v1.y;
    if len2 > a.max_speed * a.max_speed {
        assert(v1.x * v1.x + v1.y * v1.y >= 0) by (nonlinear_arith);
        assert(a.max_speed * a.max_speed >= 0) by (nonlinear_arith);
        lemma_sqrt_ceil_bounds(len2);
        let l = sqrt_ceil(len2);
        assert(trunc_div(v1.y * a.max_speed, l) == 0) by {
            vstd::arithmetic::div_mod::lemma_div_basics_1(l);
        }
    }
    assert(a1.velocity.y == 0);
    assert(trunc_div(a1.velocity.y * dt, SCALE as int) == 0);
    assert(a1.dp.y == 0);
    if !sub_unit(a1.dp) {
        assert(x_is_major(a1.dp));
        let maj = major_abs(a1.dp);
        assert(maj >= SCALE);
        let j = y_hit(d, a1.dp, statics) - 1;
        assert(off_y(a1.dp, j) == 0) by {
            vstd::arithmetic::div_mod::lemma_div_basics_1(maj);
        }
    }
}

} // verus!
