//! Stepped sweep resolver: consumes an actor's pending displacement,
//! marches it in unit ministeps against the static level geometry with
//! axis-separated backtracking, and classifies the resulting contact.

use vstd::prelude::*;
use crate::aabb::{overlaps, AabbModel, IAabb};
use crate::components::{Actor, ActorModel, CollisionStatus, Dynamic, Static};
use crate::vec2::{
    abs_i64, sabs, sgn, FxVec2, IVec2, Vec2Model, MAX_FX, MAX_POS, SCALE,
};

verus! {

/// The boxes of a static collider store, as mathematical values.
pub open spec fn statics_model(statics: Seq<Static>) -> Seq<AabbModel> {
    statics.map_values(|s: Static| s@)
}

/// A candidate box strictly overlaps some box of the store.
pub open spec fn hits_any(b: AabbModel, statics: Seq<AabbModel>) -> bool {
    exists|i: int| 0 <= i < statics.len() && overlaps(b, statics[i])
}

/// Both displacement components are under one grid unit: motion is
/// deferred to accumulate across ticks.
pub open spec fn sub_unit(dp: Vec2Model) -> bool {
    sabs(dp.x) < SCALE && sabs(dp.y) < SCALE
}

/// The x axis carries the larger requested displacement (ties go to x).
pub open spec fn x_is_major(dp: Vec2Model) -> bool {
    sabs(dp.x) >= sabs(dp.y)
}

/// Magnitude of the major-axis displacement, in subunits.
pub open spec fn major_abs(dp: Vec2Model) -> int {
    if x_is_major(dp) {
        sabs(dp.x)
    } else {
        sabs(dp.y)
    }
}

/// Number of unit ministeps of the sweep: the whole grid units of the
/// major-axis displacement.
pub open spec fn step_count(dp: Vec2Model) -> int {
    major_abs(dp) / (SCALE as int)
}

/// Grid offset of ministep `i` along x: one unit per step on a major
/// x axis, otherwise the minor displacement scaled down by the major
/// magnitude and truncated toward zero.
pub open spec fn off_x(dp: Vec2Model, i: int) -> int {
    if x_is_major(dp) {
        sgn(dp.x) * i
    } else {
        sgn(dp.x) * ((sabs(dp.x) * i) / major_abs(dp))
    }
}

/// Grid offset of ministep `i` along y; mirror of `off_x`.
pub open spec fn off_y(dp: Vec2Model, i: int) -> int {
    if x_is_major(dp) {
        sgn(dp.y) * ((sabs(dp.y) * i) / major_abs(dp))
    } else {
        sgn(dp.y) * i
    }
}

/// Candidate positions of the diagonal march: both axes offset from
/// the original position.
pub open spec fn diag_cand(orig: Vec2Model, dp: Vec2Model) -> spec_fn(int) -> Vec2Model {
    |i: int| Vec2Model { x: orig.x + off_x(dp, i), y: orig.y + off_y(dp, i) }
}

/// Candidate positions of the x-only retry scan: y frozen at the last
/// safe value.
pub open spec fn x_cand(orig: Vec2Model, dp: Vec2Model, y_frozen: int) -> spec_fn(int) -> Vec2Model {
    |i: int| Vec2Model { x: orig.x + off_x(dp, i), y: y_frozen }
}

/// Candidate positions of the y-only retry scan: x frozen at the value
/// the x scan reached.
pub open spec fn y_cand(orig: Vec2Model, dp: Vec2Model, x_frozen: int) -> spec_fn(int) -> Vec2Model {
    |i: int| Vec2Model { x: x_frozen, y: orig.y + off_y(dp, i) }
}

/// Index of the first ministep in `i..=steps` whose candidate position
/// overlaps the store, or `steps + 1` if none does.
pub open spec fn first_hit_from(
    cand: spec_fn(int) -> Vec2Model,
    halfs: Vec2Model,
    statics: Seq<AabbModel>,
    i: int,
    steps: int,
) -> int
    decreases steps + 1 - i,
{
    if i > steps {
        steps + 1
    } else if hits_any(AabbModel { halfs, position: cand(i) }, statics) {
        i
    } else {
        first_hit_from(cand, halfs, statics, i + 1, steps)
    }
}

/// First ministep of the diagonal march that collides, or
/// `step_count(dp) + 1` if the whole march is free.
pub open spec fn diag_hit(d: AabbModel, dp: Vec2Model, statics: Seq<AabbModel>) -> int {
    first_hit_from(diag_cand(d.position, dp), d.halfs, statics, 1, step_count(dp))
}

/// The y coordinate the diagonal march froze at: the last safe
/// ministep before the first collision.
pub open spec fn frozen_y(d: AabbModel, dp: Vec2Model, statics: Seq<AabbModel>) -> int {
    d.position.y + off_y(dp, diag_hit(d, dp, statics) - 1)
}

/// First colliding ministep of the x-only retry scan, or
/// `step_count(dp) + 1` if it runs free to the end.
pub open spec fn x_hit(d: AabbModel, dp: Vec2Model, statics: Seq<AabbModel>) -> int {
    first_hit_from(
        x_cand(d.position, dp, frozen_y(d, dp, statics)),
        d.halfs,
        statics,
        diag_hit(d, dp, statics),
        step_count(dp),
    )
}

/// Final x coordinate: the last ministep the x scan confirmed safe.
pub open spec fn final_x(d: AabbModel, dp: Vec2Model, statics: Seq<AabbModel>) -> int {
    d.position.x + off_x(dp, x_hit(d, dp, statics) - 1)
}

/// First colliding ministep of the y-only retry scan, or
/// `step_count(dp) + 1` if it runs free to the end.
pub open spec fn y_hit(d: AabbModel, dp: Vec2Model, statics: Seq<AabbModel>) -> int {
    first_hit_from(
        y_cand(d.position, dp, final_x(d, dp, statics)),
        d.halfs,
        statics,
        diag_hit(d, dp, statics),
        step_count(dp),
    )
}

/// Final y coordinate: the last ministep the y scan confirmed safe.
pub open spec fn final_y(d: AabbModel, dp: Vec2Model, statics: Seq<AabbModel>) -> int {
    d.position.y + off_y(dp, y_hit(d, dp, statics) - 1)
}

/// The position a resolution pass moves the body to (for a
/// displacement that is not sub-unit).
pub open spec fn resolved_position(d: AabbModel, dp: Vec2Model, statics: Seq<AabbModel>) -> Vec2Model {
    Vec2Model { x: final_x(d, dp, statics), y: final_y(d, dp, statics) }
}

/// The ground probe: a box one grid unit below `pos` overlaps the
/// store, so the actor stands on something.
pub open spec fn is_standing_at(halfs: Vec2Model, pos: Vec2Model, statics: Seq<AabbModel>) -> bool {
    hits_any(AabbModel { halfs, position: Vec2Model { x: pos.x, y: pos.y - 1 } }, statics)
}

/// The body after one resolution pass: unchanged on sub-unit motion,
/// otherwise moved to the resolved position.
pub open spec fn resolve_body(d: AabbModel, dp: Vec2Model, statics: Seq<AabbModel>) -> AabbModel {
    if sub_unit(dp) {
        d
    } else {
        AabbModel { halfs: d.halfs, position: resolved_position(d, dp, statics) }
    }
}

/// The kinematic state after one resolution pass: unchanged on
/// sub-unit motion; otherwise the consumed displacement is subtracted,
/// each axis that collided has its velocity and remaining displacement
/// zeroed, and the contact is classified (ground contact dominates,
/// then a wall hug, else free fall).
pub open spec fn resolve_actor(a: ActorModel, d: AabbModel, statics: Seq<AabbModel>) -> ActorModel {
    if sub_unit(a.dp) {
        a
    } else {
        let steps = step_count(a.dp);
        let cx = x_hit(d, a.dp, statics) <= steps;
        let cy = y_hit(d, a.dp, statics) <= steps;
        let pos = resolved_position(d, a.dp, statics);
        let standing = is_standing_at(d.halfs, pos, statics);
        ActorModel {
            max_speed: a.max_speed,
            acceleration: a.acceleration,
            velocity: Vec2Model {
                x: if cx {
                    0
                } else {
                    a.velocity.x
                },
                y: if cy {
                    0
                } else {
                    a.velocity.y
                },
            },
            dp: Vec2Model {
                x: if cx {
                    0
                } else {
                    a.dp.x - (pos.x - d.position.x) * SCALE
                },
                y: if cy {
                    0
                } else {
                    a.dp.y - (pos.y - d.position.y) * SCALE
                },
            },
            collision: if standing {
                CollisionStatus::Standing
            } else if cx {
                CollisionStatus::WallHug
            } else {
                CollisionStatus::FreeFall
            },
        }
    }
}

/// A truncated scaled-down minor offset never exceeds the step index.
proof fn lemma_minor_off_bound(m: int, maj: int, i: int)
    requires
        0 <= m <= maj,
        0 < maj,
        0 <= i,
    ensures
        0 <= (m * i) / maj <= i,
{
    assert(0 <= m * i <= maj * i) by (nonlinear_arith)
        requires
            0 <= m <= maj,
            0 <= i,
    ;
    vstd::arithmetic::div_mod::lemma_div_is_ordered(m * i, maj * i, maj);
    vstd::arithmetic::div_mod::lemma_div_pos_is_pos(m * i, maj);
    assert(maj * i == i * maj) by (nonlinear_arith);
    vstd::arithmetic::div_mod::lemma_div_multiples_vanish(i, maj);
}

/// The sweep is never longer than the displacement bound allows.
proof fn lemma_step_count_bound(dp: Vec2Model)
    requires
        sabs(dp.x) <= MAX_FX,
        sabs(dp.y) <= MAX_FX,
    ensures
        0 <= step_count(dp) <= 2_000_000,
{
    vstd::arithmetic::div_mod::lemma_div_pos_is_pos(major_abs(dp), SCALE as int);
    vstd::arithmetic::div_mod::lemma_div_is_ordered(major_abs(dp), MAX_FX as int, SCALE as int);
}

/// A march over an empty store never hits anything.
proof fn lemma_no_hit_runs_free(
    cand: spec_fn(int) -> Vec2Model,
    halfs: Vec2Model,
    statics: Seq<AabbModel>,
    i: int,
    steps: int,
)
    requires
        statics.len() == 0,
        i <= steps + 1,
    ensures
        first_hit_from(cand, halfs, statics, i, steps) == steps + 1,
    decreases steps + 1 - i,
{
    if i <= steps {
        assert(!hits_any(AabbModel { halfs, position: cand(i) }, statics));
        lemma_no_hit_runs_free(cand, halfs, statics, i + 1, steps);
    }
}

/// Sub-unit motion is a no-op: a pending displacement under one grid
/// unit on both axes leaves the position, velocity, displacement and
/// status untouched.
pub proof fn lemma_sub_unit_is_noop(a: ActorModel, d: AabbModel, statics: Seq<AabbModel>)
    requires
        sub_unit(a.dp),
    ensures
        resolve_actor(a, d, statics) == a,
        resolve_body(d, a.dp, statics) == d,
{
}

/// Free flight is lossless: with an empty static store the resolver
/// walks the whole sweep, advancing the major axis by the full
/// truncated displacement and the minor axis by its scaled-down share,
/// keeps the velocity, and classifies the actor as falling freely.
pub proof fn lemma_free_flight(a: ActorModel, d: AabbModel, statics: Seq<AabbModel>)
    requires
        statics.len() == 0,
        !sub_unit(a.dp),
    ensures
        step_count(a.dp) >= 1,
        resolve_body(d, a.dp, statics).position == (Vec2Model {
            x: d.position.x + off_x(a.dp, step_count(a.dp)),
            y: d.position.y + off_y(a.dp, step_count(a.dp)),
        }),
        resolve_actor(a, d, statics).collision == CollisionStatus::FreeFall,
        resolve_actor(a, d, statics).velocity == a.velocity,
        resolve_actor(a, d, statics).dp == (Vec2Model {
            x: a.dp.x - off_x(a.dp, step_count(a.dp)) * SCALE,
            y: a.dp.y - off_y(a.dp, step_count(a.dp)) * SCALE,
        }),
        x_is_major(a.dp) ==> off_x(a.dp, step_count(a.dp)) == sgn(a.dp.x) * step_count(a.dp),
        !x_is_major(a.dp) ==> off_y(a.dp, step_count(a.dp)) == sgn(a.dp.y) * step_count(a.dp),
{
    let steps = step_count(a.dp);
    assert(steps >= 1) by {
        vstd::arithmetic::div_mod::lemma_div_is_ordered(SCALE as int, major_abs(a.dp), SCALE as int);
        vstd::arithmetic::div_mod::lemma_div_multiples_vanish(1, SCALE as int);
    }
    lemma_no_hit_runs_free(diag_cand(d.position, a.dp), d.halfs, statics, 1, steps);
    assert(diag_hit(d, a.dp, statics) == steps + 1);
    assert(x_hit(d, a.dp, statics) == steps + 1);
    assert(y_hit(d, a.dp, statics) == steps + 1);
    assert(!is_standing_at(d.halfs, resolved_position(d, a.dp, statics), statics));
}

/// A scan's first hit lies between its start and one past its end.
proof fn lemma_first_hit_range(
    cand: spec_fn(int) -> Vec2Model,
    halfs: Vec2Model,
    statics: Seq<AabbModel>,
    i: int,
    steps: int,
)
    requires
        i <= steps + 1,
    ensures
        i <= first_hit_from(cand, halfs, statics, i, steps) <= steps + 1,
    decreases steps + 1 - i,
{
    if i <= steps {
        lemma_first_hit_range(cand, halfs, statics, i + 1, steps);
    }
}

/// Every candidate a scan walked past before its first hit is clear of
/// the store.
proof fn lemma_safe_before_first_hit(
    cand: spec_fn(int) -> Vec2Model,
    halfs: Vec2Model,
    statics: Seq<AabbModel>,
    i: int,
    steps: int,
    j: int,
)
    requires
        i <= j < first_hit_from(cand, halfs, statics, i, steps),
    ensures
        !hits_any(AabbModel { halfs, position: cand(j) }, statics),
    decreases j - i,
{
    if i > steps {
    } else if hits_any(AabbModel { halfs, position: cand(i) }, statics) {
    } else if j > i {
        lemma_safe_before_first_hit(cand, halfs, statics, i + 1, steps, j);
    }
}

/// A ministep offset at index zero is no offset.
proof fn lemma_off_zero(dp: Vec2Model)
    requires
        !sub_unit(dp),
    ensures
        off_x(dp, 0) == 0,
        off_y(dp, 0) == 0,
{
    vstd::arithmetic::div_mod::lemma_div_basics_1(major_abs(dp));
}

/// The resolver keeps the actor clear: a body that does not overlap
/// the static store never overlaps it after a resolution pass either;
/// every position it commits was walked and found safe.
pub proof fn lemma_resolution_stays_clear(d: AabbModel, dp: Vec2Model, statics: Seq<AabbModel>)
    requires
        !hits_any(d, statics),
    ensures
        !hits_any(resolve_body(d, dp, statics), statics),
{
    if !sub_unit(dp) {
        let steps = step_count(dp);
        vstd::arithmetic::div_mod::lemma_div_pos_is_pos(major_abs(dp), SCALE as int);
        let candd = diag_cand(d.position, dp);
        let h = diag_hit(d, dp, statics);
        lemma_first_hit_range(candd, d.halfs, statics, 1, steps);
        let sy = frozen_y(d, dp, statics);
        let candx = x_cand(d.position, dp, sy);
        let fx = x_hit(d, dp, statics);
        lemma_first_hit_range(candx, d.halfs, statics, h, steps);
        let nx = final_x(d, dp, statics);
        let candy = y_cand(d.position, dp, nx);
        let fy = y_hit(d, dp, statics);
        lemma_first_hit_range(candy, d.halfs, statics, h, steps);
        let ny = final_y(d, dp, statics);
        let final_box = AabbModel { halfs: d.halfs, position: Vec2Model { x: nx, y: ny } };
        if fy > h {
            // The y scan confirmed the final position at index fy - 1.
            lemma_safe_before_first_hit(candy, d.halfs, statics, h, steps, fy - 1);
            assert(candy(fy - 1) == final_box.position);
        } else if fx > h {
            // The y scan hit at once, so y froze at the diagonal value
            // and the x scan confirmed the final position at fx - 1.
            lemma_safe_before_first_hit(candx, d.halfs, statics, h, steps, fx - 1);
            assert(candx(fx - 1) == final_box.position);
        } else if h > 1 {
            // Both retries hit at once: the final position is the last
            // safe ministep of the diagonal march.
            lemma_safe_before_first_hit(candd, d.halfs, statics, 1, steps, h - 1);
            assert(candd(h - 1) == final_box.position);
        } else {
            // No safe ministep at all: the body stays where it started.
            lemma_off_zero(dp);
            assert(final_box.position == d.position);
            assert(final_box == (AabbModel { halfs: d.halfs, position: d.position }));
        }
    }
}

/// Resolution at rest is idempotent: with no pending displacement a
/// resolution pass changes nothing, so resolving twice produces the
/// state one pass produces.
pub proof fn lemma_resolution_idempotent_at_rest(
    a: ActorModel,
    d: AabbModel,
    statics: Seq<AabbModel>,
)
    requires
        a.dp.x == 0,
        a.dp.y == 0,
    ensures
        resolve_actor(a, d, statics) == a,
        resolve_body(d, a.dp, statics) == d,
        resolve_actor(resolve_actor(a, d, statics), resolve_body(d, a.dp, statics), statics)
            == resolve_actor(a, d, statics),
        resolve_body(
            resolve_body(d, a.dp, statics),
            resolve_actor(a, d, statics).dp,
            statics,
        ) == resolve_body(d, a.dp, statics),
{
    assert(sub_unit(a.dp));
}

/// Whether a candidate box strictly overlaps any box of the static
/// store (first match wins; store order does not matter).
pub fn is_intersect(aabb: &IAabb, statics: &Vec<Static>) -> (r: bool)
    ensures
        r == hits_any(aabb@, statics_model(statics@)),
{
    let ghost sm = statics_model(statics@);
    let mut k: usize = 0;
    while k < statics.len()
        invariant
            0 <= k <= statics@.len(),
            sm == statics_model(statics@),
            forall|j: int| 0 <= j < k ==> !overlaps(aabb@, sm[j]),
        decreases statics@.len() - k,
    {
        if aabb.is_intersect(&statics[k].aabb) {
            proof {
                assert(sm[k as int] == statics@[k as int]@);
                assert(overlaps(aabb@, sm[k as int]));
            }
            return true;
        }
        k += 1;
    }
    false
}

/// Grid offset of ministep `i` along x, matching `off_x`.
fn offset_x(dp: &FxVec2, i: i64) -> (r: i64)
    requires
        !sub_unit(dp@),
        sabs(dp@.x) <= MAX_FX,
        sabs(dp@.y) <= MAX_FX,
        0 <= i <= 2_000_001,
    ensures
        r == off_x(dp@, i as int),
        sabs(r as int) <= i,
{
    let ax = abs_i64(dp.x);
    let ay = abs_i64(dp.y);
    if ax >= ay {
        if dp.x >= 0 {
            i
        } else {
            -i
        }
    } else {
        proof {
            assert(ax * i <= MAX_FX * 2_000_001) by (nonlinear_arith)
                requires
                    0 <= ax <= MAX_FX,
                    0 <= i <= 2_000_001,
            ;
            lemma_minor_off_bound(ax as int, ay as int, i as int);
        }
        let q = (ax * i) / ay;
        if dp.x >= 0 {
            q
        } else {
            -q
        }
    }
}

/// Grid offset of ministep `i` along y, matching `off_y`.
fn offset_y(dp: &FxVec2, i: i64) -> (r: i64)
    requires
        !sub_unit(dp@),
        sabs(dp@.x) <= MAX_FX,
        sabs(dp@.y) <= MAX_FX,
        0 <= i <= 2_000_001,
    ensures
        r == off_y(dp@, i as int),
        sabs(r as int) <= i,
{
    let ax = abs_i64(dp.x);
    let ay = abs_i64(dp.y);
    if ax >= ay {
        proof {
            assert(ay * i <= MAX_FX * 2_000_001) by (nonlinear_arith)
                requires
                    0 <= ay <= MAX_FX,
                    0 <= i <= 2_000_001,
            ;
            lemma_minor_off_bound(ay as int, ax as int, i as int);
        }
        let q = (ay * i) / ax;
        if dp.y >= 0 {
            q
        } else {
            -q
        }
    } else {
        if dp.y >= 0 {
            i
        } else {
            -i
        }
    }
}

/// Resolves one actor's pending displacement against the static store:
/// marches the displacement in unit ministeps, backtracks to the last
/// safe position on collision, retries each axis separately so the
/// actor slides along walls and floors, moves the body, consumes the
/// displacement, zeroes velocity on blocked axes, and classifies the
/// contact. Sub-unit displacements are left to accumulate.
pub fn resolve_collisions(a: &mut Actor, d: &mut Dynamic, statics: &Vec<Static>)
    requires
        sabs(old(a)@.dp.x) <= MAX_FX,
        sabs(old(a)@.dp.y) <= MAX_FX,
        sabs(old(d)@.position.x) <= MAX_POS,
        sabs(old(d)@.position.y) <= MAX_POS,
    ensures
        final(a)@ == resolve_actor(old(a)@, old(d)@, statics_model(statics@)),
        final(d)@ == resolve_body(old(d)@, old(a)@.dp, statics_model(statics@)),
{
    let ghost sm = statics_model(statics@);
    let ghost dpm = a@.dp;
    let ghost dm = d@;
    let ax = abs_i64(a.dp.x);
    let ay = abs_i64(a.dp.y);
    if ax < SCALE && ay < SCALE {
        return ;
    }
    let maj: i64 = if ax >= ay {
        ax
    } else {
        ay
    };
    let steps: i64 = maj / SCALE;
    proof {
        lemma_step_count_bound(dpm);
        assert(steps as int == step_count(dpm));
    }
    let ghost halfs_m = d@.halfs;
    let ghost orig_m = d@.position;
    let orig_x: i64 = d.aabb.position.x as i64;
    let orig_y: i64 = d.aabb.position.y as i64;

    // Diagonal march: find the first ministep whose candidate overlaps.
    let ghost candd = diag_cand(orig_m, dpm);
    let mut i: i64 = 1;
    let mut hit: bool = false;
    while i <= steps && !hit
        invariant
            1 <= i <= steps + 1,
            steps == step_count(dpm),
            0 <= steps <= 2_000_000,
            !sub_unit(dpm),
            sabs(dpm.x) <= MAX_FX,
            sabs(dpm.y) <= MAX_FX,
            a.dp@ == dpm,
            d@ == dm,
            sabs(orig_m.x) <= MAX_POS,
            sabs(orig_m.y) <= MAX_POS,
            orig_x == orig_m.x,
            orig_y == orig_m.y,
            halfs_m == dm.halfs,
            orig_m == dm.position,
            candd == diag_cand(orig_m, dpm),
            sm == statics_model(statics@),
            !hit ==> first_hit_from(candd, halfs_m, sm, 1, steps as int) == first_hit_from(
                candd,
                halfs_m,
                sm,
                i as int,
                steps as int,
            ),
            hit ==> i <= steps && first_hit_from(candd, halfs_m, sm, 1, steps as int) == i as int,
        decreases steps + 1 - i + (if hit { 0int } else { 1int }),
    {
        let ox = offset_x(&a.dp, i);
        let oy = offset_y(&a.dp, i);
        let px: i32 = (orig_x + ox) as i32;
        let py: i32 = (orig_y + oy) as i32;
        let probe = IAabb { halfs: d.aabb.halfs, position: IVec2 { x: px, y: py } };
        proof {
            assert(candd(i as int) == Vec2Model { x: orig_m.x + off_x(dpm, i as int), y: orig_m.y + off_y(dpm, i as int) });
            assert(probe@ == (AabbModel { halfs: halfs_m, position: candd(i as int) }));
        }
        if is_intersect(&probe, statics) {
            proof {
                assert(first_hit_from(candd, halfs_m, sm, i as int, steps as int) == i as int);
            }
            hit = true;
        } else {
            proof {
                assert(first_hit_from(candd, halfs_m, sm, i as int, steps as int)
                    == first_hit_from(candd, halfs_m, sm, i as int + 1, steps as int));
            }
            i = i + 1;
        }
    }
    let h: i64 = i;
    proof {
        assert(h as int == diag_hit(dm, dpm, sm));
    }

    // X-only retry scan from the first collision, y frozen at the last
    // safe ministep.
    let sy_off = offset_y(&a.dp, h - 1);
    let sy: i64 = orig_y + sy_off;
    proof {
        assert(sy == frozen_y(dm, dpm, sm));
    }
    let ghost candx = x_cand(orig_m, dpm, sy as int);
    let mut ix: i64 = h;
    let mut hitx: bool = false;
    while ix <= steps && !hitx
        invariant
            1 <= h <= ix <= steps + 1,
            steps == step_count(dpm),
            0 <= steps <= 2_000_000,
            !sub_unit(dpm),
            sabs(dpm.x) <= MAX_FX,
            sabs(dpm.y) <= MAX_FX,
            a.dp@ == dpm,
            d@ == dm,
            sabs(orig_m.x) <= MAX_POS,
            sabs(orig_m.y) <= MAX_POS,
            orig_x == orig_m.x,
            orig_y == orig_m.y,
            sabs(sy as int - orig_m.y) <= steps,
            halfs_m == dm.halfs,
            orig_m == dm.position,
            candx == x_cand(orig_m, dpm, sy as int),
            sm == statics_model(statics@),
            !hitx ==> first_hit_from(candx, halfs_m, sm, h as int, steps as int) == first_hit_from(
                candx,
                halfs_m,
                sm,
                ix as int,
                steps as int,
            ),
            hitx ==> ix <= steps && first_hit_from(candx, halfs_m, sm, h as int, steps as int)
                == ix as int,
        decreases steps + 1 - ix + (if hitx { 0int } else { 1int }),
    {
        let ox = offset_x(&a.dp, ix);
        let px: i32 = (orig_x + ox) as i32;
        let py: i32 = sy as i32;
        let probe = IAabb { halfs: d.aabb.halfs, position: IVec2 { x: px, y: py } };
        proof {
            assert(candx(ix as int) == Vec2Model { x: orig_m.x + off_x(dpm, ix as int), y: sy as int });
            assert(probe@ == (AabbModel { halfs: halfs_m, position: candx(ix as int) }));
        }
        if is_intersect(&probe, statics) {
            proof {
                assert(first_hit_from(candx, halfs_m, sm, ix as int, steps as int) == ix as int);
            }
            hitx = true;
        } else {
            proof {
                assert(first_hit_from(candx, halfs_m, sm, ix as int, steps as int)
                    == first_hit_from(candx, halfs_m, sm, ix as int + 1, steps as int));
            }
            ix = ix + 1;
        }
    }
    let fx: i64 = ix;
    proof {
        assert(fx as int == x_hit(dm, dpm, sm));
    }
    let nx_off = offset_x(&a.dp, fx - 1);
    let nx: i64 = orig_x + nx_off;
    proof {
        assert(nx == final_x(dm, dpm, sm));
    }

    // Y-only retry scan, x frozen at the value the x scan reached.
    let ghost candy = y_cand(orig_m, dpm, nx as int);
    let mut iy: i64 = h;
    let mut hity: bool = false;
    while iy <= steps && !hity
        invariant
            1 <= h <= iy <= steps + 1,
            steps == step_count(dpm),
            0 <= steps <= 2_000_000,
            !sub_unit(dpm),
            sabs(dpm.x) <= MAX_FX,
            sabs(dpm.y) <= MAX_FX,
            a.dp@ == dpm,
            d@ == dm,
            sabs(orig_m.x) <= MAX_POS,
            sabs(orig_m.y) <= MAX_POS,
            orig_x == orig_m.x,
            orig_y == orig_m.y,
            sabs(nx as int - orig_m.x) <= steps,
            halfs_m == dm.halfs,
            orig_m == dm.position,
            candy == y_cand(orig_m, dpm, nx as int),
            sm == statics_model(statics@),
            !hity ==> first_hit_from(candy, halfs_m, sm, h as int, steps as int) == first_hit_from(
                candy,
                halfs_m,
                sm,
                iy as int,
                steps as int,
            ),
            hity ==> iy <= steps && first_hit_from(candy, halfs_m, sm, h as int, steps as int)
                == iy as int,
        decreases steps + 1 - iy + (if hity { 0int } else { 1int }),
    {
        let oy = offset_y(&a.dp, iy);
        let px: i32 = nx as i32;
        let py: i32 = (orig_y + oy) as i32;
        let probe = IAabb { halfs: d.aabb.halfs, position: IVec2 { x: px, y: py } };
        proof {
            assert(candy(iy as int) == Vec2Model { x: nx as int, y: orig_m.y + off_y(dpm, iy as int) });
            assert(probe@ == (AabbModel { halfs: halfs_m, position: candy(iy as int) }));
        }
        if is_intersect(&probe, statics) {
            proof {
                assert(first_hit_from(candy, halfs_m, sm, iy as int, steps as int) == iy as int);
            }
            hity = true;
        } else {
            proof {
                assert(first_hit_from(candy, halfs_m, sm, iy as int, steps as int)
                    == first_hit_from(candy, halfs_m, sm, iy as int + 1, steps as int));
            }
            iy = iy + 1;
        }
    }
    let fy: i64 = iy;
    proof {
        assert(fy as int == y_hit(dm, dpm, sm));
    }
    let ny_off = offset_y(&a.dp, fy - 1);
    let ny: i64 = orig_y + ny_off;
    proof {
        assert(ny == final_y(dm, dpm, sm));
    }

    // Ground probe one grid unit below the final safe position.
    let probe = IAabb {
        halfs: d.aabb.halfs,
        position: IVec2 { x: nx as i32, y: (ny - 1) as i32 },
    };
    let standing = is_intersect(&probe, statics);
    proof {
        assert(standing == is_standing_at(halfs_m, resolved_position(dm, dpm, sm), sm));
    }

    // Commit: move the body, consume the walked displacement, zero the
    // blocked axes, classify the contact.
    d.aabb.position = IVec2 { x: nx as i32, y: ny as i32 };
    a.dp = FxVec2 {
        x: if hitx {
            0
        } else {
            a.dp.x - nx_off * SCALE
        },
        y: if hity {
            0
        } else {
            a.dp.y - ny_off * SCALE
        },
    };
    a.velocity = FxVec2 {
        x: if hitx {
            0
        } else {
            a.velocity.x
        },
        y: if hity {
            0
        } else {
            a.velocity.y
        },
    };
    a.collision = if standing {
        CollisionStatus::Standing
    } else if hitx {
        CollisionStatus::WallHug
    } else {
        CollisionStatus::FreeFall
    };
}

} // verus!
