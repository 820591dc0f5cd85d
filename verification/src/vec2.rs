//! Two-dimensional vectors: integer grid vectors for positions and
//! extents, and fixed-point vectors for sub-unit kinematic quantities.

use vstd::prelude::*;

verus! {

/// Number of fixed-point subunits per grid unit.
pub const SCALE: i64 = 1000;

/// Bound on the magnitude of any fixed-point component (velocity,
/// acceleration, pending displacement, maximum speed) accepted by the
/// kinematic functions; keeps every intermediate product inside `i64`
/// or `i128`.
pub const MAX_FX: i64 = 2_000_000_000;

/// Bound on the magnitude of a grid coordinate accepted by the sweep
/// resolver; leaves room in `i32` for the longest possible sweep.
pub const MAX_POS: i32 = 1_000_000_000;

/// Bound on a tick duration in subunits of a second (ten seconds).
pub const MAX_DT: i64 = 10_000;

/// Mathematical value of a two-dimensional vector, whatever its
/// executable representation.
pub ghost struct Vec2Model {
    pub x: int,
    pub y: int,
}

/// Integer grid vector: a position or a pair of half-extents.
#[derive(Clone, Copy, Debug, PartialEq, Eq, Structural)]
pub struct IVec2 {
    pub x: i32,
    pub y: i32,
}

impl View for IVec2 {
    type V = Vec2Model;

    open spec fn view(&self) -> Vec2Model {
        Vec2Model { x: self.x as int, y: self.y as int }
    }
}

impl IVec2 {
    pub fn new(x: i32, y: i32) -> (r: IVec2)
        ensures
            r@ == (Vec2Model { x: x as int, y: y as int }),
    {
        IVec2 { x, y }
    }
}

/// Fixed-point vector: `SCALE` subunits per grid unit.
#[derive(Clone, Copy, Debug, PartialEq, Eq, Structural)]
pub struct FxVec2 {
    pub x: i64,
    pub y: i64,
}

impl View for FxVec2 {
    type V = Vec2Model;

    open spec fn view(&self) -> Vec2Model {
        Vec2Model { x: self.x as int, y: self.y as int }
    }
}

impl FxVec2 {
    pub fn new(x: i64, y: i64) -> (r: FxVec2)
        ensures
            r@ == (Vec2Model { x: x as int, y: y as int }),
    {
        FxVec2 { x, y }
    }

    pub fn zero() -> (r: FxVec2)
        ensures
            r@ == (Vec2Model { x: 0, y: 0 }),
    {
        FxVec2 { x: 0, y: 0 }
    }
}

/// Absolute value over the mathematical integers.
pub open spec fn sabs(x: int) -> int {
    if x < 0 {
        -x
    } else {
        x
    }
}

/// Sign of a displacement component; zero never occurs on a major axis,
/// so mapping it to `1` is immaterial.
pub open spec fn sgn(x: int) -> int {
    if x < 0 {
        -1
    } else {
        1
    }
}

/// Division truncating toward zero (for a positive divisor), the
/// rounding executable integer division performs.
pub open spec fn trunc_div(a: int, b: int) -> int {
    if a >= 0 {
        a / b
    } else {
        -((-a) / b)
    }
}

/// Absolute value of a bounded `i64`.
pub fn abs_i64(x: i64) -> (r: i64)
    requires
        x != i64::MIN,
    ensures
        r == sabs(x as int),
{
    if x < 0 {
        -x
    } else {
        x
    }
}

/// Executable division truncating toward zero, matching `trunc_div`.
pub fn div_trunc_i64(a: i64, b: i64) -> (r: i64)
    requires
        b > 0,
        a != i64::MIN,
    ensures
        r == trunc_div(a as int, b as int),
{
    if a >= 0 {
        a / b
    } else {
        let q: i64 = (-a) / b;
        proof {
            vstd::arithmetic::div_mod::lemma_div_basics_5((-a) as int, b as int);
        }
        -q
    }
}

/// Executable division truncating toward zero on `i128`.
pub fn div_trunc_i128(a: i128, b: i128) -> (r: i128)
    requires
        b > 0,
        a != i128::MIN,
    ensures
        r == trunc_div(a as int, b as int),
{
    if a >= 0 {
        a / b
    } else {
        let q: i128 = (-a) / b;
        proof {
            vstd::arithmetic::div_mod::lemma_div_basics_5((-a) as int, b as int);
        }
        -q
    }
}

} // verus!
