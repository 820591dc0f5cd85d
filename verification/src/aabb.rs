//! Axis-aligned bounding boxes on the integer grid, with a strict
//! overlap test: boxes that merely touch do not intersect.

use vstd::prelude::*;
use crate::vec2::{sabs, IVec2, Vec2Model};

verus! {

/// Mathematical value of an axis-aligned bounding box.
pub ghost struct AabbModel {
    pub halfs: Vec2Model,
    pub position: Vec2Model,
}

/// Axis-aligned bounding box: a center position and half-extents,
/// both half-extents positive.
#[derive(Clone, Copy, Debug)]
pub struct IAabb {
    pub halfs: IVec2,
    pub position: IVec2,
}

impl View for IAabb {
    type V = AabbModel;

    open spec fn view(&self) -> AabbModel {
        AabbModel { halfs: self.halfs@, position: self.position@ }
    }
}

/// Both half-extents are positive; a box with a zero or negative
/// half-extent would report overlap never or always along that axis.
pub open spec fn aabb_wf(b: AabbModel) -> bool {
    b.halfs.x > 0 && b.halfs.y > 0
}

/// Strict overlap: the centers differ by less than the sum of the
/// half-extents on both axes. Touching exactly is not overlapping.
pub open spec fn overlaps(a: AabbModel, b: AabbModel) -> bool {
    &&& sabs(a.position.x - b.position.x) < a.halfs.x + b.halfs.x
    &&& sabs(a.position.y - b.position.y) < a.halfs.y + b.halfs.y
}

impl IAabb {
    pub fn new(halfs: IVec2, position: IVec2) -> (r: IAabb)
        requires
            halfs.x > 0,
            halfs.y > 0,
        ensures
            r@ == (AabbModel { halfs: halfs@, position: position@ }),
            aabb_wf(r@),
    {
        IAabb { halfs, position }
    }

    /// Strict overlap test against another box.
    pub fn is_intersect(&self, other: &IAabb) -> (r: bool)
        ensures
            r == overlaps(self@, other@),
    {
        let dx: i64 = self.position.x as i64 - other.position.x as i64;
        let dy: i64 = self.position.y as i64 - other.position.y as i64;
        let ax: i64 = if dx < 0 {
            -dx
        } else {
            dx
        };
        let ay: i64 = if dy < 0 {
            -dy
        } else {
            dy
        };
        ax < self.halfs.x as i64 + other.halfs.x as i64 && ay < self.halfs.y as i64
            + other.halfs.y as i64
    }
}

/// The strict overlap test is symmetric: which box asks does not
/// matter.
pub proof fn lemma_overlap_symmetric(a: AabbModel, b: AabbModel)
    ensures
        overlaps(a, b) == overlaps(b, a),
{
}

/// Two boxes whose centers differ by exactly the sum of the
/// half-extents on some axis merely touch, and touching is not
/// overlapping.
pub proof fn lemma_touching_is_not_overlapping(a: AabbModel, b: AabbModel)
    requires
        sabs(a.position.x - b.position.x) == a.halfs.x + b.halfs.x || sabs(
            a.position.y - b.position.y,
        ) == a.halfs.y + b.halfs.y,
    ensures
        !overlaps(a, b),
{
}

} // verus!
