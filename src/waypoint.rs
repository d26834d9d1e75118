use vstd::prelude::*;

use crate::math::Vec2;

verus! {

/// A user-specified control point: where the path passes, which way it heads there
/// (the tangent's length is only a hint), and the second-derivative control vector.
#[derive(Clone, Copy, Debug, PartialEq)]
pub struct Waypoint<N> {
    pub point: Vec2<N>,
    pub tangent: Vec2<N>,
    pub curvature: Vec2<N>,
}

impl<N> Waypoint<N> {
    pub fn new(point: Vec2<N>, tangent: Vec2<N>, curvature: Vec2<N>) -> (r: Self)
        ensures
            r.point == point,
            r.tangent == tangent,
            r.curvature == curvature,
    {
        Waypoint { point, tangent, curvature }
    }
}

} // verus!
