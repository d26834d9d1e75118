use vstd::prelude::*;

verus! {

/// A planar vector over an arbitrary scalar type.
#[derive(Clone, Copy, Debug, PartialEq)]
pub struct Vec2<N> {
    pub x: N,
    pub y: N,
}

impl<N> Vec2<N> {
    pub fn new(x: N, y: N) -> (r: Self)
        ensures
            r.x == x,
            r.y == y,
    {
        Vec2 { x, y }
    }
}

} // verus!
