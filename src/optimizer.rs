//! The parameter vector of the curvature-smoothing optimizer.
//!
//! The first and last waypoints are fixed boundary conditions. Each interior waypoint
//! contributes its curvature vector, `x` then `y`, so waypoint `k` (for `1 <= k <= n - 2`)
//! owns the entries `2k - 2` and `2k - 1`. The cost and its gradient are evaluated on
//! waypoints rebuilt from such a vector.

use vstd::prelude::*;

use crate::math::Vec2;
use crate::waypoint::Waypoint;

verus! {

/// The number of optimized scalars for `n` waypoints: two per interior waypoint.
pub open spec fn param_count(n: int) -> int {
    if n >= 3 {
        2 * (n - 2)
    } else {
        0
    }
}

/// The scalar at entry `i` of the parameter vector of `wps`.
pub open spec fn param_at<N>(wps: Seq<Waypoint<N>>, i: int) -> N {
    let c = wps[i / 2 + 1].curvature;
    if i % 2 == 0 {
        c.x
    } else {
        c.y
    }
}

/// The interior waypoints' curvature vectors, flattened.
pub open spec fn interior_params<N>(wps: Seq<Waypoint<N>>) -> Seq<N> {
    Seq::new(param_count(wps.len() as int) as nat, |i: int| param_at(wps, i))
}

/// Waypoint `k` of `wps` once the parameter vector `params` is written back: an
/// interior waypoint whose two entries exist takes them as its curvature; every
/// other waypoint stays as it is.
pub open spec fn applied_at<N>(wps: Seq<Waypoint<N>>, params: Seq<N>, k: int) -> Waypoint<N> {
    if 1 <= k < wps.len() - 1 && 2 * k <= params.len() {
        Waypoint { curvature: Vec2 { x: params[2 * k - 2], y: params[2 * k - 1] }, ..wps[k] }
    } else {
        wps[k]
    }
}

/// All of `wps` with `params` written back.
pub open spec fn applied<N>(wps: Seq<Waypoint<N>>, params: Seq<N>) -> Seq<Waypoint<N>> {
    Seq::new(wps.len(), |k: int| applied_at(wps, params, k))
}

/// The optimizer's starting point: the interior waypoints' current curvature vectors,
/// flattened. Empty with fewer than three waypoints.
pub fn initial_params<N: Copy>(wps: &Vec<Waypoint<N>>) -> (r: Vec<N>)
    ensures
        r@ == interior_params(wps@),
        r@.len() == param_count(wps@.len() as int),
{
    let mut r: Vec<N> = Vec::new();
    let n = wps.len();
    if n < 3 {
        assert(r@ =~= interior_params(wps@));
        return r;
    }
    let mut k: usize = 1;
    while k < n - 1
        invariant
            n == wps@.len(),
            n >= 3,
            1 <= k <= n - 1,
            r@.len() == 2 * (k - 1),
            forall|i: int| 0 <= i < r@.len() ==> r@[i] == param_at(wps@, i),
        decreases n - k,
    {
        let c = wps[k].curvature;
        r.push(c.x);
        r.push(c.y);
        k = k + 1;
    }
    assert(r@ =~= interior_params(wps@));
    r
}

/// The waypoints that the parameter vector `params` stands for: a copy of `wps` in
/// which each interior waypoint whose two entries exist takes them as its curvature.
pub fn with_params<N: Copy>(wps: &Vec<Waypoint<N>>, params: &Vec<N>) -> (r: Vec<Waypoint<N>>)
    ensures
        r@ == applied(wps@, params@),
{
    let mut r: Vec<Waypoint<N>> = Vec::new();
    let n = wps.len();
    let mut k: usize = 0;
    while k < n
        invariant
            n == wps@.len(),
            k <= n,
            r@.len() == k,
            forall|i: int| 0 <= i < k ==> r@[i] == applied_at(wps@, params@, i),
        decreases n - k,
    {
        let w = wps[k];
        if 1 <= k && k + 1 < n && k <= params.len() / 2 {
            r.push(
                Waypoint {
                    curvature: Vec2 { x: params[2 * k - 2], y: params[2 * k - 1] },
                    ..w
                },
            );
        } else {
            r.push(w);
        }
        k = k + 1;
    }
    assert(r@ =~= applied(wps@, params@));
    r
}

/// Writing back a set of waypoints' own parameter vector gives them back unchanged.
pub proof fn lemma_apply_own_params<N>(wps: Seq<Waypoint<N>>)
    ensures
        applied(wps, interior_params(wps)) == wps,
{
    let p = interior_params(wps);
    assert forall|k: int| 0 <= k < wps.len() implies #[trigger] applied_at(wps, p, k) == wps[k] by {
        if 1 <= k < wps.len() - 1 && 2 * k <= p.len() {
            assert(p[2 * k - 2] == param_at(wps, 2 * k - 2));
            assert(p[2 * k - 1] == param_at(wps, 2 * k - 1));
            assert((2 * k - 2) / 2 + 1 == k);
            assert((2 * k - 1) / 2 + 1 == k);
        }
    }
    assert(applied(wps, p) =~= wps);
}

/// A parameter vector of the right length, written back and read out again, is the
/// same vector.
pub proof fn lemma_read_back_params<N>(wps: Seq<Waypoint<N>>, params: Seq<N>)
    requires
        params.len() == param_count(wps.len() as int),
    ensures
        interior_params(applied(wps, params)) == params,
{
    let a = applied(wps, params);
    assert forall|i: int| 0 <= i < params.len() implies #[trigger] param_at(a, i) == params[i] by {
        let k = i / 2 + 1;
        assert(a[k] == applied_at(wps, params, k));
        assert(i == 2 * k - 2 || i == 2 * k - 1);
    }
    assert(interior_params(a) =~= params);
}

/// Perturbing entry `i` of a full parameter vector moves one coordinate of one
/// waypoint and nothing else: coordinate `i % 2` (`x`, then `y`) of the curvature of
/// waypoint `i / 2 + 1`. This is what makes a forward difference on entry `i` the
/// partial derivative with respect to that coordinate.
pub proof fn lemma_one_param_moves_one_coordinate<N>(
    wps: Seq<Waypoint<N>>,
    params: Seq<N>,
    i: int,
    v: N,
)
    requires
        params.len() == param_count(wps.len() as int),
        0 <= i < params.len(),
    ensures
        ({
            let before = applied(wps, params);
            let after = applied(wps, params.update(i, v));
            let k = i / 2 + 1;
            &&& after.len() == before.len()
            &&& forall|m: int| 0 <= m < wps.len() && m != k ==> #[trigger] after[m] == before[m]
            &&& after[k].point == before[k].point
            &&& after[k].tangent == before[k].tangent
            &&& i % 2 == 0 ==> after[k].curvature == (Vec2 { x: v, y: before[k].curvature.y })
            &&& i % 2 == 1 ==> after[k].curvature == (Vec2 { x: before[k].curvature.x, y: v })
        }),
{
    let p2 = params.update(i, v);
    let before = applied(wps, params);
    let after = applied(wps, p2);
    let k = i / 2 + 1;
    assert forall|m: int| 0 <= m < wps.len() && m != k implies #[trigger] after[m] == before[m] by {
        assert(after[m] == applied_at(wps, p2, m));
        assert(before[m] == applied_at(wps, params, m));
        if 1 <= m < wps.len() - 1 && 2 * m <= params.len() {
            assert(2 * m - 2 != i && 2 * m - 1 != i);
        }
    }
    assert(after[k] == applied_at(wps, p2, k));
    assert(before[k] == applied_at(wps, params, k));
    assert(i == 2 * k - 2 || i == 2 * k - 1);
}

} // verus!
