//! Adaptive sampling of a segment's parameter domain.
//!
//! A segment is parameterized over `[0, 1]`. Here that domain is measured in ticks:
//! `T_ONE` ticks make one unit, so every parameter the algorithm visits (a start,
//! halved or doubled steps, the distance left to the end) is an exact integer.
//! The error policy that decides whether a stretch is too coarse is supplied by the
//! caller through `Parameterizer`; the marching and step-size logic is written once
//! here and holds for every policy.

use vstd::prelude::*;

verus! {

/// Ticks in one unit of the segment parameter (2^32).
pub const T_ONE: u64 = 4294967296;

/// The termination tolerance `1e-3` in ticks, rounded down. Because `1e-3 * T_ONE`
/// lies strictly between this value and the next integer, `d > T_EPS` on ticks is
/// exactly `d * 2^-32 > 1e-3` on parameters.
pub const T_EPS: u64 = 4294967;

/// The least advance of one accepted step while the end is farther than `T_EPS`.
pub const MIN_ADVANCE: u64 = 2147484;

/// A sample location: a segment and a parameter on it, in ticks.
#[derive(Clone, Copy, Debug, PartialEq, Eq)]
pub struct Sample {
    pub segment: usize,
    pub t: u64,
}

/// `a` comes strictly before `b`: an earlier segment, or the same one at a smaller parameter.
pub open spec fn precedes(a: Sample, b: Sample) -> bool {
    a.segment < b.segment || (a.segment == b.segment && a.t < b.t)
}

/// Every sample of `s` comes strictly before every later one.
pub open spec fn in_order(s: Seq<Sample>) -> bool {
    forall|i: int, j: int| 0 <= i < j < s.len() ==> precedes(#[trigger] s[i], #[trigger] s[j])
}

/// Some sample of `s` lies on segment `k` within `T_EPS` of its end.
pub open spec fn reaches_end(s: Seq<Sample>, k: int) -> bool {
    exists|i: int| 0 <= i < s.len() && (#[trigger] s[i]).segment == k && T_ONE - s[i].t <= T_EPS
}

/// The state of one subdivision run: the parameter reached, the step to try next, and
/// the end of the stretch being sampled.
#[derive(Clone, Copy, Debug, PartialEq, Eq)]
pub struct Subdivision {
    pub t_curr: u64,
    pub t_step: u64,
    pub t_end: u64,
}

/// What one move of a subdivision run gives: its next state, and the parameter of
/// the sample it emits, if it advanced.
pub open spec fn next_move(s: Subdivision, too_coarse: bool) -> (Subdivision, Option<u64>) {
    if too_coarse && s.t_step > T_EPS {
        (Subdivision { t_step: s.t_step / 2, ..s }, None)
    } else {
        let t = s.t_curr + s.t_step;
        let left = s.t_end - t;
        let step = if 2 * s.t_step >= left { left } else { 2 * s.t_step };
        (Subdivision { t_curr: t as u64, t_step: step as u64, t_end: s.t_end }, Some(t as u64))
    }
}

impl Subdivision {
    /// The state never steps past the end, and while the end is still farther than
    /// `T_EPS` the step is at least `MIN_ADVANCE`.
    pub open spec fn wf(self) -> bool {
        &&& self.t_curr + self.t_step <= self.t_end
        &&& (self.t_end - self.t_curr > T_EPS ==> self.t_step >= MIN_ADVANCE)
    }

    /// The run over `[t0, t1]` starts at `t0` with the whole stretch as its step.
    pub fn new(t0: u64, t1: u64) -> (r: Self)
        requires
            t0 <= t1,
        ensures
            r == (Subdivision { t_curr: t0, t_step: (t1 - t0) as u64, t_end: t1 }),
            r.wf(),
    {
        Subdivision { t_curr: t0, t_step: t1 - t0, t_end: t1 }
    }

    /// The run is over once the end is within `T_EPS` of the parameter reached.
    pub fn is_done(&self) -> (r: bool)
        requires
            self.wf(),
        ensures
            r == (self.t_end - self.t_curr <= T_EPS),
    {
        self.t_end - self.t_curr <= T_EPS
    }

    /// The step may still be halved: it is longer than `T_EPS`.
    pub fn can_halve(&self) -> (r: bool)
        ensures
            r == (self.t_step > T_EPS),
    {
        self.t_step > T_EPS
    }

    /// One move of the run. Where the policy found the stretch `[t_curr, t_curr +
    /// t_step]` too coarse and the step is longer than `T_EPS`, the step is halved and
    /// nothing is emitted. Otherwise the run advances by the step and emits the new
    /// parameter; the step then doubles, unless doubling would reach past the end, in
    /// which case it becomes exactly the distance left.
    pub fn next(&mut self, too_coarse: bool) -> (r: Option<u64>)
        requires
            old(self).wf(),
            !(old(self).t_end - old(self).t_curr <= T_EPS),
        ensures
            (*final(self), r) == next_move(*old(self), too_coarse),
            final(self).wf(),
            final(self).t_end == old(self).t_end,
            match r {
                Some(t) => t == final(self).t_curr && t >= old(self).t_curr + MIN_ADVANCE,
                None => final(self).t_curr == old(self).t_curr && final(self).t_step
                    < old(self).t_step,
            },
    {
        if too_coarse && self.t_step > T_EPS {
            self.t_step = self.t_step / 2;
            None
        } else {
            let t = self.t_curr + self.t_step;
            let left = self.t_end - t;
            let step = if left <= self.t_step || left - self.t_step <= self.t_step {
                left
            } else {
                2 * self.t_step
            };
            self.t_curr = t;
            self.t_step = step;
            Some(t)
        }
    }
}

/// An error policy: decides whether a stretch of a segment of type `S` is sampled too
/// coarsely. Parameters are in ticks; the stretch is `[t_curr, t_curr + t_step]`.
pub trait Parameterizer<S> {
    fn should_subdivide(&self, spline: &S, t_curr: u64, t_step: u64) -> bool
        requires
            t_curr + t_step <= T_ONE,
    ;
}

/// Samples the stretch `[t0, t1]` of `spline`, the segment numbered `segment`, and
/// appends the samples to `out`: while the end is farther than `T_EPS`, the policy is
/// asked about the current stretch and the run makes its `next` move.
///
/// Whatever the policy answers, the run ends; it appends at least one sample when the
/// stretch is longer than `T_EPS` and none otherwise; the appended parameters rise
/// strictly, by at least `MIN_ADVANCE` each, within `(t0, t1]`, and the last one is
/// within `T_EPS` of `t1`.
pub fn subdivide<S, P: Parameterizer<S>>(
    policy: &P,
    spline: &S,
    segment: usize,
    out: &mut Vec<Sample>,
    t0: u64,
    t1: u64,
)
    requires
        t0 <= t1 <= T_ONE,
    ensures
        final(out)@.subrange(0, old(out)@.len() as int) == old(out)@,
        final(out)@.len() > old(out)@.len() <==> t1 - t0 > T_EPS,
        forall|i: int|
            old(out)@.len() <= i < final(out)@.len() ==> (#[trigger] final(out)@[i]).segment
                == segment && t0 < final(out)@[i].t <= t1,
        forall|i: int|
            old(out)@.len() <= i < final(out)@.len() - 1 ==> #[trigger] final(out)@[i].t
                + MIN_ADVANCE <= final(out)@[i + 1].t,
        old(out)@.len() < final(out)@.len() ==> final(out)@[old(out)@.len() as int].t >= t0
            + MIN_ADVANCE,
        old(out)@.len() < final(out)@.len() ==> t1 - final(out)@.last().t <= T_EPS,
        (final(out)@.len() - old(out)@.len()) * MIN_ADVANCE <= t1 - t0,
{
    let ghost start = old(out)@;
    let mut state = Subdivision::new(t0, t1);
    while !state.is_done()
        invariant
            state.wf(),
            state.t_end == t1,
            t0 <= state.t_curr <= t1,
            t1 <= T_ONE,
            out@.subrange(0, start.len() as int) == start,
            start.len() <= out@.len(),
            forall|i: int|
                start.len() <= i < out@.len() ==> (#[trigger] out@[i]).segment == segment && t0
                    < out@[i].t <= state.t_curr,
            forall|i: int|
                start.len() <= i < out@.len() - 1 ==> #[trigger] out@[i].t + MIN_ADVANCE
                    <= out@[i + 1].t,
            start.len() < out@.len() ==> out@[start.len() as int].t >= t0 + MIN_ADVANCE,
            start.len() < out@.len() ==> out@.last().t == state.t_curr,
            start.len() == out@.len() ==> state.t_curr == t0,
            start.len() < out@.len() ==> t1 - t0 > T_EPS,
            (out@.len() - start.len()) * MIN_ADVANCE <= state.t_curr - t0,
        decreases state.t_end - state.t_curr, state.t_step,
    {
        let too_coarse = state.can_halve() && policy.should_subdivide(
            spline,
            state.t_curr,
            state.t_step,
        );
        match state.next(too_coarse) {
            Some(t) => {
                out.push(Sample { segment, t });
            },
            None => {},
        }
    }
}

/// Samples a whole path: the start of the first segment once, then each segment over
/// its domain `[0, T_ONE]`, in segment order. With no segments there are no samples.
///
/// The samples come in strict order (segment by segment, parameters rising within
/// each); every segment gets at least one sample, the last of which lies within
/// `T_EPS` of the segment's end. However fine the policy asks for, a segment gets at
/// most one sample per `MIN_ADVANCE` ticks.
pub fn parameterize<S, P: Parameterizer<S>>(policy: &P, splines: &Vec<S>) -> (r: Vec<Sample>)
    ensures
        splines.len() == 0 ==> r@.len() == 0,
        splines.len() > 0 ==> r@.len() > 0 && r@[0] == (Sample { segment: 0, t: 0 }),
        in_order(r@),
        forall|i: int|
            0 <= i < r@.len() ==> (#[trigger] r@[i]).segment < splines.len() && r@[i].t <= T_ONE,
        forall|k: int| 0 <= k < splines.len() ==> #[trigger] reaches_end(r@, k),
        splines.len() > 0 ==> (r@.len() - 1) * MIN_ADVANCE <= splines.len() * T_ONE,
{
    let mut pts: Vec<Sample> = Vec::new();
    if splines.len() == 0 {
        return pts;
    }
    pts.push(Sample { segment: 0, t: 0 });
    let mut k: usize = 0;
    while k < splines.len()
        invariant
            0 <= k <= splines.len(),
            pts@.len() > 0,
            pts@[0] == (Sample { segment: 0, t: 0 }),
            in_order(pts@),
            forall|i: int|
                0 <= i < pts@.len() ==> (#[trigger] pts@[i]).segment < splines.len()
                    && pts@[i].t <= T_ONE,
            forall|i: int|
                0 <= i < pts@.len() ==> (#[trigger] pts@[i]).segment < k || (
                pts@[i].segment == 0 && pts@[i].t == 0),
            forall|m: int| 0 <= m < k ==> #[trigger] reaches_end(pts@, m),
            (pts@.len() - 1) * MIN_ADVANCE <= k * T_ONE,
        decreases splines.len() - k,
    {
        let ghost before = pts@;
        subdivide(policy, &splines[k], k, &mut pts, 0, T_ONE);
        assert forall|i: int| 0 <= i < before.len() implies pts@[i] == before[i] by {
            assert(pts@.subrange(0, before.len() as int)[i] == pts@[i]);
        }
        assert forall|i: int, j: int| 0 <= i < j < pts@.len() implies precedes(
            #[trigger] pts@[i],
            #[trigger] pts@[j],
        ) by {
            if j < before.len() {
                assert(pts@[i] == before[i]);
                assert(pts@[j] == before[j]);
            } else if i < before.len() {
                assert(pts@[i] == before[i]);
            } else {
                strictly_rising(pts@, before.len() as int, i, j);
            }
        }
        assert forall|i: int| 0 <= i < pts@.len() implies (#[trigger] pts@[i]).segment
            < splines.len() && pts@[i].t <= T_ONE by {
            if i < before.len() {
                assert(pts@[i] == before[i]);
            }
        }
        assert forall|i: int|
            0 <= i < pts@.len() implies (#[trigger] pts@[i]).segment < k + 1 || (pts@[i].segment
                == 0 && pts@[i].t == 0) by {
            if i < before.len() {
                assert(pts@[i] == before[i]);
            }
        }
        assert forall|m: int| 0 <= m < k + 1 implies #[trigger] reaches_end(pts@, m) by {
            if m < k {
                assert(reaches_end(before, m));
                let i = choose|i: int|
                    0 <= i < before.len() && (#[trigger] before[i]).segment == m && T_ONE
                        - before[i].t <= T_EPS;
                assert(pts@[i] == before[i]);
            } else {
                assert(pts@[pts@.len() - 1].segment == m);
            }
        }
        k = k + 1;
    }
    pts
}

/// Within `s[from..]` a sample's parameter is at least `MIN_ADVANCE` below the next
/// one's, and the segment is shared: then any two of them are strictly ordered.
proof fn strictly_rising(s: Seq<Sample>, from: int, i: int, j: int)
    requires
        0 <= from <= i < j < s.len(),
        forall|k: int| from <= k < s.len() - 1 ==> #[trigger] s[k].t + MIN_ADVANCE <= s[k + 1].t,
        forall|k: int| from <= k < s.len() ==> (#[trigger] s[k]).segment == s[from].segment,
    ensures
        precedes(s[i], s[j]),
    decreases j - i,
{
    if j > i + 1 {
        strictly_rising(s, from, i, j - 1);
        assert(s[j - 1].t + MIN_ADVANCE <= s[j].t);
    } else {
        assert(s[i].t + MIN_ADVANCE <= s[i + 1].t);
    }
    assert(s[i].segment == s[from].segment);
    assert(s[j].segment == s[from].segment);
}

} // verus!
