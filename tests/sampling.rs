use wayfinder::parameterizer::{
    parameterize, subdivide, Parameterizer, Sample, Subdivision, MIN_ADVANCE, T_EPS, T_ONE,
};

/// Never finds a stretch too coarse.
struct Coarse;

impl Parameterizer<()> for Coarse {
    fn should_subdivide(&self, _spline: &(), _t_curr: u64, _t_step: u64) -> bool {
        false
    }
}

/// Always finds a stretch too coarse.
struct Finest;

impl Parameterizer<()> for Finest {
    fn should_subdivide(&self, _spline: &(), _t_curr: u64, _t_step: u64) -> bool {
        true
    }
}

/// Finds a stretch too coarse when its length on the parameter exceeds `max_step`.
struct MaxStep {
    max_step: f64,
}

impl Parameterizer<()> for MaxStep {
    fn should_subdivide(&self, _spline: &(), _t_curr: u64, t_step: u64) -> bool {
        (t_step as f64) / (T_ONE as f64) > self.max_step
    }
}

/// Finds a stretch too coarse where the sampled curve `y = sin(8 t)` turns by more
/// than `max_turn` over it: a stand-in for a curvature-driven policy.
struct Turning {
    max_turn: f64,
}

impl Parameterizer<f64> for Turning {
    fn should_subdivide(&self, freq: &f64, t_curr: u64, t_step: u64) -> bool {
        let t0 = t_curr as f64 / T_ONE as f64;
        let t1 = (t_curr + t_step) as f64 / T_ONE as f64;
        let h0 = (freq * (freq * t0).cos()).atan();
        let h1 = (freq * (freq * t1).cos()).atan();
        (h1 - h0).abs() > self.max_turn
    }
}

fn is_strictly_ordered(samples: &[Sample]) -> bool {
    samples.windows(2).all(|w| {
        w[0].segment < w[1].segment || (w[0].segment == w[1].segment && w[0].t < w[1].t)
    })
}

#[test]
fn no_segments_give_no_samples() {
    let splines: Vec<()> = Vec::new();
    assert!(parameterize(&Coarse, &splines).is_empty());
}

#[test]
fn coarse_policy_takes_the_whole_segment_in_one_step() {
    let samples = parameterize(&Coarse, &vec![()]);
    assert_eq!(
        samples,
        vec![Sample { segment: 0, t: 0 }, Sample { segment: 0, t: T_ONE }]
    );
}

#[test]
fn coarse_policy_on_three_segments() {
    let samples = parameterize(&Coarse, &vec![(), (), ()]);
    assert_eq!(
        samples,
        vec![
            Sample { segment: 0, t: 0 },
            Sample { segment: 0, t: T_ONE },
            Sample { segment: 1, t: T_ONE },
            Sample { segment: 2, t: T_ONE },
        ]
    );
}

#[test]
fn finest_policy_stops_at_the_tolerance() {
    // The step halves from 2^32 down to 2^22, the first step not above T_EPS, and the
    // run stops once the end is within T_EPS: at 1023 * 2^22.
    let samples = parameterize(&Finest, &vec![()]);
    assert_eq!(samples.len(), 1 + 1023);
    for (i, s) in samples.iter().enumerate() {
        assert_eq!(s.segment, 0);
        assert_eq!(s.t, (i as u64) << 22);
    }
    assert!(T_ONE - samples.last().unwrap().t <= T_EPS);
}

#[test]
fn max_step_policy_samples_evenly() {
    let samples = parameterize(&MaxStep { max_step: 0.25 }, &vec![()]);
    let ts: Vec<u64> = samples.iter().map(|s| s.t).collect();
    assert_eq!(ts, vec![0, T_ONE / 4, T_ONE / 2, 3 * T_ONE / 4, T_ONE]);
}

#[test]
fn samples_advance_in_order_across_segments() {
    let splines = vec![8.0, 3.0, 12.0];
    let samples = parameterize(&Turning { max_turn: 0.05 }, &splines);
    assert_eq!(samples[0], Sample { segment: 0, t: 0 });
    assert!(is_strictly_ordered(&samples));
    for k in 0..splines.len() {
        let last = samples.iter().filter(|s| s.segment == k).last().unwrap();
        assert!(T_ONE - last.t <= T_EPS);
    }
}

#[test]
fn shrinking_thresholds_terminate_with_more_samples() {
    let mut previous = 0;
    for max_turn in [0.5, 0.1, 0.02, 0.004, 0.0008, 0.0] {
        let samples = parameterize(&Turning { max_turn }, &vec![8.0]);
        assert!(samples.len() >= previous);
        assert!((samples.len() as u64 - 1) * MIN_ADVANCE <= T_ONE);
        previous = samples.len();
    }
    assert_eq!(previous, 1 + 1023);
}

#[test]
fn subdivide_appends_after_existing_samples() {
    let mut out = vec![Sample { segment: 4, t: 7 }];
    subdivide(&Coarse, &(), 5, &mut out, T_ONE / 2, T_ONE);
    assert_eq!(
        out,
        vec![Sample { segment: 4, t: 7 }, Sample { segment: 5, t: T_ONE }]
    );
}

#[test]
fn subdivide_leaves_a_short_stretch_alone() {
    let mut out = Vec::new();
    subdivide(&Finest, &(), 0, &mut out, T_ONE - T_EPS, T_ONE);
    assert!(out.is_empty());
}

#[test]
fn subdivision_halves_then_advances_and_snaps() {
    let mut s = Subdivision::new(0, T_ONE);
    assert!(!s.is_done());
    assert!(s.can_halve());
    assert_eq!(s.next(true), None);
    assert_eq!(s, Subdivision { t_curr: 0, t_step: T_ONE / 2, t_end: T_ONE });
    assert_eq!(s.next(true), None);
    assert_eq!(s.t_step, T_ONE / 4);
    // Doubling 1/4 from 1/4 reaches 3/4 < 1: the step doubles.
    assert_eq!(s.next(false), Some(T_ONE / 4));
    assert_eq!(s, Subdivision { t_curr: T_ONE / 4, t_step: T_ONE / 2, t_end: T_ONE });
    // From 3/4 the doubled step would pass the end: it becomes the distance left.
    assert_eq!(s.next(false), Some(3 * T_ONE / 4));
    assert_eq!(s, Subdivision { t_curr: 3 * T_ONE / 4, t_step: T_ONE / 4, t_end: T_ONE });
    assert_eq!(s.next(true), None);
    assert_eq!(s.next(false), Some(7 * T_ONE / 8));
    assert_eq!(s.t_step, T_ONE / 8);
    assert_eq!(s.next(false), Some(T_ONE));
    assert!(s.is_done());
}

#[test]
fn subdivision_ignores_the_policy_below_the_tolerance() {
    let mut s = Subdivision { t_curr: 0, t_step: T_EPS, t_end: T_ONE };
    assert!(!s.can_halve());
    assert_eq!(s.next(true), Some(T_EPS));
    assert_eq!(s.t_step, 2 * T_EPS);
}

#[test]
fn tolerance_matches_one_thousandth() {
    assert!((T_EPS as f64) / (T_ONE as f64) < 1e-3);
    assert!(((T_EPS + 1) as f64) / (T_ONE as f64) > 1e-3);
    assert_eq!(MIN_ADVANCE, T_EPS / 2 + 1);
}
