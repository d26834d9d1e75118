//! Trajectory planning from sparse waypoints: quintic Hermite segments, adaptive
//! sampling of the segment parameter, and the parameter layout of the curvature
//! smoothing optimizer.
//!
//! Everything that is pure arithmetic on real numbers lives with the caller, which
//! supplies it through the `Parameterizer` trait and the generic scalar type `N`.
//! This crate owns the decisions: where to sample, in which order, and how the
//! optimizer's parameter vector maps onto the waypoints.

pub mod math;
pub mod waypoint;
pub mod spline;
pub mod parameterizer;
pub mod optimizer;

pub use math::Vec2;
pub use waypoint::Waypoint;
