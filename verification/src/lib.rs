//! Cycling route time estimation: an adaptive-step kinematic segment
//! integrator coupled to a three-parameter critical-power model of a finite
//! anaerobic energy reserve, with a pacing driver that clamps upcoming
//! segment powers down to critical power when the reserve would otherwise be
//! exhausted mid-segment.
//!
//! All quantities are fixed-point `i128` values in micro-units (millionths of
//! the SI unit); see `fixedpoint` for the conventions.
pub mod fixedpoint;
pub mod kinematics;
pub mod morton;
pub mod simulation;
