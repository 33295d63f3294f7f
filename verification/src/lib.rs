//! A small path tracer over fixed-point arithmetic.
//!
//! Geometry, colors and camera parameters are 3-component vectors of 64-bit
//! integers scaled by `fixed::SCALE`, so every arithmetic step has an exact
//! integer meaning and the whole render is a deterministic function of the
//! scene, the camera, the image configuration and a 64-bit seed.

use vstd::prelude::*;

pub mod camera;
pub mod config;
pub mod fixed;
pub mod material;
pub mod object;
pub mod primitive;
pub mod rng;
pub mod scenes;
pub mod tracer;

verus! {

/// What the interactive shell is currently doing with the tracer.
#[derive(Debug, PartialEq, Eq, Structural)]
pub enum AppState {
    Running,
    Moving,
    Paused,
}

impl AppState {
    /// Label for the run/pause toggle button of a front end.
    pub fn to_button_str(&self) -> (r: &'static str)
        ensures
            *self == AppState::Running ==> r@ == "Pause"@,
            *self != AppState::Running ==> r@ == "Run"@,
    {
        match self {
            AppState::Running => "Pause",
            AppState::Paused => "Run",
            AppState::Moving => "Run",
        }
    }
}

} // verus!
