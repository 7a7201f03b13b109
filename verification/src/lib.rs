//! A terminal-output pipeline: a command model, a buffer compiler that
//! collapses same-colour adjacent draws into runs, a multi-buffered frame
//! ring for handing finished frames to a presenter, and a spin-wait fence
//! for cross-thread rendezvous.

pub mod containers;
pub mod ecs;
pub mod fence;
pub mod renderer;
