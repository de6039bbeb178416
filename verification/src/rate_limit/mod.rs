//! Rate limits: how fast bytes may pass and how many connections may open.

pub mod bucket;
pub mod copy;
pub mod gate;
pub mod laws;
pub mod limiter;
pub mod stats;
