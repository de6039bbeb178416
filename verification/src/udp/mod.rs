//! UDP forwarding.

pub mod batch;
pub mod demux;
pub mod error;
pub mod flow;
pub mod laws;
pub mod listener;
pub mod reaper;
pub mod registry;
pub mod relay;
pub mod rule;
pub mod runtime;
pub mod table;
