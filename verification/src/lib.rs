//! The data plane of a port forwarder.

pub mod addr;
pub mod addr_text;
pub mod bytes;
pub mod clock;
pub mod failover;
pub mod failover_path;
pub mod probe;
pub mod proto;
pub mod proxy_protocol;
pub mod quota;
pub mod rate_limit;
pub mod resolver;
pub mod sni;
pub mod stats;
pub mod text;
pub mod types;
pub mod udp;
