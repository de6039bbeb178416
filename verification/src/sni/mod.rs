//! Routing of TLS connections by the server name that the client asks for.

pub mod listener;
pub mod route_table;
