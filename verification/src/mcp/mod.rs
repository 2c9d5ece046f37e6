//! Model Context Protocol: the server side, the client side, and the hubs that
//! hold several servers.

pub mod client;
pub mod enhanced_hub;
pub mod hub;
pub mod server;
pub mod types;
