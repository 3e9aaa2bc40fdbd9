//! Coordination core for a WireGuard-style overlay mesh.
//!
//! A central coordinator tracks peer records, assigns each peer a unique
//! address inside a private subnet, renders the tunnel configuration every
//! peer needs, and plans the propagation of fresh configuration after any
//! membership change.  The peer agent side applies pushed configuration
//! idempotently.  All decision logic lives here; transports and storage
//! engines are wired up by the surrounding binary.

pub mod client;
pub mod client_server;
pub mod config;
pub mod errors;
pub mod record;
pub mod registry;
pub mod server;
pub mod subnet;
pub mod text;

pub use crate::config::{config_text_factory, interface_config_factory, peer_config_factory};
pub use crate::errors::WireSyncError;
pub use crate::subnet::get_next_ip;
