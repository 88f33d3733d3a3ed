//! Federation and tournament governance for university clubs.
pub mod access;
pub mod chunks;
pub mod client;
pub mod collections;
pub mod consensus;
pub mod council;
pub mod devices;
pub mod error;
pub mod events;
pub mod federation;
pub mod governance;
pub mod identity;
pub mod journal;
pub mod laws;
pub mod league;
pub mod model;
pub mod node;
pub mod order;
pub mod outside;
pub mod protocol;
pub mod season;
pub mod service;
pub mod terminal;
pub mod text;
pub mod wire;

pub use access::{AccessPolicy, Grant, SignedGrant};
pub use error::{Error, Result};
pub use identity::{Identity, PeerId};
pub use node::{NodeConfig, RelayConfig};
pub use protocol::ServiceRecord;
pub use service::{Service, ServiceId};
