//! The broker's request logic: what the services decide, on plain values.

pub mod datatypes;
pub mod fillers;
pub mod server;
pub mod services;
pub mod stores;
pub mod text;

pub use datatypes::{Message, PeerAddress, Retention, Timestamp, Topic, Username};
pub use server::{Server, Snapshot};
