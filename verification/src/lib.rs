//! A topic-oriented publish/subscribe broker core: an append-only chunked
//! message log, cursors that tail it, and the request logic built on both.

pub mod client;
pub mod concurrent_list;
pub mod outside;
pub mod server;
pub mod util;
