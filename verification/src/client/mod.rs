//! The client's side of the wire: reading what the broker sends.

pub mod cli;
pub mod datatypes;
pub mod history;
pub mod readers;
