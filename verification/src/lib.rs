//! An in-memory key-value store with a line-oriented command processor and
//! whole-snapshot persistence.

pub mod cluster;
pub mod commands;
pub mod db;
pub mod model;
pub mod persistence;
pub mod protocol;
pub mod pubsub;
pub mod snapshot;
pub mod text;
