//! Laws of the log: what holds of its operations when they run against a
//! table that answers as the model of [`crate::store`] does.

pub mod compaction;
pub mod invariants;
pub mod polling;
pub mod publishing;
pub mod streams;
pub mod subscribing;
pub mod tables;
