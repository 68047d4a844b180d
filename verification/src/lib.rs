//! A verified core for a strictly ordered, gapless ranking of competitive
//! entries ("demons").
//!
//! The library maintains a dense `1..N` position sequence over the active
//! entries, validates drafts before any mutation, records every
//! position-affecting change as an immutable audit fact, reconstructs the
//! ranking as it stood at any past instant, and partitions the ordered list
//! into the Main / Extended / Legacy bands that read paths consume.

pub mod actor;
pub mod audit;
pub mod demon;
pub mod error;
pub mod overview;
pub mod repo;
pub mod segment;
pub mod shift;
pub mod text;
pub mod video;
