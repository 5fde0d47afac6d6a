//! The decisions behind the HTTP endpoints; the routing itself is the
//! service's.

pub mod blocks;
pub mod jobs;
pub mod verify;
