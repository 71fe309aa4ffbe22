//! Entity-addressed, type-routed message passing between widget states.
use vstd::prelude::*;

pub mod entity;
pub mod message;
mod assoc;
pub mod buckets;
pub mod store;
pub mod reader;
pub mod adapter;
pub mod laws;

