//! A short-lived paste store: a size- and time-bounded cache in front of a
//! persistent store, a per-client rate limiter, and the decisions that tie
//! submission and retrieval to them.
use vstd::prelude::*;

pub mod shared_map;
pub mod text;
pub mod cache;
pub mod clock;
pub mod limiter;
pub mod service;
