//! Participating media.

pub mod constant;
