//! Presenting frames.

pub mod shared_metal;
