//! Movies.

pub mod preview_cache;
