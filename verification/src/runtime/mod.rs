//! State and rules of the running scene.

pub mod gray_mask;
pub mod wipe_geometry;
pub mod wipe_linear;
pub mod wipe_directions;
pub mod wipe_both;
pub mod wipe_random;
pub mod wipe_rings;
pub mod wipe_tables;
pub mod wipe_patterns;
pub mod wipe_mask;
pub mod string_semantics;
pub mod capture_flags;
pub mod platform;
pub mod value;
pub mod stream;
pub mod wait;
pub mod context;
pub mod save_header_cache;
pub mod scene_metadata;
pub mod flow;
pub mod forms;
pub mod machine_names;
pub mod net;
