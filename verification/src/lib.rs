//! Runtime logic of a scene virtual machine: masks, script forms, save
//! records, caches and the rules that tie them together.

pub mod aether_audio_bridge;
pub mod aether_host;
pub mod assets;
pub mod audio;
pub mod bytes;
pub mod composed_descriptor;
pub mod desktop_chihaya_bench;
pub mod desktop_icon;
pub mod emote_backend;
pub mod font_fallback;
pub mod font_report;
pub mod glyph_atlas;
pub mod image_compose;
pub mod image_loading;
pub mod image_manager;
pub mod image_store;
pub mod jpeg_backend;
pub mod lang_variant;
pub mod movie;
pub mod number_text;
pub mod paths;
pub mod perf_flags;
pub mod platform_time;
pub mod render;
pub mod runtime;
pub mod table;
pub mod text;
pub mod text_map;
pub mod text_parts;
pub mod vm;
pub mod wasm_vfs;
