//! Restoring the virtual machine from saves.

pub mod indexed_save;
pub mod load_wipe;
pub mod local_settings;
pub mod native_proc;
pub mod record;
pub mod short_layout;
pub mod short_mwnd;
pub mod short_records;
pub mod short_save;
pub mod window_animation;
