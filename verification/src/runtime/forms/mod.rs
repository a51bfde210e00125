//! The commands of the forms that scripts use.

pub mod bgm_table;
pub mod int_list;
pub mod joypad;
pub mod pcmevent;
pub mod prop_access;
pub mod steam;
pub mod str_list;
pub mod system;
pub mod text_commands;
pub mod timewait;
