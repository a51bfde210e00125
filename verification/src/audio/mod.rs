//! Sound: the parts of a WAV file, time compression of voices, and the slots
//! in which sounds play.

pub mod engines;
pub mod jitan;
pub mod sfx_engine;
pub mod wav;
