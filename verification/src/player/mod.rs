//! The rules of the playback engine.
pub mod analyzer;
pub mod engine;
pub mod opus;
pub mod play_laws;
