//! Core logic of a keyboard-sound utility: key-code naming, sound banks and
//! their random pick, the key-event state machine, soundpack discovery and
//! assembly, and the voice pool of the mixer.

pub mod bank;
pub mod config;
pub mod decode;
pub mod engine;
pub mod keymap;
pub mod loader;
pub mod tap;
pub mod text;
