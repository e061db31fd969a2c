//! The logic of a music player with a file list and a visualizer.
//!
//! The window, the audio output, the file system and floating-point arithmetic are outside. What
//! they need to know is decided here, and what came of it is told here in plain values.
pub mod controls;
pub mod file_list;
pub mod files;
pub mod order;
pub mod playback;
pub mod player;
pub mod ring;
pub mod single;
pub mod sort;
pub mod text;
pub mod visualizer;
