//! Verified core logic of a small video clipper: subtitle (SRT) parsing and
//! formatting, timestamp parsing, the arguments of its `ffmpeg` runs, the editing state
//! of its text inputs, and the small state machines behind its controls.

pub mod decimal;
pub mod text;
pub mod srt;
pub mod timestamp;
pub mod probe;
pub mod input_mode;
pub mod playback;
pub mod controls;
pub mod subtitles;
pub mod clip_srt;
pub mod ffmpeg;
pub mod config;
pub mod text_field;
pub mod rope_ext;
pub mod input_state;
