//! Core logic for managing audio-server parameter profiles: converting
//! between raw numeric parameter values and their display strings, storing
//! named (buffer size, sample rate) profiles, encoding and decoding the
//! durable profile file, and keeping the active-profile indicator in sync
//! with the live device state.

pub mod buffer_size;
pub mod codec;
pub mod engine;
pub mod errors;
pub mod metadata;
pub mod numerals;
pub mod profile;
pub mod sample_rate;
mod strings;

pub use errors::FormatError;
