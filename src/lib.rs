//! A single-pass, zero-copy parser of session descriptions (SDP, RFC 4566).
//!
//! `parse` reads a byte buffer into an [`Sdp`] whose text fields are slices
//! of that buffer. The parse is defined by the state machine of `model`, read
//! one byte at a time; `parse` is proved to return exactly what it defines.

pub mod document;
pub mod laws;
pub mod model;
pub mod number;
pub mod scanner;

pub use document::{parse, AsSDP, ConnectionData, Media, Origin, Sdp};
pub use model::Operator;
