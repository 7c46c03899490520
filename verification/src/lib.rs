//! Decoder for the binary PSF waveform container produced by analog-circuit
//! simulators, together with analysis views (transient, AC, DC) that expose the
//! decoded data as name-indexed, binary-searchable signal tables.
//!
//! Sample values are IEEE-754 doubles on the wire; the library carries them as
//! their raw 64-bit big-endian bit patterns (`u64`), leaving floating-point
//! interpretation to the caller.

pub mod ac;
pub mod ascii;
pub mod ast;
pub mod binary;
pub mod dc;
pub mod errors;
pub mod reader;
pub mod search;
pub mod sections;
pub mod table;
pub mod toc;
pub mod transient;
pub mod values;

pub use errors::PsfError;
