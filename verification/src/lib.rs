//! Decoder for DTED (Digital Terrain Elevation Data) files.
//!
//! A DTED file is a fixed-width raster of terrain elevations: a textual
//! header (the User Header Label), two auxiliary blocks, and one binary
//! record per line of longitude.  This crate turns a byte buffer that holds
//! such a file into structured values, and proves that every decoder returns
//! exactly what the format's grammar assigns to its input.
//!
//! * [`parsers`] holds the decoders, from a single decimal field up to a
//!   whole file.
//! * [`grammar`] says, as functions on byte sequences, what each field
//!   decodes to; the contract of every decoder refers to it.
//! * [`laws`] proves what holds of the grammar for every input.
//! * [`dted`], [`primitives`] and [`error`] hold the decoded values and the
//!   failures.
//! * [`numeric`] and [`bytes`] hold the calls into `num_traits` and `nom`,
//!   whose behaviour is taken on trust.
pub mod bytes;
pub mod dted;
pub mod error;
pub mod grammar;
pub mod laws;
pub mod numeric;
pub mod parsers;
pub mod primitives;
