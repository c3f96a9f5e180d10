//! The editing core of `red`, a line editor in the manner of `ed`: a line
//! buffer with markers, address and command-line parsing, the operation
//! table with its default addresses, and a one-step undo log.
pub mod error;
pub mod pattern;
pub mod buffer;
pub mod text;
pub mod quote;
pub mod parse;
pub mod subst;
pub mod format;
pub mod undo;
pub mod replay;
pub mod ops;
pub mod laws;
pub mod session;
