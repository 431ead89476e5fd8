//! Recovers application shortcut records from the binary key-value files in
//! which a game launcher stores the shortcuts that a user added by hand.
//!
//! [`parse_shortcuts`] extracts the records of one file, [`gather_shortcuts`]
//! those of several. The modules below them hold the parts: a read position
//! in a buffer, the search for a tagged key, and the decoders of the value
//! behind a key.

pub mod ascii;
pub mod checksum;
pub mod cursor;
pub mod extract;
pub mod laws;
pub mod scan;
pub mod shortcut;
pub mod text;
pub mod value;

pub use crate::extract::{gather_shortcuts, parse_shortcuts};
pub use crate::shortcut::Shortcut;
