//! Reads the text of exported notes.
//!
//! An export stores the title and the body of each note as a raw fragment: a
//! quoted string with backslash escapes of its own, which are not JSON's.
//! [`decode`] runs the escape state machine of [`machine`] over a fragment and
//! yields the decoded bytes; [`from_utf16`] and [`decode_text`] turn them into
//! text, and [`render_document`] lays out every note of an export as a block
//! of text.
//!
//! The decoder keeps only the low eight bits of every character that it
//! emits, escaped or not, and it consumes the first character of a fragment
//! without emitting it. Both are how the format is defined, and both are kept.

pub mod hex;
pub mod machine;
pub mod grammar;
pub mod decoder;
pub mod text;
pub mod note;
pub mod timestamp;
pub mod render;
pub mod laws;

pub use decoder::{decode, Decoder};
pub use hex::hex_digit;
pub use machine::State;
pub use note::{Document, Note, Tag};
pub use render::{format_block, render_document, render_note, RenderError};
pub use text::{decode_text, from_utf16};
pub use timestamp::render_timestamp;
