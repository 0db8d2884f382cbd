//! A text-buffer core for interactive editing.
//!
//! The [`buffer::TextBuffer`] trait captures the four primitive operations a
//! concrete text store must supply (mutability flag, contents as a string,
//! insertion at a character index, deletion of a character range); the
//! editing operations in [`buffer`] are built once on top of those
//! primitives. [`string64::String64`] is a fixed-capacity store: a 64-byte,
//! zero-padded cell that always holds valid UTF-8.

pub mod buffer;
pub mod cowtext;
pub mod bytestr;
pub mod cursor;
pub mod encoding;
pub mod growable;
pub mod index;
pub mod num;
pub mod string64;
pub mod strview;
