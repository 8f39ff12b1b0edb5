//! A small text editor for terminals, without the terminal: lines of UTF-8
//! text addressed by character, reversible edit operations, an undo/redo
//! history that groups them into transactions, and the document that ties
//! them together; around it the decoding of keys, what each key asks for,
//! and what is to be drawn. Reading keys and files and writing to the
//! terminal is left to the program that uses this library.

pub mod document;
pub mod edit_diff;
pub mod editor;
pub mod encoding;
pub mod error;
pub mod glyph;
pub mod history;
pub mod input;
pub mod numeral;
pub mod prompt;
pub mod replay;
pub mod row;
pub mod screen;
pub mod status_bar;
pub mod storage;
pub mod text_buffer;

pub use editor::Editor;
pub use error::{Error, Result};
pub use screen::HELP;
