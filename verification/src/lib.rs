//! Markdown to printer control codes.
//!
//! A small subset of markdown is read in one pass and turned into the byte
//! stream that a line printer understands: escape sequences that switch bold,
//! italic, underline and the enlarged header faces on and off, with the text
//! between them passed through unchanged.

pub mod codes;
pub mod grammar;
pub mod laws;
pub mod lexer;
pub mod render;
pub mod scan;
pub mod token;
pub mod transpile;

pub use render::{new_line, render_token, State};
pub use token::Token;
pub use transpile::transpile_markdown;
