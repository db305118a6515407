//! Parsing, normalizing and inferring musical chord symbols.
pub mod bits;
pub mod text;
pub mod voicings;
pub mod chord;
pub mod inference;
pub mod parser_error;
pub mod parsing;
pub mod midi;
