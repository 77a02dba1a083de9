//! A line-oriented textual macro preprocessor.
//!
//! Source text is scanned line by line. A configurable start operator
//! (by default `//!`) switches a line from opaque pass-through code to
//! directive mode. Directives splice other registered files in, manage a
//! table of textual macro definitions, gate blocks of lines on whether a
//! name is defined, and raise user-declared warnings and errors.

pub mod engine;
pub mod laws;
pub mod source;
pub mod table;
pub mod text;
pub mod tokens;
pub mod tokenizer;

pub use engine::{PreprocessError, Preporcessor, PreprocessorOptions, MAX_DEPTH};
pub use source::CodeSource;
pub use text::replace_in_text;
pub use tokens::{CommandType, LiteralType, SeparatorType, Token};
