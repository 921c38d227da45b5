//! A small INI-style configuration reader: bracketed section headers,
//! `key=value` lines, an implicit `default` section, and tolerance of blank
//! lines. Every function is verified against a mathematical model of the
//! text format and of the document it builds.

pub mod assoc;
pub mod document;
pub mod ident;
pub mod ingest;
pub mod laws;
pub mod line;
pub mod text;

pub use document::Parser;
pub use ident::validate;
pub use line::{is_key_val, is_section};
