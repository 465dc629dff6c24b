//! A small book-building library: it splits annotated text into chapters and
//! pages along sentence boundaries, merges the result into a persistent
//! record without duplicating chapters, and seals the serialized record in a
//! hex-encoded symmetric-cipher envelope.

pub mod book;
pub mod config;
pub mod envelope;
pub mod segment;
