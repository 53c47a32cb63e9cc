//! Rewriting install prefixes inside a bottle: classifying files, Mach-O
//! load commands and plain text.
pub mod classify;
pub mod macho;
pub mod text;
