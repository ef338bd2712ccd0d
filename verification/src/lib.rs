//! Batch renaming of file names: the name transformations, the selection of
//! directory entries, and the matching of names against a user pattern.

pub mod text;
pub mod name_processing;
pub mod args_parser;
pub mod pattern;
pub mod init;
pub mod trim;
