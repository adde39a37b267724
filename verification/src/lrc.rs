//! LRC lyric files: grammar, parsing, and locating the file of a track.
pub mod grammar;
pub mod parse;
pub mod find;
pub mod laws;
