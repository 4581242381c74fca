//! Parser for chess game records in Portable Game Notation (PGN).
//!
//! A record is plain text holding bracketed `[Name "Value"]` header tags and
//! moves in standard algebraic notation. Parsing runs two independent scans
//! over the same text: one extracts the ordered header pairs, the other the
//! ordered move tokens. The result is a [`PGNReader`] value, or a
//! [`ParseError`] classifying exactly what was wrong with the input.

pub mod chars;
pub mod headers;
pub mod laws;
pub mod moves;
pub mod path_ext;
pub mod record;

pub use path_ext::check_file_extension;
pub use record::PGNReader;
pub use record::ParseError;
pub use record::parse_pgn;
