//! Chess game tokenization and deduplicating assembly pipeline.
//!
//! PGN games are validated move by move, encoded as sequences of 16-bit
//! tokens drawn from a fixed move dictionary, deduplicated by content hash,
//! and assembled into a byte stream with a parallel offset index.

pub mod assembly;
pub mod chess;
pub mod dedup;
pub mod encoding;
pub mod inputs;
pub mod persist;
pub mod pgn_visitor;
pub mod tokenizer;
pub mod visitor;
