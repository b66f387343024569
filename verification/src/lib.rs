//! Verified core of a note-keeping system: a small query language over
//! note metadata (parse, evaluate, print), plus the node/storage/config
//! bookkeeping that surrounds it.

pub mod config;
pub mod dec;
pub mod grammar;
pub mod laws;
pub mod node;
pub mod num;
pub mod parse;
pub mod parser;
pub mod printer;
pub mod pattern;
pub mod re;
pub mod storage;
pub mod toml;
pub mod text;
pub mod tree;
