//! Symbolic code editing on source text held as bytes: line indexing, symbol
//! extraction, body location, body replacement, renaming, pattern search and
//! project summaries, with every routine carrying a machine-checked contract.

pub mod body;
pub mod braces;
pub mod capped;
pub mod cli;
pub mod excerpt;
pub mod extract;
pub mod files;
pub mod find;
pub mod format;
pub mod indented;
pub mod language;
pub mod lines;
pub mod matching;
pub mod memory;
pub mod overview;
pub mod parsed;
pub mod paths;
pub mod pattern;
pub mod rename;
pub mod replace;
pub mod roundtrip;
pub mod rpc;
pub mod search;
pub mod suggest;
pub mod summary;
pub mod symbols;
pub mod tally;
pub mod text;
pub mod unicode;
pub mod workflow;
