//! A small task tracker library: a flat, record-oriented store of to-do
//! entries, with verified encoding, decoding and identifier-collision
//! handling.

pub mod cli;
pub mod csvio;
pub mod numtext;
pub mod store;
pub mod task;
pub mod time;
