//! A queue of URLs to read ("frontiers") kept on disk, with the text formats,
//! rules and decisions behind it proved correct.

pub mod cli;
pub mod crawler;
pub mod error;
pub mod text;
pub mod util;
pub mod lines;
pub mod order;
pub mod frontier;
pub mod index;
