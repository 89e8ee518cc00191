//! Recognising point-cloud files by their paths, and choosing how to write them.

pub mod reader;
pub mod writer;
