//! Sizes of files and directory trees, on disk and as two compression codecs
//! would leave them, with verified aggregation, filtering and ranking.

pub mod cli;
pub mod filter;
pub mod measure;
pub mod report;
pub mod size;
pub mod tree;
pub mod walk;
