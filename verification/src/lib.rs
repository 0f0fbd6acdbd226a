//! Extraction of Minecraft tag records from mod archives.
//!
//! The pipeline has three stages: flattening an archive (and the archives
//! nested inside it) into plain directory trees, discovering and parsing the
//! files that follow the tag directory convention, and merging the records of
//! all sources into one deduplicated catalog.

pub mod tag;
pub mod text;
pub mod data;
pub mod merge;
pub mod json;
pub mod archive;
pub mod fetcher;
