//! Writes version-control index files byte for byte, and decides how to make the directories a
//! checkout needs without trusting what already stands on disk.

pub mod cache;
pub mod entry;
pub mod extension;
pub mod hash;
pub mod revision;
pub mod write;
