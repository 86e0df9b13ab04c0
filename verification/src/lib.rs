//! Duplicate-file classification: groups file-system entries by a chosen
//! identity key (name, name+size, or name+size+content digest) and reports
//! the groups with more than one member.

pub mod model;
pub mod entry;
pub mod policy;
pub mod keys;
pub mod hashing;
pub mod table;
pub mod pipeline;
pub mod laws;
