//! A library for md5sum-compatible checksum lines: hashing, hex encoding,
//! and the `md5sum -c` line format.

pub mod md5;
pub mod text;
pub mod format;
pub mod number;
pub mod cache;
pub mod file_hash;
pub mod cli;
pub mod check;
pub mod jobs;
