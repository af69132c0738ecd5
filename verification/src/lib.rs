//! Incremental fingerprinting of a directory tree.
//!
//! The library walks a listed tree, decides which files may reuse a cached
//! checksum, hashes the rest, and folds every record into one deterministic
//! fingerprint.  All decisions are verified; the filesystem walk, the cache
//! file's encoding and the parallel scheduling live outside the library.

pub mod aggregate;
pub mod cache;
pub mod digest;
pub mod errors;
pub mod file_list;
pub mod laws;
pub mod text;
pub mod walk;
