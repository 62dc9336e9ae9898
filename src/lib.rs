//! A file-backed key-value cache with optional expiry.
//!
//! The library decides everything a cache operation does to its directory:
//! which files are named after which key, what bytes an expiry record holds,
//! and which files a write, an invalidation or a sweep writes or removes.
//! The directory is modelled as a map from file names to contents, and each
//! operation returns the list of file steps that the caller performs in order.
pub mod decimal;
pub mod naming;
pub mod fs_cache;
pub mod laws;
