//! Incremental perceptual-hash deduplication core.
//!
//! A scan of a directory tree hands every image file to a hash worker; each
//! worker reports either a hashed record or a typed failure. A single
//! aggregator drains those reports, compares every new hash against all
//! previously accepted ones, and maintains the set of similar pairs together
//! with progress counters. Records can later be removed; removal tombstones
//! the record and filters the pair set.

pub mod filter;
pub mod phash;
pub mod record;
pub mod aggregator;
pub mod laws;
pub mod worker;
