//! Live tracking of aircraft from periodic telemetry snapshots.
//!
//! The crate keeps a bounded population of tracked aircraft current: it frames
//! the rows of a fetched snapshot, merges the snapshot into the population,
//! keeps a short history per aircraft, and evicts aircraft whose reports have
//! gone stale. Trigonometry and network traffic are left to the caller; numbers
//! that the caller computes travel through the crate as bit patterns.

pub mod adsb;
