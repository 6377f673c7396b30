//! Timestamped proof-of-creation records.
//!
//! A record binds a creator's identity to the digest of a piece of content and
//! to the time at which the claim was registered. Each (creator, digest) pair
//! owns exactly one storage address, derived from the pair alone, so a claim
//! can be registered at most once and found again by anyone who knows the pair.

pub mod address;
mod bytes;
pub mod error;
pub mod ledger;
pub mod record;
pub mod registry;
