//! Round-trip latency probing of candidate playback-API endpoints across
//! geographic service regions: builds the per-region parameter set for one
//! probe, signs it with the region's credential pair, classifies the
//! response, and assembles the per-endpoint comparison table.

pub mod strings;
pub mod query;
pub mod signer;
pub mod classify;
pub mod report;
pub mod driver;
pub mod laws;
