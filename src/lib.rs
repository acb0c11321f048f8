//! Round lifecycle and settlement engine of a recurring sweepstakes that pays
//! its prizes out of an insurance pool counted in rebasing shares.

pub mod error;
pub mod math;
pub mod market;
pub mod competitor;
pub mod competition;
pub mod prize;
pub mod utils;
pub mod winner;
pub mod claim;
pub mod laws;
pub mod params;
pub mod lifecycle;
pub mod randomness;
pub mod guards;
