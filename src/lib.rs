//! Position decoding and feature extraction for fitting a two-phase
//! piece-square-table evaluation.

pub mod features;
pub mod record;
