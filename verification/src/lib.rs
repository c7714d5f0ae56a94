//! Verified core of a tool that matches measured stereospecific fatty-acid
//! compositions against literature reference distributions.
//!
//! The crate models the data (fatty-acid identities, source measurements,
//! reference statistics) with exact fixed-point numbers, joins measurements to
//! reference entries by structural identity, computes the per-record deviation
//! metrics, and memoizes whole result tables behind a fingerprinted cache.

pub mod cache;
pub mod compute;
pub mod display;
pub mod error;
pub mod fatty_acid;
pub mod numeric;
pub mod reference;
pub mod settings;
pub mod source;
pub mod text;
