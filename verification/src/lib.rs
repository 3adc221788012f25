//! Asset pipeline core: mirrors a source asset tree into a destination tree,
//! planning transcoded derivatives for raster images and verbatim copies for
//! other files.
//!
//! Paths are modeled as byte strings (`Vec<u8>`), with `/` as the separator.
//! Everything here is pure decision logic: the surrounding program performs
//! the filesystem walk, the transcoder invocation and the actual copies, and
//! consults this library for every path computation and every decision.

use vstd::prelude::*;

pub mod config;
pub mod errors;
pub mod model;
pub mod pass;
pub mod paths;
pub mod pipeline;
pub mod tiers;

verus! {

} // verus!
