//! A verified distribution engine: a deposit queue, tiered lot pools, a
//! per-round fee, price valuation and a seeded, deterministic allocation pass.
use vstd::prelude::*;

pub mod codec;
pub mod uint;
pub mod errors;
pub mod valuation;
pub mod randomness;
pub mod storage;
pub mod engine;
pub mod resolve;
pub mod vrf;

verus! {

} // verus!
