//! Verified core of a parameter-sweep benchmarking harness for a keyed
//! byte-permutation kernel dispatched across parallel lanes on a compute
//! device.
//!
//! The library holds the logic that can be checked: the fixed-stride block
//! layout codec, the capability-probe fallback rule, the per-trial timing
//! validation and ordering plan, and the throughput aggregation across a
//! sweep of parallelism degrees. Device enumeration, buffer management and
//! kernel dispatch happen outside, handing this library plain values.

use vstd::prelude::*;

pub mod codec;
pub mod device;
pub mod error;
pub mod lanes;
pub mod probe;
pub mod rc4;
pub mod sweep;
pub mod timing;

pub use crate::lanes::run_name;
pub use crate::rc4::team_rc4;

verus! {

/// Fixed stride, in bytes, of one record slot in the encoded block layout.
pub const BLOCK_SIZE: usize = 256;

} // verus!
