//! Capability probing with ranked fallback.
//!
//! The harness asks the device for its limits through a ranked chain of
//! query variants: the most specific (vendor) query first, then the portable
//! one. The probe takes the first supported answer; a chain with no
//! supported answer is fatal, since the harness cannot sweep without a
//! parallelism bound. Issuing the queries is the caller's business — this
//! module decides what their outcomes mean.

use vstd::prelude::*;

use crate::error::HarnessError;

verus! {

/// The outcome of one capability query: the queried value, or the query
/// itself being unsupported on this device.
#[derive(Clone, Copy, Debug, PartialEq, Eq, Structural)]
pub enum QueryOutcome {
    Supported(u64),
    Unsupported,
}

/// The capability set a probe yields, immutable once probed.
#[derive(Clone, Copy, Debug, PartialEq, Eq, Structural)]
pub struct DeviceLimits {
    /// Ceiling on concurrently dispatched lanes.
    pub max_parallelism: u64,
    /// Fast-memory size; informs block-size decisions but gates nothing
    /// else in the harness.
    pub fast_memory_bytes: u64,
}

/// Whether some query in a chain was supported.
pub open spec fn any_supported(outcomes: Seq<QueryOutcome>) -> bool {
    exists|i: int| 0 <= i < outcomes.len() && (#[trigger] outcomes[i]) is Supported
}

/// The value a ranked chain resolves to: its first supported answer.
pub open spec fn first_supported(outcomes: Seq<QueryOutcome>, v: u64) -> bool {
    exists|i: int|
        {
            &&& 0 <= i < outcomes.len()
            &&& (#[trigger] outcomes[i]) == QueryOutcome::Supported(v)
            &&& (forall|k: int| 0 <= k < i ==> (#[trigger] outcomes[k]) is Unsupported)
        }
}

/// Resolves a ranked chain of capability query outcomes to its first
/// supported value; a chain with no supported answer is fatal.
pub fn resolve_capability(outcomes: &Vec<QueryOutcome>) -> (r: Result<u64, HarnessError>)
    ensures
        (r is Ok) <==> any_supported(outcomes@),
        match r {
            Ok(v) => first_supported(outcomes@, v),
            Err(e) => {
                &&& e == HarnessError::CapabilityUnavailable
                &&& forall|k: int|
                    0 <= k < outcomes@.len() ==> (#[trigger] outcomes@[k]) is Unsupported
            },
        },
{
    let n = outcomes.len();
    let mut i: usize = 0;
    while i < n
        invariant
            n == outcomes@.len(),
            i <= n,
            forall|k: int| 0 <= k < i ==> (#[trigger] outcomes@[k]) is Unsupported,
        decreases n - i,
    {
        match outcomes[i] {
            QueryOutcome::Supported(v) => {
                proof {
                    assert(outcomes@[i as int] == QueryOutcome::Supported(v));
                    assert(first_supported(outcomes@, v));
                }
                return Ok(v);
            },
            QueryOutcome::Unsupported => {},
        }
        i += 1;
    }
    Err(HarnessError::CapabilityUnavailable)
}

/// Probes the device's limits: the parallelism bound from its ranked query
/// chain and the fast-memory size from its own. Either chain resolving to
/// nothing is fatal — the harness cannot proceed without both.
pub fn probe(parallelism: &Vec<QueryOutcome>, fast_memory: &Vec<QueryOutcome>) -> (r: Result<
    DeviceLimits,
    HarnessError,
>)
    ensures
        (r is Ok) <==> (any_supported(parallelism@) && any_supported(fast_memory@)),
        match r {
            Ok(limits) => {
                &&& first_supported(parallelism@, limits.max_parallelism)
                &&& first_supported(fast_memory@, limits.fast_memory_bytes)
            },
            Err(e) => e == HarnessError::CapabilityUnavailable,
        },
{
    let max_parallelism = match resolve_capability(parallelism) {
        Ok(v) => v,
        Err(e) => {
            return Err(e);
        },
    };
    let fast_memory_bytes = match resolve_capability(fast_memory) {
        Ok(v) => v,
        Err(e) => {
            return Err(e);
        },
    };
    Ok(DeviceLimits { max_parallelism, fast_memory_bytes })
}

} // verus!
