use vstd::prelude::*;

verus! {

/// Every failure the harness can surface. All failures are fatal to the run:
/// the sweep has no partial-results mode, since a silently dropped
/// configuration would corrupt the comparison table.
#[derive(Clone, Copy, Debug, PartialEq, Eq, Structural)]
pub enum HarnessError {
    /// A record handed to the layout codec is longer than the fixed block
    /// stride; the codec must not silently truncate.
    RecordTooLong { index: usize, len: usize, block_size: usize },
    /// The flat buffer and the length array handed to the decoder do not
    /// describe a valid fixed-stride layout.
    LayoutMismatch,
    /// Every capability query in the ranked fallback chain was unsupported,
    /// so the harness has no parallelism bound to sweep up to.
    CapabilityUnavailable,
    /// The device reported a command end timestamp earlier than its start
    /// timestamp: a profiling or synchronization bug, never clamped.
    TimestampOrder { start_ns: u64, end_ns: u64 },
    /// A trial retired in zero device time, which admits no finite
    /// throughput; treated as an internal-consistency failure.
    ZeroElapsed { index: usize },
    /// A configuration summary was requested for an empty trial list.
    NoTrials,
    /// A device operation (wait, drain, or profiling read) failed with the
    /// given device-reported error code.
    Device { code: i32 },
}

} // verus!
