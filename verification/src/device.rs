//! The dispatch engine's verified half.
//!
//! Kernel enqueue, buffer upload and map/unmap are raw device operations the
//! caller performs; this module owns the decisions around them: the ordered
//! per-trial step plan for each output-visibility regime, and the
//! wait-drain-read sequence that turns a retired kernel event into ordered
//! profiling timestamps.

use vstd::prelude::*;

use crate::error::HarnessError;

verus! {

#[verifier::external_type_specification]
#[verifier::external_body]
pub struct ExCommandQueue(opencl3::command_queue::CommandQueue);

#[verifier::external_type_specification]
#[verifier::external_body]
pub struct ExEvent(opencl3::event::Event);

#[verifier::external_type_specification]
#[verifier::external_body]
pub struct ExClError(opencl3::error_codes::ClError);

/// Relies on Event::wait: blocks until the event's command retires; the
/// value carries no information beyond success or the device's error.
pub assume_specification[ opencl3::event::Event::wait ](e: &opencl3::event::Event) -> Result<
    (),
    opencl3::error_codes::ClError,
>;

/// Relies on CommandQueue::finish: blocks until every command in the queue
/// has retired (a full drain); no value comes back.
pub assume_specification[ opencl3::command_queue::CommandQueue::finish ](
    q: &opencl3::command_queue::CommandQueue,
) -> Result<(), opencl3::error_codes::ClError>;

/// Relies on Event::profiling_command_start: the device counter sampled when
/// the command started running. The value is device- and run-dependent, so
/// nothing is promised of it.
pub assume_specification[ opencl3::event::Event::profiling_command_start ](
    e: &opencl3::event::Event,
) -> Result<u64, opencl3::error_codes::ClError>;

/// Relies on Event::profiling_command_end: the device counter sampled when
/// the command finished running. The value is device- and run-dependent, so
/// nothing is promised of it.
pub assume_specification[ opencl3::event::Event::profiling_command_end ](
    e: &opencl3::event::Event,
) -> Result<u64, opencl3::error_codes::ClError>;

/// Relies on ClError being a transparent wrapper around the device-reported
/// error code.
#[verifier::external_body]
fn cl_error_code(e: &opencl3::error_codes::ClError) -> i32 {
    e.0
}

/// Waits for the kernel event to retire, then drains the whole queue.
/// Profiling timestamps are valid only once the command is confirmed
/// retired, not merely enqueued-complete, so both blocks happen before any
/// timestamp is read. Any device failure is fatal.
pub fn wait_and_drain(
    queue: &opencl3::command_queue::CommandQueue,
    kernel_event: &opencl3::event::Event,
) -> (r: Result<(), HarnessError>)
    ensures
        r matches Err(e) ==> e matches HarnessError::Device { .. },
{
    match kernel_event.wait() {
        Ok(_) => (),
        Err(e) => {
            return Err(HarnessError::Device { code: cl_error_code(&e) });
        },
    }
    match queue.finish() {
        Ok(_) => (),
        Err(e) => {
            return Err(HarnessError::Device { code: cl_error_code(&e) });
        },
    }
    Ok(())
}

/// Reads the device start and end timestamps of a retired kernel command
/// and checks their order: an end timestamp earlier than the start is a
/// fatal internal-consistency failure, never clamped. Whatever the device
/// reports, a returned pair is ordered.
pub fn read_device_timestamps(kernel_event: &opencl3::event::Event) -> (r: Result<
    (u64, u64),
    HarnessError,
>)
    ensures
        match r {
            Ok(t) => t.0 <= t.1,
            Err(e) => {
                ||| e matches HarnessError::Device { .. }
                ||| e matches HarnessError::TimestampOrder { .. }
            },
        },
{
    let start_ns = match kernel_event.profiling_command_start() {
        Ok(v) => v,
        Err(e) => {
            return Err(HarnessError::Device { code: cl_error_code(&e) });
        },
    };
    let end_ns = match kernel_event.profiling_command_end() {
        Ok(v) => v,
        Err(e) => {
            return Err(HarnessError::Device { code: cl_error_code(&e) });
        },
    };
    if end_ns < start_ns {
        return Err(HarnessError::TimestampOrder { start_ns, end_ns });
    }
    Ok((start_ns, end_ns))
}

/// One step of a trial, in the order the controller must perform them.
#[derive(Clone, Copy, Debug, PartialEq, Eq, Structural)]
pub enum TrialStep {
    /// Enqueue the kernel with one work-item per lane.
    EnqueueKernel,
    /// Block until the kernel event retires.
    WaitKernel,
    /// Drain the whole queue with a full barrier.
    DrainQueue,
    /// Blocking map of the output allocation for host access
    /// (coarse-grained regime only).
    MapOutput,
    /// Extract the device start/end timestamps and read the output.
    ReadTimestamps,
    /// Unmap the output allocation (coarse-grained regime only).
    UnmapOutput,
    /// Block on the unmap before the buffer may be reused for the next
    /// trial (coarse-grained regime only).
    WaitUnmap,
}

/// Every occurrence of `a` comes before every occurrence of `b`.
pub open spec fn precedes(steps: Seq<TrialStep>, a: TrialStep, b: TrialStep) -> bool {
    forall|i: int, j: int|
        #![trigger steps[i], steps[j]]
        (0 <= i < steps.len() && 0 <= j < steps.len() && steps[i] == a && steps[j] == b) ==> i < j
}

/// The ordering guarantees one trial must respect: the kernel is enqueued,
/// waited on, and the queue drained before the timestamps are read; under
/// the coarse-grained regime the output is mapped before the read and
/// unmapped, with a wait, after it; under the fine-grained regime no map or
/// unmap appears at all.
pub open spec fn trial_plan_ok(steps: Seq<TrialStep>, fine_grained: bool) -> bool {
    &&& steps.contains(TrialStep::EnqueueKernel)
    &&& steps.contains(TrialStep::WaitKernel)
    &&& steps.contains(TrialStep::DrainQueue)
    &&& steps.contains(TrialStep::ReadTimestamps)
    &&& precedes(steps, TrialStep::EnqueueKernel, TrialStep::WaitKernel)
    &&& precedes(steps, TrialStep::WaitKernel, TrialStep::DrainQueue)
    &&& precedes(steps, TrialStep::DrainQueue, TrialStep::ReadTimestamps)
    &&& if fine_grained {
        &&& !steps.contains(TrialStep::MapOutput)
        &&& !steps.contains(TrialStep::UnmapOutput)
        &&& !steps.contains(TrialStep::WaitUnmap)
    } else {
        &&& steps.contains(TrialStep::MapOutput)
        &&& steps.contains(TrialStep::UnmapOutput)
        &&& steps.contains(TrialStep::WaitUnmap)
        &&& precedes(steps, TrialStep::DrainQueue, TrialStep::MapOutput)
        &&& precedes(steps, TrialStep::MapOutput, TrialStep::ReadTimestamps)
        &&& precedes(steps, TrialStep::ReadTimestamps, TrialStep::UnmapOutput)
        &&& precedes(steps, TrialStep::UnmapOutput, TrialStep::WaitUnmap)
    }
}

/// The step plan for one trial under the given output-visibility regime.
/// The regime is decided per trial from the output allocation itself; it
/// must never be cached across allocations.
pub fn trial_steps(fine_grained: bool) -> (r: Vec<TrialStep>)
    ensures
        fine_grained ==> r@ == seq![
            TrialStep::EnqueueKernel,
            TrialStep::WaitKernel,
            TrialStep::DrainQueue,
            TrialStep::ReadTimestamps,
        ],
        !fine_grained ==> r@ == seq![
            TrialStep::EnqueueKernel,
            TrialStep::WaitKernel,
            TrialStep::DrainQueue,
            TrialStep::MapOutput,
            TrialStep::ReadTimestamps,
            TrialStep::UnmapOutput,
            TrialStep::WaitUnmap,
        ],
        trial_plan_ok(r@, fine_grained),
{
    let mut out: Vec<TrialStep> = Vec::new();
    out.push(TrialStep::EnqueueKernel);
    out.push(TrialStep::WaitKernel);
    out.push(TrialStep::DrainQueue);
    if !fine_grained {
        out.push(TrialStep::MapOutput);
    }
    out.push(TrialStep::ReadTimestamps);
    if !fine_grained {
        out.push(TrialStep::UnmapOutput);
        out.push(TrialStep::WaitUnmap);
    }
    proof {
        if fine_grained {
            assert(out@ =~= seq![
                TrialStep::EnqueueKernel,
                TrialStep::WaitKernel,
                TrialStep::DrainQueue,
                TrialStep::ReadTimestamps,
            ]);
        } else {
            assert(out@ =~= seq![
                TrialStep::EnqueueKernel,
                TrialStep::WaitKernel,
                TrialStep::DrainQueue,
                TrialStep::MapOutput,
                TrialStep::ReadTimestamps,
                TrialStep::UnmapOutput,
                TrialStep::WaitUnmap,
            ]);
        }
        assert(trial_plan_ok(out@, fine_grained));
    }
    out
}

} // verus!
