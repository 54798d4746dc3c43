use lane_bench::device::{TrialStep, trial_steps};
use lane_bench::error::HarnessError;
use lane_bench::probe::{DeviceLimits, QueryOutcome, probe, resolve_capability};
use lane_bench::sweep::{aggregate_sweep, plan_sweep, sort_by_mean};
use lane_bench::timing::{DispatchResult, summarize};

fn trial(start: u64, end: u64) -> DispatchResult {
    DispatchResult {
        device_start_ns: start,
        device_end_ns: end,
        wall_start_ns: 0,
        wall_end_ns: 0,
        output_bytes: Vec::new(),
    }
}

#[test]
fn plan_sweep_walks_every_degree() {
    assert_eq!(plan_sweep(5), vec![1, 2, 3, 4, 5]);
    assert_eq!(plan_sweep(1), vec![1]);
    assert!(plan_sweep(0).is_empty());
}

#[test]
fn sort_orders_by_ascending_mean() {
    let fast = summarize(4, &vec![trial(0, 10)]).unwrap();
    let slow = summarize(4, &vec![trial(0, 1000)]).unwrap();
    let mid = summarize(4, &vec![trial(0, 100)]).unwrap();
    let sorted = sort_by_mean(vec![fast, slow, mid]);
    assert_eq!(sorted.len(), 3);
    assert_eq!(sorted[0].trial_elapsed_ns, vec![1000]);
    assert_eq!(sorted[1].trial_elapsed_ns, vec![100]);
    assert_eq!(sorted[2].trial_elapsed_ns, vec![10]);
    assert!(sorted[0].mean_throughput_milli <= sorted[1].mean_throughput_milli);
    assert!(sorted[1].mean_throughput_milli <= sorted[2].mean_throughput_milli);
}

#[test]
fn aggregate_sweep_sorts_by_mean_not_degree() {
    // degree 1 at 10 ns beats degree 2 at 1000 ns
    let results = vec![
        (1usize, vec![trial(0, 10), trial(0, 10)]),
        (2usize, vec![trial(0, 1000), trial(0, 1000)]),
    ];
    let summaries = aggregate_sweep(&results).unwrap();
    assert_eq!(summaries.len(), 2);
    assert_eq!(summaries[0].degree, 2);
    assert_eq!(summaries[1].degree, 1);
    assert!(summaries[0].mean_throughput_milli <= summaries[1].mean_throughput_milli);
}

#[test]
fn aggregate_sweep_aborts_on_any_bad_configuration() {
    let results = vec![
        (1usize, vec![trial(0, 10)]),
        (2usize, vec![trial(50, 20)]),
        (3usize, vec![trial(0, 10)]),
    ];
    assert_eq!(
        aggregate_sweep(&results),
        Err(HarnessError::TimestampOrder { start_ns: 50, end_ns: 20 })
    );
    let empty_config = vec![(1usize, Vec::<DispatchResult>::new())];
    assert_eq!(aggregate_sweep(&empty_config), Err(HarnessError::NoTrials));
}

#[test]
fn probe_takes_first_supported_query() {
    let chain = vec![QueryOutcome::Supported(256), QueryOutcome::Supported(64)];
    assert_eq!(resolve_capability(&chain), Ok(256));
    let fallback = vec![QueryOutcome::Unsupported, QueryOutcome::Supported(64)];
    assert_eq!(resolve_capability(&fallback), Ok(64));
}

#[test]
fn probe_fails_when_every_query_is_unsupported() {
    let chain = vec![QueryOutcome::Unsupported, QueryOutcome::Unsupported];
    assert_eq!(resolve_capability(&chain), Err(HarnessError::CapabilityUnavailable));
    let none: Vec<QueryOutcome> = Vec::new();
    assert_eq!(resolve_capability(&none), Err(HarnessError::CapabilityUnavailable));
}

#[test]
fn probe_combines_both_capability_chains() {
    let par = vec![QueryOutcome::Unsupported, QueryOutcome::Supported(1024)];
    let mem = vec![QueryOutcome::Supported(65536)];
    assert_eq!(
        probe(&par, &mem),
        Ok(DeviceLimits { max_parallelism: 1024, fast_memory_bytes: 65536 })
    );
    let bad = vec![QueryOutcome::Unsupported];
    assert_eq!(probe(&par, &bad), Err(HarnessError::CapabilityUnavailable));
}

#[test]
fn trial_plan_branches_on_visibility_regime() {
    assert_eq!(
        trial_steps(true),
        vec![
            TrialStep::EnqueueKernel,
            TrialStep::WaitKernel,
            TrialStep::DrainQueue,
            TrialStep::ReadTimestamps,
        ]
    );
    assert_eq!(
        trial_steps(false),
        vec![
            TrialStep::EnqueueKernel,
            TrialStep::WaitKernel,
            TrialStep::DrainQueue,
            TrialStep::MapOutput,
            TrialStep::ReadTimestamps,
            TrialStep::UnmapOutput,
            TrialStep::WaitUnmap,
        ]
    );
}
