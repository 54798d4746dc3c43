use lane_bench::error::HarnessError;
use lane_bench::timing::{ConfigSummary, DispatchResult, finish_trial, summarize, throughput_milli};

fn trial(start: u64, end: u64) -> DispatchResult {
    DispatchResult {
        device_start_ns: start,
        device_end_ns: end,
        wall_start_ns: 0,
        wall_end_ns: 0,
        output_bytes: Vec::new(),
    }
}

#[test]
fn finish_trial_orders_timestamps() {
    let d = finish_trial(100, 350, 90, 400, vec![1, 2, 3]).unwrap();
    assert_eq!(d.device_start_ns, 100);
    assert_eq!(d.device_end_ns, 350);
    assert_eq!(d.elapsed_ns(), 250);
    assert!(d.device_end_ns > d.device_start_ns);
    assert!(d.elapsed_ns() > 0);
    assert_eq!(d.output_bytes, vec![1, 2, 3]);
}

#[test]
fn finish_trial_rejects_reversed_timestamps() {
    let r = finish_trial(350, 100, 0, 0, Vec::new());
    assert_eq!(
        r,
        Err(HarnessError::TimestampOrder { start_ns: 350, end_ns: 100 })
    );
}

#[test]
fn finish_trial_accepts_equal_timestamps() {
    let d = finish_trial(5, 5, 0, 0, Vec::new()).unwrap();
    assert_eq!(d.elapsed_ns(), 0);
}

#[test]
fn throughput_is_exact() {
    // 4 lanes retiring in 100 ns: 4e7 records per second
    assert_eq!(throughput_milli(4, 100), 40_000_000_000);
    assert_eq!(throughput_milli(1, 1_000_000_000), 1_000);
    assert_eq!(throughput_milli(3, 7), 428_571_428_571);
}

#[test]
fn aggregation_is_per_trial_then_mean() {
    // trials of 100 ns, 200 ns and 300 ns at degree 4
    let trials = vec![trial(0, 100), trial(100, 300), trial(0, 300)];
    let s = summarize(4, &trials).unwrap();
    assert_eq!(s.degree, 4);
    assert_eq!(s.trial_elapsed_ns, vec![100, 200, 300]);
    let per_trial_then_mean =
        (throughput_milli(4, 100) + throughput_milli(4, 200) + throughput_milli(4, 300)) / 3;
    assert_eq!(s.mean_throughput_milli, per_trial_then_mean);
    assert_eq!(s.mean_throughput_milli, 24_444_444_444);
    // dividing once by the mean elapsed time is a different number
    let mean_then_divide = throughput_milli(4, 200);
    assert_eq!(mean_then_divide, 20_000_000_000);
    assert_ne!(s.mean_throughput_milli, mean_then_divide);
}

#[test]
fn summarize_keeps_trials_for_variance() {
    let trials = vec![trial(10, 20), trial(20, 25)];
    let s = summarize(2, &trials).unwrap();
    assert_eq!(s.trial_elapsed_ns, vec![10, 5]);
}

#[test]
fn summarize_rejects_empty_trials() {
    let trials: Vec<DispatchResult> = Vec::new();
    assert_eq!(summarize(4, &trials), Err(HarnessError::NoTrials));
}

#[test]
fn summarize_rejects_reversed_trial() {
    let trials = vec![trial(0, 10), trial(90, 40)];
    assert_eq!(
        summarize(4, &trials),
        Err(HarnessError::TimestampOrder { start_ns: 90, end_ns: 40 })
    );
}

#[test]
fn summarize_rejects_zero_elapsed() {
    let trials = vec![trial(0, 10), trial(7, 7)];
    assert_eq!(summarize(4, &trials), Err(HarnessError::ZeroElapsed { index: 1 }));
}

#[test]
fn mean_never_exceeds_fastest_trial() {
    let trials = vec![trial(0, 120), trial(0, 100), trial(0, 400)];
    let s: ConfigSummary = summarize(8, &trials).unwrap();
    // ceiling: degree over the minimum observed elapsed time
    assert!(s.mean_throughput_milli <= throughput_milli(8, 100));
}
