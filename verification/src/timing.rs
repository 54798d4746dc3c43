//! Per-trial timing capture and throughput aggregation.
//!
//! The device's profiling counters are authoritative for throughput; wall
//! clock readings only bracket the wait for cross-validation. Throughput is
//! carried in milli-records per second so the verified core stays in exact
//! integer arithmetic; reporting may widen it however it likes.

use vstd::arithmetic::div_mod::lemma_div_is_ordered;
use vstd::arithmetic::div_mod::lemma_div_is_ordered_by_denominator;
use vstd::arithmetic::div_mod::lemma_div_multiples_vanish;
use vstd::prelude::*;

use crate::error::HarnessError;

verus! {

/// One completed trial: device-side profiling timestamps, wall-clock
/// bracketing of the wait, and the kernel's output bytes.
#[derive(Clone, Debug, PartialEq, Eq)]
pub struct DispatchResult {
    pub device_start_ns: u64,
    pub device_end_ns: u64,
    pub wall_start_ns: u64,
    pub wall_end_ns: u64,
    pub output_bytes: Vec<u8>,
}

impl DispatchResult {
    /// Ordering guarantee: the device end timestamp never precedes the
    /// start timestamp.
    pub open spec fn well_formed(self) -> bool {
        self.device_start_ns <= self.device_end_ns
    }

    pub open spec fn spec_elapsed_ns(self) -> nat {
        (self.device_end_ns - self.device_start_ns) as nat
    }

    /// Device-measured elapsed time of the trial.
    pub fn elapsed_ns(&self) -> (r: u64)
        requires
            self.well_formed(),
        ensures
            r == self.spec_elapsed_ns(),
    {
        self.device_end_ns - self.device_start_ns
    }
}

/// Validates and assembles one trial's measurements. A device end timestamp
/// earlier than its start indicates a profiling or synchronization bug and
/// is rejected as a fatal internal-consistency failure, never clamped.
pub fn finish_trial(
    device_start_ns: u64,
    device_end_ns: u64,
    wall_start_ns: u64,
    wall_end_ns: u64,
    output_bytes: Vec<u8>,
) -> (r: Result<DispatchResult, HarnessError>)
    ensures
        match r {
            Ok(d) => {
                &&& device_start_ns <= device_end_ns
                &&& d == (DispatchResult {
                    device_start_ns,
                    device_end_ns,
                    wall_start_ns,
                    wall_end_ns,
                    output_bytes,
                })
                &&& d.well_formed()
            },
            Err(e) => {
                &&& device_start_ns > device_end_ns
                &&& e == (HarnessError::TimestampOrder {
                    start_ns: device_start_ns,
                    end_ns: device_end_ns,
                })
            },
        },
{
    if device_end_ns < device_start_ns {
        return Err(HarnessError::TimestampOrder {
            start_ns: device_start_ns,
            end_ns: device_end_ns,
        });
    }
    Ok(DispatchResult { device_start_ns, device_end_ns, wall_start_ns, wall_end_ns, output_bytes })
}

/// Throughput of one trial in milli-records per second. Each of the
/// `degree` lanes processes one record per kernel pass, so a trial retiring
/// in `elapsed_ns` nanoseconds moves `degree * 1e9 / elapsed_ns` records per
/// second; the extra factor of 1000 keeps three decimal places exact.
pub open spec fn spec_throughput_milli(degree: nat, elapsed_ns: nat) -> nat
    recommends
        elapsed_ns > 0,
{
    degree * 1_000_000_000_000 / elapsed_ns
}

pub fn throughput_milli(degree: usize, elapsed_ns: u64) -> (r: u128)
    requires
        elapsed_ns > 0,
    ensures
        r == spec_throughput_milli(degree as nat, elapsed_ns as nat),
{
    proof {
        assert((degree as int) * 1_000_000_000_000 <= u128::MAX) by (nonlinear_arith)
            requires
                0 <= degree as int <= 0xffff_ffff_ffff_ffff,
        ;
    }
    (degree as u128) * 1_000_000_000_000u128 / (elapsed_ns as u128)
}

/// The per-trial device-elapsed times of a trial list.
pub open spec fn spec_elapsed_list(trials: Seq<DispatchResult>) -> Seq<u64> {
    trials.map_values(|d: DispatchResult| (d.device_end_ns - d.device_start_ns) as u64)
}

pub open spec fn spec_sum_throughput_milli(degree: nat, elapsed: Seq<u64>) -> nat
    decreases elapsed.len(),
{
    if elapsed.len() == 0 {
        0
    } else {
        spec_sum_throughput_milli(degree, elapsed.drop_last()) + spec_throughput_milli(
            degree,
            elapsed.last() as nat,
        )
    }
}

/// Mean throughput across trials: per-trial throughput first, averaged
/// second. Averaging the elapsed times and dividing once would be a
/// different (and wrong) quantity.
pub open spec fn spec_mean_throughput_milli(degree: nat, elapsed: Seq<u64>) -> nat
    recommends
        elapsed.len() > 0,
{
    spec_sum_throughput_milli(degree, elapsed) / elapsed.len()
}

/// Summary of all trials at one parallelism degree. The per-trial elapsed
/// times are retained for variance inspection even though only the mean is
/// reported.
#[derive(Clone, Debug, PartialEq, Eq)]
pub struct ConfigSummary {
    pub degree: usize,
    pub trial_elapsed_ns: Vec<u64>,
    pub mean_throughput_milli: u128,
}

impl ConfigSummary {
    pub open spec fn well_formed(self) -> bool {
        &&& self.trial_elapsed_ns@.len() > 0
        &&& (forall|i: int|
            0 <= i < self.trial_elapsed_ns@.len() ==> #[trigger] self.trial_elapsed_ns@[i] > 0)
        &&& self.mean_throughput_milli == spec_mean_throughput_milli(
            self.degree as nat,
            self.trial_elapsed_ns@,
        )
    }
}

/// Whether every trial in a list is consistent and took measurable time.
pub open spec fn trials_measurable(trials: Seq<DispatchResult>) -> bool {
    &&& forall|i: int| 0 <= i < trials.len() ==> (#[trigger] trials[i]).well_formed()
    &&& forall|i: int| 0 <= i < trials.len() ==> (#[trigger] trials[i]).spec_elapsed_ns() > 0
}

/// Reduces the trials of one configuration to its summary.
///
/// Aggregation order is per-trial-then-mean: each trial's throughput is
/// computed from its own elapsed time, and those throughputs are averaged.
pub fn summarize(degree: usize, trials: &Vec<DispatchResult>) -> (r: Result<
    ConfigSummary,
    HarnessError,
>)
    requires
        (degree as nat) * 1_000_000_000_000 * trials@.len() <= u128::MAX,
    ensures
        (r is Ok) <==> (trials@.len() > 0 && trials_measurable(trials@)),
        match r {
            Ok(s) => {
                &&& s.degree == degree
                &&& s.trial_elapsed_ns@ == spec_elapsed_list(trials@)
                &&& s.mean_throughput_milli == spec_mean_throughput_milli(
                    degree as nat,
                    spec_elapsed_list(trials@),
                )
                &&& s.well_formed()
            },
            Err(e) => {
                ||| (e == HarnessError::NoTrials && trials@.len() == 0)
                ||| (exists|i: int|
                    {
                        &&& 0 <= i < trials@.len()
                        &&& !(#[trigger] trials@[i]).well_formed()
                        &&& e == (HarnessError::TimestampOrder {
                            start_ns: trials@[i].device_start_ns,
                            end_ns: trials@[i].device_end_ns,
                        })
                    })
                ||| (exists|i: int|
                    {
                        &&& 0 <= i < trials@.len()
                        &&& trials@[i].well_formed()
                        &&& (#[trigger] trials@[i]).spec_elapsed_ns() == 0
                        &&& e == (HarnessError::ZeroElapsed { index: i as usize })
                    })
            },
        },
{
    let n = trials.len();
    if n == 0 {
        return Err(HarnessError::NoTrials);
    }
    let mut elapsed: Vec<u64> = Vec::new();
    let mut i: usize = 0;
    while i < n
        invariant
            n == trials@.len(),
            i <= n,
            elapsed@ == spec_elapsed_list(trials@).take(i as int),
            forall|k: int| 0 <= k < i ==> (#[trigger] trials@[k]).well_formed(),
            forall|k: int| 0 <= k < i ==> (#[trigger] trials@[k]).spec_elapsed_ns() > 0,
        decreases n - i,
    {
        let t = &trials[i];
        if t.device_end_ns < t.device_start_ns {
            proof {
                assert(!trials@[i as int].well_formed());
                assert(!trials_measurable(trials@));
            }
            return Err(HarnessError::TimestampOrder {
                start_ns: t.device_start_ns,
                end_ns: t.device_end_ns,
            });
        }
        let e = t.device_end_ns - t.device_start_ns;
        if e == 0 {
            proof {
                assert(trials@[i as int].well_formed());
                assert(trials@[i as int].spec_elapsed_ns() == 0);
                assert(!trials_measurable(trials@));
            }
            return Err(HarnessError::ZeroElapsed { index: i });
        }
        proof {
            assert(trials@[i as int].well_formed());
            assert(trials@[i as int].spec_elapsed_ns() > 0);
        }
        elapsed.push(e);
        proof {
            assert(elapsed@ =~= spec_elapsed_list(trials@).take(i + 1));
        }
        i += 1;
    }
    proof {
        assert(elapsed@ =~= spec_elapsed_list(trials@));
        assert forall|k: int| 0 <= k < n implies #[trigger] elapsed@[k] > 0 by {
            assert(trials@[k].well_formed());
            assert(trials@[k].spec_elapsed_ns() > 0);
            assert(elapsed@[k] == spec_elapsed_list(trials@)[k]);
        }
    }
    let ghost el = elapsed@;
    let bound = Ghost((degree as nat) * 1_000_000_000_000);
    let mut sum: u128 = 0;
    let mut j: usize = 0;
    while j < n
        invariant
            n == trials@.len(),
            n == elapsed@.len(),
            el == elapsed@,
            j <= n,
            (degree as nat) * 1_000_000_000_000 * (n as nat) <= u128::MAX,
            bound@ == (degree as nat) * 1_000_000_000_000,
            forall|k: int| 0 <= k < n ==> #[trigger] elapsed@[k] > 0,
            sum == spec_sum_throughput_milli(degree as nat, el.take(j as int)),
            sum <= bound@ * j,
        decreases n - j,
    {
        let term = throughput_milli(degree, elapsed[j]);
        proof {
            lemma_div_is_ordered_by_denominator(
                (degree as int) * 1_000_000_000_000,
                1,
                elapsed@[j as int] as int,
            );
            assert(((degree as int) * 1_000_000_000_000) / 1 == (degree as int)
                * 1_000_000_000_000);
            assert(term <= bound@);
            assert(bound@ * j + bound@ == bound@ * (j + 1)) by (nonlinear_arith);
            assert(bound@ * (j + 1) <= bound@ * (n as int)) by (nonlinear_arith)
                requires
                    0 <= bound@,
                    j + 1 <= n as int,
            ;
            let t1 = el.take(j + 1);
            assert(t1.drop_last() =~= el.take(j as int));
            assert(t1.last() == el[j as int]);
        }
        sum = sum + term;
        j += 1;
    }
    proof {
        assert(el.take(n as int) =~= el);
    }
    let mean: u128 = sum / (n as u128);
    let summary = ConfigSummary { degree, trial_elapsed_ns: elapsed, mean_throughput_milli: mean };
    Ok(summary)
}

/// Throughput ceiling (law): the mean throughput at a degree never exceeds
/// the throughput of its fastest observed trial, `degree * 1e9` records per
/// second over the minimum observed elapsed time.
pub proof fn lemma_mean_bounded_by_fastest(degree: nat, elapsed: Seq<u64>, min_elapsed_ns: u64)
    requires
        elapsed.len() > 0,
        min_elapsed_ns > 0,
        forall|i: int| 0 <= i < elapsed.len() ==> min_elapsed_ns <= #[trigger] elapsed[i],
    ensures
        spec_mean_throughput_milli(degree, elapsed) <= spec_throughput_milli(
            degree,
            min_elapsed_ns as nat,
        ),
{
    let t = spec_throughput_milli(degree, min_elapsed_ns as nat);
    let sum = spec_sum_throughput_milli(degree, elapsed);
    let n = elapsed.len() as int;
    lemma_sum_bounded_by_fastest(degree, elapsed, min_elapsed_ns);
    lemma_div_is_ordered(sum as int, n * (t as int), n);
    lemma_div_multiples_vanish(t as int, n);
}

proof fn lemma_sum_bounded_by_fastest(degree: nat, elapsed: Seq<u64>, min_elapsed_ns: u64)
    requires
        min_elapsed_ns > 0,
        forall|i: int| 0 <= i < elapsed.len() ==> min_elapsed_ns <= #[trigger] elapsed[i],
    ensures
        spec_sum_throughput_milli(degree, elapsed) <= elapsed.len() * spec_throughput_milli(
            degree,
            min_elapsed_ns as nat,
        ),
    decreases elapsed.len(),
{
    let t = spec_throughput_milli(degree, min_elapsed_ns as nat);
    if elapsed.len() == 0 {
    } else {
        let prefix = elapsed.drop_last();
        assert(forall|i: int| 0 <= i < prefix.len() ==> min_elapsed_ns <= #[trigger] prefix[i]);
        lemma_sum_bounded_by_fastest(degree, prefix, min_elapsed_ns);
        assert(min_elapsed_ns <= elapsed[elapsed.len() - 1]);
        lemma_div_is_ordered_by_denominator(
            degree as int * 1_000_000_000_000,
            min_elapsed_ns as int,
            elapsed.last() as int,
        );
        assert(spec_throughput_milli(degree, elapsed.last() as nat) <= t);
        assert((elapsed.len() - 1) * t + t == elapsed.len() * t) by (nonlinear_arith);
    }
}

} // verus!
