//! Sweep driving and reporting order.
//!
//! The sweep walks the parallelism degrees, reduces each configuration's
//! trials to one summary, and orders the summaries by ascending mean
//! throughput for reporting — not by degree; a caller that wants degree
//! order must re-sort by `degree`. The reduction is an explicit fold: each
//! configuration yields one immutable summary and no state is shared across
//! configurations.

use vstd::prelude::*;
use vstd::seq_lib::group_to_multiset_ensures;

use crate::error::HarnessError;
use crate::timing::ConfigSummary;
use crate::timing::DispatchResult;
use crate::timing::spec_elapsed_list;
use crate::timing::spec_mean_throughput_milli;
use crate::timing::summarize;
use crate::timing::trials_measurable;

verus! {

broadcast use group_to_multiset_ensures;

/// The swept parallelism degrees: 1 through `max_degree`, in order.
pub fn plan_sweep(max_degree: usize) -> (r: Vec<usize>)
    ensures
        r@.len() == max_degree,
        forall|i: int| 0 <= i < max_degree ==> #[trigger] r@[i] == i + 1,
{
    let mut out: Vec<usize> = Vec::new();
    let mut i: usize = 0;
    while i < max_degree
        invariant
            i <= max_degree,
            out@.len() == i,
            forall|k: int| 0 <= k < i ==> #[trigger] out@[k] == k + 1,
        decreases max_degree - i,
    {
        out.push(i + 1);
        i += 1;
    }
    out
}

/// Reporting order: ascending mean throughput.
pub open spec fn sorted_by_mean(s: Seq<ConfigSummary>) -> bool {
    forall|i: int, j: int|
        0 <= i < j < s.len() ==> (#[trigger] s[i]).mean_throughput_milli
            <= (#[trigger] s[j]).mean_throughput_milli
}

/// What identifies a summary for permutation statements: its degree, its
/// retained per-trial elapsed times, and its mean.
pub open spec fn summary_key(s: ConfigSummary) -> (nat, Seq<u64>, nat) {
    (s.degree as nat, s.trial_elapsed_ns@, s.mean_throughput_milli as nat)
}

pub open spec fn keys_of(s: Seq<ConfigSummary>) -> Seq<(nat, Seq<u64>, nat)> {
    s.map_values(|c: ConfigSummary| summary_key(c))
}

/// Well-formedness is carried entirely by a summary's key.
pub proof fn lemma_wf_from_key(a: ConfigSummary, b: ConfigSummary)
    requires
        summary_key(a) == summary_key(b),
        a.well_formed(),
    ensures
        b.well_formed(),
{
    assert(a.degree == b.degree);
    assert(a.trial_elapsed_ns@ == b.trial_elapsed_ns@);
    assert(a.mean_throughput_milli == b.mean_throughput_milli);
}

/// Reorders summaries by ascending mean throughput. The result is a
/// permutation of the input: no summary is dropped, duplicated or altered.
pub fn sort_by_mean(summaries: Vec<ConfigSummary>) -> (r: Vec<ConfigSummary>)
    ensures
        r@.len() == summaries@.len(),
        sorted_by_mean(r@),
        keys_of(r@).to_multiset() == keys_of(summaries@).to_multiset(),
        (forall|i: int| 0 <= i < summaries@.len() ==> (#[trigger] summaries@[i]).well_formed())
            ==> (forall|j: int| 0 <= j < r@.len() ==> (#[trigger] r@[j]).well_formed()),
{
    let ghost all = keys_of(summaries@).to_multiset();
    let ghost n = summaries@.len();
    let ghost wf_in = forall|i: int|
        0 <= i < summaries@.len() ==> (#[trigger] summaries@[i]).well_formed();
    let mut pending = summaries;
    let mut out: Vec<ConfigSummary> = Vec::new();
    proof {
        assert(keys_of(out@) =~= Seq::<(nat, Seq<u64>, nat)>::empty());
        assert(keys_of(out@).to_multiset().add(keys_of(pending@).to_multiset()) =~= all);
    }
    while pending.len() > 0
        invariant
            out@.len() + pending@.len() == n,
            sorted_by_mean(out@),
            keys_of(out@).to_multiset().add(keys_of(pending@).to_multiset()) == all,
            wf_in ==> (forall|k: int| 0 <= k < out@.len() ==> (#[trigger] out@[k]).well_formed()),
            wf_in ==> (forall|k: int|
                0 <= k < pending@.len() ==> (#[trigger] pending@[k]).well_formed()),
        decreases pending@.len(),
    {
        let ghost pending0 = pending@;
        let s = pending.pop().unwrap();
        let ghost svec = s;
        proof {
            assert(pending@ =~= pending0.drop_last());
            assert(keys_of(pending0) =~= keys_of(pending@).push(summary_key(svec)));
        }
        let mut pos: usize = 0;
        let hi = out.len();
        while pos < hi && out[pos].mean_throughput_milli <= s.mean_throughput_milli
            invariant
                hi == out@.len(),
                pos <= hi,
                forall|k: int|
                    0 <= k < pos ==> (#[trigger] out@[k]).mean_throughput_milli
                        <= s.mean_throughput_milli,
            decreases hi - pos,
        {
            pos += 1;
        }
        let ghost out0 = out@;
        out.insert(pos, s);
        proof {
            assert(out@ == out0.insert(pos as int, svec));
            out0.insert_ensures(pos as int, svec);
            assert(keys_of(out@) =~= keys_of(out0).insert(pos as int, summary_key(svec)));
            assert(sorted_by_mean(out@)) by {
                assert forall|i: int, j: int|
                    0 <= i < j < out@.len() implies (#[trigger] out@[i]).mean_throughput_milli
                    <= (#[trigger] out@[j]).mean_throughput_milli by {
                    if i < pos && j < pos {
                    } else if i == pos || j == pos {
                        if pos < out0.len() {
                            assert(out0[pos as int].mean_throughput_milli
                                > svec.mean_throughput_milli);
                        }
                    }
                }
            }
            assert(keys_of(out@).to_multiset().add(keys_of(pending@).to_multiset()) =~= all);
        }
    }
    proof {
        assert(keys_of(pending@) =~= Seq::<(nat, Seq<u64>, nat)>::empty());
        assert(keys_of(out@).to_multiset() =~= all);
    }
    out
}

/// Whether one configuration's trials can be reduced to a summary at all.
pub open spec fn config_ok(trials: Seq<DispatchResult>) -> bool {
    trials.len() > 0 && trials_measurable(trials)
}

/// The key of the summary a configuration must reduce to.
pub open spec fn spec_config_key(degree: nat, trials: Seq<DispatchResult>) -> (nat, Seq<u64>, nat) {
    (
        degree,
        spec_elapsed_list(trials),
        spec_mean_throughput_milli(degree, spec_elapsed_list(trials)),
    )
}

pub open spec fn spec_sweep_keys(results: Seq<(usize, Vec<DispatchResult>)>) -> Seq<
    (nat, Seq<u64>, nat),
> {
    results.map_values(|p: (usize, Vec<DispatchResult>)| spec_config_key(p.0 as nat, p.1@))
}

/// Reduces every configuration of a sweep — each a parallelism degree paired
/// with its completed trials — to one summary apiece, then orders the
/// summaries by ascending mean throughput for reporting.
///
/// A configuration that cannot be summarized aborts the whole sweep with its
/// error: there is no partial-results mode, since a silently dropped
/// configuration would corrupt the comparison table.
pub fn aggregate_sweep(results: &Vec<(usize, Vec<DispatchResult>)>) -> (r: Result<
    Vec<ConfigSummary>,
    HarnessError,
>)
    requires
        forall|i: int|
            0 <= i < results@.len() ==> ((#[trigger] results@[i]).0 as nat) * 1_000_000_000_000
                * results@[i].1@.len() <= u128::MAX,
    ensures
        (r is Ok) <==> (forall|i: int|
            0 <= i < results@.len() ==> #[trigger] config_ok(results@[i].1@)),
        match r {
            Ok(v) => {
                &&& v@.len() == results@.len()
                &&& sorted_by_mean(v@)
                &&& (forall|j: int| 0 <= j < v@.len() ==> (#[trigger] v@[j]).well_formed())
                &&& keys_of(v@).to_multiset() == spec_sweep_keys(results@).to_multiset()
            },
            Err(e) => exists|i: int|
                {
                    &&& 0 <= i < results@.len()
                    &&& !(#[trigger] config_ok(results@[i].1@))
                    &&& (forall|k: int| 0 <= k < i ==> #[trigger] config_ok(results@[k].1@))
                    &&& {
                        ||| e matches HarnessError::NoTrials
                        ||| e matches HarnessError::TimestampOrder { .. }
                        ||| e matches HarnessError::ZeroElapsed { .. }
                    }
                },
        },
{
    let n = results.len();
    let mut summaries: Vec<ConfigSummary> = Vec::new();
    let mut i: usize = 0;
    while i < n
        invariant
            n == results@.len(),
            i <= n,
            forall|q: int|
                0 <= q < results@.len() ==> ((#[trigger] results@[q]).0 as nat) * 1_000_000_000_000
                    * results@[q].1@.len() <= u128::MAX,
            summaries@.len() == i,
            forall|k: int| 0 <= k < i ==> #[trigger] config_ok(results@[k].1@),
            forall|k: int| 0 <= k < i ==> (#[trigger] summaries@[k]).well_formed(),
            keys_of(summaries@) == spec_sweep_keys(results@).take(i as int),
        decreases n - i,
    {
        let p = &results[i];
        let ghost s0 = summaries@;
        match summarize(p.0, &p.1) {
            Ok(s) => {
                let ghost svec = s;
                summaries.push(s);
                proof {
                    assert(config_ok(results@[i as int].1@));
                    assert(summary_key(svec) == spec_config_key(p.0 as nat, p.1@));
                    assert(keys_of(summaries@) =~= keys_of(s0).push(summary_key(svec)));
                    assert(keys_of(summaries@) =~= spec_sweep_keys(results@).take(i + 1));
                }
            },
            Err(e) => {
                proof {
                    assert(!config_ok(results@[i as int].1@));
                }
                return Err(e);
            },
        }
        i += 1;
    }
    proof {
        assert(spec_sweep_keys(results@).take(n as int) =~= spec_sweep_keys(results@));
    }
    let sorted = sort_by_mean(summaries);
    Ok(sorted)
}

} // verus!
