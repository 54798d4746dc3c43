//! Per-lane record preparation.
//!
//! A dispatch of `degree` lanes consumes one lane record per lane; lane `i`
//! maps to dispatch index `i`. The sweep names its lanes by their one-based
//! position, written as a decimal numeral, and the single-point mode repeats
//! one placeholder record instead.

use vstd::prelude::*;
use vstd::pervasive::unreached;

use crate::BLOCK_SIZE;
use crate::codec::all_fit;
use crate::codec::encode;
use crate::codec::lemma_bytes_deep_view;
use crate::codec::spec_encode;
use crate::codec::spec_lens;

verus! {

/// The decimal digits of `n`, most significant first, as ASCII bytes.
pub open spec fn spec_decimal(n: nat) -> Seq<u8>
    decreases n,
{
    if n < 10 {
        seq![(48 + n) as u8]
    } else {
        spec_decimal(n / 10).push((48 + n % 10) as u8)
    }
}

pub open spec fn pow10(k: nat) -> nat
    decreases k,
{
    if k == 0 {
        1
    } else {
        10 * pow10((k - 1) as nat)
    }
}

/// A decimal numeral of a value below `10^k` has at most `k` digits.
pub proof fn lemma_decimal_len(n: nat, k: nat)
    requires
        n < pow10(k),
        k >= 1,
    ensures
        spec_decimal(n).len() <= k,
    decreases k,
{
    if n < 10 {
    } else {
        if k == 1 {
            assert(pow10(1) == 10);
        }
        assert(pow10(k) == 10 * pow10((k - 1) as nat));
        assert(n / 10 < pow10((k - 1) as nat)) by (nonlinear_arith)
            requires
                n < 10 * pow10((k - 1) as nat),
        ;
        lemma_decimal_len(n / 10, (k - 1) as nat);
    }
}

/// The deep view of a record vector is its views, element by element.
pub proof fn lemma_records_deep_view(v: Vec<Vec<u8>>)
    ensures
        v.deep_view().len() == v@.len(),
        forall|i: int| 0 <= i < v@.len() ==> #[trigger] v.deep_view()[i] == v@[i]@,
{
    assert forall|i: int| 0 <= i < v@.len() implies #[trigger] v.deep_view()[i] == v@[i]@ by {
        lemma_bytes_deep_view(v@[i]);
    }
}

/// Appends the decimal numeral of `n` to `out`.
pub fn push_decimal(n: usize, out: &mut Vec<u8>)
    ensures
        final(out)@ == old(out)@ + spec_decimal(n as nat),
    decreases n,
{
    if n >= 10 {
        assert(n / 10 < n);
        push_decimal(n / 10, out);
    }
    let d: u8 = 48 + (n % 10) as u8;
    out.push(d);
    proof {
        assert(out@ =~= old(out)@ + spec_decimal(n as nat));
    }
}

/// The decimal numeral of `n` as a standalone record.
pub fn decimal_record(n: usize) -> (r: Vec<u8>)
    ensures
        r@ == spec_decimal(n as nat),
{
    let mut out: Vec<u8> = Vec::new();
    push_decimal(n, &mut out);
    proof {
        assert(out@ =~= spec_decimal(n as nat));
    }
    out
}

/// The lane identifiers for a dispatch of `degree` lanes: the decimal
/// numerals of 1 through `degree`.
pub open spec fn spec_lane_ids(degree: nat) -> Seq<Seq<u8>> {
    Seq::new(degree, |i: int| spec_decimal((i + 1) as nat))
}

/// Builds the lane records for a sweep configuration of `degree` lanes.
pub fn lane_records(degree: usize) -> (r: Vec<Vec<u8>>)
    ensures
        r.deep_view() == spec_lane_ids(degree as nat),
        r@.len() == degree,
{
    let mut out: Vec<Vec<u8>> = Vec::new();
    let mut i: usize = 0;
    while i < degree
        invariant
            i <= degree,
            out@.len() == i,
            forall|k: int| 0 <= k < i ==> #[trigger] out@[k]@ == spec_decimal((k + 1) as nat),
        decreases degree - i,
    {
        let ghost out0 = out@;
        let rec = decimal_record(i + 1);
        let ghost recvec = rec;
        out.push(rec);
        proof {
            assert(out@ == out0.push(recvec));
        }
        i += 1;
    }
    proof {
        lemma_records_deep_view(out);
        assert(out.deep_view() =~= spec_lane_ids(degree as nat));
    }
    out
}

/// Builds the lane records for the fixed-degree single-point mode: one
/// placeholder record repeated `degree` times.
pub fn uniform_records(record: &Vec<u8>, degree: usize) -> (r: Vec<Vec<u8>>)
    ensures
        r.deep_view() == Seq::new(degree as nat, |_i: int| record@),
        r@.len() == degree,
{
    let mut out: Vec<Vec<u8>> = Vec::new();
    let mut i: usize = 0;
    while i < degree
        invariant
            i <= degree,
            out@.len() == i,
            forall|k: int| 0 <= k < i ==> #[trigger] out@[k]@ == record@,
        decreases degree - i,
    {
        let ghost out0 = out@;
        let copy = record.clone();
        let ghost copyvec = copy;
        out.push(copy);
        proof {
            assert(out@ == out0.push(copyvec));
        }
        i += 1;
    }
    proof {
        lemma_records_deep_view(out);
        assert(out.deep_view() =~= Seq::new(degree as nat, |_i: int| record@));
    }
    out
}

/// Prepares the per-lane name data exactly as a sweep trial consumes it:
/// the lane identifiers 1 through `worker_count`, encoded into the
/// fixed-stride zero-padded lane block with the paired true-length array.
pub fn run_name(worker_count: usize) -> (r: (Vec<u8>, Vec<i32>))
    requires
        worker_count * BLOCK_SIZE <= usize::MAX,
    ensures
        r.0@ == spec_encode(spec_lane_ids(worker_count as nat), BLOCK_SIZE as nat),
        r.1@ == spec_lens(spec_lane_ids(worker_count as nat)),
{
    let records = lane_records(worker_count);
    proof {
        lemma_lane_ids_fit(worker_count as nat);
    }
    match encode(&records, BLOCK_SIZE) {
        Ok(p) => p,
        Err(_) => unreached(),
    }
}

/// Every lane identifier fits its slot: a decimal numeral of a machine-word
/// value is far shorter than the block stride.
pub proof fn lemma_lane_ids_fit(degree: nat)
    requires
        degree <= usize::MAX,
    ensures
        all_fit(spec_lane_ids(degree), BLOCK_SIZE as nat),
{
    reveal_with_fuel(pow10, 21);
    assert(pow10(20) == 100_000_000_000_000_000_000);
    assert forall|i: int| 0 <= i < degree implies #[trigger] spec_lane_ids(degree)[i].len()
        <= BLOCK_SIZE as nat by {
        assert(((i + 1) as nat) < pow10(20));
        lemma_decimal_len((i + 1) as nat, 20);
    }
}

} // verus!
