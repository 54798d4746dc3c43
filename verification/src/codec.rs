//! Fixed-stride block layout codec.
//!
//! A sequence of variable-length byte records is packed into one flat buffer
//! of `block_size * count` bytes: slot `i` holds `records[i]` left-justified
//! and zero-padded to `block_size`. The true lengths travel out-of-band in a
//! paired array, so a consumer never has to treat padding as data.

use vstd::prelude::*;

use crate::error::HarnessError;

verus! {

/// One encoded slot: the record's bytes left-justified, zero-padded to
/// `block_size`.
pub open spec fn spec_slot(record: Seq<u8>, block_size: nat) -> Seq<u8>
    recommends
        record.len() <= block_size,
{
    record + Seq::new((block_size - record.len()) as nat, |_j: int| 0u8)
}

/// The flat fixed-stride layout: slot `i` holds `records[i]`.
pub open spec fn spec_encode(records: Seq<Seq<u8>>, block_size: nat) -> Seq<u8>
    decreases records.len(),
{
    if records.len() == 0 {
        Seq::empty()
    } else {
        spec_encode(records.drop_last(), block_size) + spec_slot(records.last(), block_size)
    }
}

/// The paired true-length array; the consumer of a block must be told each
/// record's raw length, not the padded slot size.
pub open spec fn spec_lens(records: Seq<Seq<u8>>) -> Seq<i32> {
    Seq::new(records.len(), |i: int| records[i].len() as i32)
}

/// Whether every record fits its slot.
pub open spec fn all_fit(records: Seq<Seq<u8>>, block_size: nat) -> bool {
    forall|i: int| 0 <= i < records.len() ==> #[trigger] records[i].len() <= block_size
}

/// Whether a flat buffer and a length array describe a well-shaped layout.
pub open spec fn valid_layout(flat: Seq<u8>, lens: Seq<i32>, block_size: nat) -> bool {
    &&& flat.len() == lens.len() * block_size
    &&& forall|i: int| 0 <= i < lens.len() ==> 0 <= #[trigger] lens[i] <= block_size
}

/// The records a well-shaped layout describes: slot `i` stripped back to its
/// true length.
pub open spec fn spec_decode(flat: Seq<u8>, lens: Seq<i32>, block_size: nat) -> Seq<Seq<u8>>
    recommends
        valid_layout(flat, lens, block_size),
{
    Seq::new(lens.len(), |i: int| flat.subrange(i * block_size, i * block_size + lens[i]))
}

proof fn lemma_mul_dist(i: int, b: int)
    ensures
        (i + 1) * b == i * b + b,
{
    assert((i + 1) * b == i * b + b) by (nonlinear_arith);
}

proof fn lemma_mul_le(i: int, n: int, b: int)
    requires
        0 <= i <= n,
        0 <= b,
    ensures
        i * b <= n * b,
{
    assert(i * b <= n * b) by (nonlinear_arith)
        requires
            0 <= i <= n,
            0 <= b,
    ;
}

/// The deep view of a byte vector is its plain view.
pub proof fn lemma_bytes_deep_view(v: Vec<u8>)
    ensures
        v.deep_view() == v@,
{
    assert(v.deep_view() =~= v@);
}

pub proof fn lemma_encode_len(records: Seq<Seq<u8>>, block_size: nat)
    requires
        all_fit(records, block_size),
    ensures
        spec_encode(records, block_size).len() == records.len() * block_size,
    decreases records.len(),
{
    if records.len() == 0 {
    } else {
        assert(all_fit(records.drop_last(), block_size)) by {
            assert(forall|i: int|
                0 <= i < records.len() - 1 ==> records.drop_last()[i] == #[trigger] records[i]);
        }
        lemma_encode_len(records.drop_last(), block_size);
        lemma_mul_dist(records.len() - 1, block_size as int);
    }
}

/// Slot `i` of the encoded buffer is exactly the padded form of `records[i]`.
pub proof fn lemma_encode_slot(records: Seq<Seq<u8>>, block_size: nat, i: int)
    requires
        all_fit(records, block_size),
        0 <= i < records.len(),
    ensures
        spec_encode(records, block_size).subrange(i * block_size, (i + 1) * block_size)
            =~= spec_slot(records[i], block_size),
    decreases records.len(),
{
    let prefix = records.drop_last();
    assert(all_fit(prefix, block_size)) by {
        assert(forall|k: int| 0 <= k < prefix.len() ==> prefix[k] == #[trigger] records[k]);
    }
    lemma_encode_len(records, block_size);
    lemma_encode_len(prefix, block_size);
    lemma_mul_dist(i, block_size as int);
    if i == records.len() - 1 {
        assert(records.last() == records[i]);
        assert(spec_slot(records[i], block_size).len() == block_size);
    } else {
        lemma_encode_slot(prefix, block_size, i);
        lemma_mul_le(i + 1, prefix.len() as int, block_size as int);
        assert(prefix[i] == records[i]);
    }
}

/// Data bytes survive encoding: byte `j` of slot `i` is byte `j` of
/// `records[i]` for `j` below the record's true length.
pub proof fn lemma_data_byte(records: Seq<Seq<u8>>, block_size: nat, i: int, j: int)
    requires
        all_fit(records, block_size),
        0 <= i < records.len(),
        0 <= j < records[i].len(),
    ensures
        spec_encode(records, block_size)[i * block_size + j] == records[i][j],
{
    lemma_encode_len(records, block_size);
    lemma_encode_slot(records, block_size, i);
    lemma_mul_dist(i, block_size as int);
    lemma_mul_le(i + 1, records.len() as int, block_size as int);
    let flat = spec_encode(records, block_size);
    assert(flat.subrange(i * block_size, (i + 1) * block_size)[j] == flat[i * block_size + j]);
}

/// Padding invariant (law): within each slot, every byte at an offset in
/// `[len, block_size)` is zero.
pub proof fn lemma_padding_zero(records: Seq<Seq<u8>>, block_size: nat, i: int, j: int)
    requires
        all_fit(records, block_size),
        0 <= i < records.len(),
        records[i].len() <= j < block_size,
    ensures
        spec_encode(records, block_size)[i * block_size + j] == 0u8,
{
    lemma_encode_len(records, block_size);
    lemma_encode_slot(records, block_size, i);
    lemma_mul_dist(i, block_size as int);
    lemma_mul_le(i + 1, records.len() as int, block_size as int);
    let flat = spec_encode(records, block_size);
    assert(flat.subrange(i * block_size, (i + 1) * block_size)[j] == flat[i * block_size + j]);
    assert(spec_slot(records[i], block_size)[j] == 0u8);
}

/// Layout round trip (law): decoding an encoded block against its paired
/// length array recovers the original records exactly.
pub proof fn lemma_round_trip(records: Seq<Seq<u8>>, block_size: nat)
    requires
        all_fit(records, block_size),
        block_size <= i32::MAX,
    ensures
        valid_layout(spec_encode(records, block_size), spec_lens(records), block_size),
        spec_decode(spec_encode(records, block_size), spec_lens(records), block_size) == records,
{
    let flat = spec_encode(records, block_size);
    let lens = spec_lens(records);
    lemma_encode_len(records, block_size);
    let decoded = spec_decode(flat, lens, block_size);
    assert forall|i: int| 0 <= i < records.len() implies decoded[i] =~= records[i] by {
        lemma_encode_slot(records, block_size, i);
        lemma_mul_dist(i, block_size as int);
        lemma_mul_le(i + 1, records.len() as int, block_size as int);
        assert(lens[i] == records[i].len());
        assert forall|j: int| 0 <= j < records[i].len() implies flat[i * block_size + j]
            == records[i][j] by {
            lemma_data_byte(records, block_size, i, j);
        }
    }
    assert(decoded =~~= records);
}

/// Encodes a sequence of variable-length byte records into the flat
/// fixed-stride, zero-padded layout, paired with the true-length array.
///
/// An oversized record is a fatal precondition violation, reported before
/// either output buffer is allocated; nothing is silently truncated.
pub fn encode(records: &Vec<Vec<u8>>, block_size: usize) -> (r: Result<
    (Vec<u8>, Vec<i32>),
    HarnessError,
>)
    requires
        records@.len() * block_size <= usize::MAX,
        block_size <= i32::MAX,
    ensures
        match r {
            Ok(out) => {
                &&& all_fit(records.deep_view(), block_size as nat)
                &&& out.0@ == spec_encode(records.deep_view(), block_size as nat)
                &&& out.1@ == spec_lens(records.deep_view())
            },
            Err(e) => {
                &&& !all_fit(records.deep_view(), block_size as nat)
                &&& exists|i: int|
                    {
                        &&& 0 <= i < records@.len()
                        &&& #[trigger] records.deep_view()[i].len() > block_size
                        &&& (forall|k: int|
                            0 <= k < i ==> #[trigger] records.deep_view()[k].len() <= block_size)
                        &&& e == (HarnessError::RecordTooLong {
                            index: i as usize,
                            len: records.deep_view()[i].len() as usize,
                            block_size,
                        })
                    }
            },
        },
{
    let n = records.len();
    let ghost dv = records.deep_view();
    // Reject an oversized record before anything is allocated.
    let mut idx: usize = 0;
    while idx < n
        invariant
            n == records@.len(),
            dv == records.deep_view(),
            idx <= n,
            forall|k: int| 0 <= k < idx ==> #[trigger] dv[k].len() <= block_size,
        decreases n - idx,
    {
        proof {
            lemma_bytes_deep_view(records@[idx as int]);
            assert(dv[idx as int] == records@[idx as int]@);
        }
        if records[idx].len() > block_size {
            proof {
                let ghost w = idx as int;
                assert({
                    &&& 0 <= w < records@.len()
                    &&& records.deep_view()[w].len() > block_size
                    &&& (forall|k: int|
                        0 <= k < w ==> #[trigger] records.deep_view()[k].len() <= block_size)
                });
            }
            return Err(HarnessError::RecordTooLong {
                index: idx,
                len: records[idx].len(),
                block_size,
            });
        }
        idx += 1;
    }
    assert(all_fit(dv, block_size as nat));
    let mut flat: Vec<u8> = Vec::new();
    let mut lens: Vec<i32> = Vec::new();
    let mut i: usize = 0;
    while i < n
        invariant
            n == records@.len(),
            dv == records.deep_view(),
            i <= n,
            all_fit(dv, block_size as nat),
            records@.len() * block_size <= usize::MAX,
            block_size <= i32::MAX,
            flat@ == spec_encode(dv.take(i as int), block_size as nat),
            lens@ == spec_lens(dv.take(i as int)),
        decreases n - i,
    {
        let ghost flat0 = flat@;
        let rec = &records[i];
        let len = rec.len();
        proof {
            lemma_bytes_deep_view(records@[i as int]);
        }
        assert(rec@ == dv[i as int]);
        assert(len <= block_size);
        let mut j: usize = 0;
        while j < len
            invariant
                j <= len,
                len == rec@.len(),
                flat@ == flat0 + rec@.take(j as int),
            decreases len - j,
        {
            flat.push(rec[j]);
            assert(rec@.take(j + 1) =~= rec@.take(j as int).push(rec@[j as int]));
            j += 1;
        }
        assert(rec@.take(len as int) =~= rec@);
        while j < block_size
            invariant
                len <= j <= block_size,
                len == rec@.len(),
                flat@ == flat0 + rec@ + Seq::new((j - len) as nat, |_k: int| 0u8),
            decreases block_size - j,
        {
            flat.push(0u8);
            assert(flat@ =~= flat0 + rec@ + Seq::new((j + 1 - len) as nat, |_k: int| 0u8));
            j += 1;
        }
        assert(flat@ =~= flat0 + spec_slot(dv[i as int], block_size as nat));
        lens.push(len as i32);
        proof {
            let t1 = dv.take(i + 1);
            assert(t1.drop_last() =~= dv.take(i as int));
            assert(t1.last() == dv[i as int]);
            assert(spec_encode(t1, block_size as nat) == spec_encode(
                dv.take(i as int),
                block_size as nat,
            ) + spec_slot(dv[i as int], block_size as nat));
            assert(lens@ =~= spec_lens(t1));
        }
        i += 1;
    }
    proof {
        assert(dv.take(n as int) =~= dv);
    }
    Ok((flat, lens))
}

/// Decodes a flat fixed-stride buffer back into its records, stripping the
/// zero padding of each slot according to the paired true-length array.
pub fn decode(flat: &Vec<u8>, lens: &Vec<i32>, block_size: usize) -> (r: Result<
    Vec<Vec<u8>>,
    HarnessError,
>)
    ensures
        match r {
            Ok(out) => {
                &&& valid_layout(flat@, lens@, block_size as nat)
                &&& out.deep_view() == spec_decode(flat@, lens@, block_size as nat)
            },
            Err(e) => {
                &&& !valid_layout(flat@, lens@, block_size as nat)
                &&& e == HarnessError::LayoutMismatch
            },
        },
{
    let n = lens.len();
    let flen = flat.len();
    if block_size != 0 && n > usize::MAX / block_size {
        proof {
            assert(lens@.len() * block_size > usize::MAX) by (nonlinear_arith)
                requires
                    lens@.len() > usize::MAX as int / block_size as int,
                    block_size > 0,
            ;
            assert(flat@.len() == flen <= usize::MAX);
        }
        return Err(HarnessError::LayoutMismatch);
    }
    assert(n * block_size <= usize::MAX) by (nonlinear_arith)
        requires
            block_size == 0 || n <= usize::MAX as int / block_size as int,
            n >= 0,
            block_size >= 0,
            n <= usize::MAX,
    ;
    if flen != n * block_size {
        return Err(HarnessError::LayoutMismatch);
    }
    let mut check: usize = 0;
    while check < n
        invariant
            n == lens@.len(),
            check <= n,
            forall|k: int| 0 <= k < check ==> 0 <= #[trigger] lens@[k] <= block_size,
        decreases n - check,
    {
        let l = lens[check];
        if l < 0 || l as usize > block_size {
            return Err(HarnessError::LayoutMismatch);
        }
        check += 1;
    }
    assert(valid_layout(flat@, lens@, block_size as nat));
    let mut out: Vec<Vec<u8>> = Vec::new();
    let ghost want = spec_decode(flat@, lens@, block_size as nat);
    proof {
        assert(out.deep_view() =~= want.take(0));
    }
    let mut i: usize = 0;
    while i < n
        invariant
            n == lens@.len(),
            i <= n,
            valid_layout(flat@, lens@, block_size as nat),
            flat@.len() == n * block_size,
            n * block_size <= usize::MAX,
            want == spec_decode(flat@, lens@, block_size as nat),
            out.deep_view() == want.take(i as int),
        decreases n - i,
    {
        proof {
            lemma_mul_dist(i as int, block_size as int);
            lemma_mul_le(i + 1, n as int, block_size as int);
        }
        let base = i * block_size;
        let l = lens[i] as usize;
        let mut rec: Vec<u8> = Vec::new();
        let mut j: usize = 0;
        while j < l
            invariant
                j <= l,
                base == i * block_size,
                base + l <= flat@.len(),
                flat@.len() <= usize::MAX,
                rec@ == flat@.subrange(base as int, base + j),
            decreases l - j,
        {
            rec.push(flat[base + j]);
            assert(flat@.subrange(base as int, base + j + 1) =~= flat@.subrange(
                base as int,
                base + j,
            ).push(flat@[base + j]));
            j += 1;
        }
        assert(rec@ == want[i as int]);
        let ghost prev = out.deep_view();
        let ghost out0 = out@;
        let ghost recvec = rec;
        let ghost recv = rec@;
        out.push(rec);
        proof {
            assert(out@ == out0.push(recvec));
            assert(prev.len() == i);
            assert(out0.len() == i);
            assert(out@[i as int] == recvec);
            lemma_bytes_deep_view(recvec);
            assert forall|k: int| 0 <= k < i + 1 implies out.deep_view()[k] == want.take(i + 1)[k]
                by {
                if k < i {
                    assert(out@[k] == out0[k]);
                    assert(out.deep_view()[k] == out0[k].deep_view());
                    assert(prev[k] == out0[k].deep_view());
                    assert(prev[k] == want.take(i as int)[k]);
                } else {
                    assert(out.deep_view()[k] == recv);
                }
            }
            assert(out.deep_view() =~= want.take(i + 1));
        }
        i += 1;
    }
    proof {
        assert(want.take(n as int) =~= want);
    }
    Ok(out)
}

} // verus!
