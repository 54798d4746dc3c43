//! Host-side reference of the keyed byte-permutation the kernel computes.
//!
//! An RC4-style key schedule: starting from the identity byte table, 256
//! mixing steps each fold in one key byte (cycling through the key with a
//! one-step gap) and swap two table entries. The host copy exists as a
//! parity check against the kernel's output, so its exact step order is part
//! of its meaning.

use vstd::prelude::*;
use vstd::utf8::encode_utf8;

verus! {

/// The UTF-8 bytes of the key string, which is what the schedule consumes.
pub open spec fn spec_team_bytes(team: &String) -> Seq<u8> {
    encode_utf8(team@)
}

/// Byte addition that wraps around 256.
pub open spec fn wrap_add(x: u8, y: u8) -> u8 {
    if x + y > u8::MAX {
        (x + y - 256) as u8
    } else {
        (x + y) as u8
    }
}

/// The identity byte table: entry `i` holds `i`.
pub open spec fn spec_identity_table() -> Seq<u8> {
    Seq::new(256, |i: int| i as u8)
}

/// The (table, accumulator) state after the first `n` mixing steps of the
/// key schedule. Step `i` folds key byte `(i mod (len+1)) - 1` into the
/// accumulator — skipping the fold whenever `i mod (len+1)` is zero — adds
/// table entry `i`, and swaps entries `i` and the accumulator.
pub open spec fn spec_ksa_state(key: Seq<u8>, n: nat) -> (Seq<u8>, u8)
    recommends
        n <= 256,
        key.len() <= 256,
    decreases n,
{
    if n == 0 {
        (spec_identity_table(), 0u8)
    } else {
        let prev = spec_ksa_state(key, (n - 1) as nat);
        let val = prev.0;
        let i = (n - 1) as int;
        let t_len = key.len() + 1;
        let s1 = if i % (t_len as int) != 0 {
            wrap_add(prev.1, key[i % (t_len as int) - 1])
        } else {
            prev.1
        };
        let s2 = wrap_add(s1, val[i]);
        (val.update(i, val[s2 as int]).update(s2 as int, val[i]), s2)
    }
}

/// The scheduled table after all 256 steps over `key`.
pub open spec fn spec_team_rc4(key: Seq<u8>) -> Seq<u8> {
    spec_ksa_state(key, 256).0
}

/// Computes the key-scheduled permutation table for a team key, the same
/// transform the kernel applies per lane.
pub fn team_rc4(team: String) -> (r: [u8; 256])
    requires
        spec_team_bytes(&team).len() <= 256,
    ensures
        r@ == spec_team_rc4(spec_team_bytes(&team)),
{
    let mut val: [u8; 256] = [0u8; 256];
    let mut i: usize = 0;
    while i < 256
        invariant
            i <= 256,
            forall|k: int| 0 <= k < i ==> #[trigger] val@[k] == k as u8,
        decreases 256 - i,
    {
        val[i] = i as u8;
        i += 1;
    }
    proof {
        assert(val@ =~= spec_identity_table());
    }
    let key: &[u8] = team.as_str().as_bytes();
    let ghost kb = spec_team_bytes(&team);
    assert(key@ == kb);
    let t_len = key.len() + 1;
    let mut s: u8 = 0;
    let mut i: usize = 0;
    proof {
        assert((val@, s) == spec_ksa_state(kb, 0));
    }
    while i < 256
        invariant
            i <= 256,
            key@ == kb,
            kb.len() <= 256,
            t_len == kb.len() + 1,
            val@ == spec_ksa_state(kb, i as nat).0,
            s == spec_ksa_state(kb, i as nat).1,
        decreases 256 - i,
    {
        let ghost val0 = val@;
        let ghost s0 = s;
        if i % t_len != 0 {
            s = s.wrapping_add(key[(i % t_len) - 1]);
        }
        s = s.wrapping_add(val[i]);
        let a = val[i];
        let b = val[s as usize];
        val[i] = b;
        val[s as usize] = a;
        proof {
            let stepped = spec_ksa_state(kb, (i + 1) as nat);
            assert(spec_ksa_state(kb, ((i + 1) - 1) as nat) == (val0, s0));
            assert(stepped.1 == s);
            assert(stepped.0 == val0.update(i as int, val0[s as int]).update(
                s as int,
                val0[i as int],
            ));
            assert(val@ == stepped.0);
        }
        i += 1;
    }
    val
}

} // verus!
