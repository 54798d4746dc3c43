use lane_bench::rc4::team_rc4;

/// Straightforward rendering of the key schedule, written independently of
/// the library's loop.
fn reference_schedule(key: &[u8]) -> [u8; 256] {
    let mut val = [0u8; 256];
    for i in 0..256 {
        val[i] = i as u8;
    }
    let mut s: u8 = 0;
    let t_len = key.len() + 1;
    for i in 0..256 {
        if i % t_len != 0 {
            s = s.wrapping_add(key[(i % t_len) - 1]);
        }
        s = s.wrapping_add(val[i]);
        val.swap(i, s as usize);
    }
    val
}

#[test]
fn schedule_matches_reference_for_team_key() {
    let out = team_rc4("1234567".to_string());
    assert_eq!(out, reference_schedule(b"1234567"));
}

#[test]
fn schedule_matches_reference_for_other_keys() {
    for key in ["", "a", "key", "0123456789abcdef"] {
        let out = team_rc4(key.to_string());
        assert_eq!(out, reference_schedule(key.as_bytes()), "key {key:?}");
    }
}

#[test]
fn schedule_is_a_permutation_of_all_bytes() {
    let out = team_rc4("1234567".to_string());
    let mut seen = [false; 256];
    for b in out.iter() {
        assert!(!seen[*b as usize]);
        seen[*b as usize] = true;
    }
    assert!(seen.iter().all(|s| *s));
}

#[test]
fn schedule_is_deterministic() {
    assert_eq!(team_rc4("42".to_string()), team_rc4("42".to_string()));
}

#[test]
fn schedule_depends_on_the_key() {
    assert_ne!(team_rc4("1234567".to_string()), team_rc4("7654321".to_string()));
}
