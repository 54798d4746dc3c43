use lane_bench::BLOCK_SIZE;
use lane_bench::codec::{decode, encode};
use lane_bench::error::HarnessError;
use lane_bench::lanes::{decimal_record, lane_records, run_name, uniform_records};

#[test]
fn encode_three_lane_scenario() {
    // key "1234567" shared across lanes; degree 3 lane ids "1","2","3"
    let records: Vec<Vec<u8>> = vec![b"1".to_vec(), b"2".to_vec(), b"3".to_vec()];
    let (flat, lens) = encode(&records, BLOCK_SIZE).unwrap();
    assert_eq!(flat.len(), 768);
    assert_eq!(lens, vec![1, 1, 1]);
    assert_eq!(flat[0], b'1');
    for j in 1..256 {
        assert_eq!(flat[j], 0);
    }
    assert_eq!(flat[256], b'2');
    for j in 257..512 {
        assert_eq!(flat[j], 0);
    }
    assert_eq!(flat[512], b'3');
    for j in 513..768 {
        assert_eq!(flat[j], 0);
    }
}

#[test]
fn round_trip_recovers_records() {
    let records: Vec<Vec<u8>> = vec![
        b"alpha".to_vec(),
        Vec::new(),
        vec![0u8; 256],
        b"1234567".to_vec(),
    ];
    let (flat, lens) = encode(&records, 256).unwrap();
    let decoded = decode(&flat, &lens, 256).unwrap();
    assert_eq!(decoded, records);
}

#[test]
fn round_trip_small_blocks() {
    let records: Vec<Vec<u8>> = vec![b"ab".to_vec(), b"c".to_vec(), b"defg".to_vec()];
    let (flat, lens) = encode(&records, 4).unwrap();
    assert_eq!(flat.len(), 12);
    assert_eq!(lens, vec![2, 1, 4]);
    let decoded = decode(&flat, &lens, 4).unwrap();
    assert_eq!(decoded, records);
}

#[test]
fn padding_bytes_are_zero() {
    let records: Vec<Vec<u8>> = vec![b"xy".to_vec(), b"hello".to_vec()];
    let (flat, lens) = encode(&records, 16).unwrap();
    for (i, rec) in records.iter().enumerate() {
        assert_eq!(lens[i] as usize, rec.len());
        for j in 0..16 {
            let expected = if j < rec.len() { rec[j] } else { 0 };
            assert_eq!(flat[i * 16 + j], expected);
        }
    }
}

#[test]
fn oversized_record_is_rejected() {
    let records: Vec<Vec<u8>> = vec![b"ok".to_vec(), vec![7u8; 257]];
    let r = encode(&records, 256);
    assert_eq!(
        r,
        Err(HarnessError::RecordTooLong { index: 1, len: 257, block_size: 256 })
    );
}

#[test]
fn boundary_record_is_accepted() {
    let records: Vec<Vec<u8>> = vec![vec![9u8; 256]];
    let (flat, lens) = encode(&records, 256).unwrap();
    assert_eq!(flat, vec![9u8; 256]);
    assert_eq!(lens, vec![256]);
}

#[test]
fn empty_record_list_encodes_empty() {
    let records: Vec<Vec<u8>> = Vec::new();
    let (flat, lens) = encode(&records, 256).unwrap();
    assert!(flat.is_empty());
    assert!(lens.is_empty());
}

#[test]
fn decode_rejects_bad_shapes() {
    let flat = vec![0u8; 8];
    assert_eq!(decode(&flat, &vec![1, 1], 3), Err(HarnessError::LayoutMismatch));
    assert_eq!(decode(&flat, &vec![5, 1], 4), Err(HarnessError::LayoutMismatch));
    assert_eq!(decode(&flat, &vec![-1, 1], 4), Err(HarnessError::LayoutMismatch));
}

#[test]
fn decimal_records_spell_numbers() {
    assert_eq!(decimal_record(0), b"0".to_vec());
    assert_eq!(decimal_record(7), b"7".to_vec());
    assert_eq!(decimal_record(10), b"10".to_vec());
    assert_eq!(decimal_record(409), b"409".to_vec());
    assert_eq!(decimal_record(10_000), b"10000".to_vec());
}

#[test]
fn lane_records_count_from_one() {
    let recs = lane_records(12);
    assert_eq!(recs.len(), 12);
    assert_eq!(recs[0], b"1".to_vec());
    assert_eq!(recs[9], b"10".to_vec());
    assert_eq!(recs[11], b"12".to_vec());
}

#[test]
fn uniform_records_repeat_placeholder() {
    let recs = uniform_records(&b"lane".to_vec(), 5);
    assert_eq!(recs.len(), 5);
    for r in &recs {
        assert_eq!(r, &b"lane".to_vec());
    }
}

#[test]
fn run_name_prepares_lane_block() {
    let (flat, lens) = run_name(3);
    assert_eq!(flat.len(), 3 * BLOCK_SIZE);
    assert_eq!(lens, vec![1, 1, 1]);
    assert_eq!(flat[0], b'1');
    assert_eq!(flat[256], b'2');
    assert_eq!(flat[512], b'3');
    for j in 1..256 {
        assert_eq!(flat[j], 0);
        assert_eq!(flat[256 + j], 0);
        assert_eq!(flat[512 + j], 0);
    }
    // lane 10 has a two-byte identifier
    let (flat10, lens10) = run_name(10);
    assert_eq!(flat10.len(), 10 * BLOCK_SIZE);
    assert_eq!(lens10[9], 2);
    assert_eq!(&flat10[9 * 256..9 * 256 + 2], b"10");
}
