use automotive_wire_codec::{
    decode_i64_values, insertion_sort, is_non_decreasing, same_multiset, MAX_DECODED,
};

#[test]
fn decode_i64_values_reads_little_endian_chunks() {
    let mut data = Vec::new();
    data.extend_from_slice(&1i64.to_le_bytes());
    data.extend_from_slice(&(-2i64).to_le_bytes());
    data.extend_from_slice(&i64::MIN.to_le_bytes());
    data.extend_from_slice(&[0xAA, 0xBB, 0xCC]); // partial chunk: ignored
    assert_eq!(decode_i64_values(&data), vec![1, -2, i64::MIN]);
}

#[test]
fn decode_i64_values_caps_the_count() {
    let data = vec![0x01u8; 8 * (MAX_DECODED + 5)];
    let values = decode_i64_values(&data);
    assert_eq!(values.len(), MAX_DECODED);
    assert!(values.iter().all(|&v| v == 0x0101_0101_0101_0101));
    assert!(decode_i64_values(&[1, 2, 3]).is_empty());
}

#[test]
fn is_non_decreasing_checks_order() {
    assert!(is_non_decreasing(&[]));
    assert!(is_non_decreasing(&[5]));
    assert!(is_non_decreasing(&[-3, -3, 0, 7]));
    assert!(!is_non_decreasing(&[1, 3, 2]));
    assert!(!is_non_decreasing(&[2, 1]));
}

#[test]
fn same_multiset_compares_counts() {
    assert!(same_multiset(&[1, 2, 2, 3], &[2, 3, 1, 2]));
    assert!(same_multiset(&[], &[]));
    assert!(!same_multiset(&[1, 2, 2], &[1, 1, 2]));
    assert!(!same_multiset(&[1, 2], &[1, 2, 3]));
    assert!(!same_multiset(&[1, 2, 3], &[1, 2]));
}

#[test]
fn sorted_output_passes_both_checks_and_an_extra_element_fails() {
    let data: Vec<u8> = (0u8..=255).cycle().take(8 * 40).collect();
    let values = decode_i64_values(&data);
    let mut sorted = values.clone();
    insertion_sort(&mut sorted);
    let mut expected = values.clone();
    expected.sort();
    assert_eq!(sorted, expected);
    assert!(is_non_decreasing(&sorted));
    assert!(same_multiset(&values, &sorted));
    let mut changed = sorted.clone();
    changed.push(sorted[0].wrapping_add(1));
    assert!(!same_multiset(&values, &changed));
}
