use perm_data_gen::encoding::{
    convert_binary, convert_order, convert_to_separate_indices, digits_needed,
};

#[test]
fn order_conversion_rewrites_codes_for_the_larger_group() {
    // 7 = 2 * 3 + 1 becomes 1 + 5 * 2.
    assert_eq!(convert_order(&vec![7, 0, 8, 2], 3, 5), vec![11, 0, 12, 2]);
    assert_eq!(convert_order(&vec![7, 4], 3, 3), vec![7, 4]);
}

#[test]
fn separate_indices_round_trip() {
    let g = 6u64;
    let codes: Vec<u64> = (0..g * g).collect();
    let pairs = convert_to_separate_indices(&codes, g);
    assert_eq!(pairs.len(), codes.len() * 2);
    for (i, code) in codes.iter().enumerate() {
        assert_eq!(pairs[2 * i] * g + pairs[2 * i + 1], *code);
    }
    assert_eq!(convert_to_separate_indices(&vec![7, 13], 5), vec![1, 2, 2, 3]);
}

#[test]
fn digits_needed_is_ceiling_log2() {
    assert_eq!(digits_needed(0), 0);
    assert_eq!(digits_needed(1), 0);
    assert_eq!(digits_needed(2), 1);
    assert_eq!(digits_needed(3), 2);
    assert_eq!(digits_needed(4), 2);
    assert_eq!(digits_needed(5), 3);
    assert_eq!(digits_needed(8), 3);
    assert_eq!(digits_needed(9), 4);
    assert_eq!(digits_needed(65536), 16);
}

#[test]
fn binary_digits_are_little_endian() {
    assert_eq!(convert_binary(&vec![5, 2], 5), vec![1, 0, 1, 0, 1, 0]);
    assert_eq!(convert_binary(&vec![3], 4), vec![1, 1]);
    assert_eq!(convert_binary(&vec![], 4), Vec::<u64>::new());
}

#[test]
fn binary_round_trip_for_every_index() {
    for g in 1..40u64 {
        let d = digits_needed(g) as usize;
        let indices: Vec<u64> = (0..g).collect();
        let bits = convert_binary(&indices, g);
        assert_eq!(bits.len(), indices.len() * d);
        for (i, x) in indices.iter().enumerate() {
            let mut back = 0u64;
            for j in 0..d {
                back += bits[i * d + j] << j;
            }
            assert_eq!(back, *x);
        }
    }
}
