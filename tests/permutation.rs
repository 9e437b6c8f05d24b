use perm_data_gen::config::Encoding;
use perm_data_gen::permutation::{compose, is_identity, EncodingError};

#[test]
fn elementary_swaps_that_cancel_give_identity() {
    let perm = compose(&vec![1, 0, 1, 0], 5, Encoding::Elementary).unwrap();
    assert_eq!(perm, vec![0, 1, 2, 3, 4]);
    assert!(is_identity(&perm));
}

#[test]
fn elementary_chain_of_swaps_is_not_identity() {
    let perm = compose(&vec![1, 2, 3], 5, Encoding::Elementary).unwrap();
    assert_eq!(perm, vec![1, 2, 3, 0, 4]);
    assert!(!is_identity(&perm));
}

#[test]
fn zero_codes_give_identity() {
    for enc in [Encoding::Elementary, Encoding::General, Encoding::Hybrid, Encoding::Binary] {
        let perm = compose(&vec![0; 7], 6, enc).unwrap();
        assert_eq!(perm, vec![0, 1, 2, 3, 4, 5]);
        assert!(is_identity(&perm));
    }
}

#[test]
fn sequence_then_its_reverse_gives_identity() {
    for a in 1..5u64 {
        for b in 1..5u64 {
            let perm = compose(&vec![a, b, b, a], 5, Encoding::Elementary).unwrap();
            assert!(is_identity(&perm));
        }
    }
    let codes = vec![7, 13, 2, 21];
    let mut both = codes.clone();
    both.extend(codes.iter().rev());
    let perm = compose(&both, 5, Encoding::General).unwrap();
    assert!(is_identity(&perm));
}

#[test]
fn general_code_swaps_quotient_and_remainder() {
    // 7 = 1 * 5 + 2 swaps positions 1 and 2.
    let perm = compose(&vec![7], 5, Encoding::General).unwrap();
    assert_eq!(perm, vec![0, 2, 1, 3, 4]);
    assert!(!is_identity(&perm));
    // 6 = 1 * 5 + 1 swaps a position with itself.
    assert!(is_identity(&compose(&vec![6], 5, Encoding::General).unwrap()));
}

#[test]
fn out_of_range_codes_are_reported() {
    assert_eq!(
        compose(&vec![1, 5, 9], 5, Encoding::Elementary),
        Err(EncodingError::OutOfRangeCode { position: 1, code: 5 })
    );
    assert_eq!(
        compose(&vec![3, 24, 25, 30], 5, Encoding::Binary),
        Err(EncodingError::OutOfRangeCode { position: 2, code: 25 })
    );
    assert_eq!(
        compose(&vec![0, 1], 0, Encoding::General),
        Err(EncodingError::OutOfRangeCode { position: 1, code: 1 })
    );
    assert_eq!(compose(&vec![0, 0], 0, Encoding::General), Ok(vec![]));
}

#[test]
fn identity_test_checks_every_position() {
    assert!(is_identity(&vec![]));
    assert!(is_identity(&vec![0, 1, 2]));
    assert!(!is_identity(&vec![0, 2, 1]));
    assert!(!is_identity(&vec![1, 1, 2]));
}
