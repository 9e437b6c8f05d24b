use perm_data_gen::config::Encoding;
use perm_data_gen::scaling::{
    draw_relabelling, relabel_sequence, relabel_with, shift_code, shift_sequence,
};

#[test]
fn shift_moves_codes_into_the_window() {
    assert_eq!(shift_code(4, (2, 3), 8, Encoding::Elementary), 3);
    assert_eq!(shift_code(2, (5, 3), 8, Encoding::Elementary), 7);
    assert_eq!(shift_code(10, (2, 3), 8, Encoding::General), 28);
}

#[test]
fn shift_sequence_uses_the_given_windows() {
    let mut rng = rand::rng();
    let seq = vec![0, 1, 2, 3, 4];
    let out = shift_sequence(&seq, &vec![(4, 2)], 8, Encoding::Elementary, &mut rng);
    assert_eq!(out, vec![4, 5, 4, 5, 4]);
    let windows = vec![(0, 3), (5, 3)];
    let out = shift_sequence(&seq, &windows, 8, Encoding::Elementary, &mut rng);
    for (c, r) in seq.iter().zip(out.iter()) {
        assert!(*r == c % 3 || *r == 5 + c % 3);
    }
}

#[test]
fn relabelling_renames_both_indices() {
    let labels = vec![2, 0, 1];
    // 5 = 1 * 3 + 2 becomes 0 * 3 + 1.
    assert_eq!(relabel_with(&vec![5, 0, 8], &labels, 3), vec![1, 8, 4]);
}

#[test]
fn drawn_relabelling_is_a_permutation() {
    let mut rng = rand::rng();
    let labels = draw_relabelling(50, &mut rng);
    let mut sorted = labels.clone();
    sorted.sort();
    assert_eq!(sorted, (0..50).collect::<Vec<u64>>());
    assert_ne!(labels, (0..50).collect::<Vec<u64>>());
}

#[test]
fn relabelled_sequence_keeps_diagonal_codes() {
    let mut rng = rand::rng();
    let m = 6u64;
    // codes x * m + x swap an index with itself, and stay so after relabelling.
    let seq: Vec<u64> = (0..m).map(|x| x * m + x).collect();
    let out = relabel_sequence(&seq, m, &mut rng);
    let mut firsts: Vec<u64> = out.iter().map(|c| c / m).collect();
    for c in out.iter() {
        assert_eq!(c / m, c % m);
    }
    firsts.sort();
    assert_eq!(firsts, (0..m).collect::<Vec<u64>>());
}
