use perm_data_gen::config::{Config, Encoding, Window};
use perm_data_gen::permutation::{compose, is_identity};
use perm_data_gen::pipeline::{
    draw_windows, encode_record, generate_example, generate_random_sequence, identity_example,
    sample_identities, window_sizes,
};

fn config(encoding: Encoding) -> Config {
    Config {
        group_size: 4,
        max_group_size: 0,
        max_length: 6,
        encoding,
        scaling: false,
        window: Window::Unconfined,
        relabeling: false,
        dataset_size: 200,
        identities_needed: 100,
        worker_count: 4,
    }
}

#[test]
fn generated_codes_stay_below_the_bound() {
    let mut rng = rand::rng();
    for (enc, bound) in [(Encoding::Elementary, 4), (Encoding::General, 16)] {
        let seq = generate_random_sequence(&config(enc), &mut rng);
        assert_eq!(seq.len(), 6);
        assert!(seq.iter().all(|c| *c < bound));
    }
}

#[test]
fn records_take_the_encoding_shape() {
    let codes = vec![7, 13];
    assert_eq!(encode_record(&config(Encoding::General), &codes), vec![7, 13]);
    assert_eq!(encode_record(&config(Encoding::Hybrid), &codes), vec![1, 3, 3, 1]);
    assert_eq!(
        encode_record(&config(Encoding::Binary), &codes),
        vec![1, 0, 1, 1, 1, 1, 1, 0]
    );
}

#[test]
fn general_examples_have_the_record_shape() {
    let mut rng = rand::rng();
    let ex = generate_example(&config(Encoding::Binary), &vec![], &mut rng);
    assert_eq!(ex.codes.len(), 6);
    assert_eq!(ex.record.len(), 2 * 6 * 2);
    assert!(ex.permutation.is_none());
    let ex = generate_example(&config(Encoding::Hybrid), &vec![], &mut rng);
    assert_eq!(ex.record.len(), 12);
}

#[test]
fn scaled_examples_carry_their_permutation() {
    let mut rng = rand::rng();
    let c = Config {
        scaling: true,
        max_group_size: 9,
        identities_needed: 0,
        relabeling: true,
        ..config(Encoding::General)
    };
    let ex = generate_example(&c, &vec![], &mut rng);
    assert!(ex.codes.iter().all(|x| *x < 81));
    assert_eq!(ex.permutation.clone().unwrap(), compose(&ex.codes, 9, Encoding::General).unwrap());
    let c = Config {
        scaling: true,
        max_group_size: 12,
        identities_needed: 0,
        window: Window::Partition,
        group_size: 8,
        ..config(Encoding::Elementary)
    };
    let ex = generate_example(&c, &vec![1, 0, 1, 0, 0, 0], &mut rng);
    assert!(ex.codes.iter().all(|x| *x < 12));
    assert_eq!(ex.permutation.unwrap().len(), 12);
}

#[test]
fn windows_fit_inside_the_effective_order() {
    let mut rng = rand::rng();
    let c = Config {
        scaling: true,
        max_group_size: 10,
        identities_needed: 0,
        window: Window::Fixed { count: 2 },
        ..config(Encoding::Elementary)
    };
    let sizes = window_sizes(&c, &vec![]);
    assert_eq!(sizes, vec![2, 2]);
    let windows = draw_windows(&c, &sizes, &mut rng);
    assert_eq!(windows.len(), 2);
    assert!(windows.iter().all(|(shift, size)| *size == 2 && shift + size <= 10));
}

#[test]
fn four_workers_collect_the_identity_quota() {
    let c = config(Encoding::Elementary);
    assert_eq!(c.validate(), Ok(()));
    let mut collected = Vec::new();
    for _ in 0..c.worker_count {
        let mut rng = rand::rng();
        let (found, attempts) = sample_identities(&c, c.identity_share(), 10_000_000, &mut rng);
        assert_eq!(found.len(), 25);
        assert!(attempts >= 25);
        collected.extend(found);
    }
    assert_eq!(collected.len(), 100);
    for ex in collected.iter() {
        let perm = ex.permutation.clone().unwrap();
        assert_eq!(perm, vec![0, 1, 2, 3]);
        assert!(is_identity(&compose(&ex.codes, 4, Encoding::Elementary).unwrap()));
        assert_eq!(ex.record, ex.codes);
    }
}

#[test]
fn sampling_stops_after_the_attempt_budget() {
    let mut rng = rand::rng();
    let (found, attempts) = sample_identities(&config(Encoding::General), 50, 3, &mut rng);
    assert!(found.len() <= 3);
    assert_eq!(attempts, 3);
    let (found, attempts) = sample_identities(&config(Encoding::General), 0, 100, &mut rng);
    assert!(found.is_empty());
    assert_eq!(attempts, 0);
}

#[test]
fn sampling_fills_the_quota_when_every_draw_is_the_identity() {
    let mut rng = rand::rng();
    let c = Config { max_length: 0, ..config(Encoding::General) };
    let (found, attempts) = sample_identities(&c, 7, 100, &mut rng);
    assert_eq!((found.len(), attempts), (7, 7));
    let c = Config { group_size: 1, ..config(Encoding::Elementary) };
    let (found, attempts) = sample_identities(&c, 9, 5, &mut rng);
    assert_eq!((found.len(), attempts), (5, 5));
    assert!(found.iter().all(|ex| ex.codes == vec![0; 6] && ex.permutation == Some(vec![0])));
}

#[test]
fn identity_example_keeps_only_identities() {
    let c = config(Encoding::Elementary);
    let ex = identity_example(&c, vec![1, 0, 1, 0, 3, 3]).unwrap();
    assert_eq!(ex.codes, vec![1, 0, 1, 0, 3, 3]);
    assert_eq!(ex.record, vec![1, 0, 1, 0, 3, 3]);
    assert_eq!(ex.permutation, Some(vec![0, 1, 2, 3]));
    assert!(identity_example(&c, vec![1, 2, 3, 0, 0, 0]).is_none());
    let c = config(Encoding::Hybrid);
    let ex = identity_example(&c, vec![7, 7, 0, 5, 10, 15]).unwrap();
    assert_eq!(ex.record, vec![1, 3, 1, 3, 0, 0, 1, 1, 2, 2, 3, 3]);
    assert!(identity_example(&c, vec![7, 0, 0, 0, 0, 0]).is_none());
}
