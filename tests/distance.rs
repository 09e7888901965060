use bitveil::distance::{
    check_pair, compute_distance, differing_positions, example_vectors, find_non_binary,
    running_sums, InputError, Operand,
};

fn zeros() -> Vec<u64> {
    vec![0; 32]
}

fn eight_ones() -> Vec<u64> {
    let mut b = vec![0; 32];
    for i in 0..8 {
        b[i] = 1;
    }
    b
}

#[test]
fn distance_of_zero_vectors_is_zero() {
    assert_eq!(compute_distance(&zeros(), &zeros()), Ok(0));
}

#[test]
fn distance_to_self_is_zero() {
    let a: Vec<u64> = (0..32).map(|i| (i % 3 == 0) as u64).collect();
    assert_eq!(compute_distance(&a, &a), Ok(0));
}

#[test]
fn distance_counts_eight_differences() {
    assert_eq!(compute_distance(&zeros(), &eight_ones()), Ok(8));
}

#[test]
fn distance_of_opposite_vectors_is_full_width() {
    assert_eq!(compute_distance(&zeros(), &vec![1; 32]), Ok(32));
}

#[test]
fn distance_of_alternating_patterns() {
    let a: Vec<u64> = (0..32).map(|i| ((i + 1) % 2) as u64).collect();
    let b: Vec<u64> = (0..32).map(|i| (i % 4 == 2) as u64).collect();
    assert_eq!(compute_distance(&a, &b), Ok(8));
}

#[test]
fn distance_is_symmetric() {
    let a: Vec<u64> = (0..32).map(|i| (i % 5 == 1) as u64).collect();
    let b: Vec<u64> = (0..32).map(|i| (i % 2) as u64).collect();
    assert_eq!(compute_distance(&a, &b), compute_distance(&b, &a));
    assert_eq!(compute_distance(&a, &b), Ok(15));
}

#[test]
fn distance_of_empty_vectors_is_zero() {
    assert_eq!(compute_distance(&vec![], &vec![]), Ok(0));
}

#[test]
fn distance_refuses_mismatched_lengths() {
    assert_eq!(
        compute_distance(&vec![0; 31], &zeros()),
        Err(InputError::LengthMismatch { left: 31, right: 32 })
    );
}

#[test]
fn distance_refuses_non_binary_elements() {
    let mut a = zeros();
    a[4] = 2;
    a[9] = 7;
    assert_eq!(
        compute_distance(&a, &zeros()),
        Err(InputError::NotBinary { operand: Operand::A, position: 4, value: 2 })
    );
    let mut b = zeros();
    b[31] = 5;
    assert_eq!(
        compute_distance(&zeros(), &b),
        Err(InputError::NotBinary { operand: Operand::B, position: 31, value: 5 })
    );
}

#[test]
fn check_pair_reports_first_operand_first() {
    let mut a = zeros();
    a[20] = 3;
    let mut b = zeros();
    b[1] = 3;
    assert_eq!(
        check_pair(&a, &b),
        Err(InputError::NotBinary { operand: Operand::A, position: 20, value: 3 })
    );
    assert_eq!(check_pair(&zeros(), &eight_ones()), Ok(()));
}

#[test]
fn find_non_binary_gives_first_position() {
    assert_eq!(find_non_binary(&vec![0, 1, 1, 9, 4]), Some(3));
    assert_eq!(find_non_binary(&vec![0, 1, 1]), None);
}

#[test]
fn running_sums_accumulate_differences() {
    let a = vec![1, 0, 1, 1, 0];
    let b = vec![0, 0, 1, 0, 1];
    assert_eq!(running_sums(&a, &b), vec![1, 1, 1, 2, 3]);
}

#[test]
fn example_vectors_have_requested_distance() {
    for d in 0..=32 {
        let (a, b) = example_vectors(32, d);
        assert_eq!(a.len(), 32);
        assert_eq!(b.len(), 32);
        assert_eq!(compute_distance(&a, &b), Ok(d as u64));
    }
    let (a, b) = example_vectors(32, 3);
    assert_eq!(a, vec![0; 32]);
    assert_eq!(&b[..4], &[1, 1, 1, 0]);
}

#[test]
fn differing_positions_lists_each_difference() {
    let a = vec![1, 0, 1, 1, 0, 0];
    let b = vec![0, 0, 1, 0, 1, 0];
    assert_eq!(differing_positions(&a, &b), vec![0, 3, 4]);
    assert_eq!(differing_positions(&a, &a), Vec::<usize>::new());
}
