//! End-to-end tests: build the constraint system for concrete matrices
//! and query its satisfiability.

use freivalds::builder;

#[test]
fn test_builder_valid_matrices() {
    let k = 1;
    let a: Vec<Vec<u32>> = vec![vec![1, 2], vec![3, 4]];
    let b: Vec<Vec<u32>> = vec![vec![5, 6], vec![7, 8]];

    let c: Vec<Vec<u32>> = vec![vec![19, 22], vec![43, 50]];

    let cs = builder(k, &a, &b, &c).unwrap();
    assert!(cs.is_satisfied().unwrap());
}

#[test]
fn test_builder_invalid_matrices() {
    let k = 1;
    let a: Vec<Vec<u32>> = vec![vec![1, 2], vec![3, 4]];
    let b: Vec<Vec<u32>> = vec![vec![5, 6], vec![7, 8]];

    // Invalid matrix
    let c: Vec<Vec<u32>> = vec![vec![20, 22], vec![43, 50]];

    let cs = builder(k, &a, &b, &c).unwrap();
    assert!(!cs.is_satisfied().unwrap());
}

#[test]
fn test_builder_different_k() {
    let k = 3;
    let a: Vec<Vec<u32>> = vec![vec![1, 2], vec![3, 4]];
    let b: Vec<Vec<u32>> = vec![vec![5, 6], vec![7, 8]];

    let c: Vec<Vec<u32>> = vec![vec![19, 22], vec![43, 50]];

    let cs = builder(k, &a, &b, &c).unwrap();
    assert!(cs.is_satisfied().unwrap());
}

#[test]
fn test_builder_zero_matrices() {
    let k = 1;
    let a: Vec<Vec<u32>> = vec![vec![1, 2], vec![3, 4]];
    let b: Vec<Vec<u32>> = vec![vec![0, 0], vec![0, 0]];

    let c: Vec<Vec<u32>> = vec![vec![0, 0], vec![0, 0]];

    let cs = builder(k, &a, &b, &c).unwrap();
    assert!(cs.is_satisfied().unwrap());
}

#[test]
fn test_builder_identity_matrices() {
    let k = 1;
    let a: Vec<Vec<u32>> = vec![vec![1, 2], vec![3, 4]];
    let b: Vec<Vec<u32>> = vec![vec![1, 0], vec![0, 1]];

    let c: Vec<Vec<u32>> = vec![vec![1, 2], vec![3, 4]];

    let cs = builder(k, &a, &b, &c).unwrap();
    assert!(cs.is_satisfied().unwrap());
}

#[test]
fn test_builder_single_element_matrices() {
    let k = 1;
    let a: Vec<Vec<u32>> = vec![vec![1]];
    let b: Vec<Vec<u32>> = vec![vec![2]];

    let c: Vec<Vec<u32>> = vec![vec![2]];

    let cs = builder(k, &a, &b, &c).unwrap();
    assert!(cs.is_satisfied().unwrap());
}

#[test]
fn test_single_element_mismatch() {
    let k = 1;
    let a: Vec<Vec<u32>> = vec![vec![2]];
    let b: Vec<Vec<u32>> = vec![vec![3]];

    let c: Vec<Vec<u32>> = vec![vec![7]];

    let cs = builder(k, &a, &b, &c).unwrap();
    assert!(!cs.is_satisfied().unwrap());
}

#[test]
fn test_three_by_three_product() {
    let k = 2;
    let a: Vec<Vec<u32>> = vec![vec![1, 0, 2], vec![3, 1, 0], vec![0, 4, 1]];
    let b: Vec<Vec<u32>> = vec![vec![2, 1, 0], vec![0, 3, 5], vec![1, 0, 4]];

    // the exact product a * b
    let c: Vec<Vec<u32>> = vec![vec![4, 1, 8], vec![6, 6, 5], vec![1, 12, 24]];

    let cs = builder(k, &a, &b, &c).unwrap();
    assert!(cs.is_satisfied().unwrap());
}

#[test]
fn test_three_by_three_mismatch() {
    let k = 2;
    let a: Vec<Vec<u32>> = vec![vec![1, 0, 2], vec![3, 1, 0], vec![0, 4, 1]];
    let b: Vec<Vec<u32>> = vec![vec![2, 1, 0], vec![0, 3, 5], vec![1, 0, 4]];

    // one entry off the exact product
    let c: Vec<Vec<u32>> = vec![vec![4, 1, 8], vec![6, 7, 5], vec![1, 12, 24]];

    let cs = builder(k, &a, &b, &c).unwrap();
    assert!(!cs.is_satisfied().unwrap());
}

#[test]
fn test_round_count_keeps_outcome() {
    let a: Vec<Vec<u32>> = vec![vec![1, 2], vec![3, 4]];
    let b: Vec<Vec<u32>> = vec![vec![5, 6], vec![7, 8]];
    let good: Vec<Vec<u32>> = vec![vec![19, 22], vec![43, 50]];
    let bad: Vec<Vec<u32>> = vec![vec![19, 22], vec![43, 51]];

    for k in [1, 2, 5] {
        let cs = builder(k, &a, &b, &good).unwrap();
        assert!(cs.is_satisfied().unwrap());

        let cs = builder(k, &a, &b, &bad).unwrap();
        assert!(!cs.is_satisfied().unwrap());
    }
}

#[test]
fn test_large_entries() {
    // entries near u32::MAX embed exactly into the field
    let k = 1;
    let m = 4294967295u32;
    let a: Vec<Vec<u32>> = vec![vec![m]];
    let b: Vec<Vec<u32>> = vec![vec![1]];

    let c: Vec<Vec<u32>> = vec![vec![m]];

    let cs = builder(k, &a, &b, &c).unwrap();
    assert!(cs.is_satisfied().unwrap());
}
