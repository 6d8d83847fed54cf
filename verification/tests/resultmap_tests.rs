use dilithium_counting::resultmap::merge_results;
use dilithium_counting::resultmap::ResultMap;
use dilithium_counting::SigTuple;
use num::BigUint;

fn key(z1: i32, z2: i32, c1: i32, c2: i32) -> SigTuple {
    SigTuple { z1, z2, c1, c2 }
}

#[test]
fn empty_mapping_is_trivially_uniform() {
    let m = ResultMap::new();
    assert_eq!(m.len(), 0);
    assert!(m.is_uniform());
}

#[test]
fn add_sums_counts_under_one_key() {
    let mut m = ResultMap::new();
    let k = key(0, 0, 1, -1);
    m.add(k, &BigUint::from(5u32));
    m.add(k, &BigUint::from(7u32));
    assert_eq!(m.len(), 1);
    assert_eq!(m.get(&k), Some(&BigUint::from(12u32)));
}

#[test]
fn absent_keys_read_as_none() {
    let mut m = ResultMap::new();
    m.add(key(0, 0, 0, 0), &BigUint::from(1u32));
    assert_eq!(m.get(&key(0, 0, 0, 1)), None);
    assert_eq!(m.get(&key(-1, 0, 0, 0)), None);
}

#[test]
fn keys_come_out_in_key_order() {
    let mut m = ResultMap::new();
    m.add(key(1, 0, 0, 0), &BigUint::from(1u32));
    m.add(key(-1, 2, 0, 0), &BigUint::from(1u32));
    m.add(key(1, -1, 0, 0), &BigUint::from(1u32));
    m.add(key(-1, 2, -2, 0), &BigUint::from(1u32));
    let ks = m.keys();
    assert_eq!(
        ks,
        vec![key(-1, 2, -2, 0), key(-1, 2, 0, 0), key(1, -1, 0, 0), key(1, 0, 0, 0)]
    );
}

#[test]
fn uniformity_detects_a_mismatch() {
    let mut m = ResultMap::new();
    m.add(key(0, 0, 0, 0), &BigUint::from(4u32));
    m.add(key(0, 1, 0, 0), &BigUint::from(4u32));
    assert!(m.is_uniform());
    m.add(key(0, 0, 2, 2), &BigUint::from(3u32));
    assert!(!m.is_uniform());
    // Topping the odd key up restores uniformity.
    m.add(key(0, 0, 2, 2), &BigUint::from(1u32));
    assert!(m.is_uniform());
}

#[test]
fn first_mismatch_reports_the_offending_triple() {
    let mut m = ResultMap::new();
    assert_eq!(m.first_mismatch(), None);
    m.add(key(0, 0, 0, 0), &BigUint::from(4u32));
    m.add(key(1, 0, 0, 0), &BigUint::from(4u32));
    assert_eq!(m.first_mismatch(), None);
    m.add(key(0, 1, 0, 0), &BigUint::from(3u32));
    // Baseline is the first key in key order; (0, 1, 0, 0) is the first key
    // whose count differs from it.
    assert_eq!(
        m.first_mismatch(),
        Some((key(0, 1, 0, 0), BigUint::from(3u32), BigUint::from(4u32)))
    );
}

#[test]
fn merge_sums_point_wise() {
    let mut a = ResultMap::new();
    a.add(key(0, 0, 0, 0), &BigUint::from(1u32));
    a.add(key(0, 0, 0, 1), &BigUint::from(2u32));
    let mut b = ResultMap::new();
    b.add(key(0, 0, 0, 1), &BigUint::from(3u32));
    b.add(key(0, 0, 1, 0), &BigUint::from(4u32));
    merge_results(&mut a, &b);
    assert_eq!(a.len(), 3);
    assert_eq!(a.get(&key(0, 0, 0, 0)), Some(&BigUint::from(1u32)));
    assert_eq!(a.get(&key(0, 0, 0, 1)), Some(&BigUint::from(5u32)));
    assert_eq!(a.get(&key(0, 0, 1, 0)), Some(&BigUint::from(4u32)));
}

#[test]
fn merge_is_commutative_on_values() {
    let mut a1 = ResultMap::new();
    a1.add(key(0, 0, 0, 0), &BigUint::from(1u32));
    a1.add(key(0, 0, 0, 2), &BigUint::from(9u32));
    let mut b1 = ResultMap::new();
    b1.add(key(0, 0, 0, 0), &BigUint::from(5u32));
    b1.add(key(0, 0, 2, 0), &BigUint::from(7u32));

    let mut left = ResultMap::new();
    merge_results(&mut left, &a1);
    merge_results(&mut left, &b1);
    let mut right = ResultMap::new();
    merge_results(&mut right, &b1);
    merge_results(&mut right, &a1);

    assert_eq!(left.keys(), right.keys());
    for k in left.keys() {
        assert_eq!(left.get(&k), right.get(&k));
    }
}

#[test]
fn merge_with_empty_changes_nothing() {
    let mut a = ResultMap::new();
    a.add(key(3, -3, 1, -1), &BigUint::from(11u32));
    let empty = ResultMap::new();
    merge_results(&mut a, &empty);
    assert_eq!(a.len(), 1);
    assert_eq!(a.get(&key(3, -3, 1, -1)), Some(&BigUint::from(11u32)));
}
