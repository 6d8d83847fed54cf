use dilithium_counting::accumulate::accumulate_all;
use dilithium_counting::resultmap::ResultMap;
use dilithium_counting::MaskTuple;
use dilithium_counting::Params;
use dilithium_counting::SigTuple;
use dilithium_counting::Variant;
use num::BigUint;
use std::collections::BTreeMap;

fn key(z1: i32, z2: i32, c1: i32, c2: i32) -> SigTuple {
    SigTuple { z1, z2, c1, c2 }
}

fn full_mask_space(p: &Params) -> Vec<MaskTuple> {
    let g = p.gamma1;
    let mut out = Vec::new();
    for y1 in (-g + 1)..=g {
        for y2 in (-g + 1)..=g {
            for y1p in (-g + 1)..=g {
                for y2p in (-g + 1)..=g {
                    out.push(MaskTuple { y1, y2, y1p, y2p });
                }
            }
        }
    }
    out
}

/// Every signature tuple with both responses strictly inside the acceptance
/// bound and both challenges in the challenge domain, in key order.
fn full_signature_grid(p: &Params) -> Vec<SigTuple> {
    let zb = p.gamma1 - p.beta;
    let b = p.beta;
    let mut out = Vec::new();
    for z1 in (-zb + 1)..zb {
        for z2 in (-zb + 1)..zb {
            for c1 in -b..=b {
                for c2 in -b..=b {
                    out.push(key(z1, z2, c1, c2));
                }
            }
        }
    }
    out
}

fn total(m: &ResultMap) -> BigUint {
    let mut sum = BigUint::from(0u32);
    for k in m.keys() {
        sum += m.get(&k).unwrap();
    }
    sum
}

fn projection_sizes(keys: &[SigTuple]) -> BTreeMap<(i32, i32), usize> {
    let mut proj = BTreeMap::new();
    for k in keys {
        *proj.entry((k.z1, k.c1)).or_insert(0) += 1;
    }
    proj
}

#[test]
fn end_to_end_smallest_parameters() {
    // beta = 2, gamma1 = 4: the two variants achieve exactly the same
    // signatures, the same number of them for every (z1, c1) pair, and the
    // same grand total, though the per-key counts differ between variants.
    let p = Params::new(2, 4).unwrap();
    let space = full_mask_space(&p);
    let vanilla = accumulate_all(&p, Variant::Vanilla, &space, None);
    let ztrick = accumulate_all(&p, Variant::ZTrick, &space, None);

    let grid = full_signature_grid(&p);
    assert_eq!(grid.len(), 225);
    assert_eq!(vanilla.keys(), grid);
    assert_eq!(ztrick.keys(), grid);

    let vanilla_proj = projection_sizes(&vanilla.keys());
    let ztrick_proj = projection_sizes(&ztrick.keys());
    assert_eq!(vanilla_proj.len(), 15);
    assert!(vanilla_proj.values().all(|&n| n == 15));
    assert_eq!(vanilla_proj, ztrick_proj);

    assert_eq!(total(&vanilla), BigUint::from(162382568359375u64));
    assert_eq!(total(&ztrick), BigUint::from(162382568359375u64));

    // Boundary proximity of the resample masks makes the complete
    // distributions non-uniform, in both variants.
    assert!(!vanilla.is_uniform());
    assert_eq!(vanilla.get(&key(0, 0, 0, 0)), Some(&BigUint::from(722412109375u64)));
    assert_eq!(vanilla.get(&key(-1, -1, 2, 2)), Some(&BigUint::from(720458984375u64)));

    assert!(!ztrick.is_uniform());
    assert_eq!(ztrick.get(&key(0, 0, 0, 0)), Some(&BigUint::from(722412109375u64)));
    assert_eq!(ztrick.get(&key(-1, -1, 2, -2)), Some(&BigUint::from(718505859375u64)));
    assert_eq!(ztrick.get(&key(1, 1, 2, 0)), Some(&BigUint::from(723388671875u64)));
}

#[test]
fn first_attempt_restriction_is_uniform() {
    // Restricted to trials accepted on the first attempt, both variants
    // count every achievable signature exactly alike.
    let p = Params::new(2, 4).unwrap();
    let space = full_mask_space(&p);
    for v in [Variant::Vanilla, Variant::ZTrick] {
        let m = accumulate_all(&p, v, &space, Some(1));
        assert_eq!(m.len(), 225);
        assert!(m.is_uniform());
        assert_eq!(m.get(&key(0, 0, 0, 0)), Some(&BigUint::from(390625000000u64)));
    }
}

#[test]
fn vanilla_safe_regime_distribution() {
    // beta = 2, gamma1 = 7: the vanilla variant achieves every signature of
    // the full grid; its counts vary slightly with the resample masks'
    // distance to the acceptance boundary.
    let p = Params::new(2, 7).unwrap();
    let space = full_mask_space(&p);
    let vanilla = accumulate_all(&p, Variant::Vanilla, &space, None);
    let grid = full_signature_grid(&p);
    assert_eq!(grid.len(), 2025);
    assert_eq!(vanilla.keys(), grid);
    assert_eq!(
        vanilla.get(&key(0, 0, 0, 0)),
        Some(&BigUint::from(463426113128662109375u128))
    );
    assert_eq!(
        vanilla.get(&key(-4, -4, 2, 2)),
        Some(&BigUint::from(461995601654052734375u128))
    );
    assert!(!vanilla.is_uniform());
}

#[test]
fn ztrick_safe_regime_distribution() {
    // beta = 2, gamma1 = 7: the reuse variant achieves exactly the same
    // signature set as the plain one.
    let p = Params::new(2, 7).unwrap();
    let space = full_mask_space(&p);
    let ztrick = accumulate_all(&p, Variant::ZTrick, &space, None);
    let grid = full_signature_grid(&p);
    assert_eq!(grid.len(), 2025);
    assert_eq!(ztrick.keys(), grid);
    assert_eq!(
        ztrick.get(&key(0, 0, 0, 0)),
        Some(&BigUint::from(463426113128662109375u128))
    );
    assert_eq!(
        ztrick.get(&key(-4, -4, 2, -2)),
        Some(&BigUint::from(461041927337646484375u128))
    );
    assert!(!ztrick.is_uniform());
}
