use dilithium_counting::trial::eval_trial;
use dilithium_counting::ChallengeTuple;
use dilithium_counting::MaskTuple;
use dilithium_counting::Params;
use dilithium_counting::RoCase;
use dilithium_counting::SigTuple;
use dilithium_counting::Variant;

fn p27() -> Params {
    Params::new(2, 7).unwrap()
}

#[test]
fn vanilla_accepts_on_first_attempt() {
    let p = p27();
    let ys = MaskTuple { y1: 1, y2: 0, y1p: 5, y2p: 5 };
    let cs = ChallengeTuple { c1: 1, c2: 1, cp1: 2, cp2: 2 };
    let r = eval_trial(&p, Variant::Vanilla, &ys, &cs, None);
    assert_eq!(r, Some((SigTuple { z1: 2, z2: 1, c1: 1, c2: 1 }, RoCase::DistinctQueries)));
}

#[test]
fn vanilla_resamples_both_coordinates() {
    let p = p27();
    // z1 = 5 + 1 = 6 is out of bounds, so the whole pair is resampled.
    let ys = MaskTuple { y1: 5, y2: 0, y1p: 0, y2p: 0 };
    let cs = ChallengeTuple { c1: 1, c2: 0, cp1: 1, cp2: 1 };
    let r = eval_trial(&p, Variant::Vanilla, &ys, &cs, None);
    assert_eq!(r, Some((SigTuple { z1: 1, z2: 1, c1: 1, c2: 1 }, RoCase::DistinctQueries)));
}

#[test]
fn vanilla_aborts_after_two_failures() {
    let p = p27();
    let ys = MaskTuple { y1: 5, y2: 5, y1p: 5, y2p: 5 };
    let cs = ChallengeTuple { c1: 1, c2: 1, cp1: 1, cp2: 1 };
    assert_eq!(eval_trial(&p, Variant::Vanilla, &ys, &cs, None), None);
}

#[test]
fn ztrick_resamples_only_first_coordinate_mask() {
    let p = p27();
    // z1 = 5 + 1 = 6 fails; the retry takes y1p with cp1 but keeps y2 with cp2.
    let ys = MaskTuple { y1: 5, y2: 0, y1p: 0, y2p: 3 };
    let cs = ChallengeTuple { c1: 1, c2: 0, cp1: 2, cp2: 1 };
    let r = eval_trial(&p, Variant::ZTrick, &ys, &cs, None);
    // z1 = y1p + cp1 = 2, z2 = y2 + cp2 = 1; y2p plays no part.
    assert_eq!(r, Some((SigTuple { z1: 2, z2: 1, c1: 2, c2: 1 }, RoCase::DistinctQueries)));
}

#[test]
fn ztrick_second_coordinate_failure_keeps_first_challenges() {
    let p = p27();
    // z1 = 0 passes, z2 = 5 + 1 = 6 fails: both masks are resampled but the
    // recorded challenge pair stays the first attempt's.
    let ys = MaskTuple { y1: 0, y2: 5, y1p: 1, y2p: 0 };
    let cs = ChallengeTuple { c1: 0, c2: 1, cp1: 1, cp2: 2 };
    let r = eval_trial(&p, Variant::ZTrick, &ys, &cs, None);
    // z1 = y1p + cp1 = 2, z2 = y2p + cp2 = 2, recorded challenges (0, 1).
    assert_eq!(r, Some((SigTuple { z1: 2, z2: 2, c1: 0, c2: 1 }, RoCase::DistinctQueries)));
}

#[test]
fn ztrick_aborts_when_retry_fails() {
    let p = p27();
    let ys = MaskTuple { y1: 5, y2: 0, y1p: 5, y2p: 0 };
    let cs = ChallengeTuple { c1: 1, c2: 0, cp1: 1, cp2: 0 };
    assert_eq!(eval_trial(&p, Variant::ZTrick, &ys, &cs, None), None);
}

#[test]
fn colliding_masks_with_equal_challenges_is_repeated_query() {
    let p = p27();
    let ys = MaskTuple { y1: 0, y2: 0, y1p: 0, y2p: 0 };
    let cs = ChallengeTuple { c1: 1, c2: 1, cp1: 1, cp2: 1 };
    let r = eval_trial(&p, Variant::Vanilla, &ys, &cs, None);
    assert_eq!(r, Some((SigTuple { z1: 1, z2: 1, c1: 1, c2: 1 }, RoCase::RepeatedQuery)));
    let r2 = eval_trial(&p, Variant::ZTrick, &ys, &cs, None);
    assert_eq!(r2, Some((SigTuple { z1: 1, z2: 1, c1: 1, c2: 1 }, RoCase::RepeatedQuery)));
}

#[test]
fn colliding_masks_with_differing_challenges_is_excluded() {
    let p = p27();
    // The trial would be accepted, but no single function maps one input to
    // two different outputs: the combination contributes nothing.
    let ys = MaskTuple { y1: 0, y2: 0, y1p: 0, y2p: 0 };
    let cs = ChallengeTuple { c1: 1, c2: 1, cp1: 1, cp2: 0 };
    assert_eq!(eval_trial(&p, Variant::Vanilla, &ys, &cs, None), None);
    assert_eq!(eval_trial(&p, Variant::ZTrick, &ys, &cs, None), None);
}

#[test]
fn iteration_filter_selects_attempt_number() {
    let p = p27();
    let first = MaskTuple { y1: 1, y2: 0, y1p: 5, y2p: 5 };
    let cs1 = ChallengeTuple { c1: 1, c2: 1, cp1: 2, cp2: 2 };
    assert!(eval_trial(&p, Variant::Vanilla, &first, &cs1, Some(1)).is_some());
    assert_eq!(eval_trial(&p, Variant::Vanilla, &first, &cs1, Some(2)), None);

    let second = MaskTuple { y1: 5, y2: 0, y1p: 0, y2p: 0 };
    let cs2 = ChallengeTuple { c1: 1, c2: 0, cp1: 1, cp2: 1 };
    assert_eq!(eval_trial(&p, Variant::Vanilla, &second, &cs2, Some(1)), None);
    assert!(eval_trial(&p, Variant::Vanilla, &second, &cs2, Some(2)).is_some());
    assert_eq!(eval_trial(&p, Variant::Vanilla, &second, &cs2, Some(3)), None);
}
