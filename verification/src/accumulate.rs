//! The distribution accumulator: for one procedure variant and one
//! masking-value tuple it enumerates the full cross product of first- and
//! second-round challenge pairs, evaluates every trial, and adds each
//! accepted trial's combinatorial weight to a result mapping keyed by the
//! accepted signature. Per-tuple mappings are combined over the masking
//! space by point-wise sum.

use vstd::prelude::*;

use crate::bignum::big_nat;
use crate::params::Params;
use crate::resultmap::count_of;
use crate::resultmap::merged;
use crate::resultmap::merge_results;
use crate::resultmap::ResultMap;
use crate::trial::eval_trial;
use crate::trial::trial_outcome;
use crate::trial::ChallengeTuple;
use crate::trial::MaskTuple;
use crate::trial::RoCase;
use crate::trial::SigTuple;
use crate::trial::Variant;
use crate::weight::params_weights;
use crate::weight::trial_weight;

verus! {

/// The `j`-th value of the challenge domain `[-beta, beta]`.
pub open spec fn c_value(p: Params, j: int) -> int {
    -p.beta + j
}

/// One trial folded into a mapping: an accepted trial adds its weight to the
/// count under its signature, an aborted or excluded one changes nothing.
pub open spec fn apply_trial(
    m: Map<SigTuple, nat>,
    p: Params,
    v: Variant,
    ys: MaskTuple,
    cs: ChallengeTuple,
    only_iterations: Option<i32>,
) -> Map<SigTuple, nat> {
    match trial_outcome(p, v, ys, cs, only_iterations) {
        None => m,
        Some((sig, case)) => m.insert(sig, count_of(m, sig) + trial_weight(p, case)),
    }
}

/// Folds the first `n` values of the last challenge coordinate, the three
/// outer coordinates being fixed.
pub open spec fn fold_cp2(
    m: Map<SigTuple, nat>,
    p: Params,
    v: Variant,
    ys: MaskTuple,
    only_iterations: Option<i32>,
    c1: int,
    c2: int,
    cp1: int,
    n: nat,
) -> Map<SigTuple, nat>
    decreases n,
{
    if n == 0 {
        m
    } else {
        let cs = ChallengeTuple {
            c1: c1 as i32,
            c2: c2 as i32,
            cp1: cp1 as i32,
            cp2: c_value(p, n - 1) as i32,
        };
        apply_trial(
            fold_cp2(m, p, v, ys, only_iterations, c1, c2, cp1, (n - 1) as nat),
            p,
            v,
            ys,
            cs,
            only_iterations,
        )
    }
}

/// Folds the first `n` values of the third challenge coordinate, each with
/// the full last coordinate.
pub open spec fn fold_cp1(
    m: Map<SigTuple, nat>,
    p: Params,
    v: Variant,
    ys: MaskTuple,
    only_iterations: Option<i32>,
    c1: int,
    c2: int,
    n: nat,
) -> Map<SigTuple, nat>
    decreases n,
{
    if n == 0 {
        m
    } else {
        fold_cp2(
            fold_cp1(m, p, v, ys, only_iterations, c1, c2, (n - 1) as nat),
            p,
            v,
            ys,
            only_iterations,
            c1,
            c2,
            c_value(p, n - 1),
            p.ord_b_spec() as nat,
        )
    }
}

/// Folds the first `n` values of the second challenge coordinate, each with
/// the full two inner coordinates.
pub open spec fn fold_c2(
    m: Map<SigTuple, nat>,
    p: Params,
    v: Variant,
    ys: MaskTuple,
    only_iterations: Option<i32>,
    c1: int,
    n: nat,
) -> Map<SigTuple, nat>
    decreases n,
{
    if n == 0 {
        m
    } else {
        fold_cp1(
            fold_c2(m, p, v, ys, only_iterations, c1, (n - 1) as nat),
            p,
            v,
            ys,
            only_iterations,
            c1,
            c_value(p, n - 1),
            p.ord_b_spec() as nat,
        )
    }
}

/// Folds the first `n` values of the first challenge coordinate, each with
/// the full three inner coordinates.
pub open spec fn fold_c1(
    m: Map<SigTuple, nat>,
    p: Params,
    v: Variant,
    ys: MaskTuple,
    only_iterations: Option<i32>,
    n: nat,
) -> Map<SigTuple, nat>
    decreases n,
{
    if n == 0 {
        m
    } else {
        fold_c2(
            fold_c1(m, p, v, ys, only_iterations, (n - 1) as nat),
            p,
            v,
            ys,
            only_iterations,
            c_value(p, n - 1),
            p.ord_b_spec() as nat,
        )
    }
}

/// The weighted distribution one masking-value tuple contributes: every
/// challenge cross product folded, in enumeration order, into the empty
/// mapping.
pub open spec fn challenge_fold(
    p: Params,
    v: Variant,
    ys: MaskTuple,
    only_iterations: Option<i32>,
) -> Map<SigTuple, nat> {
    fold_c1(Map::empty(), p, v, ys, only_iterations, p.ord_b_spec() as nat)
}

/// Enumerates every combination of first- and second-round challenge pairs
/// for one masking-value tuple, evaluates each trial under the variant `v`,
/// and returns the mapping of accepted signatures to summed weights,
/// optionally restricted to trials accepted in attempt `only_iterations`.
/// The result is a function of the arguments alone: re-running the
/// accumulation always yields the same mapping.
pub fn accumulate(p: &Params, v: Variant, ys: &MaskTuple, only_iterations: Option<i32>) -> (r:
    ResultMap)
    requires
        p.wf(),
        ys.in_range(*p),
    ensures
        r.wf(),
        r@ == challenge_fold(*p, v, *ys, only_iterations),
{
    let (w_distinct, w_repeated) = params_weights(p);
    let ord_b = p.ord_b();
    let beta = p.beta;
    let mut acc = ResultMap::new();

    let mut j1: i32 = 0;
    while j1 < ord_b
        invariant
            p.wf(),
            ys.in_range(*p),
            ord_b == p.ord_b_spec(),
            beta == p.beta,
            0 <= j1 <= ord_b,
            big_nat(w_distinct) == trial_weight(*p, RoCase::DistinctQueries),
            big_nat(w_repeated) == trial_weight(*p, RoCase::RepeatedQuery),
            acc.wf(),
            acc@ == fold_c1(Map::empty(), *p, v, *ys, only_iterations, j1 as nat),
        decreases ord_b - j1,
    {
        let c1 = -beta + j1;
        let ghost m1 = acc@;
        let mut j2: i32 = 0;
        while j2 < ord_b
            invariant
                p.wf(),
                ys.in_range(*p),
                ord_b == p.ord_b_spec(),
                beta == p.beta,
                0 <= j1 < ord_b,
                0 <= j2 <= ord_b,
                c1 == c_value(*p, j1 as int),
                big_nat(w_distinct) == trial_weight(*p, RoCase::DistinctQueries),
                big_nat(w_repeated) == trial_weight(*p, RoCase::RepeatedQuery),
                acc.wf(),
                acc@ == fold_c2(m1, *p, v, *ys, only_iterations, c1 as int, j2 as nat),
            decreases ord_b - j2,
        {
            let c2 = -beta + j2;
            let ghost m2 = acc@;
            let mut j3: i32 = 0;
            while j3 < ord_b
                invariant
                    p.wf(),
                    ys.in_range(*p),
                    ord_b == p.ord_b_spec(),
                    beta == p.beta,
                    0 <= j1 < ord_b,
                    0 <= j2 < ord_b,
                    0 <= j3 <= ord_b,
                    c1 == c_value(*p, j1 as int),
                    c2 == c_value(*p, j2 as int),
                    big_nat(w_distinct) == trial_weight(*p, RoCase::DistinctQueries),
                    big_nat(w_repeated) == trial_weight(*p, RoCase::RepeatedQuery),
                    acc.wf(),
                    acc@ == fold_cp1(m2, *p, v, *ys, only_iterations, c1 as int, c2 as int, j3 as nat),
                decreases ord_b - j3,
            {
                let cp1 = -beta + j3;
                let ghost m3 = acc@;
                let mut j4: i32 = 0;
                while j4 < ord_b
                    invariant
                        p.wf(),
                        ys.in_range(*p),
                        ord_b == p.ord_b_spec(),
                        beta == p.beta,
                        0 <= j1 < ord_b,
                        0 <= j2 < ord_b,
                        0 <= j3 < ord_b,
                        0 <= j4 <= ord_b,
                        c1 == c_value(*p, j1 as int),
                        c2 == c_value(*p, j2 as int),
                        cp1 == c_value(*p, j3 as int),
                        big_nat(w_distinct) == trial_weight(*p, RoCase::DistinctQueries),
                        big_nat(w_repeated) == trial_weight(*p, RoCase::RepeatedQuery),
                        acc.wf(),
                        acc@ == fold_cp2(
                            m3,
                            *p,
                            v,
                            *ys,
                            only_iterations,
                            c1 as int,
                            c2 as int,
                            cp1 as int,
                            j4 as nat,
                        ),
                    decreases ord_b - j4,
                {
                    let cp2 = -beta + j4;
                    let cs = ChallengeTuple { c1, c2, cp1, cp2 };
                    let ghost m_prev = acc@;
                    match eval_trial(p, v, ys, &cs, only_iterations) {
                        None => {
                            assert(apply_trial(m_prev, *p, v, *ys, cs, only_iterations) == m_prev);
                        },
                        Some((sig, case)) => {
                            match case {
                                RoCase::DistinctQueries => acc.add(sig, &w_distinct),
                                RoCase::RepeatedQuery => acc.add(sig, &w_repeated),
                            }
                            assert(acc@ == apply_trial(m_prev, *p, v, *ys, cs, only_iterations));
                        },
                    }
                    j4 = j4 + 1;
                    assert(acc@ == fold_cp2(
                        m3,
                        *p,
                        v,
                        *ys,
                        only_iterations,
                        c1 as int,
                        c2 as int,
                        cp1 as int,
                        j4 as nat,
                    ));
                }
                j3 = j3 + 1;
            }
            j2 = j2 + 1;
        }
        j1 = j1 + 1;
    }
    acc
}

/// The distribution over a sequence of masking-value tuples: the point-wise
/// sum of the per-tuple distributions, in order.
pub open spec fn dist_over(
    p: Params,
    v: Variant,
    only_iterations: Option<i32>,
    ys_list: Seq<MaskTuple>,
) -> Map<SigTuple, nat>
    decreases ys_list.len(),
{
    if ys_list.len() == 0 {
        Map::empty()
    } else {
        merged(
            dist_over(p, v, only_iterations, ys_list.drop_last()),
            challenge_fold(p, v, ys_list.last(), only_iterations),
        )
    }
}

/// Accumulates every masking-value tuple of `ys_list` under the variant `v`
/// and merges the per-tuple mappings into one. The result is a function of
/// the arguments alone.
pub fn accumulate_all(
    p: &Params,
    v: Variant,
    ys_list: &Vec<MaskTuple>,
    only_iterations: Option<i32>,
) -> (r: ResultMap)
    requires
        p.wf(),
        forall|i: int| 0 <= i < ys_list@.len() ==> (#[trigger] ys_list@[i]).in_range(*p),
    ensures
        r.wf(),
        r@ == dist_over(*p, v, only_iterations, ys_list@),
{
    let mut r = ResultMap::new();
    let n = ys_list.len();
    let mut i: usize = 0;
    proof {
        assert(ys_list@.take(0) =~= Seq::empty());
    }
    while i < n
        invariant
            p.wf(),
            forall|j: int| 0 <= j < ys_list@.len() ==> (#[trigger] ys_list@[j]).in_range(*p),
            n == ys_list@.len(),
            i <= n,
            r.wf(),
            r@ == dist_over(*p, v, only_iterations, ys_list@.take(i as int)),
        decreases n - i,
    {
        let part = accumulate(p, v, &ys_list[i], only_iterations);
        merge_results(&mut r, &part);
        proof {
            assert(ys_list@.take(i + 1).drop_last() =~= ys_list@.take(i as int));
            assert(ys_list@.take(i + 1).last() == ys_list@[i as int]);
        }
        i = i + 1;
    }
    proof {
        assert(ys_list@.take(n as int) =~= ys_list@);
    }
    r
}

/// Accumulating two stretches of the masking-value space separately and
/// merging the partial mappings yields the same mapping as accumulating the
/// concatenation in one pass.
pub proof fn lemma_dist_over_split(
    p: Params,
    v: Variant,
    only_iterations: Option<i32>,
    ys1: Seq<MaskTuple>,
    ys2: Seq<MaskTuple>,
)
    ensures
        dist_over(p, v, only_iterations, ys1 + ys2) == merged(
            dist_over(p, v, only_iterations, ys1),
            dist_over(p, v, only_iterations, ys2),
        ),
    decreases ys2.len(),
{
    if ys2.len() == 0 {
        assert(ys1 + ys2 =~= ys1);
        crate::resultmap::lemma_merged_empty(dist_over(p, v, only_iterations, ys1));
    } else {
        lemma_dist_over_split(p, v, only_iterations, ys1, ys2.drop_last());
        assert((ys1 + ys2).drop_last() =~= ys1 + ys2.drop_last());
        assert((ys1 + ys2).last() == ys2.last());
        crate::resultmap::lemma_merged_associative(
            dist_over(p, v, only_iterations, ys1),
            dist_over(p, v, only_iterations, ys2.drop_last()),
            challenge_fold(p, v, ys2.last(), only_iterations),
        );
    }
}

/// Taking one tuple out of a sequence and merging its contribution back
/// yields the sequence's own distribution.
proof fn lemma_dist_over_remove(
    p: Params,
    v: Variant,
    only_iterations: Option<i32>,
    s: Seq<MaskTuple>,
    i: int,
)
    requires
        0 <= i < s.len(),
    ensures
        dist_over(p, v, only_iterations, s) == merged(
            dist_over(p, v, only_iterations, s.remove(i)),
            challenge_fold(p, v, s[i], only_iterations),
        ),
{
    let s1 = s.subrange(0, i);
    let s2 = s.subrange(i + 1, s.len() as int);
    let single = seq![s[i]];
    let cf = challenge_fold(p, v, s[i], only_iterations);
    assert(s =~= s1 + (single + s2));
    lemma_dist_over_split(p, v, only_iterations, s1, single + s2);
    lemma_dist_over_split(p, v, only_iterations, single, s2);
    assert(dist_over(p, v, only_iterations, single) == cf) by {
        assert(single.len() == 1);
        assert(single.last() == s[i]);
        assert(single.drop_last() =~= Seq::<MaskTuple>::empty());
        assert(dist_over(p, v, only_iterations, single.drop_last()) == Map::<
            SigTuple,
            nat,
        >::empty());
        assert(dist_over(p, v, only_iterations, single) == merged(
            Map::<SigTuple, nat>::empty(),
            cf,
        ));
        crate::resultmap::lemma_merged_empty(cf);
    }
    crate::resultmap::lemma_merged_commutative(cf, dist_over(p, v, only_iterations, s2));
    crate::resultmap::lemma_merged_associative(
        dist_over(p, v, only_iterations, s1),
        dist_over(p, v, only_iterations, s2),
        cf,
    );
    assert(s.remove(i) =~= s1 + s2);
    lemma_dist_over_split(p, v, only_iterations, s1, s2);
}

/// The distribution over a sequence of masking-value tuples depends only on
/// which tuples it holds, with multiplicity, not on their order.
pub proof fn lemma_dist_over_permutation(
    p: Params,
    v: Variant,
    only_iterations: Option<i32>,
    s: Seq<MaskTuple>,
    t: Seq<MaskTuple>,
)
    requires
        s.to_multiset() == t.to_multiset(),
    ensures
        dist_over(p, v, only_iterations, s) == dist_over(p, v, only_iterations, t),
    decreases t.len(),
{
    broadcast use vstd::seq_lib::group_to_multiset_ensures;

    if t.len() == 0 {
        assert(s.len() == s.to_multiset().len());
    } else {
        let x = t.last();
        assert(t.contains(x));
        assert(s.to_multiset().count(x) > 0);
        assert(s.contains(x));
        let i = choose|i: int| 0 <= i < s.len() && s[i] == x;
        lemma_dist_over_remove(p, v, only_iterations, s, i);
        assert(t.drop_last() =~= t.remove(t.len() - 1));
        assert(s.remove(i).to_multiset() == t.drop_last().to_multiset()) by {
            assert(s.remove(i).to_multiset() == s.to_multiset().remove(x));
            assert(t.remove(t.len() - 1).to_multiset() == t.to_multiset().remove(x));
        }
        lemma_dist_over_permutation(p, v, only_iterations, s.remove(i), t.drop_last());
    }
}

/// Partitioning the masking-value space into any two disjoint portions,
/// accumulating each separately, and merging the two partial mappings yields
/// the same mapping as accumulating the whole space directly: `whole` may
/// list the tuples of `part1` and `part2` in any order.
pub proof fn lemma_dist_over_partition(
    p: Params,
    v: Variant,
    only_iterations: Option<i32>,
    whole: Seq<MaskTuple>,
    part1: Seq<MaskTuple>,
    part2: Seq<MaskTuple>,
)
    requires
        whole.to_multiset() == part1.to_multiset().add(part2.to_multiset()),
    ensures
        dist_over(p, v, only_iterations, whole) == merged(
            dist_over(p, v, only_iterations, part1),
            dist_over(p, v, only_iterations, part2),
        ),
{
    vstd::seq_lib::lemma_multiset_commutative(part1, part2);
    lemma_dist_over_permutation(p, v, only_iterations, whole, part1 + part2);
    lemma_dist_over_split(p, v, only_iterations, part1, part2);
}

} // verus!
