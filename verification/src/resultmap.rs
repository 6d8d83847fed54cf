//! The result mapping: an association from accepted signature tuple to the
//! unbounded count of random-oracle programmings that produce it, kept
//! ordered by key. Absent keys count as zero; mappings are built by repeated
//! weighted insertion and combined by point-wise sum, which is commutative
//! and associative.

use vstd::prelude::*;

use crate::bignum::big_add_assign;
use crate::bignum::big_clone;
use crate::bignum::big_eq;
use crate::bignum::big_nat;
use crate::trial::SigTuple;

verus! {

/// Strict lexicographic order on signature tuples, the key order of the
/// result mapping.
pub open spec fn sig_lt(a: SigTuple, b: SigTuple) -> bool {
    ||| a.z1 < b.z1
    ||| (a.z1 == b.z1 && a.z2 < b.z2)
    ||| (a.z1 == b.z1 && a.z2 == b.z2 && a.c1 < b.c1)
    ||| (a.z1 == b.z1 && a.z2 == b.z2 && a.c1 == b.c1 && a.c2 < b.c2)
}

/// The count a mapping assigns to a key, with absent keys implicitly zero.
pub open spec fn count_of(m: Map<SigTuple, nat>, k: SigTuple) -> nat {
    if m.dom().contains(k) {
        m[k]
    } else {
        0
    }
}

/// The point-wise sum of two mappings: a key is present when it is present
/// in either, and its count is the sum of the two counts.
pub open spec fn merged(a: Map<SigTuple, nat>, b: Map<SigTuple, nat>) -> Map<SigTuple, nat> {
    Map::new(
        |k: SigTuple| a.dom().contains(k) || b.dom().contains(k),
        |k: SigTuple| count_of(a, k) + count_of(b, k),
    )
}

/// A mapping is uniform when every present key carries the same count.
pub open spec fn uniform_map(m: Map<SigTuple, nat>) -> bool {
    forall|k1: SigTuple, k2: SigTuple|
        m.dom().contains(k1) && m.dom().contains(k2) ==> count_of(m, k1) == count_of(m, k2)
}

/// The mathematical mapping held by an entry sequence: later entries
/// overwrite earlier ones, though well-formed sequences have distinct keys.
pub open spec fn entries_map(s: Seq<(SigTuple, num::BigUint)>) -> Map<SigTuple, nat>
    decreases s.len(),
{
    if s.len() == 0 {
        Map::empty()
    } else {
        entries_map(s.drop_last()).insert(s.last().0, big_nat(s.last().1))
    }
}

/// Entry keys strictly increase, which also makes them pairwise distinct.
pub open spec fn entries_sorted(s: Seq<(SigTuple, num::BigUint)>) -> bool {
    forall|i: int, j: int|
        0 <= i < j < s.len() ==> sig_lt(#[trigger] s[i].0, #[trigger] s[j].0)
}

/// Merging with the empty mapping changes nothing.
pub proof fn lemma_merged_empty(a: Map<SigTuple, nat>)
    ensures
        merged(a, Map::empty()) == a,
        merged(Map::empty(), a) == a,
{
    assert(merged(a, Map::empty()) =~= a);
    assert(merged(Map::empty(), a) =~= a);
}

/// Point-wise sum is commutative: partial mappings may be combined in
/// either order.
pub proof fn lemma_merged_commutative(a: Map<SigTuple, nat>, b: Map<SigTuple, nat>)
    ensures
        merged(a, b) == merged(b, a),
{
    assert(merged(a, b) =~= merged(b, a));
}

/// Point-wise sum is associative: partial mappings may be combined in any
/// grouping.
pub proof fn lemma_merged_associative(
    a: Map<SigTuple, nat>,
    b: Map<SigTuple, nat>,
    c: Map<SigTuple, nat>,
)
    ensures
        merged(merged(a, b), c) == merged(a, merged(b, c)),
{
    assert(merged(merged(a, b), c) =~= merged(a, merged(b, c)));
}

/// Adding a fresh key to the right operand of a merge adds it, with the
/// summed count, to the merge itself.
proof fn lemma_merged_insert(
    a: Map<SigTuple, nat>,
    b: Map<SigTuple, nat>,
    k: SigTuple,
    w: nat,
)
    requires
        !b.dom().contains(k),
    ensures
        merged(a, b.insert(k, w)) == merged(a, b).insert(k, count_of(merged(a, b), k) + w),
{
    assert(merged(a, b.insert(k, w)) =~= merged(a, b).insert(
        k,
        count_of(merged(a, b), k) + w,
    ));
}

/// Every entry is present in the held mapping with its own count, provided
/// no later entry repeats its key.
proof fn lemma_entries_map_index(s: Seq<(SigTuple, num::BigUint)>, i: int)
    requires
        0 <= i < s.len(),
        forall|j: int, l: int| 0 <= j < l < s.len() ==> (#[trigger] s[j]).0 != (#[trigger] s[l]).0,
    ensures
        entries_map(s).dom().contains(s[i].0),
        entries_map(s)[s[i].0] == big_nat(s[i].1),
    decreases s.len(),
{
    if i == s.len() - 1 {
    } else {
        lemma_entries_map_index(s.drop_last(), i);
        assert(s[i].0 != s.last().0);
    }
}

/// Every key of the held mapping comes from some entry.
proof fn lemma_entries_map_dom(s: Seq<(SigTuple, num::BigUint)>, k: SigTuple)
    requires
        entries_map(s).dom().contains(k),
    ensures
        exists|i: int| 0 <= i < s.len() && (#[trigger] s[i]).0 == k,
    decreases s.len(),
{
    if s.len() == 0 {
    } else if k == s.last().0 {
        assert(s[s.len() - 1].0 == k);
    } else {
        lemma_entries_map_dom(s.drop_last(), k);
        let i = choose|i: int| 0 <= i < s.drop_last().len() && (#[trigger] s.drop_last()[i]).0 == k;
        assert(s[i].0 == k);
    }
}

/// The held mapping has exactly one key per entry when keys are distinct.
proof fn lemma_entries_map_len(s: Seq<(SigTuple, num::BigUint)>)
    requires
        forall|j: int, l: int| 0 <= j < l < s.len() ==> (#[trigger] s[j]).0 != (#[trigger] s[l]).0,
    ensures
        entries_map(s).dom().finite(),
        entries_map(s).dom().len() == s.len(),
    decreases s.len(),
{
    if s.len() == 0 {
        assert(entries_map(s).dom() =~= Set::empty());
    } else {
        lemma_entries_map_len(s.drop_last());
        let m0 = entries_map(s.drop_last());
        assert(!m0.dom().contains(s.last().0)) by {
            if m0.dom().contains(s.last().0) {
                lemma_entries_map_dom(s.drop_last(), s.last().0);
                let i = choose|i: int|
                    0 <= i < s.drop_last().len() && (#[trigger] s.drop_last()[i]).0 == s.last().0;
                assert(s[i].0 == s[s.len() - 1].0);
            }
        }
        assert(entries_map(s).dom() =~= m0.dom().insert(s.last().0));
    }
}

/// Inserting an entry with a fresh key inserts its count into the held
/// mapping.
proof fn lemma_entries_map_insert(
    s: Seq<(SigTuple, num::BigUint)>,
    i: int,
    k: SigTuple,
    v: num::BigUint,
)
    requires
        0 <= i <= s.len(),
        forall|j: int| 0 <= j < s.len() ==> (#[trigger] s[j]).0 != k,
    ensures
        entries_map(s.insert(i, (k, v))) == entries_map(s).insert(k, big_nat(v)),
    decreases s.len(),
{
    let t = s.insert(i, (k, v));
    if i == s.len() {
        assert(t.drop_last() =~= s);
        assert(t.last() == (k, v));
    } else {
        assert(t.last() == s.last());
        assert(t.drop_last() =~= s.drop_last().insert(i, (k, v)));
        lemma_entries_map_insert(s.drop_last(), i, k, v);
        assert(entries_map(t) == entries_map(s.drop_last()).insert(k, big_nat(v)).insert(
            s.last().0,
            big_nat(s.last().1),
        ));
        assert(s[s.len() - 1].0 != k);
        assert(entries_map(s.drop_last()).insert(k, big_nat(v)).insert(
            s.last().0,
            big_nat(s.last().1),
        ) =~= entries_map(s).insert(k, big_nat(v)));
    }
}

/// Replacing an entry's count overwrites that key's count in the held
/// mapping.
proof fn lemma_entries_map_update(s: Seq<(SigTuple, num::BigUint)>, i: int, v: num::BigUint)
    requires
        0 <= i < s.len(),
        forall|j: int, l: int| 0 <= j < l < s.len() ==> (#[trigger] s[j]).0 != (#[trigger] s[l]).0,
    ensures
        entries_map(s.update(i, (s[i].0, v))) == entries_map(s).insert(s[i].0, big_nat(v)),
    decreases s.len(),
{
    let t = s.update(i, (s[i].0, v));
    if i == s.len() - 1 {
        assert(t.drop_last() =~= s.drop_last());
        assert(t.last() == (s[i].0, v));
        assert(entries_map(t) =~= entries_map(s).insert(s[i].0, big_nat(v)));
    } else {
        assert(t.last() == s.last());
        assert(t.drop_last() =~= s.drop_last().update(i, (s[i].0, v)));
        lemma_entries_map_update(s.drop_last(), i, v);
        assert(s[i].0 != s[s.len() - 1].0);
        assert(entries_map(t) =~= entries_map(s).insert(s[i].0, big_nat(v)));
    }
}

/// One result mapping, keyed by signature tuple and ordered by `sig_lt`,
/// holding an unbounded count for each accepted signature.
pub struct ResultMap {
    entries: Vec<(SigTuple, num::BigUint)>,
}

impl View for ResultMap {
    type V = Map<SigTuple, nat>;

    closed spec fn view(&self) -> Map<SigTuple, nat> {
        entries_map(self.entries@)
    }
}

/// Compares two signature tuples in the key order of the result mapping.
fn sig_lt_exec(a: &SigTuple, b: &SigTuple) -> (r: bool)
    ensures
        r == sig_lt(*a, *b),
{
    if a.z1 != b.z1 {
        a.z1 < b.z1
    } else if a.z2 != b.z2 {
        a.z2 < b.z2
    } else if a.c1 != b.c1 {
        a.c1 < b.c1
    } else {
        a.c2 < b.c2
    }
}

impl ResultMap {
    /// The entries are strictly sorted by key.
    pub closed spec fn wf(self) -> bool {
        entries_sorted(self.entries@)
    }

    /// Distinctness of keys, a consequence of sortedness used throughout.
    proof fn lemma_keys_distinct(self)
        requires
            self.wf(),
        ensures
            forall|j: int, l: int|
                0 <= j < l < self.entries@.len() ==> (#[trigger] self.entries@[j]).0 != (
                #[trigger] self.entries@[l]).0,
    {
        assert forall|j: int, l: int|
            0 <= j < l < self.entries@.len() implies (#[trigger] self.entries@[j]).0 != (
        #[trigger] self.entries@[l]).0 by {
            assert(sig_lt(self.entries@[j].0, self.entries@[l].0));
        }
    }

    /// An empty mapping.
    pub fn new() -> (r: ResultMap)
        ensures
            r.wf(),
            r@ == Map::<SigTuple, nat>::empty(),
    {
        ResultMap { entries: Vec::new() }
    }

    /// The number of keys present.
    pub fn len(&self) -> (r: usize)
        requires
            self.wf(),
        ensures
            r == self@.dom().len(),
    {
        proof {
            self.lemma_keys_distinct();
            lemma_entries_map_len(self.entries@);
        }
        self.entries.len()
    }

    /// The first position whose key is not below `key`; entries before it
    /// are strictly below, entries from it on are not.
    fn lower_bound(&self, key: &SigTuple) -> (idx: usize)
        requires
            self.wf(),
        ensures
            idx <= self.entries@.len(),
            forall|j: int| 0 <= j < idx ==> sig_lt((#[trigger] self.entries@[j]).0, *key),
            forall|j: int|
                idx <= j < self.entries@.len() ==> !sig_lt((#[trigger] self.entries@[j]).0, *key),
    {
        let mut lo: usize = 0;
        let mut hi: usize = self.entries.len();
        while lo < hi
            invariant
                lo <= hi <= self.entries@.len(),
                forall|j: int| 0 <= j < lo ==> sig_lt((#[trigger] self.entries@[j]).0, *key),
                forall|j: int|
                    hi <= j < self.entries@.len() ==> !sig_lt(
                        (#[trigger] self.entries@[j]).0,
                        *key,
                    ),
                entries_sorted(self.entries@),
            decreases hi - lo,
        {
            let mid = lo + (hi - lo) / 2;
            if sig_lt_exec(&self.entries[mid].0, key) {
                assert forall|j: int| 0 <= j < mid + 1 implies sig_lt(
                    (#[trigger] self.entries@[j]).0,
                    *key,
                ) by {
                    if j < mid {
                        assert(sig_lt(self.entries@[j].0, self.entries@[mid as int].0));
                    }
                }
                lo = mid + 1;
            } else {
                assert forall|j: int| mid <= j < self.entries@.len() implies !sig_lt(
                    (#[trigger] self.entries@[j]).0,
                    *key,
                ) by {
                    if j > mid {
                        assert(sig_lt(self.entries@[mid as int].0, self.entries@[j].0));
                    }
                }
                hi = mid;
            }
        }
        lo
    }

    /// The count stored for `key`, or `None` when the key is absent.
    pub fn get(&self, key: &SigTuple) -> (r: Option<&num::BigUint>)
        requires
            self.wf(),
        ensures
            match r {
                Some(c) => self@.dom().contains(*key) && big_nat(*c) == self@[*key],
                None => !self@.dom().contains(*key),
            },
    {
        proof {
            self.lemma_keys_distinct();
        }
        let idx = self.lower_bound(key);
        if idx < self.entries.len() && self.entries[idx].0 == *key {
            proof {
                lemma_entries_map_index(self.entries@, idx as int);
            }
            Some(&self.entries[idx].1)
        } else {
            proof {
                assert forall|j: int| 0 <= j < self.entries@.len() implies (
                #[trigger] self.entries@[j]).0 != *key by {
                    if j > idx {
                        assert(sig_lt(self.entries@[idx as int].0, self.entries@[j].0));
                    }
                }
                if self@.dom().contains(*key) {
                    lemma_entries_map_dom(self.entries@, *key);
                }
            }
            None
        }
    }

    /// The present keys in increasing key order.
    pub fn keys(&self) -> (r: Vec<SigTuple>)
        requires
            self.wf(),
        ensures
            r@.len() == self@.dom().len(),
            forall|i: int| 0 <= i < r@.len() ==> self@.dom().contains(#[trigger] r@[i]),
            forall|k: SigTuple| self@.dom().contains(k) ==> r@.contains(k),
            forall|i: int, j: int| 0 <= i < j < r@.len() ==> sig_lt(#[trigger] r@[i], #[trigger] r@[j]),
    {
        proof {
            self.lemma_keys_distinct();
            lemma_entries_map_len(self.entries@);
        }
        let mut r: Vec<SigTuple> = Vec::new();
        let mut i: usize = 0;
        let n = self.entries.len();
        while i < n
            invariant
                n == self.entries@.len(),
                i <= n,
                self.wf(),
                r@.len() == i,
                forall|j: int| 0 <= j < i ==> #[trigger] r@[j] == self.entries@[j].0,
            decreases n - i,
        {
            r.push(self.entries[i].0);
            i = i + 1;
        }
        proof {
            assert forall|j: int| 0 <= j < r@.len() implies self@.dom().contains(
                #[trigger] r@[j],
            ) by {
                lemma_entries_map_index(self.entries@, j);
            }
            assert forall|k: SigTuple| self@.dom().contains(k) implies r@.contains(k) by {
                lemma_entries_map_dom(self.entries@, k);
                let j = choose|j: int|
                    0 <= j < self.entries@.len() && (#[trigger] self.entries@[j]).0 == k;
                assert(r@[j] == k);
            }
        }
        r
    }

    /// The counter-example behind a negative uniformity answer: the first
    /// key in key order whose count differs from the baseline (the first
    /// entry's count), together with that count and the baseline. `None`
    /// exactly when every present key carries the same count; an empty
    /// mapping is trivially uniform, there being no counter-example.
    pub fn first_mismatch(&self) -> (r: Option<(SigTuple, num::BigUint, num::BigUint)>)
        requires
            self.wf(),
        ensures
            r is None <==> uniform_map(self@),
            match r {
                Some((k, c, baseline)) => {
                    &&& self@.dom().contains(k)
                    &&& self@[k] == big_nat(c)
                    &&& big_nat(c) != big_nat(baseline)
                    // The baseline is the count of the least present key.
                    &&& exists|k0: SigTuple|
                        {
                            &&& #[trigger] self@.dom().contains(k0)
                            &&& self@[k0] == big_nat(baseline)
                            &&& forall|k1: SigTuple|
                                self@.dom().contains(k1) ==> !sig_lt(k1, k0)
                        }
                    // Every key below the reported one still carries the
                    // baseline count.
                    &&& forall|k1: SigTuple|
                        self@.dom().contains(k1) && sig_lt(k1, k) ==> self@[k1] == big_nat(
                            baseline,
                        )
                },
                None => true,
            },
    {
        proof {
            self.lemma_keys_distinct();
        }
        let n = self.entries.len();
        if n == 0 {
            proof {
                if self@.dom().contains(choose|k: SigTuple| self@.dom().contains(k)) {
                    lemma_entries_map_dom(
                        self.entries@,
                        choose|k: SigTuple| self@.dom().contains(k),
                    );
                }
            }
            return None;
        }
        let mut i: usize = 1;
        while i < n
            invariant
                1 <= i <= n,
                n == self.entries@.len(),
                self.wf(),
                forall|j: int|
                    0 <= j < i ==> big_nat((#[trigger] self.entries@[j]).1) == big_nat(
                        self.entries@[0].1,
                    ),
            decreases n - i,
        {
            if !big_eq(&self.entries[i].1, &self.entries[0].1) {
                // A key whose count differs from the baseline's: the mapping
                // is not uniform.
                proof {
                    lemma_entries_map_index(self.entries@, 0);
                    lemma_entries_map_index(self.entries@, i as int);
                    assert(self@.dom().contains(self.entries@[0].0));
                    assert(self@.dom().contains(self.entries@[i as int].0));
                    assert(count_of(self@, self.entries@[0].0) != count_of(
                        self@,
                        self.entries@[i as int].0,
                    ));
                    assert forall|k1: SigTuple| self@.dom().contains(k1) implies !sig_lt(
                        k1,
                        self.entries@[0].0,
                    ) by {
                        lemma_entries_map_dom(self.entries@, k1);
                        let j = choose|j: int|
                            0 <= j < self.entries@.len() && (#[trigger] self.entries@[j]).0 == k1;
                        if j > 0 {
                            assert(sig_lt(self.entries@[0].0, self.entries@[j].0));
                        }
                    }
                    assert forall|k1: SigTuple|
                        self@.dom().contains(k1) && sig_lt(
                            k1,
                            self.entries@[i as int].0,
                        ) implies self@[k1] == big_nat(self.entries@[0].1) by {
                        lemma_entries_map_dom(self.entries@, k1);
                        let j = choose|j: int|
                            0 <= j < self.entries@.len() && (#[trigger] self.entries@[j]).0 == k1;
                        if j > i {
                            assert(sig_lt(self.entries@[i as int].0, self.entries@[j].0));
                        }
                        lemma_entries_map_index(self.entries@, j);
                    }
                }
                let k = self.entries[i].0;
                let c = big_clone(&self.entries[i].1);
                let baseline = big_clone(&self.entries[0].1);
                return Some((k, c, baseline));
            }
            i = i + 1;
        }
        proof {
            assert forall|k1: SigTuple, k2: SigTuple|
                self@.dom().contains(k1) && self@.dom().contains(k2) implies count_of(self@, k1)
                == count_of(self@, k2) by {
                lemma_entries_map_dom(self.entries@, k1);
                lemma_entries_map_dom(self.entries@, k2);
                let j1 = choose|j: int|
                    0 <= j < self.entries@.len() && (#[trigger] self.entries@[j]).0 == k1;
                let j2 = choose|j: int|
                    0 <= j < self.entries@.len() && (#[trigger] self.entries@[j]).0 == k2;
                lemma_entries_map_index(self.entries@, j1);
                lemma_entries_map_index(self.entries@, j2);
            }
        }
        None
    }

    /// Whether every present key carries the same count; an empty mapping is
    /// trivially uniform, there being no counter-example.
    pub fn is_uniform(&self) -> (r: bool)
        requires
            self.wf(),
        ensures
            r == uniform_map(self@),
    {
        match self.first_mismatch() {
            None => true,
            Some(_) => false,
        }
    }

    /// Adds `w` to the count at `key`, treating an absent key as zero; the
    /// default-then-add update of the accumulator.
    pub fn add(&mut self, key: SigTuple, w: &num::BigUint)
        requires
            old(self).wf(),
        ensures
            final(self).wf(),
            final(self)@ == old(self)@.insert(key, count_of(old(self)@, key) + big_nat(*w)),
    {
        let idx = self.lower_bound(&key);
        let n = self.entries.len();
        proof {
            self.lemma_keys_distinct();
        }
        if idx < n && self.entries[idx].0 == key {
            proof {
                lemma_entries_map_index(self.entries@, idx as int);
            }
            let ghost s_old = self.entries@;
            big_add_assign(&mut self.entries[idx].1, w);
            proof {
                assert(self.entries@ =~= s_old.update(
                    idx as int,
                    (s_old[idx as int].0, self.entries@[idx as int].1),
                ));
                lemma_entries_map_update(s_old, idx as int, self.entries@[idx as int].1);
                assert(entries_sorted(self.entries@));
            }
        } else {
            // `key` is nowhere in the entries: positions below `idx` are
            // strictly smaller, and a later equal key would contradict
            // sortedness at `idx`.
            proof {
                assert forall|j: int| 0 <= j < self.entries@.len() implies (
                #[trigger] self.entries@[j]).0 != key by {
                    if j >= idx && self.entries@[j].0 == key {
                        if idx < n {
                            if j > idx {
                                assert(sig_lt(self.entries@[idx as int].0, self.entries@[j].0));
                            }
                        }
                    }
                }
                assert(!old(self)@.dom().contains(key)) by {
                    if old(self)@.dom().contains(key) {
                        lemma_entries_map_dom(self.entries@, key);
                    }
                }
            }
            let ghost s_old = self.entries@;
            // An absent key starts from zero, so the inserted count is `w`.
            let fresh = big_clone(w);
            self.entries.insert(idx, (key, fresh));
            proof {
                lemma_entries_map_insert(s_old, idx as int, key, self.entries@[idx as int].1);
                assert forall|i: int, j: int|
                    0 <= i < j < self.entries@.len() implies sig_lt(
                    (#[trigger] self.entries@[i]).0,
                    (#[trigger] self.entries@[j]).0,
                ) by {
                    if j == idx {
                        assert(sig_lt(s_old[i].0, key));
                    } else if i == idx {
                        assert(!sig_lt(s_old[j - 1].0, key));
                        assert(s_old[j - 1].0 != key);
                    } else if i < idx && j > idx {
                        assert(sig_lt(s_old[i].0, s_old[j - 1].0));
                    } else if i > idx {
                        assert(sig_lt(s_old[i - 1].0, s_old[j - 1].0));
                    } else {
                        assert(sig_lt(s_old[i].0, s_old[j].0));
                    }
                }
            }
        }
    }
}

/// Merges `other` into `map` by point-wise sum: every count of `other` is
/// added to the count `map` holds under the same key, absent keys starting
/// from zero.
pub fn merge_results(map: &mut ResultMap, other: &ResultMap)
    requires
        old(map).wf(),
        other.wf(),
    ensures
        final(map).wf(),
        final(map)@ == merged(old(map)@, other@),
{
    proof {
        other.lemma_keys_distinct();
        lemma_merged_empty(old(map)@);
        assert(other.entries@.take(0) =~= Seq::empty());
    }
    let n = other.entries.len();
    let mut i: usize = 0;
    while i < n
        invariant
            i <= n,
            n == other.entries@.len(),
            other.wf(),
            map.wf(),
            map@ == merged(old(map)@, entries_map(other.entries@.take(i as int))),
            forall|j: int, l: int|
                0 <= j < l < other.entries@.len() ==> (#[trigger] other.entries@[j]).0 != (
                #[trigger] other.entries@[l]).0,
        decreases n - i,
    {
        let ghost prefix = other.entries@.take(i as int);
        let key = other.entries[i].0;
        map.add(key, &other.entries[i].1);
        proof {
            assert(!entries_map(prefix).dom().contains(key)) by {
                if entries_map(prefix).dom().contains(key) {
                    lemma_entries_map_dom(prefix, key);
                }
            }
            lemma_merged_insert(
                old(map)@,
                entries_map(prefix),
                key,
                big_nat(other.entries@[i as int].1),
            );
            assert(other.entries@.take(i + 1).drop_last() =~= prefix);
            assert(other.entries@.take(i + 1).last() == other.entries@[i as int]);
        }
        i = i + 1;
    }
    proof {
        assert(other.entries@.take(n as int) =~= other.entries@);
    }
}

} // verus!
