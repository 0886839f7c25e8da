//! Choosing the next token where some must not be chosen.
//!
//! Probabilities enter as integers in the same order, zero for zero.

use std::collections::{HashSet, VecDeque};

use vstd::prelude::*;

verus! {

broadcast use vstd::std_specs::hash::group_hash_axioms;

/// The shorter of the two lengths.
pub open spec fn paired(a: nat, b: nat) -> nat {
    if a <= b {
        a
    } else {
        b
    }
}

/// Position `i` may be chosen.
pub open spec fn candidate(ids: Seq<u32>, suppressed: Set<u32>, n: nat, i: int) -> bool {
    0 <= i < n && !suppressed.contains(ids[i])
}

/// `i` is the first of the most likely positions that may be chosen.
pub open spec fn first_best(
    ids: Seq<u32>,
    weights: Seq<u32>,
    suppressed: Set<u32>,
    n: nat,
    i: int,
) -> bool {
    &&& candidate(ids, suppressed, n, i)
    &&& forall|j: int| #[trigger]
        candidate(ids, suppressed, n, j) ==> weights[j] < weights[i] || (weights[j] == weights[i]
            && i <= j)
}

/// The first of the most likely positions below `n` whose token is not in `suppressed`.
fn heaviest(
    ids: &Vec<u32>,
    weights: &Vec<u32>,
    suppressed: &HashSet<u32>,
    n: usize,
) -> (best: Option<usize>)
    requires
        n <= ids.len(),
        n <= weights.len(),
    ensures
        best is None ==> forall|j: int| !#[trigger] candidate(ids@, suppressed@, n as nat, j),
        best matches Some(b) ==> b < n && first_best(
            ids@,
            weights@,
            suppressed@,
            n as nat,
            b as int,
        ),
{
    let mut best: Option<usize> = None;
    let mut i: usize = 0;
    while i < n
        invariant
            i <= n,
            n <= ids.len(),
            n <= weights.len(),
            best is None ==> forall|j: int| !#[trigger] candidate(ids@, suppressed@, i as nat, j),
            best matches Some(b) ==> first_best(ids@, weights@, suppressed@, i as nat, b as int),
        decreases n - i,
    {
        if !suppressed.contains(&ids[i]) {
            best = match best {
                Some(b) => if weights[i] > weights[b] {
                    Some(i)
                } else {
                    Some(b)
                },
                None => Some(i),
            };
        }
        i = i + 1;
        proof {
            assert forall|j: int| #[trigger] candidate(ids@, suppressed@, i as nat, j) implies j
                == i - 1 || candidate(ids@, suppressed@, (i - 1) as nat, j) by {}
        }
    }
    best
}

/// Leaves suppressed tokens out and takes the most likely of the others.
pub struct AsyncLmSampler {
    pub suppressed_ids: HashSet<u32>,
    /// Whether tokens that came recently may be made less likely.
    pub penalizes: bool,
}

impl AsyncLmSampler {
    /// A sampler that leaves `suppressed_ids` out.
    pub fn new(suppressed_ids: HashSet<u32>, penalizes: bool) -> (s: AsyncLmSampler)
        ensures
            s.suppressed_ids@ == suppressed_ids@,
            s.penalizes == penalizes,
    {
        AsyncLmSampler { suppressed_ids, penalizes }
    }

    /// Tells whether `id` is made less likely for having come recently.
    pub fn is_penalized(&self, recent: &VecDeque<u32>, id: u32) -> (yes: bool)
        ensures
            yes == (self.penalizes && recent@.contains(id)),
    {
        if !self.penalizes {
            return false;
        }
        let mut i: usize = 0;
        while i < recent.len()
            invariant
                i <= recent.len(),
                self.penalizes,
                forall|j: int| 0 <= j < i ==> recent@[j] != id,
            decreases recent.len() - i,
        {
            if recent[i] == id {
                return true;
            }
            i = i + 1;
        }
        false
    }

    /// The most likely token that is not suppressed, the first of several. Where all are
    /// suppressed, a sampler that penalizes takes the first token, and any other the most
    /// likely one. `weights` are in the order of the probabilities, after penalties.
    pub fn sample(&self, ids: &Vec<u32>, weights: &Vec<u32>) -> (id: u32)
        requires
            ids.len() > 0,
        ensures
            ({
                let n = paired(ids@.len(), weights@.len());
                if exists|i: int| #[trigger] candidate(ids@, self.suppressed_ids@, n, i) {
                    exists|i: int| #[trigger]
                        first_best(ids@, weights@, self.suppressed_ids@, n, i) && id == ids@[i]
                } else if !self.penalizes && n > 0 {
                    exists|i: int| #[trigger]
                        first_best(ids@, weights@, Set::empty(), n, i) && id == ids@[i]
                } else {
                    id == ids@[0]
                }
            }),
    {
        let n: usize = if ids.len() <= weights.len() {
            ids.len()
        } else {
            weights.len()
        };
        if let Some(b) = heaviest(ids, weights, &self.suppressed_ids, n) {
            proof {
                assert(candidate(ids@, self.suppressed_ids@, n as nat, b as int));
            }
            return ids[b];
        }
        if !self.penalizes {
            let none: HashSet<u32> = HashSet::new();
            proof {
                assert(none@ =~= Set::empty());
                if n > 0 {
                    assert(candidate(ids@, none@, n as nat, 0));
                }
            }
            if let Some(b) = heaviest(ids, weights, &none, n) {
                return ids[b];
            }
        }
        ids[0]
    }
}

/// The weight of position `i` once suppressed tokens weigh nothing.
pub open spec fn weight_at(ids: Seq<u32>, weights: Seq<u32>, suppressed: Set<u32>, i: int) -> u32 {
    if suppressed.contains(ids[i]) {
        0
    } else {
        weights[i]
    }
}

/// Position `a` ranks before position `b`: it weighs more, or as much and comes first.
pub open spec fn ranks_before(w: Seq<u32>, a: int, b: int) -> bool {
    w[a] > w[b] || (w[a] == w[b] && a < b)
}

/// `order` lists every position below `n` once, heaviest first and equals in their order.
pub open spec fn is_ranking(w: Seq<u32>, order: Seq<usize>, n: nat) -> bool {
    &&& order.len() == n
    &&& forall|k: int| 0 <= k < n ==> (#[trigger] order[k]) < n
    &&& forall|j: int, k: int|
        0 <= j < k < n ==> ranks_before(w, #[trigger] order[j] as int, #[trigger] order[k] as int)
}

/// Positions in the order of their weights.
fn ranking(w: &Vec<u32>) -> (order: Vec<usize>)
    ensures
        is_ranking(w@, order@, w@.len()),
{
    let mut order: Vec<usize> = Vec::new();
    let mut i: usize = 0;
    while i < w.len()
        invariant
            i <= w.len(),
            is_ranking(w@, order@, i as nat),
        decreases w.len() - i,
    {
        let mut at: usize = order.len();
        while at > 0 && w[order[at - 1]] < w[i]
            invariant
                i < w.len(),
                at <= order.len(),
                is_ranking(w@, order@, i as nat),
                forall|k: int| at <= k < order.len() ==> w@[(#[trigger] order@[k]) as int] < w@[i as int],
            decreases at,
        {
            at = at - 1;
        }
        let ghost before = order@;
        order.insert(at, i);
        proof {
            assert(order@ =~= before.insert(at as int, i));
            assert forall|j: int, k: int| 0 <= j < k < i + 1 implies ranks_before(
                w@,
                #[trigger] order@[j] as int,
                #[trigger] order@[k] as int,
            ) by {
                let j2 = if j < at {
                    j
                } else {
                    j - 1
                };
                let k2 = if k < at {
                    k
                } else {
                    k - 1
                };
                if j == at {
                    assert(order@[k] == before[k2]);
                    assert(w@[before[k2] as int] < w@[i as int]);
                } else if k == at {
                    assert(order@[j] == before[j]);
                    if j < at - 1 {
                        assert(ranks_before(w@, before[j] as int, before[at - 1] as int));
                    }
                } else {
                    assert(order@[j] == before[j2]);
                    assert(order@[k] == before[k2]);
                    assert(ranks_before(w@, before[j2] as int, before[k2] as int));
                }
            }
        }
        i = i + 1;
    }
    order
}

/// Gives suppressed tokens no weight and takes the most likely token within the nucleus.
pub struct SuppressingSampler {
    pub suppressed: HashSet<u32>,
}

impl SuppressingSampler {
    /// The weights with those of suppressed tokens set to zero, as far as `ids` and
    /// `weights` both go.
    pub fn masked_weights(&self, ids: &Vec<u32>, weights: &Vec<u32>) -> (w: Vec<u32>)
        ensures
            w@ == Seq::new(
                paired(ids@.len(), weights@.len()),
                |i: int| weight_at(ids@, weights@, self.suppressed@, i),
            ),
    {
        let n: usize = if ids.len() <= weights.len() {
            ids.len()
        } else {
            weights.len()
        };
        let mut w: Vec<u32> = Vec::new();
        let mut i: usize = 0;
        while i < n
            invariant
                i <= n,
                n <= ids.len(),
                n <= weights.len(),
                w@.len() == i,
                forall|j: int|
                    0 <= j < i ==> w@[j] == weight_at(ids@, weights@, self.suppressed@, j),
            decreases n - i,
        {
            if self.suppressed.contains(&ids[i]) {
                w.push(0);
            } else {
                w.push(weights[i]);
            }
            i = i + 1;
        }
        proof {
            assert(w@ =~= Seq::new(
                paired(ids@.len(), weights@.len()),
                |i: int| weight_at(ids@, weights@, self.suppressed@, i),
            ));
        }
        w
    }

    /// The positions, heaviest first and equals in their order, once suppressed tokens weigh
    /// nothing.
    pub fn ranked(&self, ids: &Vec<u32>, weights: &Vec<u32>) -> (order: Vec<usize>)
        ensures
            ({
                let n = paired(ids@.len(), weights@.len());
                let w = Seq::new(n, |i: int| weight_at(ids@, weights@, self.suppressed@, i));
                is_ranking(w, order@, n)
            }),
    {
        let w = self.masked_weights(ids, weights);
        ranking(&w)
    }

    /// The token chosen within a nucleus of the `cutoff` positions that rank first: of those
    /// that weigh as much as the heaviest, the last.
    pub fn sample(&self, ids: &Vec<u32>, weights: &Vec<u32>, cutoff: usize) -> (id: u32)
        requires
            0 < cutoff <= paired(ids@.len(), weights@.len()),
        ensures
            ({
                let n = paired(ids@.len(), weights@.len());
                let w = Seq::new(n, |i: int| weight_at(ids@, weights@, self.suppressed@, i));
                exists|order: Seq<usize>, k: int|
                    {
                        &&& #[trigger] is_ranking(w, order, n)
                        &&& #[trigger] last_heaviest(w, order, cutoff as int, k)
                        &&& id == ids@[order[k] as int]
                    }
            }),
    {
        let w = self.masked_weights(ids, weights);
        let order = ranking(&w);
        let mut k: usize = 0;
        while k + 1 < cutoff && w[order[k + 1]] == w[order[0]]
            invariant
                k < cutoff <= order.len(),
                is_ranking(w@, order@, w@.len()),
                w@[order@[k as int] as int] == w@[order@[0] as int],
            decreases cutoff - k,
        {
            k = k + 1;
        }
        proof {
            assert(last_heaviest(w@, order@, cutoff as int, k as int)) by {
                assert forall|j: int| k < j < cutoff implies w@[(#[trigger] order@[j]) as int]
                    < w@[order@[0] as int] by {
                    assert(ranks_before(w@, order@[0] as int, order@[k + 1] as int));
                    if j > k + 1 {
                        assert(ranks_before(w@, order@[k + 1] as int, order@[j] as int));
                    }
                }
            }
        }
        ids[order[k]]
    }
}

/// Of the first `cutoff` positions of `order`, the one at `k` is the last that weighs as
/// much as the first.
pub open spec fn last_heaviest(w: Seq<u32>, order: Seq<usize>, cutoff: int, k: int) -> bool {
    &&& 0 <= k < cutoff
    &&& w[order[k] as int] == w[order[0] as int]
    &&& forall|j: int| k < j < cutoff ==> w[(#[trigger] order[j]) as int] < w[order[0] as int]
}

/// There is only one ranking of given weights.
pub proof fn ranking_is_unique(w: Seq<u32>, a: Seq<usize>, b: Seq<usize>)
    requires
        is_ranking(w, a, w.len()),
        is_ranking(w, b, w.len()),
    ensures
        a == b,
{
    lemma_ranking_prefix(w, a, b, w.len());
    assert(a =~= b);
}

proof fn lemma_ranking_prefix(w: Seq<u32>, a: Seq<usize>, b: Seq<usize>, m: nat)
    requires
        is_ranking(w, a, w.len()),
        is_ranking(w, b, w.len()),
        m <= w.len(),
    ensures
        forall|k: int| 0 <= k < m ==> a[k] == b[k],
    decreases m,
{
    if m > 0 {
        lemma_ranking_prefix(w, a, b, (m - 1) as nat);
        let k = m - 1;
        let ib = lemma_position(w, b, a[k] as int);
        let ia = lemma_position(w, a, b[k] as int);
        if ib < k {
            assert(a[ib] == b[ib]);
            assert(ranks_before(w, a[ib] as int, a[k] as int));
        }
        if ia < k {
            assert(a[ia] == b[ia]);
            assert(ranks_before(w, b[ia] as int, b[k] as int));
        }
        if ib > k && ia > k {
            assert(ranks_before(w, b[k] as int, b[ib] as int));
            assert(ranks_before(w, a[k] as int, a[ia] as int));
        }
    }
}

/// Every position has its place in a ranking.
proof fn lemma_position(w: Seq<u32>, order: Seq<usize>, p: int) -> (k: int)
    requires
        is_ranking(w, order, w.len()),
        0 <= p < w.len(),
    ensures
        0 <= k < w.len(),
        order[k] == p,
{
    let ints = order.map_values(|x: usize| x as int);
    assert(ints.no_duplicates()) by {
        assert forall|i: int, j: int| 0 <= i < ints.len() && 0 <= j < ints.len() && i != j implies ints[i]
            != ints[j] by {
            if i < j {
                assert(ranks_before(w, order[i] as int, order[j] as int));
            } else {
                assert(ranks_before(w, order[j] as int, order[i] as int));
            }
        }
    }
    ints.unique_seq_to_set();
    let full = vstd::set_lib::set_int_range(0, w.len() as int);
    vstd::set_lib::lemma_int_range(0, w.len() as int);
    assert(ints.to_set().subset_of(full)) by {
        assert forall|x: int| ints.to_set().contains(x) implies full.contains(x) by {
            let i = choose|i: int| 0 <= i < ints.len() && ints[i] == x;
            assert(order[i] < w.len());
        }
    }
    vstd::set_lib::lemma_subset_equality(ints.to_set(), full);
    assert(ints.to_set().contains(p));
    choose|i: int| 0 <= i < ints.len() && ints[i] == p
}

/// Where every token is suppressed, the one that a sampler without penalties falls back to is
/// at least as likely as any other.
pub proof fn fallback_is_the_most_likely(
    ids: Seq<u32>,
    weights: Seq<u32>,
    n: nat,
    i: int,
    other: int,
)
    requires
        first_best(ids, weights, Set::empty(), n, i),
        0 <= other < n,
    ensures
        weights[other] <= weights[i],
{
    assert(candidate(ids, Set::empty(), n, other));
}

/// A suppressed token is chosen only where nothing else has any weight.
pub proof fn suppressed_only_without_choice(
    ids: Seq<u32>,
    weights: Seq<u32>,
    suppressed: Set<u32>,
    order: Seq<usize>,
    cutoff: int,
    k: int,
    other: int,
)
    requires
        ({
            let n = paired(ids.len(), weights.len());
            let w = Seq::new(n, |i: int| weight_at(ids, weights, suppressed, i));
            &&& is_ranking(w, order, n)
            &&& cutoff <= n
            &&& last_heaviest(w, order, cutoff, k)
            &&& 0 <= other < n
        }),
        suppressed.contains(ids[order[k] as int]),
        !suppressed.contains(ids[other]),
    ensures
        weights[other] == 0,
{
    let n = paired(ids.len(), weights.len());
    let w = Seq::new(n, |i: int| weight_at(ids, weights, suppressed, i));
    let p = lemma_position(w, order, other);
    if p > 0 {
        assert(ranks_before(w, order[0] as int, order[p] as int));
    }
    assert(w[order[k] as int] == 0);
    assert(w[other] == weights[other]);
}

} // verus!
