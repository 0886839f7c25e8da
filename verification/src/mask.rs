//! The sampling mask that keeps `[INTR]` out of the model's mouth, run-length encoded.

use std::collections::HashSet;

use vstd::prelude::*;

use crate::codec::TokenCodec;

verus! {

broadcast use vstd::std_specs::hash::group_hash_axioms;

/// The bits that run lengths stand for: runs alternate between false and true, and the
/// first is a run of false.
pub open spec fn run_bits(runs: Seq<u32>) -> Seq<bool>
    decreases runs.len(),
{
    if runs.len() == 0 {
        Seq::empty()
    } else {
        run_bits(runs.drop_last()) + Seq::new(
            runs.last() as nat,
            |i: int| (runs.len() - 1) % 2 == 1,
        )
    }
}

/// Which of the first `n` ids may be sampled.
pub open spec fn allowed_bits(n: nat, suppressed: Set<u32>) -> Seq<bool> {
    Seq::new(n, |i: int| !suppressed.contains(i as u32))
}

/// A fixed sampling mask.
pub struct SuppressMask {
    pub mask: Vec<u32>,
}

impl SuppressMask {
    /// The mask over the ids below `mask_size` that bars exactly the suppressed ones. Only
    /// its first run may be empty, except that the mask over no ids at all is one empty run.
    pub fn new(mask_size: u32, suppressed: &HashSet<u32>) -> (m: SuppressMask)
        ensures
            run_bits(m.mask@) == allowed_bits(mask_size as nat, suppressed@),
            m.mask@.len() > 0,
            forall|i: int| 1 <= i < m.mask@.len() ==> m.mask@[i] > 0,
    {
        let mut mask: Vec<u32> = Vec::new();
        let mut run_value: bool = false;
        let mut run_len: u32 = 0;
        let mut id: u32 = 0;
        let ghost bits = allowed_bits(mask_size as nat, suppressed@);
        proof {
            assert(run_bits(mask@) + Seq::new(0nat, |i: int| run_value) =~= bits.take(0));
        }
        while id < mask_size
            invariant
                id <= mask_size,
                run_len <= id,
                bits == allowed_bits(mask_size as nat, suppressed@),
                run_value == (mask@.len() % 2 == 1),
                run_bits(mask@) + Seq::new(run_len as nat, |i: int| run_value) == bits.take(
                    id as int,
                ),
                mask@.len() > 0 ==> run_len > 0,
                forall|i: int| 1 <= i < mask@.len() ==> mask@[i] > 0,
            decreases mask_size - id,
        {
            let allowed: bool = !suppressed.contains(&id);
            let ghost before = bits.take(id as int);
            let ghost runs = mask@;
            proof {
                assert(bits.take(id + 1) =~= before.push(allowed));
            }
            if allowed == run_value {
                run_len = run_len + 1;
                proof {
                    assert(run_bits(runs) + Seq::new(run_len as nat, |i: int| run_value) =~= (
                    run_bits(runs) + Seq::new((run_len - 1) as nat, |i: int| run_value)).push(
                        allowed,
                    ));
                }
            } else {
                mask.push(run_len);
                proof {
                    assert(mask@.drop_last() =~= runs);
                    assert(Seq::new(mask@.last() as nat, |i: int| (mask@.len() - 1) % 2 == 1)
                        =~= Seq::new(run_len as nat, |i: int| run_value));
                }
                run_value = !run_value;
                run_len = 1;
                proof {
                    assert(run_bits(mask@) + Seq::new(1nat, |i: int| run_value) =~= before.push(
                        allowed,
                    ));
                }
            }
            id = id + 1;
        }
        let ghost runs = mask@;
        mask.push(run_len);
        proof {
            assert(mask@.drop_last() =~= runs);
            assert(Seq::new(mask@.last() as nat, |i: int| (mask@.len() - 1) % 2 == 1) =~= Seq::new(
                run_len as nat,
                |i: int| run_value,
            ));
            assert(bits.take(mask_size as int) =~= bits);
        }
        SuppressMask { mask }
    }

    /// The mask, whatever has been accepted.
    pub fn step(&self, _accepted: &[u32]) -> (mask: &Vec<u32>)
        ensures
            mask@ == self.mask@,
    {
        &self.mask
    }
}

/// The largest of `ids` and whether there is one.
pub open spec fn largest(ids: Seq<u32>) -> Option<u32>
    decreases ids.len(),
{
    if ids.len() == 0 {
        None
    } else {
        match largest(ids.drop_last()) {
            Some(m) if m >= ids.last() => Some(m),
            _ => Some(ids.last()),
        }
    }
}

/// How many ids the mask has to cover: the vocabulary, and the special tokens, which often
/// lie above it.
pub open spec fn mask_width(special_ids: Seq<u32>, vocab_size: u32) -> int {
    match largest(special_ids) {
        Some(m) if m + 1 > vocab_size => m + 1,
        _ => vocab_size as int,
    }
}

/// How many ids the mask has to cover.
pub fn mask_size(special_ids: &Vec<u32>, vocab_size: u32) -> (n: u32)
    requires
        forall|i: int| 0 <= i < special_ids@.len() ==> special_ids@[i] < u32::MAX,
    ensures
        n == mask_width(special_ids@, vocab_size),
{
    let mut max: Option<u32> = None;
    let mut i: usize = 0;
    while i < special_ids.len()
        invariant
            i <= special_ids.len(),
            forall|j: int| 0 <= j < special_ids@.len() ==> special_ids@[j] < u32::MAX,
            max == largest(special_ids@.take(i as int)),
            max matches Some(m) ==> m < u32::MAX,
        decreases special_ids.len() - i,
    {
        let t: u32 = special_ids[i];
        proof {
            assert(special_ids@.take(i + 1).drop_last() =~= special_ids@.take(i as int));
        }
        max = match max {
            Some(m) => if m >= t {
                Some(m)
            } else {
                Some(t)
            },
            None => Some(t),
        };
        i = i + 1;
    }
    proof {
        assert(special_ids@.take(special_ids@.len() as int) =~= special_ids@);
    }
    match max {
        Some(m) => if m + 1 > vocab_size {
            m + 1
        } else {
            vocab_size
        },
        None => vocab_size,
    }
}

/// How many entries the vocabulary of a codec has, as a width.
pub open spec fn vocab_width(codec: TokenCodec) -> u32 {
    codec.vocab().0.len() as u32
}

/// How many entries the vocabulary has.
pub fn vocab_size(codec: &TokenCodec) -> (n: u32)
    ensures
        n == vocab_width(*codec),
{
    let (ids, _) = codec.vocabs();
    ids.len() as u32
}

/// How many ids a mask for `codec` has to cover, or nothing where a special token has the
/// largest id there is, which no width covers.
pub fn full_mask_size(codec: &TokenCodec) -> (n: Option<u32>)
    ensures
        n is None <==> codec.special().0.contains(u32::MAX),
        n matches Some(width) ==> width == mask_width(codec.special().0, vocab_width(*codec)),
{
    let (special_ids, _) = codec.special_tokens();
    let mut i: usize = 0;
    while i < special_ids.len()
        invariant
            i <= special_ids.len(),
            special_ids@ == codec.special().0,
            forall|j: int| 0 <= j < i ==> special_ids@[j] < u32::MAX,
        decreases special_ids.len() - i,
    {
        if special_ids[i] == u32::MAX {
            proof {
                assert(special_ids@[i as int] == u32::MAX);
            }
            return None;
        }
        i = i + 1;
    }
    Some(mask_size(&special_ids, vocab_size(codec)))
}

/// The mask bars an id exactly when it is suppressed, over the whole width.
pub proof fn mask_bars_exactly_the_suppressed(
    runs: Seq<u32>,
    width: nat,
    suppressed: Set<u32>,
    id: u32,
)
    requires
        run_bits(runs) == allowed_bits(width, suppressed),
        id < width,
    ensures
        run_bits(runs).len() == width,
        run_bits(runs)[id as int] == !suppressed.contains(id),
{
}

} // verus!
