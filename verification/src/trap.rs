//! What to do with the context while a trap waits: keep it, swap it out or recompute it.

use vstd::prelude::*;

verus! {

/// What to do with the context.
#[derive(Debug, Clone, Copy, PartialEq, Eq, Structural)]
pub enum TrapStrategy {
    Keep,
    Swap,
    Recompute,
}

/// How full the context is, against the share of its limit from which it counts as under
/// pressure. A share that is no number is neither below nor at it.
#[derive(Debug, Clone, Copy, PartialEq, Eq, Structural)]
pub enum Pressure {
    Below,
    AtOrAbove,
    Unordered,
}

/// The limits of the trap handler.
#[derive(Debug, Clone, Copy, PartialEq, Eq, Structural)]
pub struct TrapConfig {
    /// With at most this many calls out and no pressure, the context is kept.
    pub keep_max_pending: usize,
    /// With more tokens than this since the checkpoint, the context is recomputed.
    pub stale_token_threshold: usize,
    pub max_context_length: usize,
}

impl Default for TrapConfig {
    fn default() -> (c: TrapConfig)
        ensures
            c == (TrapConfig {
                keep_max_pending: 2,
                stale_token_threshold: 64,
                max_context_length: 4096,
            }),
    {
        TrapConfig { keep_max_pending: 2, stale_token_threshold: 64, max_context_length: 4096 }
    }
}

/// How many tokens the context has grown by since the checkpoint; none without one.
pub open spec fn stale_tokens(context_len: usize, checkpoint_token_count: Option<usize>) -> int {
    match checkpoint_token_count {
        Some(n) if n <= context_len => context_len - n,
        _ => 0,
    }
}

/// The strategy: keep without a checkpoint or without pressure; under pressure recompute
/// where much has come since the checkpoint, and swap where little has.
pub open spec fn decided(
    config: TrapConfig,
    has_checkpoint: bool,
    pressure: Pressure,
    context_len: usize,
    checkpoint_token_count: Option<usize>,
) -> TrapStrategy {
    if !has_checkpoint || pressure != Pressure::AtOrAbove {
        TrapStrategy::Keep
    } else if stale_tokens(context_len, checkpoint_token_count) > config.stale_token_threshold {
        TrapStrategy::Recompute
    } else {
        TrapStrategy::Swap
    }
}

/// Decides by limits.
pub struct TrapHandler {
    pub config: TrapConfig,
}

impl TrapHandler {
    /// A handler with the given limits.
    pub fn new(config: TrapConfig) -> (h: TrapHandler)
        ensures
            h.config == config,
    {
        TrapHandler { config }
    }

    /// The strategy for a trap. `pressure` compares the share of the context limit that is
    /// in use with the threshold.
    pub fn decide(
        &self,
        has_checkpoint: bool,
        pending_calls: usize,
        pressure: Pressure,
        context_len: usize,
        checkpoint_token_count: Option<usize>,
    ) -> (s: TrapStrategy)
        ensures
            s == decided(
                self.config,
                has_checkpoint,
                pressure,
                context_len,
                checkpoint_token_count,
            ),
    {
        if !has_checkpoint {
            return TrapStrategy::Keep;
        }
        if pending_calls <= self.config.keep_max_pending && pressure == Pressure::Below {
            return TrapStrategy::Keep;
        }
        if pressure == Pressure::AtOrAbove {
            let stale: usize = match checkpoint_token_count {
                Some(n) => if n <= context_len {
                    context_len - n
                } else {
                    0
                },
                None => 0,
            };
            if stale > self.config.stale_token_threshold {
                return TrapStrategy::Recompute;
            }
            return TrapStrategy::Swap;
        }
        TrapStrategy::Keep
    }
}

/// How the costs of a trap compare: the time to recompute and the time to swap, each with
/// the time that the calls still take, and with each other.
#[derive(Debug, Clone, Copy, PartialEq, Eq, Structural)]
pub struct CostComparison {
    pub recompute_exceeds_wait: bool,
    pub swap_exceeds_wait: bool,
    pub recompute_at_most_swap: bool,
}

/// Keep where both recomputing and swapping take longer than the wait; else recompute where
/// that takes no longer than swapping; else swap.
pub open spec fn cheapest(c: CostComparison) -> TrapStrategy {
    if c.recompute_exceeds_wait && c.swap_exceeds_wait {
        TrapStrategy::Keep
    } else if c.recompute_at_most_swap {
        TrapStrategy::Recompute
    } else {
        TrapStrategy::Swap
    }
}

/// The strategy that costs the least.
pub fn classify_trap(c: CostComparison) -> (s: TrapStrategy)
    ensures
        s == cheapest(c),
{
    if c.recompute_exceeds_wait && c.swap_exceeds_wait {
        TrapStrategy::Keep
    } else if c.recompute_at_most_swap {
        TrapStrategy::Recompute
    } else {
        TrapStrategy::Swap
    }
}

/// The strategy that costs the least, among those that can be carried out: without a
/// checkpoint the context can only be kept.
pub fn decide_trap(has_checkpoint: bool, c: CostComparison) -> (s: TrapStrategy)
    ensures
        s == (if has_checkpoint {
            cheapest(c)
        } else {
            TrapStrategy::Keep
        }),
{
    if !has_checkpoint {
        return TrapStrategy::Keep;
    }
    classify_trap(c)
}

/// The number of tokens that the cost of a trap goes by: those since the checkpoint, or all
/// of them without one.
pub fn tokens_since_checkpoint(committed_len: Option<usize>, context_len: usize) -> (n: usize)
    ensures
        n == (match committed_len {
            Some(c) => if c <= context_len {
                context_len - c
            } else {
                0
            },
            None => context_len as int,
        }),
{
    match committed_len {
        Some(c) => if c <= context_len {
            context_len - c
        } else {
            0
        },
        None => context_len,
    }
}

/// Without a checkpoint the context is kept, whatever else holds.
pub proof fn no_checkpoint_keeps(
    config: TrapConfig,
    pressure: Pressure,
    context_len: usize,
    checkpoint_token_count: Option<usize>,
)
    ensures
        decided(config, false, pressure, context_len, checkpoint_token_count) == TrapStrategy::Keep,
{
}

/// The number of calls that are out never changes the strategy: with pressure it is not
/// asked for, and without it the context is kept either way.
pub proof fn pending_calls_do_not_matter(
    config: TrapConfig,
    has_checkpoint: bool,
    pressure: Pressure,
    context_len: usize,
    checkpoint_token_count: Option<usize>,
    keep_max_pending: usize,
)
    ensures
        decided(config, has_checkpoint, pressure, context_len, checkpoint_token_count) == decided(
            TrapConfig { keep_max_pending, ..config },
            has_checkpoint,
            pressure,
            context_len,
            checkpoint_token_count,
        ),
{
}

/// The context is given up only where one of the ways back to it takes no longer than the
/// wait.
pub proof fn giving_up_pays(c: CostComparison)
    requires
        cheapest(c) != TrapStrategy::Keep,
    ensures
        !c.recompute_exceeds_wait || !c.swap_exceeds_wait,
        cheapest(c) == TrapStrategy::Recompute <==> c.recompute_at_most_swap,
{
}

} // verus!
