//! What holds of the decisions at a trap, of going back to a checkpoint and of choosing a
//! token.

use vstd::prelude::*;

use crate::checkpoint::{
    added, cuts_committed, cuts_grown, shortened, Checkpoint, CutBack, Resumption,
};
use crate::checkpointing::{trap_done, CheckpointingView};
use crate::coordinator::{
    coordinator_trap_done, cuts_by_rule, recent_after, CheckpointRule, CoordinatorView,
};
use crate::interrupts::result_frames;
use crate::sampler::{
    candidate, first_best, is_ranking, last_heaviest, paired, ranks_before, weight_at,
};
use crate::trap::{
    cheapest, decided, CostComparison, Pressure, TrapConfig, TrapStrategy,
};

verus! {

/// With a checkpoint and under pressure the context is given up: by recomputing exactly where
/// more tokens than the threshold have come since the checkpoint, and else by swapping.
pub proof fn staleness_decides_under_pressure(
    config: TrapConfig,
    context_len: usize,
    at_checkpoint: usize,
)
    ensures
        ({
            let s = decided(config, true, Pressure::AtOrAbove, context_len, Some(at_checkpoint));
            &&& s == TrapStrategy::Recompute <==> context_len - at_checkpoint
                > config.stale_token_threshold
            &&& s == TrapStrategy::Swap <==> context_len - at_checkpoint
                <= config.stale_token_threshold
        }),
{
}

/// Without pressure, or without a checkpoint, the context is kept; and it is kept nowhere
/// else.
pub proof fn kept_without_pressure_or_checkpoint(
    config: TrapConfig,
    has_checkpoint: bool,
    pressure: Pressure,
    context_len: usize,
    at_checkpoint: Option<usize>,
)
    ensures
        decided(config, has_checkpoint, pressure, context_len, at_checkpoint) == TrapStrategy::Keep
            <==> !has_checkpoint || pressure != Pressure::AtOrAbove,
        has_checkpoint && pressure == Pressure::AtOrAbove ==> decided(
            config,
            has_checkpoint,
            pressure,
            context_len,
            None,
        ) == TrapStrategy::Swap,
{
}

/// A context that is recomputed is still recomputed once it has grown, and one that is
/// swapped was swapped when it was shorter.
pub proof fn growing_favours_recomputing(
    config: TrapConfig,
    shorter: usize,
    longer: usize,
    at_checkpoint: usize,
)
    requires
        shorter <= longer,
    ensures
        ({
            let early = decided(config, true, Pressure::AtOrAbove, shorter, Some(at_checkpoint));
            let late = decided(config, true, Pressure::AtOrAbove, longer, Some(at_checkpoint));
            &&& early == TrapStrategy::Recompute ==> late == TrapStrategy::Recompute
            &&& late == TrapStrategy::Swap ==> early == TrapStrategy::Swap
        }),
{
}

/// By cost, the context is kept exactly where both ways back take longer than the wait. Else
/// the quicker of the two is taken, recomputing where they take as long.
pub proof fn the_quicker_way_back_is_taken(c: CostComparison)
    ensures
        cheapest(c) == TrapStrategy::Keep <==> c.recompute_exceeds_wait && c.swap_exceeds_wait,
        cheapest(c) == TrapStrategy::Recompute <==> !(c.recompute_exceeds_wait
            && c.swap_exceeds_wait) && c.recompute_at_most_swap,
        cheapest(c) == TrapStrategy::Swap <==> !(c.recompute_exceeds_wait && c.swap_exceeds_wait)
            && !c.recompute_at_most_swap,
{
}

/// An answer cut back to a length is its beginning, of that length or whole.
pub proof fn cut_answer_is_a_beginning(s: Seq<u32>, more: Seq<u32>, n: usize)
    ensures
        s.len() == n ==> shortened(s + more, n) == s,
        s.len() <= n ==> shortened(s, n) == s,
{
    if s.len() == n {
        assert((s + more).take(n as int) =~= s);
    }
    if s.len() <= n {
        assert(s.len() == n ==> s.take(n as int) =~= s);
    }
}

/// Cutting the committed part back takes off what was committed since the checkpoint, and no
/// more, and ends the mask one past what was committed.
pub proof fn committed_cut_written_out(cut: CutBack, committed: usize, at_save: usize)
    requires
        cuts_committed(cut, committed, at_save),
    ensures
        cut.target == at_save,
        committed >= at_save ==> cut.removed == committed - at_save && cut.mask_end == committed
            + 1,
        committed < at_save ==> cut.removed == 0 && cut.mask_end == at_save + 1,
{
}

/// Cutting back by growth takes off as many tokens as the whole context has grown by.
pub proof fn growth_cut_written_out(
    cut: CutBack,
    committed: usize,
    context_len: usize,
    at_save: usize,
)
    requires
        cuts_grown(cut, committed, context_len, at_save),
    ensures
        context_len >= at_save ==> cut.removed == context_len - at_save,
        context_len < at_save ==> cut.removed == 0,
        cut.removed <= committed ==> cut.target == committed - cut.removed && cut.mask_end
            == committed,
        cut.removed > committed ==> cut.target == 0 && cut.mask_end == cut.removed,
{
}

/// Each rule cuts in its own way.
pub proof fn rules_cut_in_their_own_ways<C>(
    cut: CutBack,
    cp: Checkpoint<C>,
    committed: usize,
    context_len: usize,
)
    ensures
        cuts_by_rule(CheckpointRule::BeforeDelimiter, cut, cp, committed, context_len)
            ==> cut.target == cp.committed_len_at_save && cut.mask_end == cut.target + cut.removed
            + 1,
        cuts_by_rule(CheckpointRule::AtBlock, cut, cp, committed, context_len) ==> cut.mask_end
            == cut.target + cut.removed && (context_len >= cp.token_count_at_save ==> cut.removed
            == context_len - cp.token_count_at_save),
{
}

/// A trap that keeps the context leaves the stream, the answer and the checkpoint alone, adds
/// an interrupt for each result that waits and marks nothing as waiting any more.
pub proof fn keeping_only_injects<C>(
    s: CoordinatorView<C>,
    committed: usize,
    context_len: usize,
    next: CoordinatorView<C>,
    r: Resumption<C>,
)
    requires
        coordinator_trap_done(s, TrapStrategy::Keep, committed, context_len, next, r),
    ensures
        r is Fill,
        added(r) == result_frames(s.interrupts.style, s.interrupts.queue),
        next.generated == s.generated,
        next.checkpoint == s.checkpoint,
        next.grammar == s.grammar && next.place == s.place && next.executor == s.executor,
        next.rule == s.rule && next.config == s.config,
        next.recent == s.recent && next.window == s.window,
        next.interrupts.queue.len() == 0 && !next.interrupts.critical,
        next.interrupts.style == s.interrupts.style,
{
}

/// A trap that gives the context up goes back to the checkpoint: the answer is what it was
/// there, the checkpoint is used up, every result that waits is injected, and all else stays.
/// Swapping hands the fork back; recomputing says how far the context is cut back.
pub proof fn giving_up_goes_back_to_the_checkpoint<C>(
    s: CoordinatorView<C>,
    strategy: TrapStrategy,
    committed: usize,
    context_len: usize,
    next: CoordinatorView<C>,
    r: Resumption<C>,
)
    requires
        strategy == TrapStrategy::Swap || strategy == TrapStrategy::Recompute,
        s.checkpoint is Some,
        coordinator_trap_done(s, strategy, committed, context_len, next, r),
    ensures
        ({
            let cp = s.checkpoint->0;
            &&& strategy == TrapStrategy::Swap ==> (r matches Resumption::Restore { ctx, frames: _ }
                && ctx == cp.ctx)
            &&& strategy == TrapStrategy::Recompute && s.rule == CheckpointRule::BeforeDelimiter
                ==> (r matches Resumption::Shorten { cut, frames: _ } && cut.target
                == cp.committed_len_at_save && (committed >= cut.target ==> cut.removed == committed
                - cut.target))
            &&& strategy == TrapStrategy::Recompute && s.rule == CheckpointRule::AtBlock ==> (
            r matches Resumption::Shorten { cut, frames: _ } && (context_len
                >= cp.token_count_at_save ==> cut.removed == context_len - cp.token_count_at_save))
            &&& cp.generated_len_at_save <= s.generated.len() ==> next.generated
                == s.generated.take(cp.generated_len_at_save as int)
            &&& cp.generated_len_at_save > s.generated.len() ==> next.generated == s.generated
            &&& added(r) == result_frames(s.interrupts.style, s.interrupts.queue)
            &&& next.checkpoint is None
            &&& next.grammar == s.grammar && next.place == s.place && next.executor == s.executor
            &&& next.rule == s.rule && next.config == s.config
            &&& next.recent == s.recent && next.window == s.window
            &&& next.interrupts.queue.len() == 0 && !next.interrupts.critical
        }),
{
}

/// Without a checkpoint the context cannot be given up: nothing happens.
pub proof fn nothing_to_go_back_to<C>(
    s: CoordinatorView<C>,
    strategy: TrapStrategy,
    committed: usize,
    context_len: usize,
    next: CoordinatorView<C>,
    r: Resumption<C>,
)
    requires
        strategy != TrapStrategy::Keep,
        s.checkpoint is None,
        coordinator_trap_done(s, strategy, committed, context_len, next, r),
    ensures
        next == s,
        r is Unchanged,
{
}

/// A trap of a session that checkpoints before blocks ends the same way, but for the
/// checkpoint, which keeping the context uses up as well.
pub proof fn checkpointing_trap_written_out<C>(
    s: CheckpointingView<C>,
    strategy: TrapStrategy,
    committed: usize,
    next: CheckpointingView<C>,
    r: Resumption<C>,
)
    requires
        trap_done(s, strategy, committed, next, r),
    ensures
        strategy == TrapStrategy::Keep ==> r is Fill && next.flow.generated == s.flow.generated,
        strategy != TrapStrategy::Keep && s.checkpoint is None ==> r is Unchanged && next == s,
        s.checkpoint matches Some(cp) ==> {
            &&& strategy == TrapStrategy::Swap ==> (r matches Resumption::Restore { ctx, frames: _ }
                && ctx == cp.ctx)
            &&& strategy == TrapStrategy::Recompute ==> (r matches Resumption::Shorten {
                cut,
                frames: _,
            } && cut.target == cp.committed_len_at_save && (committed >= cut.target ==> cut.removed
                == committed - cut.target))
            &&& strategy != TrapStrategy::Keep && cp.generated_len_at_save
                <= s.flow.generated.len() ==> next.flow.generated == s.flow.generated.take(
                cp.generated_len_at_save as int,
            )
        },
        strategy == TrapStrategy::Keep || s.checkpoint is Some ==> {
            &&& added(r) == result_frames(s.flow.interrupts.style, s.flow.interrupts.queue)
            &&& next.checkpoint is None
            &&& next.flow.interrupts.queue.len() == 0 && !next.flow.interrupts.critical
            &&& next.flow.pending == s.flow.pending && next.flow.wait_ms == s.flow.wait_ms
            &&& next.parser == s.parser && next.enabled == s.enabled
            &&& next.steps == s.steps && next.max_steps == s.max_steps
        },
{
}

/// The window holds the last tokens of the stream, as many as it may: until it is full none
/// leaves, and then only the oldest.
pub proof fn window_is_full_before_it_drops(recent: Seq<u32>, window: usize, t: u32)
    requires
        recent.len() <= window,
    ensures
        recent.len() < window ==> recent_after(recent, window, t) == recent.push(t),
        recent.len() == window ==> recent_after(recent, window, t) == recent.push(t).skip(1),
{
    assert(recent.push(t).skip(1) =~= recent.push(t).drop_first());
}

/// The token chosen is not suppressed, no other that is not suppressed is more likely, and
/// none before it is as likely.
pub proof fn choice_written_out(
    ids: Seq<u32>,
    weights: Seq<u32>,
    suppressed: Set<u32>,
    n: nat,
    i: int,
    other: int,
)
    requires
        first_best(ids, weights, suppressed, n, i),
    ensures
        0 <= i < n,
        !suppressed.contains(ids[i]),
        0 <= other < n && !suppressed.contains(ids[other]) ==> weights[other] <= weights[i],
        0 <= other < i && !suppressed.contains(ids[other]) ==> weights[other] < weights[i],
{
    if 0 <= other < n && !suppressed.contains(ids[other]) {
        assert(candidate(ids, suppressed, n, other));
    }
}

/// A token may be chosen exactly where it is not suppressed.
pub proof fn candidates_are_not_suppressed(ids: Seq<u32>, suppressed: Set<u32>, n: nat, i: int)
    ensures
        candidate(ids, suppressed, n, i) <==> 0 <= i < n && !suppressed.contains(ids[i]),
{
}

/// As many positions count as both lists have.
pub proof fn pairs_are_as_many_as_the_shorter_list(a: nat, b: nat)
    ensures
        paired(a, b) <= a,
        paired(a, b) <= b,
        paired(a, b) == a || paired(a, b) == b,
{
}

/// A suppressed token weighs nothing and any other what it weighed.
pub proof fn suppressed_tokens_weigh_nothing(
    ids: Seq<u32>,
    weights: Seq<u32>,
    suppressed: Set<u32>,
    i: int,
)
    ensures
        suppressed.contains(ids[i]) ==> weight_at(ids, weights, suppressed, i) == 0,
        !suppressed.contains(ids[i]) ==> weight_at(ids, weights, suppressed, i) == weights[i],
{
}

/// In a ranking no position comes before a heavier one, equals keep their order, and every
/// position stands in it once.
pub proof fn ranking_written_out(w: Seq<u32>, order: Seq<usize>, j: int, k: int)
    requires
        is_ranking(w, order, w.len()),
        0 <= j < k < w.len(),
    ensures
        order.len() == w.len(),
        order[j] < w.len() && order[k] < w.len(),
        order[j] != order[k],
        w[order[j] as int] >= w[order[k] as int],
        w[order[j] as int] == w[order[k] as int] ==> order[j] < order[k],
{
    assert(ranks_before(w, order[j] as int, order[k] as int));
}

/// Of the positions before the cutoff the one chosen is as heavy as the first, and the last
/// that is.
pub proof fn last_of_the_heaviest_is_chosen(
    w: Seq<u32>,
    order: Seq<usize>,
    cutoff: int,
    k: int,
    other: int,
)
    requires
        is_ranking(w, order, w.len()),
        0 < cutoff <= w.len(),
        last_heaviest(w, order, cutoff, k),
        0 <= other < cutoff,
    ensures
        0 <= k < cutoff,
        w[order[other] as int] <= w[order[k] as int],
        other > k ==> w[order[other] as int] < w[order[k] as int],
{
    if other > 0 {
        assert(ranks_before(w, order[0] as int, order[other] as int));
    }
}

} // verus!
