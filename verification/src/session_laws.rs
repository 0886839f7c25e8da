//! What sessions make of the signals of their parsers, and of the calls and results that come
//! in between.

use vstd::prelude::*;
use vstd::string::*;

use crate::blocks::block_step;
use crate::broadcast::{broadcast_effect, BroadcastView, RequestView};
use crate::call_laws::tokens_among_signals;
use crate::checkpointing::{checkpointing_effect, CheckpointingView};
use crate::cml::{cml_run, cml_step, CmlCore, CmlGrammar};
use crate::codec::TokenCodec;
use crate::coordinator::{coordinator_effect, CheckpointRule, CoordinatorView, OrderView};
use crate::executor::CallView;
use crate::flow::{flow_effect, flow_polled, flow_released, fresh_flow, FlowView};
use crate::interruptible::{block_run, fourfold, open_seam, InterruptibleView};
use crate::interrupts::{result_frames, FrameStyle, InterruptView};
use crate::machine::{feed_step, run, step, Core, Grammar, Machine, Signal, State};
use crate::overlap::{fresh_overlap, overlap_effect, overlap_polled, OverlapView};
use crate::parallel::{absorb, absorb_tokens, batch_text, calls_of, ParallelView};
use crate::seam_laws::{broadcast_run, coordinator_run, flow_run};
use crate::session::{results_of, still_out, tokens_of, Action, PendingView};
use crate::tools::tool_result;

verus! {

broadcast use vstd::string::group_string_axioms;

/// The calls among signals are those of each part, a call gives itself, and nothing else gives
/// a call.
pub proof fn calls_among_signals(
    a: Seq<Signal>,
    b: Seq<Signal>,
    s: Signal,
    id: Seq<char>,
    code: Seq<char>,
)
    ensures
        calls_of(a + b) == calls_of(a) + calls_of(b),
        calls_of(seq![Signal::Call { id, code }]) == seq![(id, code)],
        !(s is Call) ==> calls_of(seq![s]).len() == 0,
        calls_of(Seq::empty()).len() == 0,
    decreases a.len(),
{
    reveal_with_fuel(calls_of, 2);
    let one = seq![Signal::Call { id, code }];
    assert(one.drop_first() =~= Seq::empty());
    assert(one[0] == Signal::Call { id, code });
    assert(seq![(id, code)] + Seq::<(Seq<char>, Seq<char>)>::empty() =~= seq![(id, code)]);
    assert(seq![s].drop_first() =~= Seq::empty());
    assert(seq![s][0] == s);
    if a.len() == 0 {
        assert(a + b =~= b);
        assert(calls_of(a) + calls_of(b) =~= calls_of(b));
    } else {
        calls_among_signals(a.drop_first(), b, s, id, code);
        assert((a + b).drop_first() =~= a.drop_first() + b);
        assert((a + b)[0] == a[0]);
        if let Signal::Call { id: i, code: c } = a[0] {
            assert(seq![(i, c)] + (calls_of(a.drop_first()) + calls_of(b)) =~= (seq![(i, c)]
                + calls_of(a.drop_first())) + calls_of(b));
        }
    }
}

/// Until a trap, text is written on and calls queue up, whatever waits already: every token
/// is in the answer and every call in the queue, in order, and nothing else changes.
pub proof fn text_is_written_on_while_calls_wait(s: ParallelView, out: Seq<Signal>)
    requires
        forall|i: int| 0 <= i < out.len() ==> #[trigger] out[i] != Signal::Trap,
    ensures
        absorb(s, out).1 is None,
        absorb(s, out).0.generated == s.generated + tokens_of(out),
        absorb(s, out).0.pending == s.pending + calls_of(out),
        absorb(s, out).0.machine == s.machine,
        absorb(s, out).0.flush_next == s.flush_next,
        absorb(s, out).0.tail == s.tail,
    decreases out.len(),
{
    if out.len() == 0 {
        assert(s.generated + tokens_of(out) =~= s.generated);
        assert(s.pending + calls_of(out) =~= s.pending);
    } else {
        let rest = out.drop_first();
        let first = out[0];
        assert(out[0] != Signal::Trap);
        assert forall|i: int| 0 <= i < rest.len() implies #[trigger] rest[i] != Signal::Trap by {
            assert(rest[i] == out[i + 1]);
        }
        assert(out =~= seq![first] + rest);
        tokens_among_signals(seq![first], rest, first, 0);
        let none = Seq::<Signal>::empty();
        match first {
            Signal::Token(t) => {
                tokens_among_signals(none, none, first, t);
                let next = ParallelView { generated: s.generated.push(t), ..s };
                text_is_written_on_while_calls_wait(next, rest);
                assert(next.generated + tokens_of(rest) =~= s.generated + (seq![t] + tokens_of(
                    rest,
                )));
            },
            Signal::Call { id, code } => {
                let next = ParallelView { pending: s.pending.push((id, code)), ..s };
                text_is_written_on_while_calls_wait(next, rest);
                assert(next.pending + calls_of(rest) =~= s.pending + (seq![(id, code)] + calls_of(
                    rest,
                )));
                assert(tokens_of(seq![first]) + tokens_of(rest) =~= tokens_of(rest));
            },
            _ => {
                text_is_written_on_while_calls_wait(s, rest);
                assert(tokens_of(seq![first]) + tokens_of(rest) =~= tokens_of(rest));
            },
        }
    }
}

/// Signals are taken one after another, up to the trap that takes a batch; what comes after it
/// is dropped.
pub proof fn signals_are_taken_in_order(s: ParallelView, a: Seq<Signal>, b: Seq<Signal>)
    ensures
        absorb(s, a).1 is Some ==> absorb(s, a + b) == absorb(s, a),
        absorb(s, a).1 is None ==> absorb(s, a + b) == absorb(absorb(s, a).0, b),
    decreases a.len(),
{
    if a.len() == 0 {
        assert(a + b =~= b);
    } else {
        let rest = a.drop_first();
        assert((a + b).drop_first() =~= rest + b);
        assert((a + b)[0] == a[0]);
        match a[0] {
            Signal::Token(t) => {
                signals_are_taken_in_order(
                    ParallelView { generated: s.generated.push(t), ..s },
                    rest,
                    b,
                );
            },
            Signal::Call { id, code } => {
                signals_are_taken_in_order(
                    ParallelView { pending: s.pending.push((id, code)), ..s },
                    rest,
                    b,
                );
            },
            _ => {
                signals_are_taken_in_order(s, rest, b);
            },
        }
    }
}

/// The first trap at which calls wait takes all of them, in order. All text up to it is in the
/// answer, and nothing after it.
pub proof fn trap_takes_the_batch_and_keeps_the_text(
    s: ParallelView,
    out: Seq<Signal>,
    after: Seq<Signal>,
)
    requires
        forall|i: int| 0 <= i < out.len() ==> #[trigger] out[i] != Signal::Trap,
        s.pending.len() + calls_of(out).len() > 0,
    ensures
        ({
            let (next, batch) = absorb(s, out + seq![Signal::Trap] + after);
            &&& batch == Some(s.pending + calls_of(out))
            &&& next.generated == s.generated + tokens_of(out)
            &&& next.pending.len() == 0
            &&& next.machine == s.machine && next.flush_next == s.flush_next && next.tail == s.tail
        }),
{
    text_is_written_on_while_calls_wait(s, out);
    let mid = absorb(s, out).0;
    let tail = seq![Signal::Trap] + after;
    assert(out + seq![Signal::Trap] + after =~= out + tail);
    signals_are_taken_in_order(s, out, tail);
    assert(tail[0] == Signal::Trap);
}

/// A trap at which no call waits is as if it had not been.
pub proof fn trap_without_calls_is_passed_over(s: ParallelView, after: Seq<Signal>)
    requires
        s.pending.len() == 0,
    ensures
        absorb(s, seq![Signal::Trap] + after) == absorb(s, after),
{
    let all = seq![Signal::Trap] + after;
    assert(all[0] == Signal::Trap);
    assert(all.drop_first() =~= after);
}

/// The tokens of a step are parsed one after another, each as the parser takes it, up to the
/// trap that takes a batch; the others are dropped.
pub proof fn tokens_are_taken_in_order(
    codec: TokenCodec,
    s: ParallelView,
    a: Seq<u32>,
    b: Seq<u32>,
    t: u32,
)
    ensures
        absorb_tokens(codec, s, Seq::empty()) == (s, None::<Seq<(Seq<char>, Seq<char>)>>),
        absorb_tokens(codec, s, seq![t]) == absorb(
            ParallelView { machine: feed_step(codec, s.machine, t).0, ..s },
            feed_step(codec, s.machine, t).1,
        ),
        absorb_tokens(codec, s, a).1 is Some ==> absorb_tokens(codec, s, a + b) == absorb_tokens(
            codec,
            s,
            a,
        ),
        absorb_tokens(codec, s, a).1 is None ==> absorb_tokens(codec, s, a + b) == absorb_tokens(
            codec,
            absorb_tokens(codec, s, a).0,
            b,
        ),
    decreases a.len(),
{
    reveal_with_fuel(absorb_tokens, 2);
    assert(seq![t].drop_first() =~= Seq::empty());
    assert(seq![t][0] == t);
    if a.len() == 0 {
        assert(a + b =~= b);
    } else {
        let (machine, out) = feed_step(codec, s.machine, a[0]);
        let next = absorb(ParallelView { machine, ..s }, out).0;
        assert((a + b).drop_first() =~= a.drop_first() + b);
        assert((a + b)[0] == a[0]);
        tokens_are_taken_in_order(codec, next, a.drop_first(), b, t);
    }
}

/// The interrupts of a batch are those of its calls, one after another, each with what the
/// tool says of the call's code.
pub proof fn batch_is_answered_call_by_call(
    a: Seq<(Seq<char>, Seq<char>)>,
    b: Seq<(Seq<char>, Seq<char>)>,
    id: Seq<char>,
    code: Seq<char>,
)
    ensures
        batch_text(a + b) == batch_text(a) + batch_text(b),
        batch_text(seq![(id, code)]) == " [INTR] "@ + id + " [HEAD] "@ + tool_result(code)
            + " [END] "@,
        batch_text(Seq::empty()).len() == 0,
    decreases b.len(),
{
    reveal_with_fuel(batch_text, 2);
    let one = seq![(id, code)];
    assert(one.drop_last() =~= Seq::empty());
    assert(one.last() == (id, code));
    let text = " [INTR] "@ + id + " [HEAD] "@ + tool_result(code) + " [END] "@;
    assert(batch_text(one) =~= text);
    if b.len() == 0 {
        assert(a + b =~= a);
        assert(batch_text(a) + batch_text(b) =~= batch_text(a));
    } else {
        batch_is_answered_call_by_call(a, b.drop_last(), id, code);
        assert((a + b).drop_last() =~= a + b.drop_last());
        assert((a + b).last() == b.last());
        assert(batch_text(a + b) =~= batch_text(a) + batch_text(b));
    }
}

/// What a flow asks for: a call has started, a checkpoint is due or a trap has come exactly
/// where the signal says so.
pub proof fn flow_asks_by_the_signal(s: FlowView, e: Signal)
    ensures
        flow_effect(s, e).1 == Action::Started <==> e is Call,
        flow_effect(s, e).1 == Action::Trap <==> e is Trap,
        flow_effect(s, e).1 == Action::Checkpoint <==> e is Hint,
        flow_effect(s, e).1 == Action::Continue <==> e is Token || e is Enter || e is Exit,
{
}

/// A flow keeps every token and every call, in order, whatever waits and whether or not a
/// block is open; signals touch no result.
pub proof fn flow_keeps_text_and_calls(s: FlowView, out: Seq<Signal>)
    ensures
        ({
            let after = flow_run(s, out);
            &&& after.generated == s.generated + tokens_of(out)
            &&& after.pending == s.pending + calls_of(out).map_values(
                |c: (Seq<char>, Seq<char>)| PendingView { id: c.0, code: c.1, wait_ms: s.wait_ms },
            )
            &&& after.interrupts == (InterruptView {
                critical: after.interrupts.critical,
                ..s.interrupts
            })
            &&& after.wait_ms == s.wait_ms
        }),
    decreases out.len(),
{
    let started = |c: (Seq<char>, Seq<char>)|
        PendingView { id: c.0, code: c.1, wait_ms: s.wait_ms };
    if out.len() == 0 {
        assert(s.generated + tokens_of(out) =~= s.generated);
        assert(s.pending + calls_of(out).map_values(started) =~= s.pending);
    } else {
        let init = out.drop_last();
        let last = out.last();
        flow_keeps_text_and_calls(s, init);
        lemma_last_signal(out);
        let before = flow_run(s, init);
        if let Signal::Token(t) = last {
            assert(before.generated.push(t) =~= s.generated + tokens_of(out));
        }
        if let Signal::Call { id, code } = last {
            let p = PendingView { id, code, wait_ms: s.wait_ms };
            assert(before.pending.push(p) =~= s.pending + calls_of(out).map_values(started));
        }
    }
}

/// What the last of several signals adds.
proof fn lemma_last_signal(out: Seq<Signal>)
    requires
        out.len() > 0,
    ensures
        out.last() matches Signal::Token(t) ==> tokens_of(out) == tokens_of(out.drop_last()).push(t)
            && calls_of(out) == calls_of(out.drop_last()),
        out.last() matches Signal::Call { id, code } ==> tokens_of(out) == tokens_of(
            out.drop_last(),
        ) && calls_of(out) == calls_of(out.drop_last()).push((id, code)),
        !(out.last() is Token) && !(out.last() is Call) ==> tokens_of(out) == tokens_of(
            out.drop_last(),
        ) && calls_of(out) == calls_of(out.drop_last()),
{
    let init = out.drop_last();
    let last = out.last();
    assert(out =~= init + seq![last]);
    let (id, code) = match last {
        Signal::Call { id, code } => (id, code),
        _ => (Seq::empty(), Seq::empty()),
    };
    let t = match last {
        Signal::Token(t) => t,
        _ => 0,
    };
    calls_among_signals(init, seq![last], last, id, code);
    tokens_among_signals(init, seq![last], last, t);
    assert(tokens_of(init) + seq![t] =~= tokens_of(init).push(t));
    assert(calls_of(init) + seq![(id, code)] =~= calls_of(init).push((id, code)));
    assert(tokens_of(init) + Seq::<u32>::empty() =~= tokens_of(init));
    assert(calls_of(init) + Seq::<(Seq<char>, Seq<char>)>::empty() =~= calls_of(init));
    if !(last is Token) {
        assert(tokens_of(seq![last]) =~= Seq::empty());
    }
    if !(last is Call) {
        assert(calls_of(seq![last]) =~= Seq::empty());
    }
}

/// Polling a flow moves the calls that are ready to the end of the queue of results and
/// touches nothing else.
pub proof fn flow_polling_written_out(s: FlowView, ready: Seq<bool>)
    ensures
        ({
            let after = flow_polled(s, ready);
            &&& after.generated == s.generated
            &&& after.wait_ms == s.wait_ms
            &&& after.pending == still_out(s.pending, ready)
            &&& after.interrupts.queue == s.interrupts.queue + results_of(s.pending, ready)
            &&& after.interrupts.style == s.interrupts.style
            &&& after.interrupts.injected == s.interrupts.injected
            &&& after.interrupts.critical == s.interrupts.critical
        }),
{
}

/// The end of a trap lets every result through, in order, and touches neither the answer nor
/// the calls that are out.
pub proof fn flow_release_written_out(s: FlowView)
    ensures
        ({
            let (after, frames) = flow_released(s);
            &&& frames == result_frames(s.interrupts.style, s.interrupts.queue)
            &&& after.interrupts.queue.len() == 0
            &&& !after.interrupts.critical
            &&& after.interrupts.style == s.interrupts.style
            &&& after.generated == s.generated
            &&& after.pending == s.pending
            &&& after.wait_ms == s.wait_ms
        }),
{
}

/// A new session has nothing behind it.
pub proof fn new_sessions_are_empty(machine: Machine, wait_ms: u64)
    ensures
        fresh_flow(wait_ms).generated.len() == 0,
        fresh_flow(wait_ms).pending.len() == 0,
        fresh_flow(wait_ms).interrupts.queue.len() == 0,
        fresh_flow(wait_ms).interrupts.injected == Set::<Seq<char>>::empty(),
        fresh_flow(wait_ms).interrupts.style == FrameStyle::Spaced,
        !fresh_flow(wait_ms).interrupts.critical,
        fresh_flow(wait_ms).wait_ms == wait_ms,
        fresh_overlap(machine, wait_ms) == (OverlapView {
            machine,
            generated: Seq::empty(),
            pending: Seq::empty(),
            frames: Seq::empty(),
            wait_ms,
            flush_next: false,
            tail: None,
        }),
{
}

/// Signals, one after another, as a session that writes on while calls run takes them.
pub open spec fn overlap_run(s: OverlapView, out: Seq<Signal>) -> OverlapView
    decreases out.len(),
{
    if out.len() == 0 {
        s
    } else {
        overlap_effect(overlap_run(s, out.drop_last()), out.last()).0
    }
}

/// A session that writes on while calls run keeps every token and every call, in order, and
/// signals change nothing else; it asks by the signal.
pub proof fn overlap_keeps_text_and_calls(s: OverlapView, out: Seq<Signal>, e: Signal)
    ensures
        ({
            let after = overlap_run(s, out);
            &&& after.generated == s.generated + tokens_of(out)
            &&& after.pending == s.pending + calls_of(out).map_values(
                |c: (Seq<char>, Seq<char>)| PendingView { id: c.0, code: c.1, wait_ms: s.wait_ms },
            )
            &&& after.frames == s.frames && after.machine == s.machine
            &&& after.wait_ms == s.wait_ms && after.flush_next == s.flush_next && after.tail
                == s.tail
        }),
        overlap_effect(s, e).1 == Action::Started <==> e is Call,
        overlap_effect(s, e).1 == Action::Trap <==> e is Trap,
        overlap_effect(s, e).1 != Action::Checkpoint,
    decreases out.len(),
{
    let started = |c: (Seq<char>, Seq<char>)|
        PendingView { id: c.0, code: c.1, wait_ms: s.wait_ms };
    if out.len() == 0 {
        assert(s.generated + tokens_of(out) =~= s.generated);
        assert(s.pending + calls_of(out).map_values(started) =~= s.pending);
    } else {
        let init = out.drop_last();
        let last = out.last();
        overlap_keeps_text_and_calls(s, init, e);
        lemma_last_signal(out);
        let before = overlap_run(s, init);
        if let Signal::Token(t) = last {
            assert(before.generated.push(t) =~= s.generated + tokens_of(out));
        }
        if let Signal::Call { id, code } = last {
            let p = PendingView { id, code, wait_ms: s.wait_ms };
            assert(before.pending.push(p) =~= s.pending + calls_of(out).map_values(started));
        }
    }
}

/// Polling turns the calls that are ready into interrupts behind those that wait already.
pub proof fn overlap_polling_written_out(s: OverlapView, ready: Seq<bool>)
    ensures
        ({
            let after = overlap_polled(s, ready);
            &&& after.pending == still_out(s.pending, ready)
            &&& after.frames == s.frames + result_frames(
                FrameStyle::Spaced,
                results_of(s.pending, ready),
            )
            &&& after.generated == s.generated && after.machine == s.machine
            &&& after.wait_ms == s.wait_ms && after.flush_next == s.flush_next && after.tail
                == s.tail
        }),
{
}

/// A session that checkpoints asks as its flow does, but for a checkpoint only where they are
/// enabled and there is none.
pub proof fn checkpoints_are_asked_for_once<C>(s: CheckpointingView<C>, e: Signal)
    ensures
        ({
            let (after, action) = checkpointing_effect(s, e);
            &&& action == Action::Checkpoint <==> e is Hint && s.enabled && s.checkpoint is None
            &&& action == Action::Started <==> e is Call
            &&& action == Action::Trap <==> e is Trap
            &&& after.flow == flow_effect(s.flow, e).0
            &&& after.parser == s.parser && after.checkpoint == s.checkpoint
            &&& after.enabled == s.enabled && after.steps == s.steps && after.max_steps
                == s.max_steps
        }),
{
}

/// A session whose calls go out by message keeps every token, in order, and its results, and
/// sends out a call, under its id, exactly where one has come.
pub proof fn broadcast_keeps_text_and_sends_calls(
    s: BroadcastView,
    out: Seq<Signal>,
    id: Seq<char>,
    code: Seq<char>,
    e: Signal,
)
    ensures
        broadcast_run(s, out).generated == s.generated + tokens_of(out),
        broadcast_run(s, out).grammar == s.grammar,
        broadcast_run(s, out).executor.completed == s.executor.completed,
        broadcast_run(s, out).interrupts == (InterruptView {
            critical: broadcast_run(s, out).interrupts.critical,
            ..s.interrupts
        }),
        ({
            let (after, request) = broadcast_effect(s, Signal::Call { id, code });
            &&& request == RequestView::Send(id + "|"@ + code)
            &&& after.executor.pending == s.executor.pending.insert(
                id,
                CallView { id, code, dispatch_token_count: 0 },
            )
        }),
        broadcast_effect(s, e).1 is Send <==> e is Call,
        broadcast_effect(s, e).1 == RequestView::Trap <==> e is Trap,
        !(e is Call) ==> broadcast_effect(s, e).0.executor == s.executor,
    decreases out.len(),
{
    if out.len() == 0 {
        assert(s.generated + tokens_of(out) =~= s.generated);
    } else {
        let init = out.drop_last();
        broadcast_keeps_text_and_sends_calls(s, init, id, code, e);
        lemma_last_signal(out);
        if let Signal::Token(t) = out.last() {
            assert(broadcast_run(s, init).generated.push(t) =~= s.generated + tokens_of(out));
        }
    }
}

/// A coordinator does the same, takes note of how long the context was when a call went out,
/// and asks for a checkpoint exactly where a block starts, its rule says so and there is none.
pub proof fn coordinator_keeps_text_and_sends_calls<C>(
    s: CoordinatorView<C>,
    out: Seq<Signal>,
    context_len: usize,
    id: Seq<char>,
    code: Seq<char>,
    e: Signal,
)
    ensures
        ({
            let after = coordinator_run(s, out, context_len);
            &&& after.generated == s.generated + tokens_of(out)
            &&& after.grammar == s.grammar && after.place == s.place
            &&& after.executor.completed == s.executor.completed
            &&& after.interrupts == (InterruptView {
                critical: after.interrupts.critical,
                ..s.interrupts
            })
            &&& after.checkpoint == s.checkpoint && after.rule == s.rule && after.config == s.config
            &&& after.recent == s.recent && after.window == s.window
        }),
        ({
            let (after, order) = coordinator_effect(s, Signal::Call { id, code }, context_len);
            &&& order == OrderView::Send(id + "|"@ + code)
            &&& after.executor.pending == s.executor.pending.insert(
                id,
                CallView { id, code, dispatch_token_count: context_len as nat },
            )
        }),
        coordinator_effect(s, e, context_len).1 is Send <==> e is Call,
        coordinator_effect(s, e, context_len).1 == OrderView::Trap <==> e is Trap,
        coordinator_effect(s, e, context_len).1 == OrderView::Checkpoint <==> e is Enter && s.rule
            == CheckpointRule::AtBlock && s.checkpoint is None,
        !(e is Call) ==> coordinator_effect(s, e, context_len).0.executor == s.executor,
    decreases out.len(),
{
    if out.len() == 0 {
        assert(s.generated + tokens_of(out) =~= s.generated);
    } else {
        let init = out.drop_last();
        coordinator_keeps_text_and_sends_calls(s, init, context_len, id, code, e);
        lemma_last_signal(out);
        if let Signal::Token(t) = out.last() {
            assert(coordinator_run(s, init, context_len).generated.push(t) =~= s.generated
                + tokens_of(out));
        }
    }
}

/// Interrupts are held back from the announcement of a block to that of its end: no other
/// signal changes that, in any session, nor where the stream stands.
pub proof fn only_announcements_hold_back<C>(
    f: FlowView,
    b: BroadcastView,
    c: CoordinatorView<C>,
    context_len: usize,
    e: Signal,
)
    ensures
        e is Enter ==> flow_effect(f, e).0.interrupts.critical && broadcast_effect(
            b,
            e,
        ).0.interrupts.critical && coordinator_effect(c, e, context_len).0.interrupts.critical,
        e is Exit ==> !flow_effect(f, e).0.interrupts.critical && !broadcast_effect(
            b,
            e,
        ).0.interrupts.critical && !coordinator_effect(c, e, context_len).0.interrupts.critical,
        !(e is Enter) && !(e is Exit) ==> flow_effect(f, e).0.interrupts == f.interrupts
            && broadcast_effect(b, e).0.interrupts == b.interrupts && coordinator_effect(
            c,
            e,
            context_len,
        ).0.interrupts == c.interrupts,
        broadcast_effect(b, e).0.place == b.place,
        coordinator_effect(c, e, context_len).0.place == c.place,
{
}

/// Tokens that are fed one after another are each taken as a single one is.
pub proof fn feeding_one_token(
    g: Grammar,
    codec: TokenCodec,
    core: Core,
    m: Machine,
    spelled: CmlGrammar,
    place: CmlCore,
    t: u32,
)
    ensures
        run(g, codec, core, seq![t]) == step(g, codec, core, t),
        block_run(codec, m, seq![t]) == block_step(codec, m, t),
        cml_run(spelled, codec, place, seq![t]) == cml_step(spelled, codec, place, t),
{
    let one = seq![t];
    assert(one.drop_last() =~= Seq::empty());
    assert(one.last() == t);
    reveal_with_fuel(run, 2);
    reveal_with_fuel(block_run, 2);
    reveal_with_fuel(cml_run, 2);
    let none = Seq::<Signal>::empty();
    assert(none + step(g, codec, core, t).1 =~= step(g, codec, core, t).1);
    assert(none + block_step(codec, m, t).1 =~= block_step(codec, m, t).1);
    assert(none + cml_step(spelled, codec, place, t).1 =~= cml_step(spelled, codec, place, t).1);
}

/// Feeding one sequence after another to a parser that announces blocks is feeding both at
/// once.
pub proof fn block_run_append(codec: TokenCodec, m: Machine, a: Seq<u32>, b: Seq<u32>)
    ensures
        ({
            let first = block_run(codec, m, a);
            let second = block_run(codec, first.0, b);
            block_run(codec, m, a + b) == (second.0, first.1 + second.1)
        }),
        block_run(codec, m, Seq::empty()) == (m, Seq::<Signal>::empty()),
    decreases b.len(),
{
    let first = block_run(codec, m, a);
    if b.len() == 0 {
        assert(a + b =~= a);
        assert(first.1 + Seq::<Signal>::empty() =~= first.1);
    } else {
        block_run_append(codec, m, a, b.drop_last());
        assert((a + b).drop_last() =~= a + b.drop_last());
        assert((a + b).last() == b.last());
        let mid = block_run(codec, first.0, b.drop_last());
        let last = block_step(codec, mid.0, b.last());
        assert((first.1 + mid.1) + last.1 =~= first.1 + (mid.1 + last.1));
    }
}

/// Interrupts may come in between two steps exactly where no block is announced and the
/// stream stands in ordinary text with nothing held back.
pub proof fn seam_written_out(s: InterruptibleView)
    ensures
        open_seam(s) <==> !s.flow.interrupts.critical && s.machine.core.state == State::Normal
            && s.machine.core.buf.len() == 0,
{
}

/// Four times a number, as far as it can be told.
pub proof fn fourfold_is_four_times(n: usize)
    ensures
        n + n + n + n <= usize::MAX ==> fourfold(n) == n + n + n + n,
        n + n + n + n > usize::MAX ==> fourfold(n) == usize::MAX,
{
}

} // verus!
