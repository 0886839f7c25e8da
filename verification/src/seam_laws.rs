//! When interrupts may come in and checkpoints are made, over whole steps.

use vstd::prelude::*;

use crate::blocks::{
    block_step, hint_due, hint_step, opens_block, starts_block, Hinting,
};
use crate::broadcast::{broadcast_effect, BroadcastView};
use crate::cml::{cml_step, CmlState};
use crate::cml_laws::{announcements_track_the_block, critical_after, crossings_track_the_block};
use crate::codec::TokenCodec;
use crate::coordinator::{coordinator_effect, CoordinatorView};
use crate::flow::{flow_effect, FlowView};
use crate::interrupts::drained;
use crate::laws::reads_in_text;
use crate::machine::{
    feed_step, passed, shown, stripped, Core, Machine, Signal, State,
};
use crate::pattern::{starts, Delim};

verus! {

/// What signals do to a flow, one after another.
pub open spec fn flow_run(s: FlowView, out: Seq<Signal>) -> FlowView
    decreases out.len(),
{
    if out.len() == 0 {
        s
    } else {
        flow_effect(flow_run(s, out.drop_last()), out.last()).0
    }
}

/// What signals do to a session whose calls go out by message, one after another.
pub open spec fn broadcast_run(s: BroadcastView, out: Seq<Signal>) -> BroadcastView
    decreases out.len(),
{
    if out.len() == 0 {
        s
    } else {
        broadcast_effect(broadcast_run(s, out.drop_last()), out.last()).0
    }
}

/// What signals do to a coordinator, one after another.
pub open spec fn coordinator_run<C>(s: CoordinatorView<C>, out: Seq<Signal>, context_len: usize) -> CoordinatorView<C>
    decreases out.len(),
{
    if out.len() == 0 {
        s
    } else {
        coordinator_effect(
            coordinator_run(s, out.drop_last(), context_len),
            out.last(),
            context_len,
        ).0
    }
}

proof fn lemma_flow_flag(s: FlowView, out: Seq<Signal>)
    ensures
        flow_run(s, out).interrupts.critical == critical_after(s.interrupts.critical, out),
    decreases out.len(),
{
    if out.len() > 0 {
        lemma_flow_flag(s, out.drop_last());
    }
}

proof fn lemma_broadcast_flag(s: BroadcastView, out: Seq<Signal>)
    ensures
        broadcast_run(s, out).interrupts.critical == critical_after(s.interrupts.critical, out),
        broadcast_run(s, out).place == s.place,
    decreases out.len(),
{
    if out.len() > 0 {
        lemma_broadcast_flag(s, out.drop_last());
    }
}

proof fn lemma_coordinator_flag<C>(s: CoordinatorView<C>, out: Seq<Signal>, context_len: usize)
    ensures
        coordinator_run(s, out, context_len).interrupts.critical == critical_after(
            s.interrupts.critical,
            out,
        ),
        coordinator_run(s, out, context_len).place == s.place,
    decreases out.len(),
{
    if out.len() > 0 {
        lemma_coordinator_flag(s, out.drop_last(), context_len);
    }
}

/// Interrupts are held back exactly while the stream stands inside a block: if that is so
/// before a token, it is so once the token and all that it gives have been taken.
pub proof fn flow_holds_back_inside_blocks(codec: TokenCodec, m: Machine, s: FlowView, t: u32)
    requires
        s.interrupts.critical == (m.core.state != State::Normal),
    ensures
        ({
            let (next, out) = block_step(codec, m, t);
            flow_run(s, out).interrupts.critical == (next.core.state != State::Normal)
        }),
{
    let out = block_step(codec, m, t).1;
    crossings_track_the_block(codec, m, t);
    lemma_flow_flag(s, out);
}

/// The same of a session whose calls go out by message.
pub proof fn broadcast_holds_back_inside_blocks(codec: TokenCodec, s: BroadcastView, t: u32)
    requires
        s.interrupts.critical == (s.place.state != CmlState::Normal),
    ensures
        ({
            let (place, out) = cml_step(s.grammar, codec, s.place, t);
            let after = broadcast_run(BroadcastView { place, ..s }, out);
            after.interrupts.critical == (after.place.state != CmlState::Normal)
        }),
{
    let (place, out) = cml_step(s.grammar, codec, s.place, t);
    announcements_track_the_block(s.grammar, codec, s.place, t);
    lemma_broadcast_flag(BroadcastView { place, ..s }, out);
}

/// The same of a coordinator.
pub proof fn coordinator_holds_back_inside_blocks<C>(
    codec: TokenCodec,
    s: CoordinatorView<C>,
    t: u32,
    context_len: usize,
)
    requires
        s.interrupts.critical == (s.place.state != CmlState::Normal),
    ensures
        ({
            let (place, out) = cml_step(s.grammar, codec, s.place, t);
            let after = coordinator_run(CoordinatorView { place, ..s }, out, context_len);
            after.interrupts.critical == (after.place.state != CmlState::Normal)
        }),
{
    let (place, out) = cml_step(s.grammar, codec, s.place, t);
    announcements_track_the_block(s.grammar, codec, s.place, t);
    lemma_coordinator_flag(CoordinatorView { place, ..s }, out, context_len);
}

/// What tokens give a parser that hints, one after another.
pub open spec fn hint_run(codec: TokenCodec, h: Hinting, tokens: Seq<u32>) -> (Hinting, Seq<Signal>)
    decreases tokens.len(),
{
    if tokens.len() == 0 {
        (h, Seq::empty())
    } else {
        let before = hint_run(codec, h, tokens.drop_last());
        let last = hint_step(codec, before.0, tokens.last());
        (last.0, before.1 + last.1)
    }
}

/// Reasoning sections are not parsed.
pub open spec fn never_thinks(m: Machine) -> bool {
    m.think.open.len() == 0 && m.think.close.len() == 0 && !m.think.inside && m.think.buf.len() == 0
}

/// `pat` is in the table of whole delimiters and opens a block.
pub open spec fn opening(m: Machine, pat: Seq<u32>, d: Delim) -> bool {
    exists|i: int|
        0 <= i < m.grammar.full.len() && #[trigger] m.grammar.full[i] == (d, pat) && opens_block(d)
}

proof fn lemma_prefix_hints(m: Machine, pat: Seq<u32>, d: Delim, k: int)
    requires
        opening(m, pat, d),
        0 < k <= pat.len(),
    ensures
        starts_block(m.grammar.alts, m.grammar.full, pat.take(k)),
{
    let i = choose|i: int|
        0 <= i < m.grammar.full.len() && #[trigger] m.grammar.full[i] == (d, pat) && opens_block(d);
    assert(starts(m.grammar.alts, pat.take(k), m.grammar.full[i].1));
}

proof fn lemma_hint_prefix(codec: TokenCodec, h: Hinting, pat: Seq<u32>, k: int)
    requires
        never_thinks(h.machine),
        h.machine.core.state == State::Normal,
        h.machine.core.buf.len() == 0,
        !h.hinted,
        opening(h.machine, pat, Delim::Call),
        reads_in_text(h.machine.grammar, pat, Delim::Call),
        1 <= k < pat.len(),
    ensures
        hint_run(codec, h, pat.take(k)) == (
            Hinting {
                machine: Machine {
                    core: Core { buf: pat.take(k), ..h.machine.core },
                    ..h.machine
                },
                hinted: true,
            },
            seq![Signal::Hint],
        ),
    decreases k,
{
    let m = h.machine;
    let buf = pat.take(k);
    let t = pat[k - 1];
    let none = Seq::<Signal>::empty();
    assert(buf.drop_last() =~= pat.take(k - 1));
    assert(pat.take(k - 1).push(t) =~= buf);
    assert(m.grammar.held(buf) == buf);
    assert(shown(codec, buf.take(buf.len() - buf.len())) =~= none);
    let before = if k == 1 {
        h
    } else {
        Hinting {
            machine: Machine { core: Core { buf: pat.take(k - 1), ..m.core }, ..m },
            hinted: true,
        }
    };
    if k == 1 {
        assert(pat.take(0) =~= Seq::empty());
        assert(m.core.buf =~= Seq::empty());
        assert(hint_run(codec, h, pat.take(0)) == (h, none));
    } else {
        lemma_hint_prefix(codec, h, pat, k - 1);
    }
    assert(before.machine.core.buf.push(t) =~= buf);
    lemma_prefix_hints(m, pat, Delim::Call, k);
    lemma_no_thought(codec, before.machine, t);
    let next = Machine { core: Core { buf, ..m.core }, ..m };
    assert(feed_step(codec, before.machine, t) == (next, none));
    assert(none + none =~= none);
    assert(block_step(codec, before.machine, t) == (next, none));
    assert(seq![Signal::Hint] + none =~= seq![Signal::Hint]);
    assert(none + seq![Signal::Hint] =~= seq![Signal::Hint]);
}

/// Without reasoning sections a token goes to the machine, and nothing else changes.
proof fn lemma_no_thought(codec: TokenCodec, m: Machine, t: u32)
    requires
        never_thinks(m),
    ensures
        ({
            let (core, out) = crate::machine::step(m.grammar, codec, m.core, t);
            feed_step(codec, m, t) == (Machine { core, ..m }, out)
        }),
{
    let th = crate::machine::observe(m.think, t);
    assert(seq![t].len() == 1);
    assert(th =~= m.think);
}

/// `[CALL]` spelled out in ordinary text gives the hint first, before any of it counts as a
/// block, and announces the block last: a checkpoint made at the hint precedes the block.
pub proof fn hint_precedes_the_block(codec: TokenCodec, h: Hinting, pat: Seq<u32>)
    requires
        never_thinks(h.machine),
        h.machine.core.state == State::Normal,
        h.machine.core.buf.len() == 0,
        !h.hinted,
        opening(h.machine, pat, Delim::Call),
        reads_in_text(h.machine.grammar, pat, Delim::Call),
    ensures
        hint_due(h, pat[0]),
        hint_run(codec, h, pat).1 == seq![Signal::Hint, Signal::Enter],
        hint_run(codec, h, pat).0.machine.core.state == State::InCallId,
{
    let m = h.machine;
    let n = pat.len() as int;
    let none = Seq::<Signal>::empty();
    assert(m.core.buf.push(pat[0]) =~= pat.take(1));
    lemma_prefix_hints(m, pat, Delim::Call, 1);
    let t = pat.last();
    let k = n - 1;
    assert(pat.drop_last() =~= pat.take(k));
    assert(pat.take(k).push(t) =~= pat);
    assert(pat.take(n) =~= pat);
    let before = if n == 1 {
        h
    } else {
        Hinting {
            machine: Machine { core: Core { buf: pat.take(k), ..m.core }, ..m },
            hinted: true,
        }
    };
    if n > 1 {
        lemma_hint_prefix(codec, h, pat, k);
    } else {
        assert(pat.take(0) =~= Seq::empty());
        assert(m.core.buf =~= Seq::empty());
        assert(hint_run(codec, h, pat.take(0)) == (h, none));
    }
    assert(before.machine.core.buf.push(t) =~= pat);
    lemma_no_thought(codec, before.machine, t);
    assert(passed(stripped(codec, pat.take(0))) =~= none);
    assert(feed_step(codec, before.machine, t).1 == none);
    assert(feed_step(codec, before.machine, t).0.core.state == State::InCallId);
    assert(block_step(codec, before.machine, t).1 =~= seq![Signal::Enter]);
    assert(none + seq![Signal::Enter] =~= seq![Signal::Enter]);
    assert(seq![Signal::Hint] + seq![Signal::Enter] =~= seq![Signal::Hint, Signal::Enter]);
    assert(none + (seq![Signal::Hint] + seq![Signal::Enter]) =~= seq![Signal::Hint, Signal::Enter]);
    assert(seq![Signal::Hint] + (none + seq![Signal::Enter]) =~= seq![Signal::Hint, Signal::Enter]);
}

/// No interrupt comes in while a block is announced.
pub proof fn nothing_comes_in_inside_a_block(s: FlowView)
    requires
        s.interrupts.critical,
    ensures
        drained(s.interrupts).1.len() == 0,
        drained(s.interrupts).0 == s.interrupts,
{
}

} // verus!
