//! What the sessions share: calls in flight, injection and the end of generation.

use vstd::prelude::*;
use vstd::string::*;

use crate::codec::{rows, TokenCodec};
use crate::interrupts::{texts, ResultView};
use crate::machine::{signals, Event, Signal};
use crate::registry::append_range;
use crate::tools::{synthesize_result, tool_result};

verus! {

broadcast use vstd::string::group_string_axioms;

/// A call that is out.
#[derive(Debug)]
pub struct Pending {
    pub id: String,
    pub code: String,
    /// How long it is expected to take, in milliseconds.
    pub wait_ms: u64,
}

/// A call that is out, with its texts as sequences of characters.
#[verifier::ext_equal]
pub struct PendingView {
    pub id: Seq<char>,
    pub code: Seq<char>,
    pub wait_ms: u64,
}

impl View for Pending {
    type V = PendingView;

    open spec fn view(&self) -> PendingView {
        PendingView { id: self.id@, code: self.code@, wait_ms: self.wait_ms }
    }
}

/// The calls that a sequence of values stands for.
pub open spec fn pendings(s: Seq<Pending>) -> Seq<PendingView> {
    s.map_values(|p: Pending| p@)
}

impl Pending {
    /// How much longer the call is expected to take, `elapsed_ms` after it went out.
    pub fn remaining_ms(&self, elapsed_ms: u64) -> (ms: u64)
        ensures
            ms == (if self.wait_ms >= elapsed_ms {
                self.wait_ms - elapsed_ms
            } else {
                0
            }),
    {
        if self.wait_ms >= elapsed_ms {
            self.wait_ms - elapsed_ms
        } else {
            0
        }
    }
}

/// How much longer the first `n` calls are expected to take, the longest of them.
pub open spec fn longest_wait(calls: Seq<PendingView>, elapsed: Seq<u64>, n: nat) -> int
    decreases n,
{
    if n == 0 {
        0
    } else {
        let before = longest_wait(calls, elapsed, (n - 1) as nat);
        let this = calls[n - 1].wait_ms - elapsed[n - 1];
        if this > before {
            this
        } else {
            before
        }
    }
}

/// How much longer the calls are expected to take, the longest of them; `elapsed` says how
/// long each has been out.
pub fn max_remaining_ms(calls: &Vec<Pending>, elapsed: &Vec<u64>) -> (ms: u64)
    requires
        calls.len() == elapsed.len(),
    ensures
        ms == longest_wait(pendings(calls@), elapsed@, calls@.len()),
{
    let mut ms: u64 = 0;
    let mut i: usize = 0;
    while i < calls.len()
        invariant
            i <= calls.len(),
            calls.len() == elapsed.len(),
            ms == longest_wait(pendings(calls@), elapsed@, i as nat),
        decreases calls.len() - i,
    {
        let left: u64 = calls[i].remaining_ms(elapsed[i]);
        proof {
            assert(pendings(calls@)[i as int] == calls@[i as int]@);
        }
        if left > ms {
            ms = left;
        }
        i = i + 1;
    }
    ms
}

/// The result of a call, if it is ready.
pub fn poll_once(call: &Pending, ready: bool) -> (result: Option<String>)
    ensures
        result is Some <==> ready,
        result matches Some(s) ==> s@ == tool_result(call@.code),
{
    if ready {
        Some(synthesize_result(call.code.as_str()))
    } else {
        None
    }
}

/// The calls that are not ready.
pub open spec fn still_out(calls: Seq<PendingView>, ready: Seq<bool>) -> Seq<PendingView>
    decreases calls.len(),
{
    if calls.len() == 0 {
        Seq::empty()
    } else {
        let before = still_out(calls.drop_last(), ready);
        if ready[calls.len() - 1] {
            before
        } else {
            before.push(calls.last())
        }
    }
}

/// The results of the calls that are ready, in the order in which the calls went out.
pub open spec fn results_of(calls: Seq<PendingView>, ready: Seq<bool>) -> Seq<ResultView>
    decreases calls.len(),
{
    if calls.len() == 0 {
        Seq::empty()
    } else {
        let before = results_of(calls.drop_last(), ready);
        let call = calls.last();
        if ready[calls.len() - 1] {
            before.push(
                ResultView { id: call.id, output: tool_result(call.code), is_error: false },
            )
        } else {
            before
        }
    }
}

/// The results of calls, as pairs of id and output.
pub open spec fn plain_results(s: Seq<(String, String)>) -> Seq<ResultView> {
    s.map_values(
        |p: (String, String)| ResultView { id: p.0@, output: p.1@, is_error: false },
    )
}

/// Polls every call once: those that are ready leave `calls`, and their results come out in
/// the order in which the calls went out.
pub fn poll_all(calls: &mut Vec<Pending>, ready: &Vec<bool>) -> (done: Vec<(String, String)>)
    requires
        old(calls).len() == ready.len(),
    ensures
        pendings(final(calls)@) == still_out(pendings(old(calls)@), ready@),
        plain_results(done@) == results_of(pendings(old(calls)@), ready@),
{
    let ghost all = pendings(calls@);
    let ghost orig = calls@;
    let mut out: Vec<Pending> = Vec::new();
    let mut done: Vec<(String, String)> = Vec::new();
    let mut i: usize = 0;
    let n: usize = calls.len();
    proof {
        assert(orig.skip(0) =~= orig);
        assert(all.take(0) =~= Seq::empty());
        assert(pendings(out@) =~= Seq::empty());
        assert(plain_results(done@) =~= Seq::empty());
    }
    while i < n
        invariant
            i <= n,
            n == orig.len(),
            n == ready.len(),
            all == pendings(orig),
            calls@ == orig.skip(i as int),
            pendings(out@) == still_out(all.take(i as int), ready@),
            plain_results(done@) == results_of(all.take(i as int), ready@),
        decreases n - i,
    {
        let ghost out_before = out@;
        let ghost done_before = done@;
        let call = calls.remove(0);
        proof {
            assert(call == orig[i as int]);
            assert(calls@ =~= orig.skip(i + 1));
            assert(all.take(i + 1).drop_last() =~= all.take(i as int));
            assert(all.take(i + 1).last() == call@);
        }
        match poll_once(&call, ready[i]) {
            Some(result) => {
                done.push((call.id, result));
                proof {
                    assert(plain_results(done@) =~= plain_results(done_before).push(
                        ResultView { id: call@.id, output: result@, is_error: false },
                    ));
                }
            },
            None => {
                out.push(call);
                proof {
                    assert(pendings(out@) =~= pendings(out_before).push(call@));
                }
            },
        }
        i = i + 1;
    }
    proof {
        assert(all.take(n as int) =~= all);
    }
    calls.append(&mut out);
    proof {
        assert(orig.skip(n as int) =~= Seq::empty());
    }
    done
}

/// Every call is either still out or has given its result.
pub proof fn polling_loses_no_call(calls: Seq<PendingView>, ready: Seq<bool>)
    ensures
        still_out(calls, ready).len() + results_of(calls, ready).len() == calls.len(),
    decreases calls.len(),
{
    if calls.len() > 0 {
        polling_loses_no_call(calls.drop_last(), ready);
    }
}

/// Where every call is ready, none stays out and all results come, in order.
pub proof fn all_ready_empties_the_list(calls: Seq<PendingView>, ready: Seq<bool>)
    requires
        forall|i: int| 0 <= i < calls.len() ==> ready[i],
    ensures
        still_out(calls, ready).len() == 0,
        results_of(calls, ready) == calls.map_values(
            |c: PendingView|
                ResultView { id: c.id, output: tool_result(c.code), is_error: false },
        ),
    decreases calls.len(),
{
    let f = |c: PendingView| ResultView { id: c.id, output: tool_result(c.code), is_error: false };
    if calls.len() > 0 {
        all_ready_empties_the_list(calls.drop_last(), ready);
        assert(ready[calls.len() - 1]);
    }
    assert(results_of(calls, ready) =~= calls.map_values(f));
}

/// The tokens among signals.
pub open spec fn tokens_of(out: Seq<Signal>) -> Seq<u32>
    decreases out.len(),
{
    if out.len() == 0 {
        Seq::empty()
    } else {
        match out.last() {
            Signal::Token(t) => tokens_of(out.drop_last()).push(t),
            _ => tokens_of(out.drop_last()),
        }
    }
}

/// Adds the tokens among `events` to `tokens`.
pub fn keep_tokens(tokens: &mut Vec<u32>, events: &Vec<Event>)
    ensures
        final(tokens)@ == old(tokens)@ + tokens_of(signals(events@)),
{
    let ghost start = tokens@;
    let ghost all = signals(events@);
    let mut i: usize = 0;
    proof {
        assert(start + tokens_of(all.take(0)) =~= start);
    }
    while i < events.len()
        invariant
            i <= events.len(),
            all == signals(events@),
            tokens@ == start + tokens_of(all.take(i as int)),
        decreases events.len() - i,
    {
        let ghost before = tokens_of(all.take(i as int));
        proof {
            assert(all.take(i + 1).drop_last() =~= all.take(i as int));
            assert(all.take(i + 1).last() == events@[i as int]@);
        }
        match &events[i] {
            Event::Passthrough(t) => {
                tokens.push(*t);
                proof {
                    assert((start + before).push(*t) =~= start + before.push(*t));
                }
            },
            _ => {},
        }
        i = i + 1;
    }
    proof {
        assert(all.take(events@.len() as int) =~= all);
    }
}

/// The tokens of texts, one after another.
pub open spec fn encoded_all(codec: TokenCodec, frames: Seq<Seq<char>>) -> Seq<u32>
    decreases frames.len(),
{
    if frames.len() == 0 {
        Seq::empty()
    } else {
        encoded_all(codec, frames.drop_last()) + codec.encoded(frames.last())
    }
}

/// The tokens of `frames`, one after another.
pub fn encode_frames(codec: &TokenCodec, frames: &Vec<String>) -> (tokens: Vec<u32>)
    ensures
        tokens@ == encoded_all(*codec, texts(frames@)),
{
    let ghost all = texts(frames@);
    let mut tokens: Vec<u32> = Vec::new();
    let mut i: usize = 0;
    proof {
        assert(all.take(0) =~= Seq::empty());
    }
    while i < frames.len()
        invariant
            i <= frames.len(),
            all == texts(frames@),
            tokens@ == encoded_all(*codec, all.take(i as int)),
        decreases frames.len() - i,
    {
        proof {
            assert(all.take(i + 1).drop_last() =~= all.take(i as int));
            assert(all.take(i + 1).last() == frames@[i as int]@);
        }
        let mut more = codec.encode(frames[i].as_str());
        tokens.append(&mut more);
        i = i + 1;
    }
    proof {
        assert(all.take(frames@.len() as int) =~= all);
    }
    tokens
}

/// How tokens are injected: all of them but the last at once, and the last in the step in
/// which sampling goes on.
#[derive(Debug)]
pub enum Staging {
    /// There is nothing to inject.
    Nothing,
    /// A single token, injected at once.
    Whole(Vec<u32>),
    /// `prefix` is injected at once; `tail` follows once the prefix has been processed.
    Split { prefix: Vec<u32>, tail: u32 },
}

/// `s` is how `tokens` are injected.
pub open spec fn stages(s: Staging, tokens: Seq<u32>) -> bool {
    match s {
        Staging::Nothing => tokens.len() == 0,
        Staging::Whole(all) => tokens.len() == 1 && all@ == tokens,
        Staging::Split { prefix, tail } => tokens.len() > 1 && prefix@.push(tail) == tokens,
    }
}

/// How `tokens` are injected.
pub fn stage(tokens: Vec<u32>) -> (s: Staging)
    ensures
        stages(s, tokens@),
{
    let n: usize = tokens.len();
    if n == 0 {
        Staging::Nothing
    } else if n == 1 {
        Staging::Whole(tokens)
    } else {
        let mut prefix: Vec<u32> = Vec::new();
        append_range(&mut prefix, &tokens, 0, n - 1);
        proof {
            assert(prefix@.push(tokens@[n - 1]) =~= tokens@);
        }
        Staging::Split { prefix, tail: tokens[n - 1] }
    }
}

/// `tokens` end with `stop`, which may be empty.
pub open spec fn stops_with(tokens: Seq<u32>, stop: Seq<u32>) -> bool {
    stop.len() <= tokens.len() && tokens.skip(tokens.len() - stop.len()) == stop
}

/// Tells whether generation is over: `max_tokens` tokens have come, or they end with one of
/// the sequences `stops`.
pub fn should_stop(generated: &Vec<u32>, max_tokens: usize, stops: &Vec<Vec<u32>>) -> (yes: bool)
    ensures
        yes <==> generated@.len() >= max_tokens || exists|i: int|
            0 <= i < stops@.len() && stops_with(generated@, #[trigger] rows(stops@)[i]),
{
    if generated.len() >= max_tokens {
        return true;
    }
    let mut i: usize = 0;
    while i < stops.len()
        invariant
            i <= stops.len(),
            forall|j: int| 0 <= j < i ==> !stops_with(generated@, #[trigger] rows(stops@)[j]),
        decreases stops.len() - i,
    {
        proof {
            assert(rows(stops@)[i as int] == stops@[i as int]@);
        }
        if ends_with_stop(generated, &stops[i]) {
            return true;
        }
        i = i + 1;
    }
    false
}

fn ends_with_stop(tokens: &Vec<u32>, stop: &Vec<u32>) -> (yes: bool)
    ensures
        yes == stops_with(tokens@, stop@),
{
    if stop.len() > tokens.len() {
        return false;
    }
    let off: usize = tokens.len() - stop.len();
    let mut i: usize = 0;
    while i < stop.len()
        invariant
            i <= stop.len(),
            off == tokens.len() - stop.len(),
            forall|j: int| 0 <= j < i ==> tokens@[off + j] == stop@[j],
        decreases stop.len() - i,
    {
        if tokens[off + i] != stop[i] {
            proof {
                assert(tokens@.skip(off as int)[i as int] != stop@[i as int]);
            }
            return false;
        }
        i = i + 1;
    }
    proof {
        assert(tokens@.skip(off as int) =~= stop@);
    }
    true
}

/// What a session asks of its driver after an event.
#[derive(Debug, Clone, Copy, PartialEq, Eq, Structural)]
pub enum Action {
    /// Nothing: go on.
    Continue,
    /// A call has gone out: start its work.
    Started,
    /// A block may be about to start: make a checkpoint.
    Checkpoint,
    /// A trap: wait for the calls.
    Trap,
}

} // verus!
