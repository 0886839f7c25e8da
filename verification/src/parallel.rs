//! A session that queues calls and runs them all at the next trap.
//!
//! Generation goes on while the queue grows. A trap waits once for the whole batch; then the
//! results are injected, in the order of the calls.

use vstd::prelude::*;
use vstd::string::*;

use crate::codec::TokenCodec;
use crate::interrupts::{frame, intr_frame, FrameStyle};
use crate::machine::{feed_step, shown, signals, Event, Machine, Signal};
use crate::parser::{machine_of, Parser};
use crate::prompts::PARALLEL_SYSTEM;
use crate::registry::CmlRegistry;
use crate::session::{keep_tokens, stage, stages, tokens_of, Staging};
use crate::tools::{synthesize_result, tool_result};

verus! {

broadcast use vstd::string::group_string_axioms;

/// How many tokens are generated unless the request says otherwise.
pub fn default_max_tokens() -> (n: usize)
    ensures
        n == 2048,
{
    2048
}

/// How long a batch of calls takes unless the request says otherwise, in milliseconds.
pub fn default_fake_wait_ms() -> (ms: u64)
    ensures
        ms == 500,
{
    500
}

/// The system prompt unless the request says otherwise.
pub fn default_system() -> (text: String)
    ensures
        text@ == PARALLEL_SYSTEM@,
{
    PARALLEL_SYSTEM.to_owned()
}

/// A call that waits for the next trap.
#[derive(Debug)]
pub struct QueuedCall {
    pub id: String,
    pub code: String,
}

/// Ids and codes of calls.
pub open spec fn queued(s: Seq<QueuedCall>) -> Seq<(Seq<char>, Seq<char>)> {
    s.map_values(|c: QueuedCall| (c.id@, c.code@))
}

/// The interrupts for a batch of calls, as one text.
pub open spec fn batch_text(batch: Seq<(Seq<char>, Seq<char>)>) -> Seq<char>
    decreases batch.len(),
{
    if batch.len() == 0 {
        Seq::empty()
    } else {
        batch_text(batch.drop_last()) + frame(
            FrameStyle::Spaced,
            batch.last().0,
            tool_result(batch.last().1),
        )
    }
}

/// The interrupts for every call of a batch, in the order of the calls, as one text.
pub fn drain_pending_on_trap(pending: &Vec<QueuedCall>) -> (frames: String)
    ensures
        frames@ == batch_text(queued(pending@)),
{
    let ghost all = queued(pending@);
    let mut frames = String::new();
    let mut i: usize = 0;
    proof {
        assert(all.take(0) =~= Seq::empty());
    }
    while i < pending.len()
        invariant
            i <= pending.len(),
            all == queued(pending@),
            frames@ == batch_text(all.take(i as int)),
        decreases pending.len() - i,
    {
        proof {
            assert(all.take(i + 1).drop_last() =~= all.take(i as int));
            assert(all.take(i + 1).last() == (pending@[i as int].id@, pending@[i as int].code@));
        }
        let result = synthesize_result(pending[i].code.as_str());
        let text = intr_frame(pending[i].id.as_str(), result.as_str());
        frames.append(text.as_str());
        i = i + 1;
    }
    proof {
        assert(all.take(pending@.len() as int) =~= all);
    }
    frames
}

/// The session as it stands.
#[verifier::ext_equal]
pub struct ParallelView {
    pub machine: Machine,
    /// The tokens of the answer.
    pub generated: Seq<u32>,
    /// The calls that wait for the next trap.
    pub pending: Seq<(Seq<char>, Seq<char>)>,
    /// The next step only processes injected tokens.
    pub flush_next: bool,
    /// The last injected token, held back until that step is done.
    pub tail: Option<u32>,
}

/// What signals do to the session, up to the first trap at which calls wait: that trap
/// takes the whole batch, and what comes after it is dropped.
pub open spec fn absorb(s: ParallelView, out: Seq<Signal>) -> (ParallelView, Option<
    Seq<(Seq<char>, Seq<char>)>,
>)
    decreases out.len(),
{
    if out.len() == 0 {
        (s, None)
    } else {
        let rest = out.drop_first();
        match out[0] {
            Signal::Token(t) => absorb(
                ParallelView { generated: s.generated.push(t), ..s },
                rest,
            ),
            Signal::Call { id, code } => absorb(
                ParallelView { pending: s.pending.push((id, code)), ..s },
                rest,
            ),
            Signal::Trap => if s.pending.len() == 0 {
                absorb(s, rest)
            } else {
                (ParallelView { pending: Seq::empty(), ..s }, Some(s.pending))
            },
            _ => absorb(s, rest),
        }
    }
}

/// What the tokens of a step do to the session, up to the first trap at which calls wait.
pub open spec fn absorb_tokens(codec: TokenCodec, s: ParallelView, tokens: Seq<u32>) -> (
    ParallelView,
    Option<Seq<(Seq<char>, Seq<char>)>>,
)
    decreases tokens.len(),
{
    if tokens.len() == 0 {
        (s, None)
    } else {
        let (machine, out) = feed_step(codec, s.machine, tokens[0]);
        let (next, batch) = absorb(ParallelView { machine, ..s }, out);
        match batch {
            Some(b) => (next, Some(b)),
            None => absorb_tokens(codec, next, tokens.drop_first()),
        }
    }
}

/// A session that runs calls in batches.
pub struct ParallelSession {
    parser: Parser,
    generated: Vec<u32>,
    pending: Vec<QueuedCall>,
    next_step_flushes_injection: bool,
    deferred_injected_tail: Option<u32>,
}

impl View for ParallelSession {
    type V = ParallelView;

    closed spec fn view(&self) -> ParallelView {
        ParallelView {
            machine: self.parser@,
            generated: self.generated@,
            pending: queued(self.pending@),
            flush_next: self.next_step_flushes_injection,
            tail: self.deferred_injected_tail,
        }
    }
}

impl ParallelSession {
    /// A session for the delimiters of `reg`.
    pub fn new(reg: &CmlRegistry) -> (s: ParallelSession)
        requires
            reg@.wf(),
        ensures
            s@ == (ParallelView {
                machine: machine_of(reg@),
                generated: Seq::empty(),
                pending: Seq::empty(),
                flush_next: false,
                tail: None,
            }),
    {
        let s = ParallelSession {
            parser: Parser::new(reg),
            generated: Vec::new(),
            pending: Vec::new(),
            next_step_flushes_injection: false,
            deferred_injected_tail: None,
        };
        proof {
            assert(s@.pending =~= Seq::empty());
        }
        s
    }

    /// Begins a step and tells whether it only processes injected tokens.
    pub fn begin_step(&mut self) -> (flushes: bool)
        ensures
            flushes == old(self)@.flush_next,
            final(self)@ == (ParallelView { flush_next: false, ..old(self)@ }),
    {
        let flushes: bool = self.next_step_flushes_injection;
        self.next_step_flushes_injection = false;
        flushes
    }

    /// Takes the token held back, once the injected tokens have been processed.
    pub fn take_tail(&mut self) -> (tail: Option<u32>)
        ensures
            tail == old(self)@.tail,
            final(self)@ == (ParallelView { tail: None, ..old(self)@ }),
    {
        self.deferred_injected_tail.take()
    }

    /// Takes the tokens of a step. At a trap at which calls wait, the calls come out, to be
    /// run together, and the rest of the step is dropped.
    pub fn take_tokens(&mut self, tokens: &Vec<u32>, codec: &TokenCodec) -> (batch: Option<
        Vec<QueuedCall>,
    >)
        ensures
            final(self)@ == absorb_tokens(*codec, old(self)@, tokens@).0,
            batch is Some <==> absorb_tokens(*codec, old(self)@, tokens@).1 is Some,
            batch matches Some(b) ==> absorb_tokens(*codec, old(self)@, tokens@).1 == Some(
                queued(b@),
            ),
    {
        let ghost start = self@;
        let mut i: usize = 0;
        proof {
            assert(tokens@.skip(0) =~= tokens@);
        }
        while i < tokens.len()
            invariant
                i <= tokens.len(),
                start == old(self)@,
                absorb_tokens(*codec, start, tokens@) == absorb_tokens(
                    *codec,
                    self@,
                    tokens@.skip(i as int),
                ),
            decreases tokens.len() - i,
        {
            proof {
                assert(tokens@.skip(i as int)[0] == tokens@[i as int]);
                assert(tokens@.skip(i as int).drop_first() =~= tokens@.skip(i + 1));
            }
            let events = self.parser.feed(tokens[i], codec);
            match self.take_events(events) {
                Some(batch) => {
                    return Some(batch);
                },
                None => {},
            }
            i = i + 1;
        }
        None
    }

    fn take_events(&mut self, given: Vec<Event>) -> (batch: Option<Vec<QueuedCall>>)
        ensures
            final(self)@ == absorb(old(self)@, signals(given@)).0,
            batch is Some <==> absorb(old(self)@, signals(given@)).1 is Some,
            batch matches Some(b) ==> absorb(old(self)@, signals(given@)).1 == Some(queued(b@)),
    {
        let ghost start = self@;
        let ghost all = signals(given@);
        let mut events = given;
        while events.len() > 0
            invariant
                start == old(self)@,
                all == signals(given@),
                absorb(start, all) == absorb(self@, signals(events@)),
            decreases events.len(),
        {
            let ghost before = events@;
            let ghost s = self@;
            let e = events.remove(0);
            proof {
                assert(signals(before)[0] == e@);
                assert(signals(before).drop_first() =~= signals(events@));
            }
            match e {
                Event::Passthrough(t) => {
                    self.generated.push(t);
                },
                Event::Call { id, code } => {
                    let ghost call = (id@, code@);
                    let ghost waiting = self.pending@;
                    self.pending.push(QueuedCall { id, code });
                    proof {
                        assert(queued(self.pending@) =~= queued(waiting).push(call));
                    }
                },
                Event::Trap => {
                    if self.pending.len() > 0 {
                        let mut batch: Vec<QueuedCall> = Vec::new();
                        batch.append(&mut self.pending);
                        proof {
                            assert(queued(batch@) =~= s.pending);
                            assert(self@.pending =~= Seq::empty());
                        }
                        return Some(batch);
                    }
                },
                _ => {},
            }
        }
        None
    }

    /// How the tokens of `text` are injected.
    pub fn stage_injection(&self, text: &str, codec: &TokenCodec) -> (s: Staging)
        ensures
            stages(s, codec.encoded(text@)),
    {
        stage(codec.encode(text))
    }

    /// Notes that a prefix of `prefix_len` tokens went in for injection and `accepted_len` of
    /// them were taken: if all were, the next step processes them, and `tail` follows it.
    pub fn note_accepted(&mut self, prefix_len: usize, accepted_len: usize, tail: u32)
        ensures
            final(self)@ == (if accepted_len == prefix_len {
                ParallelView { tail: Some(tail), flush_next: true, ..old(self)@ }
            } else {
                old(self)@
            }),
    {
        if accepted_len == prefix_len {
            self.deferred_injected_tail = Some(tail);
            self.next_step_flushes_injection = true;
        }
    }

    /// Ends the session: the text of its tokens, those that the parser held back included.
    pub fn finish(self, codec: &TokenCodec) -> (text: String)
        ensures
            text@ == codec.text(
                self@.generated + tokens_of(shown(*codec, self@.machine.core.buf)),
            ),
    {
        let mut ended = self;
        let events = ended.parser.flush(codec);
        keep_tokens(&mut ended.generated, &events);
        codec.decode_or_default(ended.generated.as_slice())
    }
}

/// A trap at which no call waits changes nothing.
pub proof fn idle_trap_does_nothing(s: ParallelView)
    requires
        s.pending.len() == 0,
    ensures
        absorb(s, seq![Signal::Trap]) == (s, None::<Seq<(Seq<char>, Seq<char>)>>),
{
    assert(seq![Signal::Trap].drop_first() =~= Seq::empty());
    reveal_with_fuel(absorb, 2);
}

/// The calls among signals, in their order.
pub open spec fn calls_of(out: Seq<Signal>) -> Seq<(Seq<char>, Seq<char>)>
    decreases out.len(),
{
    if out.len() == 0 {
        Seq::empty()
    } else {
        match out[0] {
            Signal::Call { id, code } => seq![(id, code)] + calls_of(out.drop_first()),
            _ => calls_of(out.drop_first()),
        }
    }
}

/// Calls are not run before the trap, and the trap runs all of them: the batch is every
/// call since the last one, in order.
pub proof fn trap_runs_every_call(s: ParallelView, out: Seq<Signal>)
    requires
        forall|i: int| 0 <= i < out.len() ==> out[i] != Signal::Trap,
        s.pending.len() + calls_of(out).len() > 0,
    ensures
        absorb(s, out).1 is None,
        absorb(s, out.push(Signal::Trap)).1 == Some(s.pending + calls_of(out)),
        absorb(s, out.push(Signal::Trap)).0.pending.len() == 0,
    decreases out.len(),
{
    let full = out.push(Signal::Trap);
    if out.len() == 0 {
        assert(full[0] == Signal::Trap);
        assert(s.pending + calls_of(out) =~= s.pending);
    } else {
        let rest = out.drop_first();
        assert(full[0] == out[0]);
        assert(full.drop_first() =~= rest.push(Signal::Trap));
        assert(out[0] != Signal::Trap);
        assert forall|i: int| 0 <= i < rest.len() implies rest[i] != Signal::Trap by {
            assert(rest[i] == out[i + 1]);
        }
        match out[0] {
            Signal::Token(t) => {
                trap_runs_every_call(ParallelView { generated: s.generated.push(t), ..s }, rest);
            },
            Signal::Call { id, code } => {
                let next = ParallelView { pending: s.pending.push((id, code)), ..s };
                trap_runs_every_call(next, rest);
                assert(next.pending + calls_of(rest) =~= s.pending + calls_of(out));
            },
            _ => {
                trap_runs_every_call(s, rest);
            },
        }
    }
}

} // verus!
