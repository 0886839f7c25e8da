//! A session whose calls interrupt the stream as soon as it stands in ordinary text, and
//! that classifies each trap by what it would cost to give the context up.

use vstd::prelude::*;
use vstd::string::*;

use crate::blocks::{block_step, BlockParser};
use crate::codec::TokenCodec;
use crate::flow::{flow_effect, flow_polled, flow_released, fresh_flow, Flow, FlowView};
use crate::interrupts::drained;
use crate::machine::{shown, signals, Event, Machine, Signal, State};
use crate::parser::plain_machine_of;
use crate::prompts::INTERRUPTIBLE_SYSTEM;
use crate::registry::CmlRegistry;
use crate::session::{
    encode_frames, encoded_all, keep_tokens, pendings, tokens_of, Action, Pending,
};

verus! {

broadcast use vstd::string::group_string_axioms;

/// How many tokens are generated unless the request says otherwise.
pub fn default_max_tokens() -> (n: usize)
    ensures
        n == 512,
{
    512
}

/// How long a call takes unless the request says otherwise, in milliseconds.
pub fn default_fake_wait_ms() -> (ms: u64)
    ensures
        ms == 500,
{
    500
}

/// The system prompt unless the request says otherwise.
pub fn default_system() -> (text: String)
    ensures
        text@ == INTERRUPTIBLE_SYSTEM@,
{
    INTERRUPTIBLE_SYSTEM.to_owned()
}

/// Four times `n`, at most the largest `usize`.
pub open spec fn fourfold(n: usize) -> usize {
    if 4 * n <= usize::MAX {
        (4 * n) as usize
    } else {
        usize::MAX
    }
}

/// How many steps are made at most unless the request says otherwise: four times as many as
/// tokens, in the low bits that fit.
pub fn default_max_steps(max_tokens: usize) -> (n: u32)
    ensures
        n == fourfold(max_tokens) as u32,
        4 * max_tokens <= u32::MAX ==> n == 4 * max_tokens,
{
    let four: usize = if max_tokens <= usize::MAX / 4 {
        max_tokens * 4
    } else {
        usize::MAX
    };
    #[verifier::truncate]
    let n: u32 = four as u32;
    n
}

/// What tokens that are fed one after another lead to.
pub open spec fn block_run(codec: TokenCodec, m: Machine, tokens: Seq<u32>) -> (
    Machine,
    Seq<Signal>,
)
    decreases tokens.len(),
{
    if tokens.len() == 0 {
        (m, Seq::empty())
    } else {
        let before = block_run(codec, m, tokens.drop_last());
        let last = block_step(codec, before.0, tokens.last());
        (last.0, before.1 + last.1)
    }
}

/// The tokens among two sequences of signals are those of each.
pub proof fn tokens_of_append(a: Seq<Signal>, b: Seq<Signal>)
    ensures
        tokens_of(a + b) == tokens_of(a) + tokens_of(b),
    decreases b.len(),
{
    if b.len() == 0 {
        assert(a + b =~= a);
        assert(tokens_of(a) + tokens_of(b) =~= tokens_of(a));
    } else {
        tokens_of_append(a, b.drop_last());
        assert((a + b).drop_last() =~= a + b.drop_last());
        assert((a + b).last() == b.last());
        assert(tokens_of(a + b) =~= tokens_of(a) + tokens_of(b));
    }
}

/// The session as it stands.
#[verifier::ext_equal]
pub struct InterruptibleView {
    pub machine: Machine,
    pub flow: FlowView,
    /// How many tokens have been decoded.
    pub steps: u32,
    /// How many are decoded at most.
    pub max_steps: u32,
}

/// The stream stands in ordinary text with nothing held back, and no block is announced.
pub open spec fn open_seam(s: InterruptibleView) -> bool {
    &&& !s.flow.interrupts.critical
    &&& s.machine.core.state == State::Normal
    &&& s.machine.core.buf.len() == 0
}

/// A session that interrupts the stream.
pub struct InterruptibleSession {
    parser: BlockParser,
    flow: Flow,
    step_count: u32,
    max_steps: u32,
}

impl View for InterruptibleSession {
    type V = InterruptibleView;

    closed spec fn view(&self) -> InterruptibleView {
        InterruptibleView {
            machine: self.parser@,
            flow: self.flow@,
            steps: self.step_count,
            max_steps: self.max_steps,
        }
    }
}

impl InterruptibleSession {
    /// The queue of interrupts is well-formed.
    pub closed spec fn wf(&self) -> bool {
        self.flow.wf()
    }

    /// A session for the delimiters of `reg`.
    pub fn new(reg: &CmlRegistry, wait_ms: u64, max_steps: u32) -> (s: InterruptibleSession)
        requires
            reg@.wf(),
        ensures
            s.wf(),
            s@ == (InterruptibleView {
                machine: plain_machine_of(reg@),
                flow: fresh_flow(wait_ms),
                steps: 0,
                max_steps,
            }),
    {
        InterruptibleSession {
            parser: BlockParser::new(reg),
            flow: Flow::new(wait_ms),
            step_count: 0,
            max_steps,
        }
    }

    /// Counts the tokens of a step.
    pub fn count_tokens(&mut self, n: u32)
        requires
            old(self).wf(),
            old(self)@.steps + n <= u32::MAX,
        ensures
            final(self).wf(),
            final(self)@ == (InterruptibleView { steps: (old(self)@.steps + n) as u32, ..old(self)@ }),
    {
        self.step_count = self.step_count + n;
    }

    /// How many tokens have been decoded.
    pub fn steps(&self) -> (n: u32)
        ensures
            n == self@.steps,
    {
        self.step_count
    }

    /// Tells whether as many tokens have been decoded as may be.
    pub fn out_of_steps(&self) -> (yes: bool)
        ensures
            yes == (self@.steps >= self@.max_steps),
    {
        self.step_count >= self.max_steps
    }

    /// The calls that are out.
    pub fn pending(&self) -> (calls: &Vec<Pending>)
        ensures
            pendings(calls@) == self@.flow.pending,
    {
        &self.flow.pending
    }

    /// Polls every call once.
    pub fn poll(&mut self, ready: &Vec<bool>)
        requires
            old(self).wf(),
            old(self)@.flow.pending.len() == ready.len(),
        ensures
            final(self).wf(),
            final(self)@ == (InterruptibleView { flow: flow_polled(old(self)@.flow, ready@), ..old(self)@ }),
    {
        self.flow.poll(ready);
    }

    /// Takes the next token of the stream.
    pub fn feed(&mut self, token_id: u32, codec: &TokenCodec) -> (events: Vec<Event>)
        requires
            old(self).wf(),
        ensures
            final(self).wf(),
            ({
                let (machine, out) = block_step(*codec, old(self)@.machine, token_id);
                &&& final(self)@ == (InterruptibleView { machine, ..old(self)@ })
                &&& signals(events@) == out
            }),
    {
        self.parser.feed(token_id, codec)
    }

    /// Takes an event of the parser and says what the driver is to do.
    pub fn on_event(&mut self, e: Event) -> (action: Action)
        requires
            old(self).wf(),
        ensures
            final(self).wf(),
            ({
                let (flow, asked) = flow_effect(old(self)@.flow, e@);
                &&& final(self)@ == (InterruptibleView { flow, ..old(self)@ })
                &&& action == asked
            }),
    {
        self.flow.on_event(e)
    }

    /// Tells whether a trap has anything to wait for or to inject.
    pub fn trap_due(&self) -> (yes: bool)
        ensures
            yes == (self@.flow.pending.len() > 0 || self@.flow.interrupts.queue.len() > 0),
    {
        self.flow.trap_due()
    }

    /// The tokens to inject at the end of a trap.
    pub fn trap_injection(&mut self, codec: &TokenCodec) -> (tokens: Vec<u32>)
        requires
            old(self).wf(),
        ensures
            final(self).wf(),
            ({
                let (flow, frames) = flow_released(old(self)@.flow);
                &&& final(self)@ == (InterruptibleView { flow, ..old(self)@ })
                &&& tokens@ == encoded_all(*codec, frames)
            }),
    {
        let frames = self.flow.release();
        encode_frames(codec, &frames)
    }

    /// The tokens to inject between two steps: the interrupts that wait, if this is enabled
    /// and the stream stands in ordinary text with nothing held back.
    pub fn midstream_injection(&mut self, enabled: bool, codec: &TokenCodec) -> (tokens: Vec<u32>)
        requires
            old(self).wf(),
        ensures
            final(self).wf(),
            enabled && open_seam(old(self)@) ==> {
                let (interrupts, frames) = drained(old(self)@.flow.interrupts);
                &&& final(self)@ == (InterruptibleView {
                    flow: FlowView { interrupts, ..old(self)@.flow },
                    ..old(self)@
                })
                &&& tokens@ == encoded_all(*codec, frames)
            },
            !(enabled && open_seam(old(self)@)) ==> final(self)@ == old(self)@ && tokens@.len()
                == 0,
    {
        if enabled && !self.flow.interrupts.in_critical_section() && self.parser.is_clean() {
            let frames = self.flow.interrupts.drain();
            encode_frames(codec, &frames)
        } else {
            Vec::new()
        }
    }

    /// Takes injected tokens that the model has accepted: they go through the parser, and
    /// only those that it hands on count.
    pub fn absorb_accepted(&mut self, tokens: &Vec<u32>, codec: &TokenCodec)
        requires
            old(self).wf(),
        ensures
            final(self).wf(),
            ({
                let (machine, out) = block_run(*codec, old(self)@.machine, tokens@);
                final(self)@ == (InterruptibleView {
                    machine,
                    flow: FlowView {
                        generated: old(self)@.flow.generated + tokens_of(out),
                        ..old(self)@.flow
                    },
                    ..old(self)@
                })
            }),
    {
        let ghost start = self@;
        let mut i: usize = 0;
        proof {
            assert(tokens@.take(0) =~= Seq::empty());
            assert(start.flow.generated + tokens_of(Seq::empty()) =~= start.flow.generated);
        }
        while i < tokens.len()
            invariant
                self.wf(),
                i <= tokens.len(),
                ({
                    let (machine, out) = block_run(*codec, start.machine, tokens@.take(i as int));
                    self@ == (InterruptibleView {
                        machine,
                        flow: FlowView {
                            generated: start.flow.generated + tokens_of(out),
                            ..start.flow
                        },
                        ..start
                    })
                }),
            decreases tokens.len() - i,
        {
            let ghost before = block_run(*codec, start.machine, tokens@.take(i as int));
            let events = self.parser.feed(tokens[i], codec);
            keep_tokens(&mut self.flow.generated, &events);
            proof {
                assert(tokens@.take(i + 1).drop_last() =~= tokens@.take(i as int));
                assert(tokens@.take(i + 1).last() == tokens@[i as int]);
                tokens_of_append(before.1, signals(events@));
                assert((start.flow.generated + tokens_of(before.1)) + tokens_of(signals(events@))
                    =~= start.flow.generated + (tokens_of(before.1) + tokens_of(
                    signals(events@),
                )));
            }
            i = i + 1;
        }
        proof {
            assert(tokens@.take(tokens@.len() as int) =~= tokens@);
        }
    }

    /// The tokens of the answer so far.
    pub fn generated(&self) -> (tokens: &Vec<u32>)
        ensures
            tokens@ == self@.flow.generated,
    {
        &self.flow.generated
    }

    /// Ends the session: the text of its tokens, those that the parser held back included.
    pub fn finish(self, codec: &TokenCodec) -> (text: String)
        requires
            self.wf(),
        ensures
            text@ == codec.text(
                self@.flow.generated + tokens_of(
                    shown(*codec, self@.machine.core.buf),
                ),
            ),
    {
        let mut ended = self;
        let events = ended.parser.flush(codec);
        keep_tokens(&mut ended.flow.generated, &events);
        codec.decode_or_default(ended.flow.generated.as_slice())
    }
}

} // verus!
