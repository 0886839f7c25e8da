//! A session that makes a checkpoint before a block and may go back to it at a trap.

use vstd::prelude::*;
use vstd::string::*;

use crate::blocks::{hint_step, HintParser, Hinting};
use crate::checkpoint::{
    added, cut_committed, cuts_committed, shorten, shortened, Checkpoint, CheckpointManager,
    Resumption,
};
use crate::codec::{rows, TokenCodec};
use crate::flow::{flow_effect, flow_polled, flow_released, fresh_flow, Flow, FlowView};
use crate::interrupts::{drained, result_frames, texts};
use crate::machine::{shown, signals, Event, Signal, State};
use crate::parser::plain_machine_of;
use crate::prompts::CHECKPOINTING_SYSTEM;
use crate::registry::CmlRegistry;
use crate::session::{keep_tokens, pendings, should_stop, stops_with, tokens_of, Action, Pending};
use crate::trap::{tokens_since_checkpoint, TrapStrategy};

verus! {

broadcast use vstd::string::group_string_axioms;

/// How many tokens are generated unless the request says otherwise.
pub fn default_max_tokens() -> (n: usize)
    ensures
        n == 512,
{
    512
}

/// How long a call takes unless the request says otherwise, in milliseconds.
pub fn default_fake_wait_ms() -> (ms: u64)
    ensures
        ms == 500,
{
    500
}

/// The system prompt unless the request says otherwise.
pub fn default_system() -> (text: String)
    ensures
        text@ == CHECKPOINTING_SYSTEM@,
{
    CHECKPOINTING_SYSTEM.to_owned()
}

/// The session as it stands.
#[verifier::reject_recursive_types(C)]
pub struct CheckpointingView<C> {
    pub parser: Hinting,
    pub flow: FlowView,
    pub checkpoint: Option<Checkpoint<C>>,
    /// Whether checkpoints are made at all.
    pub enabled: bool,
    /// How many tokens have been decoded.
    pub steps: u32,
    /// How many are decoded at most.
    pub max_steps: u32,
}

/// A session that makes checkpoints.
#[verifier::reject_recursive_types(C)]
pub struct CheckpointingSession<C> {
    parser: HintParser,
    flow: Flow,
    checkpoints: CheckpointManager<C>,
    enable_checkpoints: bool,
    step_count: u32,
    max_steps: u32,
}

/// What a signal does to the session, and what the driver is asked to do: a checkpoint only
/// where they are enabled and there is none.
pub open spec fn checkpointing_effect<C>(s: CheckpointingView<C>, e: Signal) -> (
    CheckpointingView<C>,
    Action,
) {
    let (flow, asked) = flow_effect(s.flow, e);
    let action = if asked == Action::Checkpoint && (!s.enabled || s.checkpoint is Some) {
        Action::Continue
    } else {
        asked
    };
    (CheckpointingView { flow, ..s }, action)
}

/// The session once a trap has been carried out by `strategy`, with a context whose
/// committed part has `committed` tokens; and how generation goes on. Giving the context up
/// needs a checkpoint: without one nothing happens.
pub open spec fn trap_done<C>(
    s: CheckpointingView<C>,
    strategy: TrapStrategy,
    committed: usize,
    next: CheckpointingView<C>,
    r: Resumption<C>,
) -> bool {
    let (flow, frames) = flow_released(s.flow);
    match (strategy, s.checkpoint) {
        (TrapStrategy::Keep, _) => {
            &&& next == (CheckpointingView { flow, checkpoint: None, ..s })
            &&& r matches Resumption::Fill { frames: f } && texts(f@) == frames
        },
        (TrapStrategy::Swap, Some(cp)) => {
            &&& next == (CheckpointingView {
                flow: FlowView {
                    generated: shortened(s.flow.generated, cp.generated_len_at_save),
                    ..flow
                },
                checkpoint: None,
                ..s
            })
            &&& r matches Resumption::Restore { ctx, frames: f } && ctx == cp.ctx && texts(f@)
                == frames
        },
        (TrapStrategy::Recompute, Some(cp)) => {
            &&& next == (CheckpointingView {
                flow: FlowView {
                    generated: shortened(s.flow.generated, cp.generated_len_at_save),
                    ..flow
                },
                checkpoint: None,
                ..s
            })
            &&& r matches Resumption::Shorten { cut, frames: f } && cuts_committed(
                cut,
                committed,
                cp.committed_len_at_save,
            ) && texts(f@) == frames
        },
        (_, None) => next == s && r is Unchanged,
    }
}

impl<C> View for CheckpointingSession<C> {
    type V = CheckpointingView<C>;

    closed spec fn view(&self) -> CheckpointingView<C> {
        CheckpointingView {
            parser: self.parser@,
            flow: self.flow@,
            checkpoint: self.checkpoints.current,
            enabled: self.enable_checkpoints,
            steps: self.step_count,
            max_steps: self.max_steps,
        }
    }
}

impl<C> CheckpointingSession<C> {
    /// The queue of interrupts is well-formed, and so is the length that a checkpoint holds.
    pub closed spec fn wf(&self) -> bool {
        &&& self.flow.wf()
        &&& self.checkpoints.current matches Some(cp) ==> cp.committed_len_at_save < usize::MAX
    }

    /// A session for the delimiters of `reg`.
    pub fn new(
        reg: &CmlRegistry,
        wait_ms: u64,
        enable_checkpoints: bool,
        max_steps: u32,
    ) -> (s: CheckpointingSession<C>)
        requires
            reg@.wf(),
        ensures
            s.wf(),
            s@ == (CheckpointingView::<C> {
                parser: Hinting { machine: plain_machine_of(reg@), hinted: false },
                flow: fresh_flow(wait_ms),
                checkpoint: None,
                enabled: enable_checkpoints,
                steps: 0,
                max_steps,
            }),
    {
        CheckpointingSession {
            parser: HintParser::new(reg),
            flow: Flow::new(wait_ms),
            checkpoints: CheckpointManager::new(),
            enable_checkpoints,
            step_count: 0,
            max_steps,
        }
    }

    /// Counts a decoded token.
    pub fn count_token(&mut self)
        requires
            old(self).wf(),
            old(self)@.steps < u32::MAX,
        ensures
            final(self).wf(),
            final(self)@ == (CheckpointingView {
                steps: (old(self)@.steps + 1) as u32,
                ..old(self)@
            }),
    {
        self.step_count = self.step_count + 1;
    }

    /// How many tokens have been decoded.
    pub fn steps(&self) -> (n: u32)
        ensures
            n == self@.steps,
    {
        self.step_count
    }

    /// The calls that are out.
    pub fn pending(&self) -> (calls: &Vec<Pending>)
        ensures
            pendings(calls@) == self@.flow.pending,
    {
        &self.flow.pending
    }

    /// Polls every call once.
    pub fn poll(&mut self, ready: &Vec<bool>)
        requires
            old(self).wf(),
            old(self)@.flow.pending.len() == ready.len(),
        ensures
            final(self).wf(),
            final(self)@ == (CheckpointingView {
                flow: flow_polled(old(self)@.flow, ready@),
                ..old(self)@
            }),
    {
        self.flow.poll(ready);
    }

    /// Takes the next token of the stream.
    pub fn feed(&mut self, token_id: u32, codec: &TokenCodec) -> (events: Vec<Event>)
        requires
            old(self).wf(),
        ensures
            final(self).wf(),
            ({
                let (parser, out) = hint_step(*codec, old(self)@.parser, token_id);
                &&& final(self)@ == (CheckpointingView {
                    parser,
                    ..old(self)@
                })
                &&& signals(events@) == out
            }),
    {
        self.parser.feed(token_id, codec)
    }

    /// Takes an event of the parser and says what the driver is to do.
    pub fn on_event(&mut self, e: Event) -> (action: Action)
        requires
            old(self).wf(),
        ensures
            final(self).wf(),
            (final(self)@, action) == checkpointing_effect(old(self)@, e@),
    {
        let asked: Action = self.flow.on_event(e);
        if asked == Action::Checkpoint && (!self.enable_checkpoints
            || self.checkpoints.has_checkpoint()) {
            Action::Continue
        } else {
            asked
        }
    }

    /// Makes a checkpoint of `fork`, a fork of a context with `committed` tokens committed and
    /// `waiting` tokens pending.
    pub fn save_checkpoint(&mut self, fork: C, committed: usize, waiting: usize)
        requires
            old(self).wf(),
            committed < usize::MAX,
            committed + waiting <= usize::MAX,
        ensures
            final(self).wf(),
            final(self)@ == (CheckpointingView {
                checkpoint: Some(
                    Checkpoint {
                        ctx: fork,
                        token_count_at_save: (committed + waiting) as usize,
                        committed_len_at_save: committed,
                        generated_len_at_save: old(self)@.flow.generated.len() as usize,
                    },
                ),
                ..old(self)@
            }),
    {
        self.checkpoints.save(fork, committed, waiting, self.flow.generated.len());
    }

    /// Tells whether there is a checkpoint.
    pub fn has_checkpoint(&self) -> (yes: bool)
        ensures
            yes == (self@.checkpoint is Some),
    {
        self.checkpoints.has_checkpoint()
    }

    /// Tells whether a trap has anything to wait for or to inject.
    pub fn trap_due(&self) -> (yes: bool)
        ensures
            yes == (self@.flow.pending.len() > 0
                || self@.flow.interrupts.queue.len() > 0),
    {
        self.flow.trap_due()
    }

    /// The number of tokens that the cost of a trap goes by.
    pub fn trap_tokens(&self, context_len: usize) -> (n: usize)
        ensures
            n == (match self@.checkpoint {
                Some(cp) => if cp.committed_len_at_save <= context_len {
                    context_len - cp.committed_len_at_save
                } else {
                    0
                },
                None => context_len as int,
            }),
    {
        tokens_since_checkpoint(self.checkpoints.committed_len(), context_len)
    }

    /// Carries a trap out by `strategy`, once its calls are done.
    pub fn finish_trap(&mut self, strategy: TrapStrategy, committed: usize) -> (r: Resumption<C>)
        requires
            old(self).wf(),
            committed < usize::MAX,
        ensures
            final(self).wf(),
            trap_done(old(self)@, strategy, committed, final(self)@, r),
    {
        match strategy {
            TrapStrategy::Keep => {
                let frames = self.flow.release();
                self.checkpoints.discard();
                Resumption::Fill { frames }
            },
            TrapStrategy::Swap => {
                match self.checkpoints.take() {
                    Some(cp) => {
                        shorten(&mut self.flow.generated, cp.generated_len_at_save);
                        let frames = self.flow.release();
                        Resumption::Restore { ctx: cp.ctx, frames }
                    },
                    None => Resumption::Unchanged,
                }
            },
            TrapStrategy::Recompute => {
                match self.checkpoints.take() {
                    Some(cp) => {
                        let cut = cut_committed(committed, cp.committed_len_at_save);
                        shorten(&mut self.flow.generated, cp.generated_len_at_save);
                        let frames = self.flow.release();
                        Resumption::Shorten { cut, frames }
                    },
                    None => Resumption::Unchanged,
                }
            },
        }
    }

    /// The interrupts to inject between two steps: those that wait, if this is enabled and the
    /// stream stands in ordinary text with nothing held back.
    pub fn midstream_frames(&mut self, enabled: bool) -> (frames: Vec<String>)
        requires
            old(self).wf(),
        ensures
            final(self).wf(),
            ({
                let s = old(self)@;
                let core = s.parser.machine.core;
                if enabled && !s.flow.interrupts.critical && core.state == State::Normal
                    && core.buf.len() == 0 {
                    let (interrupts, out) = drained(s.flow.interrupts);
                    &&& final(self)@ == (CheckpointingView {
                        flow: FlowView { interrupts, ..s.flow },
                        ..s
                    })
                    &&& texts(frames@) == out
                } else {
                    final(self)@ == s && frames@.len() == 0
                }
            }),
    {
        if enabled && !self.flow.interrupts.in_critical_section() && self.parser.is_clean() {
            self.flow.interrupts.drain()
        } else {
            Vec::new()
        }
    }

    /// Tells whether generation is over: enough tokens, a stop sequence, or as many steps as
    /// may be.
    pub fn is_over(&self, max_tokens: usize, stops: &Vec<Vec<u32>>) -> (yes: bool)
        ensures
            yes <==> self@.flow.generated.len() >= max_tokens || (exists|i: int|
                0 <= i < stops@.len() && stops_with(
                    self@.flow.generated,
                    #[trigger] rows(stops@)[i],
                )) || self@.steps >= self@.max_steps,
    {
        should_stop(&self.flow.generated, max_tokens, stops) || self.step_count >= self.max_steps
    }

    /// Ends the session: the text of its tokens, those that the parser held back included.
    pub fn finish(self, codec: &TokenCodec) -> (text: String)
        requires
            self.wf(),
        ensures
            text@ == codec.text(
                self@.flow.generated + tokens_of(
                    shown(*codec, self@.parser.machine.core.buf),
                ),
            ),
    {
        let mut ended = self;
        let events = ended.parser.flush(codec);
        keep_tokens(&mut ended.flow.generated, &events);
        codec.decode_or_default(ended.flow.generated.as_slice())
    }
}

/// However a trap is carried out, its checkpoint is used up, every result that is queued is
/// injected, in order, and the answer is at most cut back to what it was at the checkpoint.
pub proof fn trap_uses_its_checkpoint<C>(
    s: CheckpointingView<C>,
    strategy: TrapStrategy,
    committed: usize,
    next: CheckpointingView<C>,
    r: Resumption<C>,
)
    requires
        trap_done(s, strategy, committed, next, r),
        strategy == TrapStrategy::Keep || s.checkpoint is Some,
    ensures
        next.checkpoint is None,
        added(r) == result_frames(s.flow.interrupts.style, s.flow.interrupts.queue),
        next.flow.interrupts.queue.len() == 0,
        next.flow.generated == s.flow.generated || next.flow.generated == shortened(
            s.flow.generated,
            s.checkpoint->0.generated_len_at_save,
        ),
{
}

} // verus!
