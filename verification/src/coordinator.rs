//! A session whose calls go out by message, that keeps one checkpoint and may go back to it
//! at a trap.

use std::collections::VecDeque;

use vstd::prelude::*;
use vstd::string::*;

use crate::checkpoint::{
    added, cut_committed, cut_grown, cuts_committed, cuts_grown, shorten, shortened, Checkpoint,
    CheckpointManager, CutBack, Resumption,
};
use crate::cml::{
    cml_grammar_of, cml_step, initial_cml, CmlCore, CmlGrammar, CmlParser, CmlState,
};
use crate::codec::{rows, TokenCodec};
use crate::executor::{
    awaited, call_payload, CallView, ExecutorView, FunctionCall, MessageExecutor,
};
use crate::interrupts::{
    drained, result_frames, texts, FrameStyle, InterruptManager, InterruptView,
};
use crate::machine::{passed, signals, Event, Signal};
use crate::prompts::{COORDINATOR_SYSTEM, SENTINEL_SYSTEM};
use crate::session::{keep_tokens, should_stop, stops_with, tokens_of};
use crate::trap::{decided, Pressure, TrapConfig, TrapHandler, TrapStrategy};
use crate::variants::CmlTokenRegistry;

verus! {

broadcast use vstd::string::group_string_axioms;

/// How many tokens are generated unless the request says otherwise.
pub fn default_max_tokens() -> (n: usize)
    ensures
        n == 512,
{
    512
}

/// How long the context may grow unless the request says otherwise.
pub fn default_max_context() -> (n: usize)
    ensures
        n == 4096,
{
    4096
}

/// How many of the last tokens count as recent.
pub fn default_repetition_window() -> (n: usize)
    ensures
        n == 64,
{
    64
}

/// The system prompt unless the request says otherwise.
pub fn default_system() -> (text: String)
    ensures
        text@ == COORDINATOR_SYSTEM@,
{
    COORDINATOR_SYSTEM.to_owned()
}

/// The system prompt for sentinel delimiters unless the request says otherwise.
pub fn default_sentinel_system() -> (text: String)
    ensures
        text@ == SENTINEL_SYSTEM@,
{
    SENTINEL_SYSTEM.to_owned()
}

/// When a checkpoint is made, and what going back to it cuts off.
#[derive(Debug, Clone, Copy, PartialEq, Eq, Structural)]
pub enum CheckpointRule {
    /// Before the first token of a delimiter that opens a block enters the context. Going
    /// back cuts the committed part to its length then.
    BeforeDelimiter,
    /// When a block has been entered. Going back cuts as many tokens as have come since.
    AtBlock,
}

/// What the session asks of its driver after an event.
#[derive(Debug)]
pub enum Order {
    /// Nothing: go on.
    Continue,
    /// Send this message to the worker.
    Send(String),
    /// Make a checkpoint.
    Checkpoint,
    /// A trap: wait for the calls.
    Trap,
}

/// An order, with its text as a sequence of characters.
pub enum OrderView {
    Continue,
    Send(Seq<char>),
    Checkpoint,
    Trap,
}

impl View for Order {
    type V = OrderView;

    open spec fn view(&self) -> OrderView {
        match *self {
            Order::Continue => OrderView::Continue,
            Order::Send(m) => OrderView::Send(m@),
            Order::Checkpoint => OrderView::Checkpoint,
            Order::Trap => OrderView::Trap,
        }
    }
}

/// The session as it stands.
#[verifier::reject_recursive_types(C)]
pub struct CoordinatorView<C> {
    pub grammar: CmlGrammar,
    pub place: CmlCore,
    pub executor: ExecutorView,
    pub interrupts: InterruptView,
    pub checkpoint: Option<Checkpoint<C>>,
    pub rule: CheckpointRule,
    pub config: TrapConfig,
    /// The tokens of the answer.
    pub generated: Seq<u32>,
    /// The last tokens of the stream, oldest first.
    pub recent: Seq<u32>,
    /// How many of them are kept.
    pub window: usize,
}

/// The last tokens once `t` has come: one in, and the oldest out where there are too many.
pub open spec fn recent_after(recent: Seq<u32>, window: usize, t: u32) -> Seq<u32> {
    let all = recent.push(t);
    if all.len() > window {
        all.drop_first()
    } else {
        all
    }
}

/// What a signal does to the session, with a context of `context_len` tokens, and what the
/// driver is asked to do.
pub open spec fn coordinator_effect<C>(s: CoordinatorView<C>, e: Signal, context_len: usize) -> (
    CoordinatorView<C>,
    OrderView,
) {
    match e {
        Signal::Token(t) => (
            CoordinatorView { generated: s.generated.push(t), ..s },
            OrderView::Continue,
        ),
        Signal::Enter => (
            CoordinatorView { interrupts: InterruptView { critical: true, ..s.interrupts }, ..s },
            if s.rule == CheckpointRule::AtBlock && s.checkpoint is None {
                OrderView::Checkpoint
            } else {
                OrderView::Continue
            },
        ),
        Signal::Exit => (
            CoordinatorView { interrupts: InterruptView { critical: false, ..s.interrupts }, ..s },
            OrderView::Continue,
        ),
        Signal::Call { id, code } => (
            CoordinatorView {
                executor: ExecutorView {
                    pending: s.executor.pending.insert(
                        id,
                        CallView { id, code, dispatch_token_count: context_len as nat },
                    ),
                    ..s.executor
                },
                ..s
            },
            OrderView::Send(call_payload(id, code)),
        ),
        Signal::Trap => (s, OrderView::Trap),
        Signal::Hint => (s, OrderView::Continue),
    }
}

/// `cut` is how the context is cut back to `cp` under `rule`.
pub open spec fn cuts_by_rule<C>(
    rule: CheckpointRule,
    cut: CutBack,
    cp: Checkpoint<C>,
    committed: usize,
    context_len: usize,
) -> bool {
    match rule {
        CheckpointRule::BeforeDelimiter => cuts_committed(cut, committed, cp.committed_len_at_save),
        CheckpointRule::AtBlock => cuts_grown(
            cut,
            committed,
            context_len,
            cp.token_count_at_save,
        ),
    }
}

/// The session once a trap has been carried out by `strategy`, and how generation goes on.
/// The trap is complete, so its block holds no interrupt back any more. Giving the context up
/// needs a checkpoint: without one nothing happens.
pub open spec fn coordinator_trap_done<C>(
    s: CoordinatorView<C>,
    strategy: TrapStrategy,
    committed: usize,
    context_len: usize,
    next: CoordinatorView<C>,
    r: Resumption<C>,
) -> bool {
    let (interrupts, frames) = drained(InterruptView { critical: false, ..s.interrupts });
    match (strategy, s.checkpoint) {
        (TrapStrategy::Keep, _) => {
            &&& next == (CoordinatorView { interrupts, ..s })
            &&& r matches Resumption::Fill { frames: f } && texts(f@) == frames
        },
        (TrapStrategy::Swap, Some(cp)) => {
            &&& next == (CoordinatorView {
                interrupts,
                generated: shortened(s.generated, cp.generated_len_at_save),
                checkpoint: None,
                ..s
            })
            &&& r matches Resumption::Restore { ctx, frames: f } && ctx == cp.ctx && texts(f@)
                == frames
        },
        (TrapStrategy::Recompute, Some(cp)) => {
            &&& next == (CoordinatorView {
                interrupts,
                generated: shortened(s.generated, cp.generated_len_at_save),
                checkpoint: None,
                ..s
            })
            &&& r matches Resumption::Shorten { cut, frames: f } && cuts_by_rule(
                s.rule,
                cut,
                cp,
                committed,
                context_len,
            ) && texts(f@) == frames
        },
        (_, None) => next == s && r is Unchanged,
    }
}

/// A session that keeps one checkpoint.
#[verifier::reject_recursive_types(C)]
pub struct AsyncLmCoordinator<C> {
    parser: CmlParser,
    executor: MessageExecutor,
    interrupt_mgr: InterruptManager,
    checkpoint_mgr: CheckpointManager<C>,
    rule: CheckpointRule,
    trap_handler: TrapHandler,
    generated: Vec<u32>,
    recent_tokens: VecDeque<u32>,
    repetition_window: usize,
}

impl<C> View for AsyncLmCoordinator<C> {
    type V = CoordinatorView<C>;

    closed spec fn view(&self) -> CoordinatorView<C> {
        CoordinatorView {
            grammar: self.parser.grammar(),
            place: self.parser.place(),
            executor: self.executor@,
            interrupts: self.interrupt_mgr@,
            checkpoint: self.checkpoint_mgr.current,
            rule: self.rule,
            config: self.trap_handler.config,
            generated: self.generated@,
            recent: self.recent_tokens@,
            window: self.repetition_window,
        }
    }
}

impl<C> AsyncLmCoordinator<C> {
    /// Calls and interrupts are well-formed, and so is the length that a checkpoint holds.
    pub closed spec fn wf(&self) -> bool {
        &&& self.executor.wf()
        &&& self.interrupt_mgr.wf()
        &&& self.checkpoint_mgr.current matches Some(cp) ==> cp.committed_len_at_save < usize::MAX
    }

    /// A session for the delimiters of `registry`.
    pub fn new(
        registry: &CmlTokenRegistry,
        style: FrameStyle,
        rule: CheckpointRule,
        trap_config: TrapConfig,
        repetition_window: usize,
    ) -> (s: AsyncLmCoordinator<C>)
        requires
            registry@.wf(),
        ensures
            s.wf(),
            s@ == (CoordinatorView::<C> {
                grammar: cml_grammar_of(registry@),
                place: initial_cml(),
                executor: ExecutorView { pending: Map::empty(), completed: Seq::empty() },
                interrupts: InterruptView {
                    style,
                    queue: Seq::empty(),
                    injected: Set::empty(),
                    critical: false,
                },
                checkpoint: None,
                rule,
                config: trap_config,
                generated: Seq::empty(),
                recent: Seq::empty(),
                window: repetition_window,
            }),
    {
        let s = AsyncLmCoordinator {
            parser: CmlParser::new(registry),
            executor: MessageExecutor::new(),
            interrupt_mgr: InterruptManager::new(style),
            checkpoint_mgr: CheckpointManager::new(),
            rule,
            trap_handler: TrapHandler::new(trap_config),
            generated: Vec::new(),
            recent_tokens: VecDeque::new(),
            repetition_window,
        };
        proof {
            assert(s@.executor =~= (ExecutorView {
                pending: Map::empty(),
                completed: Seq::empty(),
            }));
            assert(s@.interrupts =~= (InterruptView {
                style,
                queue: Seq::empty(),
                injected: Set::empty(),
                critical: false,
            }));
            assert(s@.recent =~= Seq::empty());
        }
        s
    }

    /// Takes note of a decoded token and tells whether a checkpoint is to be made before it
    /// enters the context.
    pub fn note_token(&mut self, token_id: u32) -> (checkpoint: bool)
        requires
            old(self).wf(),
        ensures
            final(self).wf(),
            checkpoint == (old(self)@.rule == CheckpointRule::BeforeDelimiter
                && old(self)@.checkpoint is None && old(self)@.grammar.enters(token_id)),
            final(self)@ == (CoordinatorView {
                recent: recent_after(old(self)@.recent, old(self)@.window, token_id),
                ..old(self)@
            }),
    {
        self.recent_tokens.push_back(token_id);
        if self.recent_tokens.len() > self.repetition_window {
            let _ = self.recent_tokens.pop_front();
        }
        proof {
            assert(self@.recent =~= recent_after(old(self)@.recent, old(self)@.window, token_id));
        }
        self.rule == CheckpointRule::BeforeDelimiter && !self.checkpoint_mgr.has_checkpoint()
            && self.parser.is_entry_delimiter_start(token_id)
    }

    /// The last tokens of the stream.
    pub fn recent(&self) -> (tokens: &VecDeque<u32>)
        ensures
            tokens@ == self@.recent,
    {
        &self.recent_tokens
    }

    /// Makes a checkpoint of `fork`, a fork of a context with `committed` tokens committed and
    /// `waiting` tokens pending.
    pub fn save_checkpoint(&mut self, fork: C, committed: usize, waiting: usize)
        requires
            old(self).wf(),
            committed < usize::MAX,
            committed + waiting <= usize::MAX,
        ensures
            final(self).wf(),
            final(self)@ == (CoordinatorView {
                checkpoint: Some(
                    Checkpoint {
                        ctx: fork,
                        token_count_at_save: (committed + waiting) as usize,
                        committed_len_at_save: committed,
                        generated_len_at_save: old(self)@.generated.len() as usize,
                    },
                ),
                ..old(self)@
            }),
    {
        self.checkpoint_mgr.save(fork, committed, waiting, self.generated.len());
    }

    /// Takes the next token of the stream.
    pub fn feed(&mut self, token_id: u32, codec: &TokenCodec) -> (events: Vec<Event>)
        requires
            old(self).wf(),
        ensures
            final(self).wf(),
            ({
                let (place, out) = cml_step(
                    old(self)@.grammar,
                    *codec,
                    old(self)@.place,
                    token_id,
                );
                &&& final(self)@ == (CoordinatorView { place, ..old(self)@ })
                &&& signals(events@) == out
            }),
    {
        self.parser.feed(token_id, codec)
    }

    /// Takes an event of the parser, with a context of `context_len` tokens, and says what the
    /// driver is to do.
    pub fn on_event(&mut self, e: Event, context_len: usize) -> (order: Order)
        requires
            old(self).wf(),
        ensures
            final(self).wf(),
            (final(self)@, order@) == coordinator_effect(old(self)@, e@, context_len),
    {
        match e {
            Event::Passthrough(t) => {
                self.generated.push(t);
                Order::Continue
            },
            Event::EnterCriticalSection => {
                self.interrupt_mgr.set_critical_section(true);
                if self.rule == CheckpointRule::AtBlock && !self.checkpoint_mgr.has_checkpoint() {
                    Order::Checkpoint
                } else {
                    Order::Continue
                }
            },
            Event::ExitCriticalSection => {
                self.interrupt_mgr.set_critical_section(false);
                Order::Continue
            },
            Event::Call { id, code } => {
                let payload = self.executor.dispatch(
                    FunctionCall { id, code, dispatch_token_count: context_len },
                );
                Order::Send(payload)
            },
            Event::Trap => Order::Trap,
            Event::EnteringBlockHint => Order::Continue,
        }
    }

    /// Takes results that came early: they queue up as interrupts.
    pub fn poll_completed(&mut self)
        requires
            old(self).wf(),
        ensures
            final(self).wf(),
            final(self)@ == (CoordinatorView {
                executor: ExecutorView { completed: Seq::empty(), ..old(self)@.executor },
                interrupts: InterruptView {
                    queue: old(self)@.interrupts.queue + old(self)@.executor.completed,
                    ..old(self)@.interrupts
                },
                ..old(self)@
            }),
    {
        let rs = self.executor.take_completed();
        self.interrupt_mgr.enqueue_all(rs);
    }

    /// The interrupts that may be injected now.
    pub fn drain_interrupts(&mut self) -> (frames: Vec<String>)
        requires
            old(self).wf(),
        ensures
            final(self).wf(),
            ({
                let (interrupts, out) = drained(old(self)@.interrupts);
                &&& final(self)@ == (CoordinatorView { interrupts, ..old(self)@ })
                &&& texts(frames@) == out
            }),
    {
        self.interrupt_mgr.drain()
    }

    /// Tells whether a trap has anything to wait for or to inject.
    pub fn trap_due(&self) -> (yes: bool)
        requires
            self.wf(),
        ensures
            yes == (self@.executor.waits() || self@.interrupts.queue.len() > 0),
    {
        self.executor.has_pending() || !self.interrupt_mgr.is_empty()
    }

    /// Tells whether a call is out.
    pub fn has_pending(&self) -> (yes: bool)
        requires
            self.wf(),
        ensures
            yes == self@.executor.waits(),
    {
        self.executor.has_pending()
    }

    /// The strategy for a trap. `pressure` compares the share of the context limit that is in
    /// use with the threshold.
    pub fn decide(&self, pressure: Pressure, context_len: usize) -> (s: TrapStrategy)
        requires
            self.wf(),
        ensures
            s == decided(
                self@.config,
                self@.checkpoint is Some,
                pressure,
                context_len,
                match self@.checkpoint {
                    Some(cp) => Some(cp.token_count_at_save),
                    None => None,
                },
            ),
    {
        self.trap_handler.decide(
            self.checkpoint_mgr.has_checkpoint(),
            self.executor.pending_count(),
            pressure,
            context_len,
            self.checkpoint_mgr.checkpoint_token_count(),
        )
    }

    /// Takes the replies that have come while a trap waits, for as long as a call is out:
    /// the results queue up as interrupts, behind those that came early.
    pub fn wait_all(&mut self, replies: &Vec<String>)
        requires
            old(self).wf(),
        ensures
            final(self).wf(),
            ({
                let (executor, rs) = awaited(old(self)@.executor, texts(replies@));
                final(self)@ == (CoordinatorView {
                    executor,
                    interrupts: InterruptView {
                        queue: old(self)@.interrupts.queue + rs,
                        ..old(self)@.interrupts
                    },
                    ..old(self)@
                })
            }),
    {
        let rs = self.executor.wait_all(replies);
        self.interrupt_mgr.enqueue_all(rs);
    }

    fn release(&mut self) -> (frames: Vec<String>)
        requires
            old(self).wf(),
        ensures
            final(self).wf(),
            ({
                let (interrupts, out) = drained(
                    InterruptView { critical: false, ..old(self)@.interrupts },
                );
                &&& final(self)@ == (CoordinatorView { interrupts, ..old(self)@ })
                &&& texts(frames@) == out
            }),
    {
        self.interrupt_mgr.set_critical_section(false);
        self.interrupt_mgr.drain()
    }

    /// Carries a trap out by `strategy`, once its calls are done.
    pub fn finish_trap(
        &mut self,
        strategy: TrapStrategy,
        committed: usize,
        context_len: usize,
    ) -> (r: Resumption<C>)
        requires
            old(self).wf(),
            committed <= context_len < usize::MAX,
        ensures
            final(self).wf(),
            coordinator_trap_done(
                old(self)@,
                strategy,
                committed,
                context_len,
                final(self)@,
                r,
            ),
    {
        match strategy {
            TrapStrategy::Keep => {
                let frames = self.release();
                Resumption::Fill { frames }
            },
            TrapStrategy::Swap => {
                match self.checkpoint_mgr.take() {
                    Some(cp) => {
                        shorten(&mut self.generated, cp.generated_len_at_save);
                        let frames = self.release();
                        Resumption::Restore { ctx: cp.ctx, frames }
                    },
                    None => Resumption::Unchanged,
                }
            },
            TrapStrategy::Recompute => {
                match self.checkpoint_mgr.take() {
                    Some(cp) => {
                        let cut = match self.rule {
                            CheckpointRule::BeforeDelimiter => cut_committed(
                                committed,
                                cp.committed_len_at_save,
                            ),
                            CheckpointRule::AtBlock => cut_grown(
                                committed,
                                context_len,
                                cp.token_count_at_save,
                            ),
                        };
                        shorten(&mut self.generated, cp.generated_len_at_save);
                        let frames = self.release();
                        Resumption::Shorten { cut, frames }
                    },
                    None => Resumption::Unchanged,
                }
            },
        }
    }

    /// Tells whether generation is over.
    pub fn is_over(&self, max_tokens: usize, stops: &Vec<Vec<u32>>) -> (yes: bool)
        ensures
            yes <==> self@.generated.len() >= max_tokens || exists|i: int|
                0 <= i < stops@.len() && stops_with(self@.generated, #[trigger] rows(stops@)[i]),
    {
        should_stop(&self.generated, max_tokens, stops)
    }

    /// Tells whether the stream stands inside a block.
    pub fn in_critical_section(&self) -> (yes: bool)
        ensures
            yes == (self@.place.state != CmlState::Normal),
    {
        self.parser.in_critical_section()
    }

    /// Ends the session: the text of its tokens, those that the parser held back included.
    pub fn finish(self, codec: &TokenCodec) -> (text: String)
        requires
            self.wf(),
        ensures
            text@ == codec.text(
                self@.generated + tokens_of(passed(self@.place.buf)),
            ),
    {
        let mut ended = self;
        let events = ended.parser.flush_pending();
        keep_tokens(&mut ended.generated, &events);
        codec.decode_or_default(ended.generated.as_slice())
    }
}

/// However a trap is carried out, it injects every result that is queued, in the order in
/// which they came, and leaves none behind.
pub proof fn trap_injects_every_result<C>(
    s: CoordinatorView<C>,
    strategy: TrapStrategy,
    committed: usize,
    context_len: usize,
    next: CoordinatorView<C>,
    r: Resumption<C>,
)
    requires
        coordinator_trap_done(s, strategy, committed, context_len, next, r),
        strategy == TrapStrategy::Keep || s.checkpoint is Some,
    ensures
        added(r) == result_frames(s.interrupts.style, s.interrupts.queue),
        next.interrupts.queue.len() == 0,
{
}

/// The window never holds more tokens than it may, and always the last ones.
pub proof fn recent_tokens_are_the_last(recent: Seq<u32>, window: usize, t: u32)
    requires
        recent.len() <= window,
        window > 0,
    ensures
        recent_after(recent, window, t).len() <= window,
        recent_after(recent, window, t).last() == t,
        recent_after(recent, window, t).is_suffix_of(recent.push(t)),
{
    let all = recent.push(t);
    let after = recent_after(recent, window, t);
    assert(after =~= all.subrange(all.len() - after.len(), all.len() as int));
}

} // verus!
