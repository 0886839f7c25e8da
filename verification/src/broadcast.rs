//! A session whose calls go out to a worker by message.

use vstd::prelude::*;
use vstd::string::*;

use crate::cml::{
    cml_grammar_of, cml_run, cml_step, initial_cml, CmlCore, CmlGrammar, CmlParser, CmlState,
};
use crate::codec::TokenCodec;
use crate::executor::{
    awaited, call_payload, polled, CallView, ExecutorView, FunctionCall, MessageExecutor,
};
use crate::interrupts::{
    drained, texts, FrameStyle, InterruptManager, InterruptView,
};
use crate::interruptible::tokens_of_append;
use crate::machine::{passed, signals, Event, Signal};
use crate::prompts::BROADCAST_SYSTEM;
use crate::session::{encode_frames, encoded_all, keep_tokens, tokens_of};
use crate::variants::CmlTokenRegistry;

verus! {

broadcast use vstd::string::group_string_axioms;

/// How many tokens are generated unless the request says otherwise.
pub fn default_max_tokens() -> (n: usize)
    ensures
        n == 512,
{
    512
}

/// How long the context may grow unless the request says otherwise.
pub fn default_max_context() -> (n: usize)
    ensures
        n == 4096,
{
    4096
}

/// The topic on which calls go out unless the request says otherwise.
pub fn default_dispatch_topic() -> (topic: String)
    ensures
        topic@ == "asynclm/call"@,
{
    "asynclm/call".to_owned()
}

/// The topic on which replies come back unless the request says otherwise.
pub fn default_result_topic() -> (topic: String)
    ensures
        topic@ == "asynclm/result"@,
{
    "asynclm/result".to_owned()
}

/// The system prompt unless the request says otherwise.
pub fn default_system() -> (text: String)
    ensures
        text@ == BROADCAST_SYSTEM@,
{
    BROADCAST_SYSTEM.to_owned()
}

/// What the session asks of its driver after an event.
#[derive(Debug)]
pub enum Request {
    /// Nothing: go on.
    Continue,
    /// Send this message to the worker.
    Send(String),
    /// A trap: wait for the calls.
    Trap,
}

/// A request, with its text as a sequence of characters.
pub enum RequestView {
    Continue,
    Send(Seq<char>),
    Trap,
}

impl View for Request {
    type V = RequestView;

    open spec fn view(&self) -> RequestView {
        match *self {
            Request::Continue => RequestView::Continue,
            Request::Send(m) => RequestView::Send(m@),
            Request::Trap => RequestView::Trap,
        }
    }
}

/// The session as it stands.
#[verifier::ext_equal]
pub struct BroadcastView {
    pub grammar: CmlGrammar,
    pub place: CmlCore,
    pub executor: ExecutorView,
    pub interrupts: InterruptView,
    /// The tokens of the answer.
    pub generated: Seq<u32>,
}

/// What a signal does to the session, and what the driver is asked to do.
pub open spec fn broadcast_effect(s: BroadcastView, e: Signal) -> (BroadcastView, RequestView) {
    match e {
        Signal::Token(t) => (
            BroadcastView { generated: s.generated.push(t), ..s },
            RequestView::Continue,
        ),
        Signal::Enter => (
            BroadcastView { interrupts: InterruptView { critical: true, ..s.interrupts }, ..s },
            RequestView::Continue,
        ),
        Signal::Exit => (
            BroadcastView { interrupts: InterruptView { critical: false, ..s.interrupts }, ..s },
            RequestView::Continue,
        ),
        Signal::Call { id, code } => (
            BroadcastView {
                executor: ExecutorView {
                    pending: s.executor.pending.insert(
                        id,
                        CallView { id, code, dispatch_token_count: 0 },
                    ),
                    ..s.executor
                },
                ..s
            },
            RequestView::Send(call_payload(id, code)),
        ),
        Signal::Trap => (s, RequestView::Trap),
        Signal::Hint => (s, RequestView::Continue),
    }
}

/// A session whose calls go out by message.
pub struct BroadcastSession {
    parser: CmlParser,
    executor: MessageExecutor,
    interrupts: InterruptManager,
    generated: Vec<u32>,
}

impl View for BroadcastSession {
    type V = BroadcastView;

    closed spec fn view(&self) -> BroadcastView {
        BroadcastView {
            grammar: self.parser.grammar(),
            place: self.parser.place(),
            executor: self.executor@,
            interrupts: self.interrupts@,
            generated: self.generated@,
        }
    }
}

impl BroadcastSession {
    /// Calls and interrupts are well-formed.
    pub closed spec fn wf(&self) -> bool {
        self.executor.wf() && self.interrupts.wf()
    }

    /// A session for the delimiters of `reg`.
    pub fn new(reg: &CmlTokenRegistry) -> (s: BroadcastSession)
        requires
            reg@.wf(),
        ensures
            s.wf(),
            s@ == (BroadcastView {
                grammar: cml_grammar_of(reg@),
                place: initial_cml(),
                executor: ExecutorView { pending: Map::empty(), completed: Seq::empty() },
                interrupts: InterruptView {
                    style: FrameStyle::Spaced,
                    queue: Seq::empty(),
                    injected: Set::empty(),
                    critical: false,
                },
                generated: Seq::empty(),
            }),
    {
        let s = BroadcastSession {
            parser: CmlParser::new(reg),
            executor: MessageExecutor::new(),
            interrupts: InterruptManager::new(FrameStyle::Spaced),
            generated: Vec::new(),
        };
        proof {
            assert(s@.executor =~= (ExecutorView {
                pending: Map::empty(),
                completed: Seq::empty(),
            }));
            assert(s@.interrupts.queue =~= Seq::empty());
        }
        s
    }

    /// Takes the replies at hand: their results queue up as interrupts.
    pub fn poll(&mut self, msgs: &Vec<String>)
        requires
            old(self).wf(),
        ensures
            final(self).wf(),
            ({
                let (executor, rs) = polled(old(self)@.executor, texts(msgs@));
                final(self)@ == (BroadcastView {
                    executor,
                    interrupts: InterruptView {
                        queue: old(self)@.interrupts.queue + rs,
                        ..old(self)@.interrupts
                    },
                    ..old(self)@
                })
            }),
    {
        let rs = self.executor.poll_completed(msgs);
        self.interrupts.enqueue_all(rs);
    }

    /// Takes the next token of the stream.
    pub fn feed(&mut self, token_id: u32, codec: &TokenCodec) -> (events: Vec<Event>)
        requires
            old(self).wf(),
        ensures
            final(self).wf(),
            ({
                let (place, out) = cml_step(
                    old(self)@.grammar,
                    *codec,
                    old(self)@.place,
                    token_id,
                );
                &&& final(self)@ == (BroadcastView { place, ..old(self)@ })
                &&& signals(events@) == out
            }),
    {
        self.parser.feed(token_id, codec)
    }

    /// Takes an event of the parser and says what the driver is to do.
    pub fn on_event(&mut self, e: Event) -> (request: Request)
        requires
            old(self).wf(),
        ensures
            final(self).wf(),
            (final(self)@, request@) == broadcast_effect(old(self)@, e@),
    {
        match e {
            Event::Passthrough(t) => {
                self.generated.push(t);
                Request::Continue
            },
            Event::EnterCriticalSection => {
                self.interrupts.set_critical_section(true);
                Request::Continue
            },
            Event::ExitCriticalSection => {
                self.interrupts.set_critical_section(false);
                Request::Continue
            },
            Event::Call { id, code } => {
                let payload = self.executor.dispatch(
                    FunctionCall { id, code, dispatch_token_count: 0 },
                );
                Request::Send(payload)
            },
            Event::Trap => Request::Trap,
            Event::EnteringBlockHint => Request::Continue,
        }
    }

    /// Tells whether a call is out.
    pub fn has_pending(&self) -> (yes: bool)
        requires
            self.wf(),
        ensures
            yes == self@.executor.waits(),
    {
        self.executor.has_pending()
    }

    /// How many calls are out.
    pub fn pending_count(&self) -> (n: usize)
        requires
            self.wf(),
        ensures
            self@.executor.pending.dom().finite(),
            n == self@.executor.pending.dom().len(),
    {
        self.executor.pending_count()
    }

    /// Tells whether a trap has anything to wait for or to inject.
    pub fn trap_due(&self) -> (yes: bool)
        requires
            self.wf(),
        ensures
            yes == (self@.executor.waits() || self@.interrupts.queue.len() > 0),
    {
        self.executor.has_pending() || !self.interrupts.is_empty()
    }

    /// Takes the replies that have come while a trap waits, for as long as a call is out:
    /// the results queue up as interrupts, behind those that came early.
    pub fn wait_all(&mut self, replies: &Vec<String>)
        requires
            old(self).wf(),
        ensures
            final(self).wf(),
            ({
                let (executor, rs) = awaited(old(self)@.executor, texts(replies@));
                final(self)@ == (BroadcastView {
                    executor,
                    interrupts: InterruptView {
                        queue: old(self)@.interrupts.queue + rs,
                        ..old(self)@.interrupts
                    },
                    ..old(self)@
                })
            }),
    {
        let rs = self.executor.wait_all(replies);
        self.interrupts.enqueue_all(rs);
    }

    /// The tokens to inject at the end of a trap, which ends the block that it stands in.
    pub fn trap_injection(&mut self, codec: &TokenCodec) -> (tokens: Vec<u32>)
        requires
            old(self).wf(),
        ensures
            final(self).wf(),
            ({
                let (interrupts, frames) = drained(
                    InterruptView { critical: false, ..old(self)@.interrupts },
                );
                &&& final(self)@ == (BroadcastView { interrupts, ..old(self)@ })
                &&& tokens@ == encoded_all(*codec, frames)
            }),
    {
        self.interrupts.set_critical_section(false);
        let frames = self.interrupts.drain();
        encode_frames(codec, &frames)
    }

    /// The tokens to inject between two steps: the interrupts that wait, if no block is
    /// announced and the parser holds nothing back.
    pub fn midstream_injection(&mut self, codec: &TokenCodec) -> (tokens: Vec<u32>)
        requires
            old(self).wf(),
        ensures
            final(self).wf(),
            ({
                let s = old(self)@;
                if !s.interrupts.critical && s.place.buf.len() == 0 {
                    let (interrupts, frames) = drained(s.interrupts);
                    &&& final(self)@ == (BroadcastView { interrupts, ..s })
                    &&& tokens@ == encoded_all(*codec, frames)
                } else {
                    final(self)@ == s && tokens@.len() == 0
                }
            }),
    {
        if !self.interrupts.in_critical_section() && !self.parser.has_pending() {
            let frames = self.interrupts.drain();
            encode_frames(codec, &frames)
        } else {
            Vec::new()
        }
    }

    /// Takes injected tokens that the model has accepted: they go through the parser, and
    /// only those that it hands on count.
    pub fn absorb_accepted(&mut self, tokens: &Vec<u32>, codec: &TokenCodec)
        requires
            old(self).wf(),
        ensures
            final(self).wf(),
            ({
                let (place, out) = cml_run(
                    old(self)@.grammar,
                    *codec,
                    old(self)@.place,
                    tokens@,
                );
                final(self)@ == (BroadcastView {
                    place,
                    generated: old(self)@.generated + tokens_of(out),
                    ..old(self)@
                })
            }),
    {
        let ghost start = self@;
        let mut i: usize = 0;
        proof {
            assert(tokens@.take(0) =~= Seq::empty());
            assert(start.generated + tokens_of(Seq::empty()) =~= start.generated);
        }
        while i < tokens.len()
            invariant
                self.wf(),
                i <= tokens.len(),
                ({
                    let (place, out) = cml_run(
                        start.grammar,
                        *codec,
                        start.place,
                        tokens@.take(i as int),
                    );
                    self@ == (BroadcastView {
                        place,
                        generated: start.generated + tokens_of(out),
                        ..start
                    })
                }),
            decreases tokens.len() - i,
        {
            let ghost before = cml_run(start.grammar, *codec, start.place, tokens@.take(i as int));
            let events = self.parser.feed(tokens[i], codec);
            keep_tokens(&mut self.generated, &events);
            proof {
                assert(tokens@.take(i + 1).drop_last() =~= tokens@.take(i as int));
                assert(tokens@.take(i + 1).last() == tokens@[i as int]);
                tokens_of_append(before.1, signals(events@));
                assert((start.generated + tokens_of(before.1)) + tokens_of(signals(events@))
                    =~= start.generated + (tokens_of(before.1) + tokens_of(signals(events@))));
            }
            i = i + 1;
        }
        proof {
            assert(tokens@.take(tokens@.len() as int) =~= tokens@);
        }
    }

    /// Tells whether the stream stands inside a block.
    pub fn in_critical_section(&self) -> (yes: bool)
        ensures
            yes == (self@.place.state != CmlState::Normal),
    {
        self.parser.in_critical_section()
    }

    /// Ends the session: the text of its tokens, those that the parser held back included.
    pub fn finish(self, codec: &TokenCodec) -> (text: String)
        requires
            self.wf(),
        ensures
            text@ == codec.text(
                self@.generated + tokens_of(passed(self@.place.buf)),
            ),
    {
        let mut ended = self;
        let events = ended.parser.flush_pending();
        keep_tokens(&mut ended.generated, &events);
        codec.decode_or_default(ended.generated.as_slice())
    }
}

} // verus!
