//! A session that writes on while calls run and injects their results at the next trap.

use vstd::prelude::*;
use vstd::string::*;

use crate::codec::TokenCodec;
use crate::interrupts::{intr_frame, result_frames, texts, FrameStyle};
use crate::machine::{feed_step, shown, signals, Event, Machine, Signal};
use crate::parser::{machine_of, plain_machine_of, Parser};
use crate::prompts::{MINIMAL_SYSTEM, OVERLAP_SYSTEM};
use crate::registry::CmlRegistry;
use crate::session::{
    encode_frames, encoded_all, keep_tokens, pendings, plain_results, poll_all, results_of, stage,
    stages, still_out, tokens_of, Action, Pending, PendingView, Staging,
};

verus! {

broadcast use vstd::string::group_string_axioms;

/// How many tokens are generated unless the request says otherwise.
pub fn default_max_tokens() -> (n: usize)
    ensures
        n == 2048,
{
    2048
}

/// How many tokens are generated unless the request says otherwise, where the session
/// samples by itself.
pub fn default_sampled_max_tokens() -> (n: usize)
    ensures
        n == 512,
{
    512
}

/// How long a call takes unless the request says otherwise, in milliseconds.
pub fn default_fake_wait_ms() -> (ms: u64)
    ensures
        ms == 500,
{
    500
}

/// The system prompt unless the request says otherwise.
pub fn default_system() -> (text: String)
    ensures
        text@ == OVERLAP_SYSTEM@,
{
    OVERLAP_SYSTEM.to_owned()
}

/// The system prompt unless the request says otherwise, where the session samples by itself.
pub fn default_sampled_system() -> (text: String)
    ensures
        text@ == MINIMAL_SYSTEM@,
{
    MINIMAL_SYSTEM.to_owned()
}

/// The session as it stands.
#[verifier::ext_equal]
pub struct OverlapView {
    pub machine: Machine,
    /// The tokens of the answer.
    pub generated: Seq<u32>,
    /// The calls that are out, in the order in which they went out.
    pub pending: Seq<PendingView>,
    /// The interrupts for the calls that are done, in the order in which they were done.
    pub frames: Seq<Seq<char>>,
    /// How long a call takes, in milliseconds.
    pub wait_ms: u64,
    /// The next step only processes injected tokens.
    pub flush_next: bool,
    /// The last injected token, held back until that step is done.
    pub tail: Option<u32>,
}

/// What a signal does to the session, and what the driver is asked to do.
pub open spec fn overlap_effect(s: OverlapView, e: Signal) -> (OverlapView, Action) {
    match e {
        Signal::Token(t) => (
            OverlapView { generated: s.generated.push(t), ..s },
            Action::Continue,
        ),
        Signal::Call { id, code } => (
            OverlapView {
                pending: s.pending.push(PendingView { id, code, wait_ms: s.wait_ms }),
                ..s
            },
            Action::Started,
        ),
        Signal::Trap => (s, Action::Trap),
        _ => (s, Action::Continue),
    }
}

/// The session after every call has been polled once.
pub open spec fn overlap_polled(s: OverlapView, ready: Seq<bool>) -> OverlapView {
    OverlapView {
        pending: still_out(s.pending, ready),
        frames: s.frames + result_frames(FrameStyle::Spaced, results_of(s.pending, ready)),
        ..s
    }
}

/// A session that writes on while calls run.
pub struct OverlapSession {
    parser: Parser,
    generated: Vec<u32>,
    pending: Vec<Pending>,
    ready_frames: Vec<String>,
    wait_ms: u64,
    flush_injected_prefix: bool,
    deferred_injected_tail: Option<u32>,
}

impl View for OverlapSession {
    type V = OverlapView;

    closed spec fn view(&self) -> OverlapView {
        OverlapView {
            machine: self.parser@,
            generated: self.generated@,
            pending: pendings(self.pending@),
            frames: texts(self.ready_frames@),
            wait_ms: self.wait_ms,
            flush_next: self.flush_injected_prefix,
            tail: self.deferred_injected_tail,
        }
    }
}

/// A session in which nothing has happened yet.
pub open spec fn fresh_overlap(machine: Machine, wait_ms: u64) -> OverlapView {
    OverlapView {
        machine,
        generated: Seq::empty(),
        pending: Seq::empty(),
        frames: Seq::empty(),
        wait_ms,
        flush_next: false,
        tail: None,
    }
}

impl OverlapSession {
    fn with_parser(parser: Parser, wait_ms: u64) -> (s: OverlapSession)
        ensures
            s@ == fresh_overlap(parser@, wait_ms),
    {
        let s = OverlapSession {
            parser,
            generated: Vec::new(),
            pending: Vec::new(),
            ready_frames: Vec::new(),
            wait_ms,
            flush_injected_prefix: false,
            deferred_injected_tail: None,
        };
        proof {
            assert(s@ =~= fresh_overlap(parser@, wait_ms));
        }
        s
    }

    /// A session for the delimiters of `reg`, with interrupts and reasoning sections.
    pub fn new(reg: &CmlRegistry, wait_ms: u64) -> (s: OverlapSession)
        requires
            reg@.wf(),
        ensures
            s@ == fresh_overlap(machine_of(reg@), wait_ms),
    {
        OverlapSession::with_parser(Parser::new(reg), wait_ms)
    }

    /// A session for the delimiters of `reg`, without interrupts and reasoning sections.
    pub fn new_plain(reg: &CmlRegistry, wait_ms: u64) -> (s: OverlapSession)
        requires
            reg@.wf(),
        ensures
            s@ == fresh_overlap(plain_machine_of(reg@), wait_ms),
    {
        OverlapSession::with_parser(Parser::new_plain(reg), wait_ms)
    }

    /// Begins a step and tells whether it only processes injected tokens.
    pub fn begin_step(&mut self) -> (flushes: bool)
        ensures
            flushes == old(self)@.flush_next,
            final(self)@ == (OverlapView { flush_next: false, ..old(self)@ }),
    {
        let flushes: bool = self.flush_injected_prefix;
        self.flush_injected_prefix = false;
        flushes
    }

    /// Takes the token held back, once the injected tokens have been processed.
    pub fn take_tail(&mut self) -> (tail: Option<u32>)
        ensures
            tail == old(self)@.tail,
            final(self)@ == (OverlapView { tail: None, ..old(self)@ }),
    {
        self.deferred_injected_tail.take()
    }

    /// The calls that are out.
    pub fn pending(&self) -> (calls: &Vec<Pending>)
        ensures
            pendings(calls@) == self@.pending,
    {
        &self.pending
    }

    /// Polls every call once: the results of those that are ready wait for the next trap.
    pub fn poll(&mut self, ready: &Vec<bool>)
        requires
            old(self)@.pending.len() == ready.len(),
        ensures
            final(self)@ == overlap_polled(old(self)@, ready@),
    {
        let ghost before = self@;
        let done = poll_all(&mut self.pending, ready);
        let ghost results = plain_results(done@);
        let ghost framed = result_frames(FrameStyle::Spaced, results);
        let mut i: usize = 0;
        proof {
            assert(before.frames + framed.take(0) =~= before.frames);
        }
        while i < done.len()
            invariant
                i <= done.len(),
                results == plain_results(done@),
                framed == result_frames(FrameStyle::Spaced, results),
                self@ == (OverlapView {
                    pending: still_out(before.pending, ready@),
                    frames: before.frames + framed.take(i as int),
                    ..before
                }),
            decreases done.len() - i,
        {
            let ghost told = self.ready_frames@;
            let text = intr_frame(done[i].0.as_str(), done[i].1.as_str());
            self.ready_frames.push(text);
            i = i + 1;
            proof {
                assert(texts(self.ready_frames@) =~= texts(told).push(framed[i - 1]));
                assert(framed.take(i as int) =~= framed.take(i - 1).push(framed[i - 1]));
                assert(before.frames + framed.take(i as int) =~= (before.frames + framed.take(
                    i - 1,
                )).push(framed[i - 1]));
            }
        }
        proof {
            assert(framed.take(done@.len() as int) =~= framed);
        }
    }

    /// Takes the next token of the stream.
    pub fn feed(&mut self, token_id: u32, codec: &TokenCodec) -> (events: Vec<Event>)
        ensures
            ({
                let (machine, out) = feed_step(*codec, old(self)@.machine, token_id);
                &&& final(self)@ == (OverlapView { machine, ..old(self)@ })
                &&& signals(events@) == out
            }),
    {
        self.parser.feed(token_id, codec)
    }

    /// Takes an event of the parser and says what the driver is to do.
    pub fn on_event(&mut self, e: Event) -> (action: Action)
        ensures
            (final(self)@, action) == overlap_effect(old(self)@, e@),
    {
        match e {
            Event::Passthrough(t) => {
                self.generated.push(t);
                Action::Continue
            },
            Event::Call { id, code } => {
                let ghost before = self.pending@;
                let call = Pending { id, code, wait_ms: self.wait_ms };
                let ghost view = call@;
                self.pending.push(call);
                proof {
                    assert(pendings(self.pending@) =~= pendings(before).push(view));
                }
                Action::Started
            },
            Event::Trap => Action::Trap,
            _ => Action::Continue,
        }
    }

    /// Takes the interrupts for the calls that are done.
    pub fn take_frames(&mut self) -> (frames: Vec<String>)
        ensures
            texts(frames@) == old(self)@.frames,
            final(self)@ == (OverlapView { frames: Seq::empty(), ..old(self)@ }),
    {
        let mut frames: Vec<String> = Vec::new();
        frames.append(&mut self.ready_frames);
        proof {
            assert(texts(frames@) =~= old(self)@.frames);
            assert(self@.frames =~= Seq::empty());
        }
        frames
    }

    /// Takes the interrupts for the calls that are done and says how they are injected,
    /// bundled into one sequence of tokens. Where the last token is held back, the next step
    /// only processes the others.
    pub fn stage_injection(&mut self, codec: &TokenCodec) -> (s: Staging)
        ensures
            stages(s, encoded_all(*codec, old(self)@.frames)),
            final(self)@ == (match s {
                Staging::Split { prefix, tail } => OverlapView {
                    frames: Seq::empty(),
                    flush_next: true,
                    tail: Some(tail),
                    ..old(self)@
                },
                _ => OverlapView { frames: Seq::empty(), ..old(self)@ },
            }),
    {
        let frames = self.take_frames();
        let s = stage(encode_frames(codec, &frames));
        match &s {
            Staging::Split { prefix, tail } => {
                self.deferred_injected_tail = Some(*tail);
                self.flush_injected_prefix = true;
            },
            _ => {},
        }
        s
    }

    /// The tokens of the answer so far.
    pub fn generated(&self) -> (tokens: &Vec<u32>)
        ensures
            tokens@ == self@.generated,
    {
        &self.generated
    }

    /// Ends the session: the text of its tokens, those that the parser held back included.
    pub fn finish(self, codec: &TokenCodec) -> (text: String)
        ensures
            text@ == codec.text(
                self@.generated + tokens_of(shown(*codec, self@.machine.core.buf)),
            ),
    {
        let mut ended = self;
        let events = ended.parser.flush(codec);
        keep_tokens(&mut ended.generated, &events);
        codec.decode_or_default(ended.generated.as_slice())
    }
}

/// Results wait for the trap: polling never touches the answer or the stream, and it only
/// ever adds interrupts behind those that wait already.
pub proof fn polling_keeps_the_answer(s: OverlapView, ready: Seq<bool>)
    ensures
        overlap_polled(s, ready).generated == s.generated,
        overlap_polled(s, ready).machine == s.machine,
        s.frames.is_prefix_of(overlap_polled(s, ready).frames),
{
    let after = overlap_polled(s, ready).frames;
    assert(s.frames =~= after.subrange(0, s.frames.len() as int));
}

} // verus!
