//! Parsers that announce the blocks that they enter and leave, and one that also announces
//! that a block may be about to start.

use vstd::prelude::*;

use crate::codec::TokenCodec;
use crate::machine::{
    feed_step, shown, signals, Core, Event, Machine, Signal, State,
};
use crate::parser::{plain_machine_of, Parser};
use crate::pattern::{starts, Delim, Table};
use crate::registry::CmlRegistry;

verus! {

/// The announcement that goes with a change of state, if any.
pub open spec fn crossing(before: State, after: State) -> Seq<Signal> {
    if before == State::Normal && after != State::Normal {
        seq![Signal::Enter]
    } else if before != State::Normal && after == State::Normal {
        seq![Signal::Exit]
    } else {
        Seq::empty()
    }
}

/// A token of the stream, with announcements after what it gives.
pub open spec fn block_step(codec: TokenCodec, m: Machine, t: u32) -> (Machine, Seq<Signal>) {
    let (next, out) = feed_step(codec, m, t);
    (next, out + crossing(m.core.state, next.core.state))
}

/// A parser that announces the blocks that it enters and leaves.
pub struct BlockParser {
    parser: Parser,
}

impl View for BlockParser {
    type V = Machine;

    closed spec fn view(&self) -> Machine {
        self.parser@
    }
}

impl BlockParser {
    /// A parser for the delimiters of `reg`.
    pub fn new(reg: &CmlRegistry) -> (parser: BlockParser)
        requires
            reg@.wf(),
        ensures
            parser@ == plain_machine_of(reg@),
    {
        BlockParser { parser: Parser::new_plain(reg) }
    }

    /// Takes the next token of the stream.
    pub fn feed(&mut self, token_id: u32, codec: &TokenCodec) -> (events: Vec<Event>)
        ensures
            (final(self)@, signals(events@)) == block_step(*codec, old(self)@, token_id),
    {
        let before: State = self.parser.state();
        let mut events = self.parser.feed(token_id, codec);
        let after: State = self.parser.state();
        let ghost out = signals(events@);
        if before == State::Normal && after != State::Normal {
            events.push(Event::EnterCriticalSection);
            proof {
                assert(signals(events@) =~= out + seq![Signal::Enter]);
            }
        } else if before != State::Normal && after == State::Normal {
            events.push(Event::ExitCriticalSection);
            proof {
                assert(signals(events@) =~= out + seq![Signal::Exit]);
            }
        } else {
            proof {
                assert(out + Seq::<Signal>::empty() =~= out);
            }
        }
        events
    }

    /// Hands on what the buffer holds and empties it.
    pub fn flush(&mut self, codec: &TokenCodec) -> (events: Vec<Event>)
        ensures
            final(self)@ == (Machine {
                core: Core { buf: Seq::empty(), ..old(self)@.core },
                ..old(self)@
            }),
            signals(events@) == shown(*codec, old(self)@.core.buf),
    {
        self.parser.flush(codec)
    }

    /// Tells whether the stream stands in ordinary text with nothing held back.
    pub fn is_clean(&self) -> (yes: bool)
        ensures
            yes == (self@.core.state == State::Normal && self@.core.buf.len() == 0),
    {
        self.parser.is_clean()
    }
}

/// The delimiter opens a block.
pub open spec fn opens_block(d: Delim) -> bool {
    d == Delim::Call || d == Delim::Trap || d == Delim::TrapEnd
}

/// `buf` is the start of a whole delimiter that opens a block.
pub open spec fn starts_block(alts: Seq<u32>, full: Table, buf: Seq<u32>) -> bool {
    exists|i: int|
        0 <= i < full.len() && opens_block((#[trigger] full[i]).0) && starts(alts, buf, full[i].1)
}

/// A parser with its memory of the hint.
#[verifier::ext_equal]
pub struct Hinting {
    pub machine: Machine,
    /// The hint for the tokens that are held back has been given.
    pub hinted: bool,
}

/// `t` calls for the hint.
pub open spec fn hint_due(h: Hinting, t: u32) -> bool {
    let m = h.machine;
    &&& m.core.state == State::Normal
    &&& !h.hinted
    &&& starts_block(m.grammar.alts, m.grammar.full, m.core.buf.push(t))
}

/// Whether the hint is given already, after a token.
pub open spec fn hinted_after(h: Hinting, t: u32, next: Machine) -> bool {
    if next.core.state != State::Normal {
        h.machine.core.state == State::Normal || h.hinted
    } else if h.machine.core.state != State::Normal {
        false
    } else {
        next.core.buf.len() > 0 && (h.hinted || hint_due(h, t))
    }
}

/// A token of the stream: first the hint that a block may be about to start, then what the
/// token gives, with announcements.
pub open spec fn hint_step(codec: TokenCodec, h: Hinting, t: u32) -> (Hinting, Seq<Signal>) {
    let (next, out) = block_step(codec, h.machine, t);
    let hint = if hint_due(h, t) {
        seq![Signal::Hint]
    } else {
        Seq::empty()
    };
    (Hinting { machine: next, hinted: hinted_after(h, t, next) }, hint + out)
}

/// A parser that announces blocks and that one may be about to start.
pub struct HintParser {
    parser: BlockParser,
    hint_emitted: bool,
}

impl View for HintParser {
    type V = Hinting;

    closed spec fn view(&self) -> Hinting {
        Hinting { machine: self.parser@, hinted: self.hint_emitted }
    }
}

impl HintParser {
    /// A parser for the delimiters of `reg`.
    pub fn new(reg: &CmlRegistry) -> (parser: HintParser)
        requires
            reg@.wf(),
        ensures
            parser@ == (Hinting { machine: plain_machine_of(reg@), hinted: false }),
    {
        HintParser { parser: BlockParser::new(reg), hint_emitted: false }
    }

    /// Takes the next token of the stream.
    pub fn feed(&mut self, token_id: u32, codec: &TokenCodec) -> (events: Vec<Event>)
        ensures
            (final(self)@, signals(events@)) == hint_step(*codec, old(self)@, token_id),
    {
        let ghost before = self@;
        let was_normal: bool = self.parser.parser.state() == State::Normal;
        let hint: bool = was_normal && !self.hint_emitted && self.parser.parser.opens_with(
            token_id,
        );
        let mut out = self.parser.feed(token_id, codec);
        let mut events: Vec<Event> = Vec::new();
        let ghost rest = signals(out@);
        let ghost given = events@;
        if hint {
            events.push(Event::EnteringBlockHint);
        }
        let ghost lead = events@;
        let ghost tail = out@;
        events.append(&mut out);
        let is_normal: bool = self.parser.parser.state() == State::Normal;
        if !is_normal {
            self.hint_emitted = was_normal || self.hint_emitted;
        } else if !was_normal {
            self.hint_emitted = false;
        } else {
            self.hint_emitted = !self.parser.is_clean() && (self.hint_emitted || hint);
        }
        proof {
            assert(signals(events@) =~= signals(lead) + rest);
            if hint {
                assert(signals(lead) =~= seq![Signal::Hint]);
            } else {
                assert(signals(lead) =~= Seq::empty());
            }
            assert((self@, signals(events@)) == hint_step(*codec, before, token_id));
        }
        events
    }

    /// Hands on what the buffer holds and empties it.
    pub fn flush(&mut self, codec: &TokenCodec) -> (events: Vec<Event>)
        ensures
            final(self)@ == (Hinting {
                machine: Machine {
                    core: Core { buf: Seq::empty(), ..old(self)@.machine.core },
                    ..old(self)@.machine
                },
                ..old(self)@
            }),
            signals(events@) == shown(*codec, old(self)@.machine.core.buf),
    {
        self.parser.flush(codec)
    }

    /// Tells whether the stream stands in ordinary text with nothing held back.
    pub fn is_clean(&self) -> (yes: bool)
        ensures
            yes == (self@.machine.core.state == State::Normal && self@.machine.core.buf.len() == 0),
    {
        self.parser.is_clean()
    }
}

} // verus!
