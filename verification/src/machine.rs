//! The call-markup state machine as mathematics: which state a token leads to and which
//! signals it gives.

use vstd::prelude::*;

use crate::codec::TokenCodec;
use crate::pattern::{first_ending, starts_any, Delim, Table};
use crate::text::trimmed;

verus! {

/// Where in the markup the stream stands.
#[derive(Debug, Clone, Copy, PartialEq, Eq, Structural)]
pub enum State {
    Normal,
    InCallId,
    InCallBody,
    InTrap,
    InIntrId,
    InIntrBody,
}

/// What a parser tells its caller.
#[derive(Debug)]
pub enum Event {
    /// A token of ordinary text.
    Passthrough(u32),
    /// A complete call.
    Call { id: String, code: String },
    /// A complete trap.
    Trap,
    /// A block has been entered.
    EnterCriticalSection,
    /// A block has been left.
    ExitCriticalSection,
    /// The next token may turn out to open a block.
    EnteringBlockHint,
}

/// An event, with its texts as sequences of characters.
pub enum Signal {
    Token(u32),
    Call { id: Seq<char>, code: Seq<char> },
    Trap,
    Enter,
    Exit,
    Hint,
}

impl View for Event {
    type V = Signal;

    open spec fn view(&self) -> Signal {
        match *self {
            Event::Passthrough(t) => Signal::Token(t),
            Event::Call { id, code } => Signal::Call { id: id@, code: code@ },
            Event::Trap => Signal::Trap,
            Event::EnterCriticalSection => Signal::Enter,
            Event::ExitCriticalSection => Signal::Exit,
            Event::EnteringBlockHint => Signal::Hint,
        }
    }
}

/// The signals of a sequence of events.
pub open spec fn signals(events: Seq<Event>) -> Seq<Signal> {
    events.map_values(|e: Event| e@)
}

/// The signals that hand on each of `tokens`.
pub open spec fn passed(tokens: Seq<u32>) -> Seq<Signal> {
    tokens.map_values(|t: u32| Signal::Token(t))
}

/// The signals that hand on each of `tokens` but those that may be the start of a
/// delimiter.
pub open spec fn shown(codec: TokenCodec, tokens: Seq<u32>) -> Seq<Signal>
    decreases tokens.len(),
{
    if tokens.len() == 0 {
        Seq::empty()
    } else if codec.opens(tokens.last()) {
        shown(codec, tokens.drop_last())
    } else {
        shown(codec, tokens.drop_last()).push(Signal::Token(tokens.last()))
    }
}

/// `tokens` without a last token that may be the start of a delimiter.
pub open spec fn stripped(codec: TokenCodec, tokens: Seq<u32>) -> Seq<u32> {
    if tokens.len() > 0 && codec.opens(tokens.last()) {
        tokens.drop_last()
    } else {
        tokens
    }
}

/// The tables that a parser matches its buffer against.
pub struct Grammar {
    /// Whole delimiters.
    pub full: Table,
    /// Delimiters without their first token, tried inside a block.
    pub inner: Table,
    /// Delimiters without their first token, tried in ordinary text.
    pub normal: Table,
    /// Tokens that may stand for one another.
    pub alts: Seq<u32>,
}

impl Grammar {
    /// The delimiter that `buf` ends with, in ordinary text.
    pub open spec fn normal_match(self, buf: Seq<u32>) -> (Delim, nat) {
        let r = first_ending(self.alts, self.full, buf);
        if r.0 != Delim::Nothing {
            r
        } else {
            first_ending(self.alts, self.normal, buf)
        }
    }

    /// The delimiter that `buf` ends with, inside a block.
    pub open spec fn block_match(self, buf: Seq<u32>) -> (Delim, nat) {
        let r = first_ending(self.alts, self.full, buf);
        if r.0 != Delim::Nothing {
            r
        } else {
            first_ending(self.alts, self.inner, buf)
        }
    }

    /// `buf` is the start of some delimiter.
    pub open spec fn may_grow(self, buf: Seq<u32>) -> bool {
        ||| starts_any(self.alts, self.full, buf)
        ||| starts_any(self.alts, self.inner, buf)
        ||| starts_any(self.alts, self.normal, buf)
    }

    /// The longest end of `buf` that is empty or the start of some delimiter.
    pub open spec fn held(self, buf: Seq<u32>) -> Seq<u32>
        decreases buf.len(),
    {
        if buf.len() == 0 || self.may_grow(buf) {
            buf
        } else {
            self.held(buf.drop_first())
        }
    }
}

/// The state of the machine.
#[verifier::ext_equal]
pub struct Core {
    pub state: State,
    /// The tokens of the call id so far.
    pub id: Seq<u32>,
    /// The tokens of the call body so far.
    pub body: Seq<u32>,
    /// Tokens not yet told to be text or delimiter.
    pub buf: Seq<u32>,
}

/// A new state and the signals given on the way to it.
pub type Step = (Core, Seq<Signal>);

/// The machine at the start of a stream.
pub open spec fn initial_core() -> Core {
    Core { state: State::Normal, id: Seq::empty(), body: Seq::empty(), buf: Seq::empty() }
}

/// The call that the tokens `id` and `body` spell.
pub open spec fn call_signal(codec: TokenCodec, id: Seq<u32>, body: Seq<u32>) -> Signal {
    Signal::Call { id: trimmed(codec.text(id)), code: trimmed(codec.text(body)) }
}

/// A token in ordinary text.
pub open spec fn normal_step(g: Grammar, codec: TokenCodec, m: Core, t: u32) -> Step {
    let buf = m.buf.push(t);
    let (d, n) = g.normal_match(buf);
    let lead = passed(stripped(codec, buf.take(buf.len() - n)));
    let clear = Core { buf: Seq::empty(), ..m };
    match d {
        Delim::Call => (
            Core { state: State::InCallId, id: Seq::empty(), body: Seq::empty(), ..clear },
            lead,
        ),
        Delim::Trap => (Core { state: State::InTrap, ..clear }, lead),
        Delim::TrapEnd => (clear, lead.push(Signal::Trap)),
        Delim::Intr => (Core { state: State::InIntrId, ..clear }, lead),
        Delim::Nothing => {
            let rest = g.held(buf);
            (Core { buf: rest, ..m }, shown(codec, buf.take(buf.len() - rest.len())))
        },
        _ => (clear, shown(codec, buf)),
    }
}

/// A token between `[CALL]` and `[HEAD]`.
pub open spec fn call_id_step(g: Grammar, codec: TokenCodec, m: Core, t: u32) -> Step {
    let buf = m.buf.push(t);
    let (d, n) = g.block_match(buf);
    let id = stripped(codec, m.id + buf.take(buf.len() - n));
    match d {
        Delim::Head => (
            Core { state: State::InCallBody, id, buf: Seq::empty(), ..m },
            Seq::empty(),
        ),
        Delim::End => (
            Core { state: State::Normal, id, buf: Seq::empty(), ..m },
            seq![Signal::Call { id: trimmed(codec.text(id)), code: Seq::empty() }],
        ),
        Delim::Nothing => if g.may_grow(buf) {
            (Core { buf, ..m }, Seq::empty())
        } else {
            (Core { id: m.id + buf, buf: Seq::empty(), ..m }, Seq::empty())
        },
        _ => (Core { buf, ..m }, Seq::empty()),
    }
}

/// A token between `[HEAD]` and `[END]`.
pub open spec fn call_body_step(g: Grammar, codec: TokenCodec, m: Core, t: u32) -> Step {
    let buf = m.buf.push(t);
    let (d, n) = g.block_match(buf);
    let body = stripped(codec, m.body + buf.take(buf.len() - n));
    match d {
        Delim::End => (
            Core { state: State::Normal, body, buf: Seq::empty(), ..m },
            seq![call_signal(codec, m.id, body)],
        ),
        Delim::Nothing => if g.may_grow(buf) {
            (Core { buf, ..m }, Seq::empty())
        } else {
            (Core { body: m.body + buf, buf: Seq::empty(), ..m }, Seq::empty())
        },
        _ => (Core { buf, ..m }, Seq::empty()),
    }
}

/// A token of a block whose tokens are dropped, in a state in which `d` is matched and
/// means nothing to that state.
pub open spec fn dropping(g: Grammar, m: Core, buf: Seq<u32>, d: Delim) -> Core {
    if d == Delim::Nothing && !g.may_grow(buf) {
        Core { buf: Seq::empty(), ..m }
    } else {
        Core { buf, ..m }
    }
}

/// A token between `[TRAP]` and `[END]`.
pub open spec fn trap_step(g: Grammar, m: Core, t: u32) -> Step {
    let buf = m.buf.push(t);
    let d = g.block_match(buf).0;
    match d {
        Delim::End => (
            Core { state: State::Normal, buf: Seq::empty(), ..m },
            seq![Signal::Trap],
        ),
        _ => (dropping(g, m, buf, d), Seq::empty()),
    }
}

/// A token between `[INTR]` and `[HEAD]`.
pub open spec fn intr_id_step(g: Grammar, m: Core, t: u32) -> Core {
    let buf = m.buf.push(t);
    let d = g.block_match(buf).0;
    match d {
        Delim::Head => Core { state: State::InIntrBody, buf: Seq::empty(), ..m },
        Delim::End => Core { state: State::Normal, buf: Seq::empty(), ..m },
        _ => dropping(g, m, buf, d),
    }
}

/// A token between `[HEAD]` and `[END]` of an interrupt.
pub open spec fn intr_body_step(g: Grammar, m: Core, t: u32) -> Core {
    let buf = m.buf.push(t);
    let d = g.block_match(buf).0;
    match d {
        Delim::End => Core { state: State::Normal, buf: Seq::empty(), ..m },
        _ => dropping(g, m, buf, d),
    }
}

/// A token outside a reasoning section.
pub open spec fn step(g: Grammar, codec: TokenCodec, m: Core, t: u32) -> Step {
    match m.state {
        State::Normal => normal_step(g, codec, m, t),
        State::InCallId => call_id_step(g, codec, m, t),
        State::InCallBody => call_body_step(g, codec, m, t),
        State::InTrap => trap_step(g, m, t),
        State::InIntrId => (intr_id_step(g, m, t), Seq::empty()),
        State::InIntrBody => (intr_body_step(g, m, t), Seq::empty()),
    }
}

/// Tokens outside a reasoning section, one after another.
pub open spec fn run(g: Grammar, codec: TokenCodec, m: Core, tokens: Seq<u32>) -> Step
    decreases tokens.len(),
{
    if tokens.len() == 0 {
        (m, Seq::empty())
    } else {
        let before = run(g, codec, m, tokens.drop_last());
        let last = step(g, codec, before.0, tokens.last());
        (last.0, before.1 + last.1)
    }
}

/// `buf` ends with the non-empty sequence `pat`.
pub open spec fn has_suffix(buf: Seq<u32>, pat: Seq<u32>) -> bool {
    0 < pat.len() <= buf.len() && buf.skip(buf.len() - pat.len()) == pat
}

/// Whether the stream stands inside a reasoning section.
#[verifier::ext_equal]
pub struct Think {
    pub open: Seq<u32>,
    pub close: Seq<u32>,
    pub inside: bool,
    /// The last tokens, for boundaries of several tokens.
    pub buf: Seq<u32>,
}

/// The longer of the two boundaries.
pub open spec fn think_window(th: Think) -> nat {
    if th.open.len() >= th.close.len() {
        th.open.len()
    } else {
        th.close.len()
    }
}

/// The last tokens kept once `t` has come.
pub open spec fn think_tail(th: Think, t: u32) -> Seq<u32> {
    let b = th.buf.push(t);
    if b.len() > think_window(th) {
        b.skip(b.len() - think_window(th))
    } else {
        b
    }
}

/// `t` completes a boundary of a reasoning section.
pub open spec fn at_boundary(th: Think, t: u32) -> bool {
    ||| th.open == seq![t]
    ||| th.close == seq![t]
    ||| has_suffix(think_tail(th, t), th.open)
    ||| has_suffix(think_tail(th, t), th.close)
}

/// A token as a possible boundary of a reasoning section.
pub open spec fn observe(th: Think, t: u32) -> Think {
    if th.open == seq![t] {
        Think { inside: true, buf: Seq::empty(), ..th }
    } else if th.close == seq![t] {
        Think { inside: false, buf: Seq::empty(), ..th }
    } else if has_suffix(think_tail(th, t), th.open) {
        Think { inside: true, buf: Seq::empty(), ..th }
    } else if has_suffix(think_tail(th, t), th.close) {
        Think { inside: false, buf: Seq::empty(), ..th }
    } else {
        Think { buf: think_tail(th, t), ..th }
    }
}

/// All that a parser is: what it matches and where it stands.
#[verifier::ext_equal]
pub struct Machine {
    pub grammar: Grammar,
    pub think: Think,
    pub core: Core,
}

/// A token of the stream: inside a reasoning section, boundaries included, it is handed
/// on as it is; elsewhere it goes to the machine.
pub open spec fn feed_step(codec: TokenCodec, m: Machine, t: u32) -> (Machine, Seq<Signal>) {
    let th = observe(m.think, t);
    if m.think.inside || th.inside {
        (Machine { think: th, ..m }, seq![Signal::Token(t)])
    } else {
        let (core, out) = step(m.grammar, codec, m.core, t);
        (Machine { think: th, core, ..m }, out)
    }
}

/// The tokens of a stream, one after another.
pub open spec fn feed_run(codec: TokenCodec, m: Machine, tokens: Seq<u32>) -> (Machine, Seq<Signal>)
    decreases tokens.len(),
{
    if tokens.len() == 0 {
        (m, Seq::empty())
    } else {
        let before = feed_run(codec, m, tokens.drop_last());
        let last = feed_step(codec, before.0, tokens.last());
        (last.0, before.1 + last.1)
    }
}

} // verus!
