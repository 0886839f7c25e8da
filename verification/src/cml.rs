//! The parser for delimiters with several spellings, which announces the blocks that it
//! enters and leaves.

use vstd::prelude::*;
use vstd::string::*;

use crate::codec::TokenCodec;
use crate::machine::{has_suffix, passed, signals, stripped, Event, Signal};
use crate::parser::{
    has_tail, push_pattern, push_patterns, push_tokens, strip_trailing_bracket, tagged,
    trimmed_text,
};
use crate::pattern::{
    first_ending, match_table, starts_any, starts_some, table_of, Delim, Pattern, Table,
};
use crate::registry::append_range;
use crate::text::trimmed;
use crate::variants::{CmlTokenRegistry, VariantsView};

verus! {

broadcast use vstd::string::group_string_axioms;

/// Where in the markup the stream stands.
#[derive(Debug, Clone, Copy, PartialEq, Eq, Structural)]
pub enum CmlState {
    Normal,
    InCallId,
    InCallBody,
    InTrap,
}

/// The tables that the parser matches its buffer against.
pub struct CmlGrammar {
    /// Whole delimiters, tried in ordinary text: `[TRAP][END]` before its own `[END]`.
    pub full: Table,
    /// Whole delimiters, tried inside a block: the `[END]` that closes it before
    /// `[TRAP][END]`.
    pub block: Table,
    /// Delimiters without their first token, tried inside a block.
    pub inner: Table,
    /// Whether a bracket that was taken for text is removed again before a delimiter.
    pub bracketed: bool,
}

/// The tables that a registry gives rise to.
pub open spec fn cml_grammar_of(r: VariantsView) -> CmlGrammar {
    CmlGrammar {
        full: tagged(Delim::Call, r.call) + tagged(Delim::TrapEnd, r.trap_end) + tagged(
            Delim::End,
            r.end,
        ) + tagged(Delim::Trap, r.trap) + tagged(Delim::Head, r.head),
        block: tagged(Delim::Call, r.call) + tagged(Delim::End, r.end) + tagged(
            Delim::TrapEnd,
            r.trap_end,
        ) + tagged(Delim::Trap, r.trap) + tagged(Delim::Head, r.head),
        inner: if r.bracketed {
            seq![
                (Delim::Call, r.call[0].drop_first()),
                (Delim::End, r.end[0].drop_first()),
                (Delim::Trap, r.trap[0].drop_first()),
                (Delim::Head, r.head[0].drop_first()),
            ]
        } else {
            Seq::empty()
        },
        bracketed: r.bracketed,
    }
}

impl CmlGrammar {
    /// The whole delimiter that `buf` ends with, in ordinary text.
    pub open spec fn full_match(self, buf: Seq<u32>) -> (Delim, nat) {
        first_ending(Seq::empty(), self.full, buf)
    }

    /// The delimiter that `buf` ends with but for its first token.
    pub open spec fn inner_match(self, buf: Seq<u32>) -> (Delim, nat) {
        first_ending(Seq::empty(), self.inner, buf)
    }

    /// The delimiter that `buf` ends with, inside a block.
    pub open spec fn block_match(self, buf: Seq<u32>) -> (Delim, nat) {
        let r = first_ending(Seq::empty(), self.block, buf);
        if r.0 != Delim::Nothing {
            r
        } else {
            self.inner_match(buf)
        }
    }

    /// `buf` is the start of some whole delimiter.
    pub open spec fn grows_full(self, buf: Seq<u32>) -> bool {
        starts_any(Seq::empty(), self.full, buf)
    }

    /// `buf` is the start of some delimiter but for its first token.
    pub open spec fn grows_inner(self, buf: Seq<u32>) -> bool {
        starts_any(Seq::empty(), self.inner, buf)
    }

    /// The longest end of `buf` that is empty or the start of some whole delimiter.
    pub open spec fn held(self, buf: Seq<u32>) -> Seq<u32>
        decreases buf.len(),
    {
        if buf.len() == 0 || self.grows_full(buf) {
            buf
        } else {
            self.held(buf.drop_first())
        }
    }

    /// `tokens` as collected before a delimiter.
    pub open spec fn collected(self, codec: TokenCodec, tokens: Seq<u32>) -> Seq<u32> {
        if self.bracketed {
            stripped(codec, tokens)
        } else {
            tokens
        }
    }

    /// `t` is the first token of `[CALL]` or `[TRAP]`, whole or without its bracket.
    pub open spec fn enters(self, t: u32) -> bool {
        first_of_entry(self.full, t) || first_of_entry(self.inner, t)
    }
}

/// `t` is the first token of an entry of `table` for `[CALL]` or `[TRAP]`.
pub open spec fn first_of_entry(table: Table, t: u32) -> bool {
    exists|i: int|
        0 <= i < table.len() && entry_opens(#[trigger] table[i], t)
}

/// `entry` stands for `[CALL]` or `[TRAP]` and starts with `t`.
pub open spec fn entry_opens(entry: (Delim, Seq<u32>), t: u32) -> bool {
    (entry.0 == Delim::Call || entry.0 == Delim::Trap) && entry.1.len() > 0 && entry.1[0] == t
}

/// The state of the parser.
#[verifier::ext_equal]
pub struct CmlCore {
    pub state: CmlState,
    /// The tokens of the call id so far.
    pub id: Seq<u32>,
    /// The tokens of the call body so far.
    pub body: Seq<u32>,
    /// Tokens not yet told to be text or delimiter.
    pub buf: Seq<u32>,
}

/// A new state and the signals given on the way to it.
pub type CmlStep = (CmlCore, Seq<Signal>);

/// The parser at the start of a stream.
pub open spec fn initial_cml() -> CmlCore {
    CmlCore { state: CmlState::Normal, id: Seq::empty(), body: Seq::empty(), buf: Seq::empty() }
}

/// A token in ordinary text.
pub open spec fn cml_normal_step(g: CmlGrammar, m: CmlCore, t: u32) -> CmlStep {
    let buf = m.buf.push(t);
    let (d, n) = g.full_match(buf);
    let lead = passed(buf.take(buf.len() - n));
    let clear = CmlCore { buf: Seq::empty(), ..m };
    match d {
        Delim::Call => (
            CmlCore { state: CmlState::InCallId, id: Seq::empty(), body: Seq::empty(), ..clear },
            lead + seq![Signal::Enter],
        ),
        Delim::Trap => (CmlCore { state: CmlState::InTrap, ..clear }, lead + seq![Signal::Enter]),
        Delim::TrapEnd => (clear, lead + seq![Signal::Enter, Signal::Trap, Signal::Exit]),
        Delim::Nothing => {
            let rest = g.held(buf);
            (CmlCore { buf: rest, ..m }, passed(buf.take(buf.len() - rest.len())))
        },
        _ => (clear, passed(buf)),
    }
}

/// A token between `[CALL]` and `[HEAD]`.
pub open spec fn cml_id_step(g: CmlGrammar, codec: TokenCodec, m: CmlCore, t: u32) -> CmlStep {
    let buf = m.buf.push(t);
    let (d, n) = g.block_match(buf);
    let id = g.collected(codec, m.id + buf.take(buf.len() - n));
    match d {
        Delim::Head => (
            CmlCore { state: CmlState::InCallBody, id, buf: Seq::empty(), ..m },
            Seq::empty(),
        ),
        Delim::End => (
            CmlCore { state: CmlState::Normal, id: Seq::empty(), buf: Seq::empty(), ..m },
            seq![
                Signal::Call { id: trimmed(codec.text(id)), code: Seq::empty() },
                Signal::Exit,
            ],
        ),
        Delim::Call => (
            CmlCore { id: Seq::empty(), body: Seq::empty(), buf: Seq::empty(), ..m },
            Seq::empty(),
        ),
        Delim::Nothing => if g.grows_full(buf) || g.grows_inner(buf) {
            (CmlCore { buf, ..m }, Seq::empty())
        } else {
            (CmlCore { id: m.id + buf, buf: Seq::empty(), ..m }, Seq::empty())
        },
        _ => (CmlCore { buf, ..m }, Seq::empty()),
    }
}

/// A token between `[HEAD]` and `[END]`.
pub open spec fn cml_body_step(g: CmlGrammar, codec: TokenCodec, m: CmlCore, t: u32) -> CmlStep {
    let buf = m.buf.push(t);
    let (d, n) = g.block_match(buf);
    let body = g.collected(codec, m.body + buf.take(buf.len() - n));
    match d {
        Delim::End => (
            initial_cml(),
            seq![
                Signal::Call { id: trimmed(codec.text(m.id)), code: trimmed(codec.text(body)) },
                Signal::Exit,
            ],
        ),
        Delim::Nothing => if g.grows_full(buf) || g.grows_inner(buf) {
            (CmlCore { buf, ..m }, Seq::empty())
        } else {
            (CmlCore { body: m.body + buf, buf: Seq::empty(), ..m }, Seq::empty())
        },
        _ => (CmlCore { buf, ..m }, Seq::empty()),
    }
}

/// A token between `[TRAP]` and `[END]`.
pub open spec fn cml_trap_step(g: CmlGrammar, m: CmlCore, t: u32) -> CmlStep {
    let buf = m.buf.push(t);
    match g.block_match(buf).0 {
        Delim::End => (
            CmlCore { state: CmlState::Normal, buf: Seq::empty(), ..m },
            seq![Signal::Trap, Signal::Exit],
        ),
        Delim::Nothing => if g.grows_full(buf) || g.grows_inner(buf) {
            (CmlCore { buf, ..m }, Seq::empty())
        } else {
            (CmlCore { buf: Seq::empty(), ..m }, Seq::empty())
        },
        _ => (CmlCore { buf, ..m }, Seq::empty()),
    }
}

/// A token of the stream.
pub open spec fn cml_step(g: CmlGrammar, codec: TokenCodec, m: CmlCore, t: u32) -> CmlStep {
    match m.state {
        CmlState::Normal => cml_normal_step(g, m, t),
        CmlState::InCallId => cml_id_step(g, codec, m, t),
        CmlState::InCallBody => cml_body_step(g, codec, m, t),
        CmlState::InTrap => cml_trap_step(g, m, t),
    }
}

/// The tokens of a stream, one after another.
pub open spec fn cml_run(g: CmlGrammar, codec: TokenCodec, m: CmlCore, tokens: Seq<u32>) -> CmlStep
    decreases tokens.len(),
{
    if tokens.len() == 0 {
        (m, Seq::empty())
    } else {
        let before = cml_run(g, codec, m, tokens.drop_last());
        let last = cml_step(g, codec, before.0, tokens.last());
        (last.0, before.1 + last.1)
    }
}

/// Adds an event.
fn push_event(events: &mut Vec<Event>, e: Event)
    ensures
        signals(final(events)@) == signals(old(events)@).push(e@),
{
    events.push(e);
    proof {
        assert(signals(events@) =~= signals(old(events)@).push(e@));
    }
}

/// A parser for delimiters with several spellings.
pub struct CmlParser {
    full: Vec<Pattern>,
    block: Vec<Pattern>,
    inner: Vec<Pattern>,
    bracketed: bool,
    state: CmlState,
    id_tokens: Vec<u32>,
    body_tokens: Vec<u32>,
    match_buf: Vec<u32>,
}

impl CmlParser {
    /// What the parser matches.
    pub closed spec fn grammar(&self) -> CmlGrammar {
        CmlGrammar {
            full: table_of(self.full@),
            block: table_of(self.block@),
            inner: table_of(self.inner@),
            bracketed: self.bracketed,
        }
    }

    /// Where the parser stands.
    pub closed spec fn place(&self) -> CmlCore {
        CmlCore {
            state: self.state,
            id: self.id_tokens@,
            body: self.body_tokens@,
            buf: self.match_buf@,
        }
    }

    /// A parser for the delimiters of `registry`.
    pub fn new(registry: &CmlTokenRegistry) -> (parser: CmlParser)
        requires
            registry@.wf(),
        ensures
            parser.grammar() == cml_grammar_of(registry@),
            parser.place() == initial_cml(),
    {
        let ghost r = registry@;
        let mut full: Vec<Pattern> = Vec::new();
        push_patterns(&mut full, Delim::Call, &registry.call_ids, 0);
        push_patterns(&mut full, Delim::TrapEnd, &registry.trap_end_ids, 0);
        push_patterns(&mut full, Delim::End, &registry.end_ids, 0);
        push_patterns(&mut full, Delim::Trap, &registry.trap_ids, 0);
        push_patterns(&mut full, Delim::Head, &registry.head_ids, 0);
        let mut block: Vec<Pattern> = Vec::new();
        push_patterns(&mut block, Delim::Call, &registry.call_ids, 0);
        push_patterns(&mut block, Delim::End, &registry.end_ids, 0);
        push_patterns(&mut block, Delim::TrapEnd, &registry.trap_end_ids, 0);
        push_patterns(&mut block, Delim::Trap, &registry.trap_ids, 0);
        push_patterns(&mut block, Delim::Head, &registry.head_ids, 0);
        let mut inner: Vec<Pattern> = Vec::new();
        if registry.bracketed {
            proof {
                assert(r.call[0] == registry.call_ids@[0]@);
                assert(r.end[0] == registry.end_ids@[0]@);
                assert(r.trap[0] == registry.trap_ids@[0]@);
                assert(r.head[0] == registry.head_ids@[0]@);
            }
            push_pattern(&mut inner, Delim::Call, &registry.call_ids[0], 1);
            push_pattern(&mut inner, Delim::End, &registry.end_ids[0], 1);
            push_pattern(&mut inner, Delim::Trap, &registry.trap_ids[0], 1);
            push_pattern(&mut inner, Delim::Head, &registry.head_ids[0], 1);
        }
        let parser = CmlParser {
            full,
            block,
            inner,
            bracketed: registry.bracketed,
            state: CmlState::Normal,
            id_tokens: Vec::new(),
            body_tokens: Vec::new(),
            match_buf: Vec::new(),
        };
        proof {
            lemma_skip_none(r.call);
            lemma_skip_none(r.end);
            lemma_skip_none(r.trap_end);
            lemma_skip_none(r.trap);
            lemma_skip_none(r.head);
            assert(parser.grammar().full =~= cml_grammar_of(r).full);
            assert(parser.grammar().block =~= cml_grammar_of(r).block);
            assert(parser.grammar().inner =~= cml_grammar_of(r).inner);
            assert(parser.place() =~= initial_cml());
        }
        parser
    }

    /// Tells whether `buf` ends with the non-empty sequence `pattern`.
    pub fn buf_ends_with(buf: &Vec<u32>, pattern: &Vec<u32>) -> (yes: bool)
        ensures
            yes == has_suffix(buf@, pattern@),
    {
        has_tail(buf, pattern)
    }

    /// The whole delimiter that `buf` ends with, in ordinary text. `[TRAP][END]` is taken as
    /// one.
    pub fn match_delimiter(&self, buf: &Vec<u32>) -> (r: (Delim, usize))
        ensures
            (r.0, r.1 as nat) == self.grammar().full_match(buf@),
            r.1 <= buf.len(),
    {
        let none: Vec<u32> = Vec::new();
        proof {
            assert(none@ =~= Seq::empty());
        }
        match_table(&none, &self.full, buf)
    }

    /// The delimiter that `buf` ends with but for its first token.
    pub fn match_inner_delimiter(&self, buf: &Vec<u32>) -> (r: (Delim, usize))
        ensures
            (r.0, r.1 as nat) == self.grammar().inner_match(buf@),
            r.1 <= buf.len(),
    {
        let none: Vec<u32> = Vec::new();
        proof {
            assert(none@ =~= Seq::empty());
        }
        match_table(&none, &self.inner, buf)
    }

    /// The delimiter that `buf` ends with, inside a block.
    pub fn match_in_block(&self, buf: &Vec<u32>) -> (r: (Delim, usize))
        ensures
            (r.0, r.1 as nat) == self.grammar().block_match(buf@),
            r.1 <= buf.len(),
    {
        let none: Vec<u32> = Vec::new();
        proof {
            assert(none@ =~= Seq::empty());
        }
        let r = match_table(&none, &self.block, buf);
        if r.0 != Delim::Nothing {
            r
        } else {
            self.match_inner_delimiter(buf)
        }
    }

    /// Tells whether `buf` is the start of some whole delimiter.
    pub fn is_prefix_of_any_delimiter(&self, buf: &Vec<u32>) -> (yes: bool)
        ensures
            yes == self.grammar().grows_full(buf@),
    {
        let none: Vec<u32> = Vec::new();
        proof {
            assert(none@ =~= Seq::empty());
        }
        starts_some(&none, &self.full, buf)
    }

    /// Tells whether `buf` is the start of some delimiter but for its first token.
    pub fn is_prefix_of_any_inner(&self, buf: &Vec<u32>) -> (yes: bool)
        ensures
            yes == self.grammar().grows_inner(buf@),
    {
        let none: Vec<u32> = Vec::new();
        proof {
            assert(none@ =~= Seq::empty());
        }
        starts_some(&none, &self.inner, buf)
    }

    fn emit_lead(&mut self, delim_len: usize, events: &mut Vec<Event>)
        requires
            delim_len <= old(self).place().buf.len(),
        ensures
            final(self).grammar() == old(self).grammar(),
            final(self).place() == (CmlCore { buf: Seq::empty(), ..old(self).place() }),
            signals(final(events)@) == signals(old(events)@) + passed(
                old(self).place().buf.take(old(self).place().buf.len() - delim_len),
            ),
    {
        let end: usize = self.match_buf.len() - delim_len;
        let mut lead: Vec<u32> = Vec::new();
        append_range(&mut lead, &self.match_buf, 0, end);
        proof {
            assert(lead@ =~= self.match_buf@.take(end as int));
        }
        push_tokens(events, &lead);
        self.match_buf.clear();
    }

    fn feed_normal(&mut self, token_id: u32, events: &mut Vec<Event>)
        ensures
            final(self).grammar() == old(self).grammar(),
            final(self).place() == cml_normal_step(
                old(self).grammar(),
                old(self).place(),
                token_id,
            ).0,
            signals(final(events)@) == signals(old(events)@) + cml_normal_step(
                old(self).grammar(),
                old(self).place(),
                token_id,
            ).1,
    {
        let ghost g = self.grammar();
        let ghost m = self.place();
        let ghost start = signals(events@);
        self.match_buf.push(token_id);
        let ghost buf = self.match_buf@;
        let (d, n) = self.match_delimiter(&self.match_buf);
        let ghost lead = passed(buf.take(buf.len() - n));
        match d {
            Delim::Call => {
                self.emit_lead(n, events);
                push_event(events, Event::EnterCriticalSection);
                self.id_tokens.clear();
                self.body_tokens.clear();
                self.state = CmlState::InCallId;
                proof {
                    assert((start + lead).push(Signal::Enter) =~= start + (lead
                        + seq![Signal::Enter]));
                }
            },
            Delim::Trap => {
                self.emit_lead(n, events);
                push_event(events, Event::EnterCriticalSection);
                self.state = CmlState::InTrap;
                proof {
                    assert((start + lead).push(Signal::Enter) =~= start + (lead
                        + seq![Signal::Enter]));
                }
            },
            Delim::TrapEnd => {
                self.emit_lead(n, events);
                push_event(events, Event::EnterCriticalSection);
                push_event(events, Event::Trap);
                push_event(events, Event::ExitCriticalSection);
                proof {
                    assert((start + lead).push(Signal::Enter).push(Signal::Trap).push(Signal::Exit)
                        =~= start + (lead + seq![Signal::Enter, Signal::Trap, Signal::Exit]));
                }
            },
            Delim::Nothing => {
                let mut drained: Vec<u32> = Vec::new();
                proof {
                    assert(buf.skip(0) =~= buf);
                    assert(buf.take(0) =~= drained@);
                }
                while self.match_buf.len() > 0 && !self.is_prefix_of_any_delimiter(&self.match_buf)
                    invariant
                        self.grammar() == g,
                        self.place() == (CmlCore { buf: self.match_buf@, ..m }),
                        self.match_buf@ == buf.skip(drained@.len() as int),
                        drained@ == buf.take(drained@.len() as int),
                        drained@.len() <= buf.len(),
                        g.held(buf) == g.held(self.match_buf@),
                        signals(events@) == start,
                    decreases self.match_buf.len(),
                {
                    let ghost rest = self.match_buf@;
                    let t: u32 = self.match_buf.remove(0);
                    proof {
                        assert(self.match_buf@ =~= rest.drop_first());
                        assert(self.match_buf@ =~= buf.skip(drained@.len() as int + 1));
                        assert(buf.take(drained@.len() as int + 1) =~= drained@.push(t));
                    }
                    drained.push(t);
                }
                push_tokens(events, &drained);
                proof {
                    assert(g.held(buf) == self.match_buf@);
                    assert(buf.len() - self.match_buf@.len() == drained@.len());
                }
            },
            _ => {
                push_tokens(events, &self.match_buf);
                self.match_buf.clear();
            },
        }
        proof {
            assert(self.place() =~= cml_normal_step(g, m, token_id).0);
        }
    }

    fn strip(&self, tokens: &mut Vec<u32>, codec: &TokenCodec)
        ensures
            final(tokens)@ == self.grammar().collected(*codec, old(tokens)@),
    {
        if self.bracketed {
            strip_trailing_bracket(tokens, codec);
        }
    }

    fn feed_in_call_id(&mut self, token_id: u32, codec: &TokenCodec, events: &mut Vec<Event>)
        ensures
            final(self).grammar() == old(self).grammar(),
            final(self).place() == cml_id_step(
                old(self).grammar(),
                *codec,
                old(self).place(),
                token_id,
            ).0,
            signals(final(events)@) == signals(old(events)@) + cml_id_step(
                old(self).grammar(),
                *codec,
                old(self).place(),
                token_id,
            ).1,
    {
        let ghost g = self.grammar();
        let ghost m = self.place();
        let ghost start = signals(events@);
        self.match_buf.push(token_id);
        let ghost buf = self.match_buf@;
        let (d, n) = self.match_in_block(&self.match_buf);
        proof {
            assert(buf.take(buf.len() - n) =~= buf.subrange(0, buf.len() - n));
            assert(start + Seq::<Signal>::empty() =~= start);
        }
        match d {
            Delim::Head => {
                let end: usize = self.match_buf.len() - n;
                let mut id = self.take_id();
                append_range(&mut id, &self.match_buf, 0, end);
                self.strip(&mut id, codec);
                self.id_tokens = id;
                self.match_buf.clear();
                self.state = CmlState::InCallBody;
            },
            Delim::End => {
                let end: usize = self.match_buf.len() - n;
                let mut tokens = self.take_id();
                append_range(&mut tokens, &self.match_buf, 0, end);
                self.strip(&mut tokens, codec);
                self.match_buf.clear();
                let id = trimmed_text(&tokens, codec);
                let ghost id_text = id@;
                push_event(events, Event::Call { id, code: String::new() });
                push_event(events, Event::ExitCriticalSection);
                self.state = CmlState::Normal;
                proof {
                    let call = Signal::Call { id: id_text, code: Seq::empty() };
                    assert(start.push(call).push(Signal::Exit) =~= start + seq![
                        call,
                        Signal::Exit,
                    ]);
                }
            },
            Delim::Call => {
                self.match_buf.clear();
                self.id_tokens.clear();
                self.body_tokens.clear();
            },
            Delim::Nothing => {
                if !self.is_prefix_of_any_delimiter(&self.match_buf)
                    && !self.is_prefix_of_any_inner(&self.match_buf) {
                    append_range(&mut self.id_tokens, &self.match_buf, 0, self.match_buf.len());
                    self.match_buf.clear();
                    proof {
                        assert(buf.subrange(0, buf.len() as int) =~= buf);
                    }
                }
            },
            _ => {},
        }
        proof {
            assert(self.place() =~= cml_id_step(g, *codec, m, token_id).0);
        }
    }

    fn take_id(&mut self) -> (id: Vec<u32>)
        ensures
            id@ == old(self).place().id,
            final(self).grammar() == old(self).grammar(),
            final(self).place() == (CmlCore { id: Seq::empty(), ..old(self).place() }),
    {
        let mut id: Vec<u32> = Vec::new();
        id.append(&mut self.id_tokens);
        proof {
            assert(id@ =~= old(self).place().id);
        }
        id
    }

    fn take_body(&mut self) -> (body: Vec<u32>)
        ensures
            body@ == old(self).place().body,
            final(self).grammar() == old(self).grammar(),
            final(self).place() == (CmlCore { body: Seq::empty(), ..old(self).place() }),
    {
        let mut body: Vec<u32> = Vec::new();
        body.append(&mut self.body_tokens);
        proof {
            assert(body@ =~= old(self).place().body);
        }
        body
    }

    fn feed_in_call_body(&mut self, token_id: u32, codec: &TokenCodec, events: &mut Vec<Event>)
        ensures
            final(self).grammar() == old(self).grammar(),
            final(self).place() == cml_body_step(
                old(self).grammar(),
                *codec,
                old(self).place(),
                token_id,
            ).0,
            signals(final(events)@) == signals(old(events)@) + cml_body_step(
                old(self).grammar(),
                *codec,
                old(self).place(),
                token_id,
            ).1,
    {
        let ghost g = self.grammar();
        let ghost m = self.place();
        let ghost start = signals(events@);
        self.match_buf.push(token_id);
        let ghost buf = self.match_buf@;
        let (d, n) = self.match_in_block(&self.match_buf);
        proof {
            assert(buf.take(buf.len() - n) =~= buf.subrange(0, buf.len() - n));
            assert(start + Seq::<Signal>::empty() =~= start);
        }
        match d {
            Delim::End => {
                let end: usize = self.match_buf.len() - n;
                let mut body = self.take_body();
                append_range(&mut body, &self.match_buf, 0, end);
                self.strip(&mut body, codec);
                self.match_buf.clear();
                let id = trimmed_text(&self.id_tokens, codec);
                let code = trimmed_text(&body, codec);
                let ghost call = Signal::Call { id: id@, code: code@ };
                push_event(events, Event::Call { id, code });
                push_event(events, Event::ExitCriticalSection);
                self.id_tokens.clear();
                self.state = CmlState::Normal;
                proof {
                    assert(start.push(call).push(Signal::Exit) =~= start + seq![
                        call,
                        Signal::Exit,
                    ]);
                }
            },
            Delim::Nothing => {
                if !self.is_prefix_of_any_delimiter(&self.match_buf)
                    && !self.is_prefix_of_any_inner(&self.match_buf) {
                    append_range(&mut self.body_tokens, &self.match_buf, 0, self.match_buf.len());
                    self.match_buf.clear();
                    proof {
                        assert(buf.subrange(0, buf.len() as int) =~= buf);
                    }
                }
            },
            _ => {},
        }
        proof {
            assert(self.place() =~= cml_body_step(g, *codec, m, token_id).0);
        }
    }

    fn feed_in_trap(&mut self, token_id: u32, events: &mut Vec<Event>)
        ensures
            final(self).grammar() == old(self).grammar(),
            final(self).place() == cml_trap_step(
                old(self).grammar(),
                old(self).place(),
                token_id,
            ).0,
            signals(final(events)@) == signals(old(events)@) + cml_trap_step(
                old(self).grammar(),
                old(self).place(),
                token_id,
            ).1,
    {
        let ghost g = self.grammar();
        let ghost m = self.place();
        let ghost start = signals(events@);
        self.match_buf.push(token_id);
        let (d, _) = self.match_in_block(&self.match_buf);
        proof {
            assert(start + Seq::<Signal>::empty() =~= start);
        }
        match d {
            Delim::End => {
                self.match_buf.clear();
                push_event(events, Event::Trap);
                push_event(events, Event::ExitCriticalSection);
                self.state = CmlState::Normal;
                proof {
                    assert(start.push(Signal::Trap).push(Signal::Exit) =~= start + seq![
                        Signal::Trap,
                        Signal::Exit,
                    ]);
                }
            },
            Delim::Nothing => {
                if !self.is_prefix_of_any_delimiter(&self.match_buf)
                    && !self.is_prefix_of_any_inner(&self.match_buf) {
                    self.match_buf.clear();
                }
            },
            _ => {},
        }
        proof {
            assert(self.place() =~= cml_trap_step(g, m, token_id).0);
        }
    }

    /// Takes the next token of the stream.
    pub fn feed(&mut self, token_id: u32, codec: &TokenCodec) -> (events: Vec<Event>)
        ensures
            final(self).grammar() == old(self).grammar(),
            (final(self).place(), signals(events@)) == cml_step(
                old(self).grammar(),
                *codec,
                old(self).place(),
                token_id,
            ),
    {
        let ghost g = self.grammar();
        let ghost m = self.place();
        let mut events: Vec<Event> = Vec::new();
        let ghost empty = signals(events@);
        match self.state {
            CmlState::Normal => self.feed_normal(token_id, &mut events),
            CmlState::InCallId => self.feed_in_call_id(token_id, codec, &mut events),
            CmlState::InCallBody => self.feed_in_call_body(token_id, codec, &mut events),
            CmlState::InTrap => self.feed_in_trap(token_id, &mut events),
        }
        proof {
            let out = cml_step(g, *codec, m, token_id).1;
            assert(empty + out =~= out);
        }
        events
    }

    /// Tells whether the stream stands inside a block.
    pub fn in_critical_section(&self) -> (yes: bool)
        ensures
            yes == (self.place().state != CmlState::Normal),
    {
        self.state != CmlState::Normal
    }

    /// Tells whether `token_id` is the first token of `[CALL]` or `[TRAP]`, whole or without
    /// its bracket.
    pub fn is_entry_delimiter_start(&self, token_id: u32) -> (yes: bool)
        ensures
            yes == self.grammar().enters(token_id),
    {
        starts_entry(&self.full, token_id) || starts_entry(&self.inner, token_id)
    }

    /// Tells whether tokens are held back.
    pub fn has_pending(&self) -> (yes: bool)
        ensures
            yes == (self.place().buf.len() > 0),
    {
        self.match_buf.len() > 0
    }

    /// Hands on the tokens held back.
    pub fn flush_pending(&mut self) -> (events: Vec<Event>)
        ensures
            final(self).grammar() == old(self).grammar(),
            final(self).place() == (CmlCore { buf: Seq::empty(), ..old(self).place() }),
            signals(events@) == passed(old(self).place().buf),
    {
        let mut events: Vec<Event> = Vec::new();
        let ghost empty = signals(events@);
        push_tokens(&mut events, &self.match_buf);
        proof {
            assert(empty + passed(self.match_buf@) =~= passed(self.match_buf@));
        }
        self.match_buf.clear();
        events
    }
}

/// Leaving no token out leaves the sequences as they are.
proof fn lemma_skip_none(seqs: Seq<Seq<u32>>)
    ensures
        seqs.map_values(|s: Seq<u32>| s.skip(0)) == seqs,
{
    assert forall|i: int| 0 <= i < seqs.len() implies (#[trigger] seqs[i]).skip(0) == seqs[i] by {
        assert(seqs[i].skip(0) =~= seqs[i]);
    }
    assert(seqs.map_values(|s: Seq<u32>| s.skip(0)) =~= seqs);
}

fn starts_entry(patterns: &Vec<Pattern>, t: u32) -> (yes: bool)
    ensures
        yes == first_of_entry(table_of(patterns@), t),
{
    let ghost table = table_of(patterns@);
    let mut i: usize = 0;
    while i < patterns.len()
        invariant
            i <= patterns.len(),
            table == table_of(patterns@),
            forall|j: int| 0 <= j < i ==> !entry_opens(#[trigger] table[j], t),
        decreases patterns.len() - i,
    {
        let p = &patterns[i];
        proof {
            assert(table[i as int] == (p.delim, p.ids@));
        }
        if (p.delim == Delim::Call || p.delim == Delim::Trap) && p.ids.len() > 0 && p.ids[0] == t {
            return true;
        }
        i = i + 1;
    }
    false
}

} // verus!
