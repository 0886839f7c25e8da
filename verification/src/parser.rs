//! The call-markup parser: an executable form of the state machine.

use vstd::prelude::*;
use vstd::string::*;

use crate::blocks::{opens_block, starts_block};
use crate::codec::{copy_row, rows, TokenCodec};
use crate::machine::{
    at_boundary, call_body_step, call_id_step, feed_step, has_suffix, initial_core, intr_body_step,
    intr_id_step, normal_step, observe, passed, shown, signals, step, stripped, think_tail,
    trap_step, Core, Event, Grammar, Machine, Signal, State, Think,
};
use crate::pattern::{
    ends_in, ends_pattern, first_ending, match_table, may_stand, stands_for, starts,
    starts_pattern, starts_some, table_of, Delim, Pattern, Table,
};
use crate::registry::{append_range, CmlRegistry, RegistryView};
use crate::text::{trim_text, trimmed};

verus! {

broadcast use vstd::string::group_string_axioms;

/// Each of `seqs`, standing for `delim`.
pub open spec fn tagged(delim: Delim, seqs: Seq<Seq<u32>>) -> Table {
    seqs.map_values(|s: Seq<u32>| (delim, s))
}

/// Each of `seqs` without its first token.
pub open spec fn tails(seqs: Seq<Seq<u32>>) -> Seq<Seq<u32>> {
    seqs.map_values(|s: Seq<u32>| s.drop_first())
}

/// The tables that a registry gives rise to.
pub open spec fn grammar_of(r: RegistryView) -> Grammar {
    Grammar {
        full: seq![(Delim::Call, r.call), (Delim::End, r.end)] + tagged(Delim::TrapEnd, r.trap_end)
            + seq![(Delim::Trap, r.trap), (Delim::Intr, r.intr), (Delim::Head, r.head)],
        inner: seq![
            (Delim::Call, r.call.drop_first()),
            (Delim::End, r.end.drop_first()),
            (Delim::Trap, r.trap.drop_first()),
            (Delim::Intr, r.intr.drop_first()),
            (Delim::Head, r.head.drop_first()),
        ],
        normal: tagged(Delim::TrapEnd, tails(r.trap_end)) + seq![
            (Delim::Call, r.call.drop_first()),
            (Delim::Trap, r.trap.drop_first()),
        ],
        alts: r.alts,
    }
}

/// The tables that a registry gives rise to where interrupts are not parsed.
pub open spec fn plain_grammar_of(r: RegistryView) -> Grammar {
    Grammar {
        full: seq![(Delim::Call, r.call), (Delim::End, r.end)] + tagged(Delim::TrapEnd, r.trap_end)
            + seq![(Delim::Trap, r.trap), (Delim::Head, r.head)],
        inner: seq![
            (Delim::Call, r.call.drop_first()),
            (Delim::End, r.end.drop_first()),
            (Delim::Trap, r.trap.drop_first()),
            (Delim::Head, r.head.drop_first()),
        ],
        normal: tagged(Delim::TrapEnd, tails(r.trap_end)) + seq![
            (Delim::Call, r.call.drop_first()),
            (Delim::Trap, r.trap.drop_first()),
        ],
        alts: Seq::empty(),
    }
}

/// The machine that a registry gives rise to.
pub open spec fn machine_of(r: RegistryView) -> Machine {
    Machine {
        grammar: grammar_of(r),
        think: Think { open: r.think_open, close: r.think_close, inside: false, buf: Seq::empty() },
        core: initial_core(),
    }
}

/// The machine that a registry gives rise to where neither interrupts nor reasoning
/// sections are parsed.
pub open spec fn plain_machine_of(r: RegistryView) -> Machine {
    Machine {
        grammar: plain_grammar_of(r),
        think: Think { open: Seq::empty(), close: Seq::empty(), inside: false, buf: Seq::empty() },
        core: initial_core(),
    }
}

/// The token sequences of a table, in its order: those of `[TRAP][END]` where `units` is
/// set, else the others.
pub open spec fn sequences(table: Table, units: bool) -> Seq<Seq<u32>>
    decreases table.len(),
{
    if table.len() == 0 {
        Seq::empty()
    } else {
        let init = sequences(table.drop_last(), units);
        if (table.last().0 == Delim::TrapEnd) == units {
            init.push(table.last().1)
        } else {
            init
        }
    }
}

/// Adds the token sequences of `patterns` to `listed`.
fn list_sequences<'a>(
    patterns: &'a Vec<Pattern>,
    units: bool,
    listed: Vec<&'a Vec<u32>>,
) -> (all: Vec<&'a Vec<u32>>)
    ensures
        all@.map_values(|v: &Vec<u32>| v@) == listed@.map_values(|v: &Vec<u32>| v@) + sequences(
            table_of(patterns@),
            units,
        ),
{
    let ghost table = table_of(patterns@);
    let ghost start = listed@.map_values(|v: &Vec<u32>| v@);
    let mut all = listed;
    let mut i: usize = 0;
    proof {
        assert(table.take(0) =~= Seq::empty());
        assert(start + sequences(table.take(0), units) =~= start);
    }
    while i < patterns.len()
        invariant
            i <= patterns.len(),
            table == table_of(patterns@),
            all@.map_values(|v: &Vec<u32>| v@) == start + sequences(table.take(i as int), units),
        decreases patterns.len() - i,
    {
        let ghost before = all@;
        let p = &patterns[i];
        proof {
            assert(table.take(i + 1).drop_last() =~= table.take(i as int));
            assert(table.take(i + 1).last() == (p.delim, p.ids@));
        }
        if (p.delim == Delim::TrapEnd) == units {
            all.push(&p.ids);
            proof {
                let got = before.map_values(|v: &Vec<u32>| v@);
                assert(all@.map_values(|v: &Vec<u32>| v@) =~= got.push(p.ids@));
                assert((start + sequences(table.take(i as int), units)).push(p.ids@) =~= start
                    + sequences(table.take(i as int), units).push(p.ids@));
            }
        }
        i = i + 1;
    }
    proof {
        assert(table.take(patterns@.len() as int) =~= table);
    }
    all
}

/// Adds the pattern `ids[from..]` for `delim`.
pub fn push_pattern(table: &mut Vec<Pattern>, delim: Delim, ids: &Vec<u32>, from: usize)
    requires
        from <= ids.len(),
    ensures
        table_of(final(table)@) == table_of(old(table)@).push((delim, ids@.skip(from as int))),
{
    let mut copy: Vec<u32> = Vec::new();
    append_range(&mut copy, ids, from, ids.len());
    table.push(Pattern { delim, ids: copy });
    proof {
        assert(copy@ =~= ids@.skip(from as int));
        assert(table_of(table@) =~= table_of(old(table)@).push((delim, ids@.skip(from as int))));
    }
}

/// Adds each of `seqs` for `delim`, whole or without its first token.
pub fn push_patterns(table: &mut Vec<Pattern>, delim: Delim, seqs: &Vec<Vec<u32>>, from: usize)
    requires
        forall|i: int| 0 <= i < seqs.len() ==> from <= (#[trigger] seqs@[i])@.len(),
    ensures
        table_of(final(table)@) == table_of(old(table)@) + tagged(
            delim,
            rows(seqs@).map_values(|s: Seq<u32>| s.skip(from as int)),
        ),
{
    let ghost start = table_of(table@);
    let ghost all = tagged(delim, rows(seqs@).map_values(|s: Seq<u32>| s.skip(from as int)));
    let mut i: usize = 0;
    proof {
        assert(start + all.take(0) =~= start);
    }
    while i < seqs.len()
        invariant
            i <= seqs.len(),
            all == tagged(delim, rows(seqs@).map_values(|s: Seq<u32>| s.skip(from as int))),
            forall|j: int| 0 <= j < seqs.len() ==> from <= (#[trigger] seqs@[j])@.len(),
            table_of(table@) == start + all.take(i as int),
        decreases seqs.len() - i,
    {
        push_pattern(table, delim, &seqs[i], from);
        i = i + 1;
        proof {
            assert(all.take(i as int) =~= all.take(i - 1).push(
                (delim, seqs@[i - 1]@.skip(from as int)),
            ));
            assert(start + all.take(i as int) =~= (start + all.take(i - 1)).push(
                (delim, seqs@[i - 1]@.skip(from as int)),
            ));
        }
    }
    proof {
        assert(all.take(seqs@.len() as int) =~= all);
    }
}

/// Removes a last token that may be the start of a delimiter.
pub fn strip_trailing_bracket(tokens: &mut Vec<u32>, codec: &TokenCodec)
    ensures
        final(tokens)@ == stripped(*codec, old(tokens)@),
{
    let n: usize = tokens.len();
    if n > 0 && codec.is_partial_delim_start(tokens[n - 1]) {
        tokens.pop();
        proof {
            assert(tokens@ =~= old(tokens)@.drop_last());
        }
    }
}

/// Adds the event that hands on `t`.
pub fn push_token(events: &mut Vec<Event>, t: u32)
    ensures
        signals(final(events)@) == signals(old(events)@).push(Signal::Token(t)),
{
    events.push(Event::Passthrough(t));
    proof {
        assert(signals(events@) =~= signals(old(events)@).push(Signal::Token(t)));
    }
}

/// Adds the events that hand on each of `tokens`.
pub fn push_tokens(events: &mut Vec<Event>, tokens: &Vec<u32>)
    ensures
        signals(final(events)@) == signals(old(events)@) + passed(tokens@),
{
    let ghost start = signals(events@);
    let mut i: usize = 0;
    proof {
        assert(start + passed(tokens@.take(0)) =~= start);
    }
    while i < tokens.len()
        invariant
            i <= tokens.len(),
            signals(events@) == start + passed(tokens@.take(i as int)),
        decreases tokens.len() - i,
    {
        push_token(events, tokens[i]);
        i = i + 1;
        proof {
            assert(start + passed(tokens@.take(i as int)) =~= (start + passed(
                tokens@.take(i - 1),
            )).push(Signal::Token(tokens@[i - 1])));
        }
    }
    proof {
        assert(tokens@.take(tokens@.len() as int) =~= tokens@);
    }
}

/// Adds the events that hand on each of `tokens` but those that may be the start of a
/// delimiter.
pub fn push_shown(events: &mut Vec<Event>, tokens: &Vec<u32>, codec: &TokenCodec)
    ensures
        signals(final(events)@) == signals(old(events)@) + shown(*codec, tokens@),
{
    let ghost start = signals(events@);
    let mut i: usize = 0;
    proof {
        assert(start + shown(*codec, tokens@.take(0)) =~= start);
    }
    while i < tokens.len()
        invariant
            i <= tokens.len(),
            signals(events@) == start + shown(*codec, tokens@.take(i as int)),
        decreases tokens.len() - i,
    {
        let t: u32 = tokens[i];
        let ghost before = shown(*codec, tokens@.take(i as int));
        proof {
            assert(tokens@.take(i + 1).drop_last() =~= tokens@.take(i as int));
            assert(tokens@.take(i + 1).last() == t);
            assert(start + before.push(Signal::Token(t)) =~= (start + before).push(
                Signal::Token(t),
            ));
        }
        if !codec.is_partial_delim_start(t) {
            push_token(events, t);
        }
        i = i + 1;
    }
    proof {
        assert(tokens@.take(tokens@.len() as int) =~= tokens@);
    }
}

/// The trimmed text of `tokens`.
pub fn trimmed_text(tokens: &Vec<u32>, codec: &TokenCodec) -> (text: String)
    ensures
        text@ == trimmed(codec.text(tokens@)),
{
    let text = codec.decode_or_default(tokens.as_slice());
    trim_text(text.as_str())
}

/// Tells whether `buf` ends with the non-empty sequence `pat`.
pub fn has_tail(buf: &Vec<u32>, pat: &Vec<u32>) -> (yes: bool)
    ensures
        yes == has_suffix(buf@, pat@),
{
    if pat.len() == 0 || buf.len() < pat.len() {
        return false;
    }
    let off: usize = buf.len() - pat.len();
    let mut i: usize = 0;
    while i < pat.len()
        invariant
            i <= pat.len(),
            off == buf.len() - pat.len(),
            forall|j: int| 0 <= j < i ==> buf@[off + j] == pat@[j],
        decreases pat.len() - i,
    {
        if buf[off + i] != pat[i] {
            proof {
                assert(buf@.skip(buf@.len() - pat@.len())[i as int] != pat@[i as int]);
            }
            return false;
        }
        i = i + 1;
    }
    proof {
        assert(buf@.skip(buf@.len() - pat@.len()) =~= pat@);
    }
    true
}

/// A parser of the call markup.
pub struct Parser {
    full: Vec<Pattern>,
    inner: Vec<Pattern>,
    normal_inner: Vec<Pattern>,
    close_bracket_alts: Vec<u32>,
    think_open_ids: Vec<u32>,
    think_close_ids: Vec<u32>,
    in_think: bool,
    think_buf: Vec<u32>,
    state: State,
    id_tokens: Vec<u32>,
    body_tokens: Vec<u32>,
    buf: Vec<u32>,
}

impl View for Parser {
    type V = Machine;

    closed spec fn view(&self) -> Machine {
        Machine {
            grammar: Grammar {
                full: table_of(self.full@),
                inner: table_of(self.inner@),
                normal: table_of(self.normal_inner@),
                alts: self.close_bracket_alts@,
            },
            think: Think {
                open: self.think_open_ids@,
                close: self.think_close_ids@,
                inside: self.in_think,
                buf: self.think_buf@,
            },
            core: Core {
                state: self.state,
                id: self.id_tokens@,
                body: self.body_tokens@,
                buf: self.buf@,
            },
        }
    }
}

impl Parser {
    /// A parser for the delimiters of `reg`.
    pub fn new(reg: &CmlRegistry) -> (parser: Parser)
        requires
            reg@.wf(),
        ensures
            parser@ == machine_of(reg@),
    {
        let mut full: Vec<Pattern> = Vec::new();
        push_pattern(&mut full, Delim::Call, &reg.call_ids, 0);
        push_pattern(&mut full, Delim::End, &reg.end_ids, 0);
        push_patterns(&mut full, Delim::TrapEnd, &reg.trap_end_ids, 0);
        push_pattern(&mut full, Delim::Trap, &reg.trap_ids, 0);
        push_pattern(&mut full, Delim::Intr, &reg.intr_ids, 0);
        push_pattern(&mut full, Delim::Head, &reg.head_ids, 0);
        let mut inner: Vec<Pattern> = Vec::new();
        push_pattern(&mut inner, Delim::Call, &reg.call_ids, 1);
        push_pattern(&mut inner, Delim::End, &reg.end_ids, 1);
        push_pattern(&mut inner, Delim::Trap, &reg.trap_ids, 1);
        push_pattern(&mut inner, Delim::Intr, &reg.intr_ids, 1);
        push_pattern(&mut inner, Delim::Head, &reg.head_ids, 1);
        let mut normal_inner: Vec<Pattern> = Vec::new();
        proof {
            assert forall|i: int| 0 <= i < reg.trap_end_ids.len() implies 1 <= (
            #[trigger] reg.trap_end_ids@[i])@.len() by {
                assert(reg@.trap_end[i] == reg.trap_end_ids@[i]@);
            }
        }
        push_patterns(&mut normal_inner, Delim::TrapEnd, &reg.trap_end_ids, 1);
        push_pattern(&mut normal_inner, Delim::Call, &reg.call_ids, 1);
        push_pattern(&mut normal_inner, Delim::Trap, &reg.trap_ids, 1);
        let parser = Parser {
            full,
            inner,
            normal_inner,
            close_bracket_alts: copy_row(&reg.close_bracket_alts),
            think_open_ids: copy_row(&reg.think_open_ids),
            think_close_ids: copy_row(&reg.think_close_ids),
            in_think: false,
            think_buf: Vec::new(),
            state: State::Normal,
            id_tokens: Vec::new(),
            body_tokens: Vec::new(),
            buf: Vec::new(),
        };
        proof {
            let g = grammar_of(reg@);
            assert(rows(reg.trap_end_ids@).map_values(|s: Seq<u32>| s.skip(0)) =~= reg@.trap_end)
                by {
                assert forall|i: int| 0 <= i < reg@.trap_end.len() implies (
                #[trigger] reg@.trap_end[i]).skip(0) == reg@.trap_end[i] by {
                    assert(reg@.trap_end[i].skip(0) =~= reg@.trap_end[i]);
                }
            }
            assert(rows(reg.trap_end_ids@).map_values(|s: Seq<u32>| s.skip(1)) =~= tails(
                reg@.trap_end,
            ));
            assert(reg@.call.skip(0) =~= reg@.call);
            assert(reg@.end.skip(0) =~= reg@.end);
            assert(reg@.trap.skip(0) =~= reg@.trap);
            assert(reg@.intr.skip(0) =~= reg@.intr);
            assert(reg@.head.skip(0) =~= reg@.head);
            assert(parser@.grammar.full =~= g.full);
            assert(parser@.grammar.inner =~= g.inner);
            assert(parser@.grammar.normal =~= g.normal);
            assert(parser@ =~= machine_of(reg@));
        }
        parser
    }

    /// A parser for the delimiters of `reg` that knows neither interrupts nor reasoning
    /// sections.
    pub fn new_plain(reg: &CmlRegistry) -> (parser: Parser)
        requires
            reg@.wf(),
        ensures
            parser@ == plain_machine_of(reg@),
    {
        let mut full: Vec<Pattern> = Vec::new();
        push_pattern(&mut full, Delim::Call, &reg.call_ids, 0);
        push_pattern(&mut full, Delim::End, &reg.end_ids, 0);
        push_patterns(&mut full, Delim::TrapEnd, &reg.trap_end_ids, 0);
        push_pattern(&mut full, Delim::Trap, &reg.trap_ids, 0);
        push_pattern(&mut full, Delim::Head, &reg.head_ids, 0);
        let mut inner: Vec<Pattern> = Vec::new();
        push_pattern(&mut inner, Delim::Call, &reg.call_ids, 1);
        push_pattern(&mut inner, Delim::End, &reg.end_ids, 1);
        push_pattern(&mut inner, Delim::Trap, &reg.trap_ids, 1);
        push_pattern(&mut inner, Delim::Head, &reg.head_ids, 1);
        let mut normal_inner: Vec<Pattern> = Vec::new();
        proof {
            assert forall|i: int| 0 <= i < reg.trap_end_ids.len() implies 1 <= (
            #[trigger] reg.trap_end_ids@[i])@.len() by {
                assert(reg@.trap_end[i] == reg.trap_end_ids@[i]@);
            }
        }
        push_patterns(&mut normal_inner, Delim::TrapEnd, &reg.trap_end_ids, 1);
        push_pattern(&mut normal_inner, Delim::Call, &reg.call_ids, 1);
        push_pattern(&mut normal_inner, Delim::Trap, &reg.trap_ids, 1);
        let parser = Parser {
            full,
            inner,
            normal_inner,
            close_bracket_alts: Vec::new(),
            think_open_ids: Vec::new(),
            think_close_ids: Vec::new(),
            in_think: false,
            think_buf: Vec::new(),
            state: State::Normal,
            id_tokens: Vec::new(),
            body_tokens: Vec::new(),
            buf: Vec::new(),
        };
        proof {
            let g = plain_grammar_of(reg@);
            assert(rows(reg.trap_end_ids@).map_values(|s: Seq<u32>| s.skip(0)) =~= reg@.trap_end)
                by {
                assert forall|i: int| 0 <= i < reg@.trap_end.len() implies (
                #[trigger] reg@.trap_end[i]).skip(0) == reg@.trap_end[i] by {
                    assert(reg@.trap_end[i].skip(0) =~= reg@.trap_end[i]);
                }
            }
            assert(rows(reg.trap_end_ids@).map_values(|s: Seq<u32>| s.skip(1)) =~= tails(
                reg@.trap_end,
            ));
            assert(reg@.call.skip(0) =~= reg@.call);
            assert(reg@.end.skip(0) =~= reg@.end);
            assert(reg@.trap.skip(0) =~= reg@.trap);
            assert(reg@.head.skip(0) =~= reg@.head);
            assert(parser@.grammar.full =~= g.full);
            assert(parser@.grammar.inner =~= g.inner);
            assert(parser@.grammar.normal =~= g.normal);
            assert(parser@ =~= plain_machine_of(reg@));
        }
        parser
    }

    /// Takes note of `token_id` as a possible boundary of a reasoning section and tells
    /// whether it completes one.
    pub fn observe_think_boundary(&mut self, token_id: u32) -> (boundary: bool)
        ensures
            boundary == at_boundary(old(self)@.think, token_id),
            final(self)@ == (Machine { think: observe(old(self)@.think, token_id), ..old(self)@ }),
    {
        let ghost th = self@.think;
        if self.think_open_ids.len() == 1 && self.think_open_ids[0] == token_id {
            proof {
                assert(th.open =~= seq![token_id]);
            }
            self.in_think = true;
            self.think_buf.clear();
            return true;
        }
        proof {
            assert(th.open != seq![token_id]) by {
                assert(seq![token_id].len() == 1 && seq![token_id][0] == token_id);
            }
        }
        if self.think_close_ids.len() == 1 && self.think_close_ids[0] == token_id {
            proof {
                assert(th.close =~= seq![token_id]);
            }
            self.in_think = false;
            self.think_buf.clear();
            return true;
        }
        proof {
            assert(th.close != seq![token_id]) by {
                assert(seq![token_id].len() == 1 && seq![token_id][0] == token_id);
            }
        }
        self.think_buf.push(token_id);
        let max_len: usize = if self.think_open_ids.len() >= self.think_close_ids.len() {
            self.think_open_ids.len()
        } else {
            self.think_close_ids.len()
        };
        if self.think_buf.len() > max_len {
            let dropped: usize = self.think_buf.len() - max_len;
            self.think_buf = self.think_buf.split_off(dropped);
        }
        proof {
            assert(self.think_buf@ =~= think_tail(th, token_id));
        }
        if has_tail(&self.think_buf, &self.think_open_ids) {
            self.in_think = true;
            self.think_buf.clear();
            return true;
        }
        if has_tail(&self.think_buf, &self.think_close_ids) {
            self.in_think = false;
            self.think_buf.clear();
            return true;
        }
        false
    }

    /// Tells whether token `b` may stand where a delimiter has `p`.
    pub fn pos_eq(&self, b: u32, p: u32) -> (yes: bool)
        ensures
            yes == stands_for(self@.grammar.alts, b, p),
    {
        may_stand(&self.close_bracket_alts, b, p)
    }

    /// Tells whether `buf` ends with the non-empty pattern `pat`.
    pub fn ends_with(&self, buf: &Vec<u32>, pat: &Vec<u32>) -> (yes: bool)
        ensures
            yes == ends_in(self@.grammar.alts, buf@, pat@),
    {
        ends_pattern(&self.close_bracket_alts, buf, pat)
    }

    /// Tells whether `buf` is the start of the non-empty pattern `pat`.
    pub fn is_prefix(&self, buf: &Vec<u32>, pat: &Vec<u32>) -> (yes: bool)
        ensures
            yes == starts(self@.grammar.alts, buf@, pat@),
    {
        starts_pattern(&self.close_bracket_alts, buf, pat)
    }

    /// The whole delimiter that `buf` ends with.
    pub fn match_full(&self, buf: &Vec<u32>) -> (r: (Delim, usize))
        ensures
            (r.0, r.1 as nat) == first_ending(self@.grammar.alts, self@.grammar.full, buf@),
            r.1 <= buf.len(),
    {
        match_table(&self.close_bracket_alts, &self.full, buf)
    }

    /// The delimiter that `buf` ends with but for its first token, inside a block.
    pub fn match_inner(&self, buf: &Vec<u32>) -> (r: (Delim, usize))
        ensures
            (r.0, r.1 as nat) == first_ending(self@.grammar.alts, self@.grammar.inner, buf@),
            r.1 <= buf.len(),
    {
        match_table(&self.close_bracket_alts, &self.inner, buf)
    }

    /// The delimiter that `buf` ends with but for its first token, in ordinary text: `[CALL]`,
    /// `[TRAP]` or `[TRAP][END]`, whose bracket may have fused with the text in front of it.
    pub fn match_normal_inner(&self, buf: &Vec<u32>) -> (r: (Delim, usize))
        ensures
            (r.0, r.1 as nat) == first_ending(self@.grammar.alts, self@.grammar.normal, buf@),
            r.1 <= buf.len(),
    {
        match_table(&self.close_bracket_alts, &self.normal_inner, buf)
    }

    /// The delimiter that `buf` ends with, inside a block.
    pub fn match_full_or_inner(&self, buf: &Vec<u32>) -> (r: (Delim, usize))
        ensures
            (r.0, r.1 as nat) == self@.grammar.block_match(buf@),
            r.1 <= buf.len(),
    {
        let r = self.match_full(buf);
        if r.0 != Delim::Nothing {
            r
        } else {
            self.match_inner(buf)
        }
    }

    /// The delimiter that `buf` ends with, in ordinary text.
    pub fn match_full_or_normal_inner(&self, buf: &Vec<u32>) -> (r: (Delim, usize))
        ensures
            (r.0, r.1 as nat) == self@.grammar.normal_match(buf@),
            r.1 <= buf.len(),
    {
        let r = self.match_full(buf);
        if r.0 != Delim::Nothing {
            r
        } else {
            self.match_normal_inner(buf)
        }
    }

    /// Tells whether `buf` is the start of some delimiter.
    pub fn is_prefix_of_any(&self, buf: &Vec<u32>) -> (yes: bool)
        ensures
            yes == self@.grammar.may_grow(buf@),
    {
        starts_some(&self.close_bracket_alts, &self.full, buf) || starts_some(
            &self.close_bracket_alts,
            &self.inner,
            buf,
        ) || starts_some(&self.close_bracket_alts, &self.normal_inner, buf)
    }

    /// Every token sequence that the parser matches: the single delimiters, whole and then
    /// without their first token, and `[TRAP][END]`, whole and then without its first token.
    pub fn all_delim_patterns(&self) -> (all: Vec<&Vec<u32>>)
        ensures
            all@.map_values(|v: &Vec<u32>| v@) == sequences(self@.grammar.full, false) + sequences(
                self@.grammar.inner,
                false,
            ) + sequences(self@.grammar.full, true) + sequences(self@.grammar.normal, true),
    {
        let none: Vec<&Vec<u32>> = Vec::new();
        proof {
            let whole = sequences(table_of(self.full@), false);
            assert(none@.map_values(|v: &Vec<u32>| v@) + whole =~= whole);
        }
        let singles = list_sequences(&self.full, false, none);
        let tails = list_sequences(&self.inner, false, singles);
        let units = list_sequences(&self.full, true, tails);
        list_sequences(&self.normal_inner, true, units)
    }

    /// Hands on what stands in the buffer before its last `dlen` tokens and empties it.
    fn emit_prefix_and_consume(
        &mut self,
        dlen: usize,
        codec: &TokenCodec,
        events: &mut Vec<Event>,
    )
        requires
            dlen <= old(self)@.core.buf.len(),
        ensures
            final(self)@ == (Machine {
                core: Core { buf: Seq::empty(), ..old(self)@.core },
                ..old(self)@
            }),
            signals(final(events)@) == signals(old(events)@) + passed(
                stripped(*codec, old(self)@.core.buf.take(old(self)@.core.buf.len() - dlen)),
            ),
    {
        let end: usize = self.buf.len() - dlen;
        let mut prefix: Vec<u32> = Vec::new();
        append_range(&mut prefix, &self.buf, 0, end);
        proof {
            assert(prefix@ =~= self.buf@.take(end as int));
        }
        strip_trailing_bracket(&mut prefix, codec);
        push_tokens(events, &prefix);
        self.buf.clear();
    }

    fn feed_normal(&mut self, token_id: u32, codec: &TokenCodec, events: &mut Vec<Event>)
        ensures
            final(self)@ == (Machine {
                core: normal_step(old(self)@.grammar, *codec, old(self)@.core, token_id).0,
                ..old(self)@
            }),
            signals(final(events)@) == signals(old(events)@) + normal_step(
                old(self)@.grammar,
                *codec,
                old(self)@.core,
                token_id,
            ).1,
    {
        let ghost g = self@.grammar;
        let ghost m = self@.core;
        let ghost start = signals(events@);
        self.buf.push(token_id);
        let ghost buf = self.buf@;
        let (d, dlen) = self.match_full_or_normal_inner(&self.buf);
        match d {
            Delim::Call => {
                self.emit_prefix_and_consume(dlen, codec, events);
                self.id_tokens.clear();
                self.body_tokens.clear();
                self.state = State::InCallId;
            },
            Delim::Trap => {
                self.emit_prefix_and_consume(dlen, codec, events);
                self.state = State::InTrap;
            },
            Delim::TrapEnd => {
                self.emit_prefix_and_consume(dlen, codec, events);
                let ghost mid = signals(events@);
                events.push(Event::Trap);
                proof {
                    assert(signals(events@) =~= mid.push(Signal::Trap));
                    let lead = passed(stripped(*codec, buf.take(buf.len() - dlen)));
                    assert(start + lead.push(Signal::Trap) =~= (start + lead).push(Signal::Trap));
                }
            },
            Delim::Intr => {
                self.emit_prefix_and_consume(dlen, codec, events);
                self.state = State::InIntrId;
            },
            Delim::Nothing => {
                let mut drained: Vec<u32> = Vec::new();
                proof {
                    assert(buf.skip(0) =~= buf);
                    assert(buf.take(0) =~= drained@);
                }
                while self.buf.len() > 0 && !self.is_prefix_of_any(&self.buf)
                    invariant
                        self@.grammar == g,
                        self@ == (Machine { core: Core { buf: self.buf@, ..m }, ..old(self)@ }),
                        self.buf@ == buf.skip(drained@.len() as int),
                        drained@ == buf.take(drained@.len() as int),
                        drained@.len() <= buf.len(),
                        g.held(buf) == g.held(self.buf@),
                        signals(events@) == start,
                    decreases self.buf.len(),
                {
                    let ghost rest = self.buf@;
                    let t: u32 = self.buf.remove(0);
                    proof {
                        assert(self.buf@ =~= rest.drop_first());
                        assert(self.buf@ =~= buf.skip(drained@.len() as int + 1));
                        assert(buf.take(drained@.len() as int + 1) =~= drained@.push(t));
                    }
                    drained.push(t);
                }
                push_shown(events, &drained, codec);
                proof {
                    assert(g.held(buf) == self.buf@);
                    assert(buf.len() - self.buf@.len() == drained@.len());
                }
            },
            _ => {
                push_shown(events, &self.buf, codec);
                self.buf.clear();
            },
        }
        proof {
            assert(self@ =~= (Machine {
                core: normal_step(g, *codec, m, token_id).0,
                ..old(self)@
            }));
        }
    }

    fn feed_in_call_id(&mut self, token_id: u32, codec: &TokenCodec, events: &mut Vec<Event>)
        ensures
            final(self)@ == (Machine {
                core: call_id_step(old(self)@.grammar, *codec, old(self)@.core, token_id).0,
                ..old(self)@
            }),
            signals(final(events)@) == signals(old(events)@) + call_id_step(
                old(self)@.grammar,
                *codec,
                old(self)@.core,
                token_id,
            ).1,
    {
        let ghost g = self@.grammar;
        let ghost m = self@.core;
        let ghost start = signals(events@);
        self.buf.push(token_id);
        let ghost buf = self.buf@;
        let (d, dlen) = self.match_full_or_inner(&self.buf);
        match d {
            Delim::Head => {
                let id_end: usize = self.buf.len() - dlen;
                append_range(&mut self.id_tokens, &self.buf, 0, id_end);
                self.buf.clear();
                strip_trailing_bracket(&mut self.id_tokens, codec);
                self.state = State::InCallBody;
            },
            Delim::End => {
                let id_end: usize = self.buf.len() - dlen;
                append_range(&mut self.id_tokens, &self.buf, 0, id_end);
                self.buf.clear();
                strip_trailing_bracket(&mut self.id_tokens, codec);
                let id = trimmed_text(&self.id_tokens, codec);
                events.push(Event::Call { id, code: String::new() });
                self.state = State::Normal;
                proof {
                    let sig = Signal::Call { id: id@, code: Seq::empty() };
                    assert(signals(events@) =~= start + seq![sig]);
                }
            },
            Delim::Nothing => {
                if !self.is_prefix_of_any(&self.buf) {
                    append_range(&mut self.id_tokens, &self.buf, 0, self.buf.len());
                    self.buf.clear();
                    proof {
                        assert(buf.subrange(0, buf.len() as int) =~= buf);
                    }
                }
            },
            _ => {},
        }
        proof {
            assert(buf.take(buf.len() - dlen) =~= buf.subrange(0, buf.len() - dlen));
            assert(start + Seq::<Signal>::empty() =~= start);
            assert(self@ =~= (Machine {
                core: call_id_step(g, *codec, m, token_id).0,
                ..old(self)@
            }));
        }
    }

    fn feed_in_call_body(&mut self, token_id: u32, codec: &TokenCodec, events: &mut Vec<Event>)
        ensures
            final(self)@ == (Machine {
                core: call_body_step(old(self)@.grammar, *codec, old(self)@.core, token_id).0,
                ..old(self)@
            }),
            signals(final(events)@) == signals(old(events)@) + call_body_step(
                old(self)@.grammar,
                *codec,
                old(self)@.core,
                token_id,
            ).1,
    {
        let ghost g = self@.grammar;
        let ghost m = self@.core;
        let ghost start = signals(events@);
        self.buf.push(token_id);
        let ghost buf = self.buf@;
        let (d, dlen) = self.match_full_or_inner(&self.buf);
        match d {
            Delim::End => {
                let body_end: usize = self.buf.len() - dlen;
                append_range(&mut self.body_tokens, &self.buf, 0, body_end);
                self.buf.clear();
                strip_trailing_bracket(&mut self.body_tokens, codec);
                let id = trimmed_text(&self.id_tokens, codec);
                let code = trimmed_text(&self.body_tokens, codec);
                events.push(Event::Call { id, code });
                self.state = State::Normal;
                proof {
                    let sig = Signal::Call { id: id@, code: code@ };
                    assert(signals(events@) =~= start + seq![sig]);
                }
            },
            Delim::Nothing => {
                if !self.is_prefix_of_any(&self.buf) {
                    append_range(&mut self.body_tokens, &self.buf, 0, self.buf.len());
                    self.buf.clear();
                    proof {
                        assert(buf.subrange(0, buf.len() as int) =~= buf);
                    }
                }
            },
            _ => {},
        }
        proof {
            assert(buf.take(buf.len() - dlen) =~= buf.subrange(0, buf.len() - dlen));
            assert(start + Seq::<Signal>::empty() =~= start);
            assert(self@ =~= (Machine {
                core: call_body_step(g, *codec, m, token_id).0,
                ..old(self)@
            }));
        }
    }

    /// A token between `[TRAP]` and `[END]`.
    pub fn feed_in_trap(&mut self, token_id: u32, events: &mut Vec<Event>)
        ensures
            final(self)@ == (Machine {
                core: trap_step(old(self)@.grammar, old(self)@.core, token_id).0,
                ..old(self)@
            }),
            signals(final(events)@) == signals(old(events)@) + trap_step(
                old(self)@.grammar,
                old(self)@.core,
                token_id,
            ).1,
    {
        let ghost g = self@.grammar;
        let ghost m = self@.core;
        let ghost start = signals(events@);
        self.buf.push(token_id);
        let (d, _) = self.match_full_or_inner(&self.buf);
        match d {
            Delim::End => {
                self.buf.clear();
                events.push(Event::Trap);
                self.state = State::Normal;
                proof {
                    assert(signals(events@) =~= start + seq![Signal::Trap]);
                }
            },
            Delim::Nothing => {
                if !self.is_prefix_of_any(&self.buf) {
                    self.buf.clear();
                }
            },
            _ => {},
        }
        proof {
            assert(start + Seq::<Signal>::empty() =~= start);
            assert(self@ =~= (Machine { core: trap_step(g, m, token_id).0, ..old(self)@ }));
        }
    }

    /// A token between `[INTR]` and `[HEAD]`.
    pub fn feed_in_intr_id(&mut self, token_id: u32)
        ensures
            final(self)@ == (Machine {
                core: intr_id_step(old(self)@.grammar, old(self)@.core, token_id),
                ..old(self)@
            }),
    {
        let ghost g = self@.grammar;
        let ghost m = self@.core;
        self.buf.push(token_id);
        let (d, _) = self.match_full_or_inner(&self.buf);
        match d {
            Delim::Head => {
                self.buf.clear();
                self.state = State::InIntrBody;
            },
            Delim::End => {
                self.buf.clear();
                self.state = State::Normal;
            },
            Delim::Nothing => {
                if !self.is_prefix_of_any(&self.buf) {
                    self.buf.clear();
                }
            },
            _ => {},
        }
        proof {
            assert(self@ =~= (Machine { core: intr_id_step(g, m, token_id), ..old(self)@ }));
        }
    }

    /// A token between `[HEAD]` and `[END]` of an interrupt.
    pub fn feed_in_intr_body(&mut self, token_id: u32)
        ensures
            final(self)@ == (Machine {
                core: intr_body_step(old(self)@.grammar, old(self)@.core, token_id),
                ..old(self)@
            }),
    {
        let ghost g = self@.grammar;
        let ghost m = self@.core;
        self.buf.push(token_id);
        let (d, _) = self.match_full_or_inner(&self.buf);
        match d {
            Delim::End => {
                self.buf.clear();
                self.state = State::Normal;
            },
            Delim::Nothing => {
                if !self.is_prefix_of_any(&self.buf) {
                    self.buf.clear();
                }
            },
            _ => {},
        }
        proof {
            assert(self@ =~= (Machine { core: intr_body_step(g, m, token_id), ..old(self)@ }));
        }
    }

    /// Takes the next token of the stream.
    pub fn feed(&mut self, token_id: u32, codec: &TokenCodec) -> (events: Vec<Event>)
        ensures
            (final(self)@, signals(events@)) == feed_step(*codec, old(self)@, token_id),
    {
        let ghost before = self@;
        let mut events: Vec<Event> = Vec::new();
        let was_in_think: bool = self.in_think;
        let _ = self.observe_think_boundary(token_id);
        if was_in_think || self.in_think {
            push_token(&mut events, token_id);
            proof {
                assert(signals(events@) =~= seq![Signal::Token(token_id)]);
            }
            return events;
        }
        let ghost empty = signals(events@);
        match self.state {
            State::Normal => self.feed_normal(token_id, codec, &mut events),
            State::InCallId => self.feed_in_call_id(token_id, codec, &mut events),
            State::InCallBody => self.feed_in_call_body(token_id, codec, &mut events),
            State::InTrap => self.feed_in_trap(token_id, &mut events),
            State::InIntrId => self.feed_in_intr_id(token_id),
            State::InIntrBody => self.feed_in_intr_body(token_id),
        }
        proof {
            let out = step(before.grammar, *codec, before.core, token_id).1;
            assert(empty + out =~= out);
            assert(signals(events@) =~= out);
        }
        events
    }

    /// Hands on what the buffer holds and empties it.
    pub fn flush(&mut self, codec: &TokenCodec) -> (events: Vec<Event>)
        ensures
            final(self)@ == (Machine {
                core: Core { buf: Seq::empty(), ..old(self)@.core },
                ..old(self)@
            }),
            signals(events@) == shown(*codec, old(self)@.core.buf),
    {
        let mut events: Vec<Event> = Vec::new();
        let ghost empty = signals(events@);
        push_shown(&mut events, &self.buf, codec);
        proof {
            assert(empty + shown(*codec, self.buf@) =~= shown(*codec, self.buf@));
        }
        self.buf.clear();
        events
    }

    /// Tells whether the stream stands in ordinary text with nothing held back.
    pub fn is_clean(&self) -> (yes: bool)
        ensures
            yes == (self@.core.state == State::Normal && self@.core.buf.len() == 0),
    {
        self.state == State::Normal && self.buf.len() == 0
    }

    /// Tells whether the buffer and then `t` are the start of a delimiter that opens a block.
    pub fn opens_with(&self, t: u32) -> (yes: bool)
        ensures
            yes == starts_block(self@.grammar.alts, self@.grammar.full, self@.core.buf.push(t)),
    {
        let mut buf = copy_row(&self.buf);
        buf.push(t);
        let ghost table = table_of(self.full@);
        let mut i: usize = 0;
        while i < self.full.len()
            invariant
                i <= self.full.len(),
                table == table_of(self.full@),
                buf@ == self@.core.buf.push(t),
                forall|j: int|
                    0 <= j < i ==> !(opens_block((#[trigger] table[j]).0) && starts(
                        self.close_bracket_alts@,
                        buf@,
                        table[j].1,
                    )),
            decreases self.full.len() - i,
        {
            let p = &self.full[i];
            proof {
                assert(table[i as int] == (p.delim, p.ids@));
            }
            if (p.delim == Delim::Call || p.delim == Delim::Trap || p.delim == Delim::TrapEnd)
                && self.is_prefix(&buf, &p.ids) {
                return true;
            }
            i = i + 1;
        }
        false
    }

    /// Where the stream stands.
    pub fn state(&self) -> (state: State)
        ensures
            state == self@.core.state,
    {
        self.state
    }
}

} // verus!
