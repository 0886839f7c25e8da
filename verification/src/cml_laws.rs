//! What holds of the parser for delimiters with several spellings as a whole, and of the
//! announcements of blocks.

use vstd::prelude::*;

use crate::blocks::{block_step, crossing};
use crate::cml::{
    cml_grammar_of, cml_run, cml_step, initial_cml, CmlCore, CmlGrammar, CmlState,
};
use crate::codec::TokenCodec;
use crate::machine::{feed_step, passed, shown, Machine, Signal, State};
use crate::pattern::{ends_in, first_ending, starts, starts_any, Delim, Table};
use crate::text::trimmed;
use crate::variants::VariantsView;

verus! {

/// Whether the stream stands inside a block, after announcements.
pub open spec fn critical_after(inside: bool, out: Seq<Signal>) -> bool
    decreases out.len(),
{
    if out.len() == 0 {
        inside
    } else {
        match out.last() {
            Signal::Enter => true,
            Signal::Exit => false,
            _ => critical_after(inside, out.drop_last()),
        }
    }
}

proof fn lemma_critical_append(inside: bool, a: Seq<Signal>, b: Seq<Signal>)
    ensures
        critical_after(inside, a + b) == critical_after(critical_after(inside, a), b),
    decreases b.len(),
{
    if b.len() == 0 {
        assert(a + b =~= a);
    } else {
        assert((a + b).drop_last() =~= a + b.drop_last());
        assert((a + b).last() == b.last());
        lemma_critical_append(inside, a, b.drop_last());
    }
}

proof fn lemma_critical_passed(inside: bool, tokens: Seq<u32>)
    ensures
        critical_after(inside, passed(tokens)) == inside,
    decreases tokens.len(),
{
    if tokens.len() > 0 {
        assert(passed(tokens).drop_last() =~= passed(tokens.drop_last()));
        lemma_critical_passed(inside, tokens.drop_last());
    }
}

proof fn lemma_critical_one(inside: bool, s: Signal)
    ensures
        critical_after(inside, seq![s]) == (match s {
            Signal::Enter => true,
            Signal::Exit => false,
            _ => inside,
        }),
{
    assert(seq![s].drop_last() =~= Seq::empty());
    assert(seq![s].last() == s);
    reveal_with_fuel(critical_after, 2);
}

/// Whoever follows the announcements knows at every token whether the stream stands inside
/// a block.
pub proof fn announcements_track_the_block(g: CmlGrammar, codec: TokenCodec, m: CmlCore, t: u32)
    ensures
        critical_after(m.state != CmlState::Normal, cml_step(g, codec, m, t).1) == (cml_step(
            g,
            codec,
            m,
            t,
        ).0.state != CmlState::Normal),
{
    let inside = m.state != CmlState::Normal;
    let buf = m.buf.push(t);
    let out = cml_step(g, codec, m, t).1;
    match m.state {
        CmlState::Normal => {
            let (d, n) = g.full_match(buf);
            let lead = passed(buf.take(buf.len() - n));
            lemma_critical_passed(inside, buf.take(buf.len() - n));
            lemma_critical_passed(inside, buf.take(buf.len() - g.held(buf).len()));
            lemma_critical_passed(inside, buf);
            lemma_critical_append(inside, lead, seq![Signal::Enter]);
            lemma_critical_one(inside, Signal::Enter);
            let three = seq![Signal::Enter, Signal::Trap, Signal::Exit];
            lemma_critical_append(inside, lead, three);
            assert(three.last() == Signal::Exit);
        },
        CmlState::InCallId => {
            if out.len() > 0 {
                assert(out.last() == Signal::Exit);
            }
        },
        CmlState::InCallBody => {
            if out.len() > 0 {
                assert(out.last() == Signal::Exit);
            }
        },
        CmlState::InTrap => {
            if out.len() > 0 {
                assert(out.last() == Signal::Exit);
            }
        },
    }
}

/// The same over a whole stream.
pub proof fn announcements_track_the_stream(
    g: CmlGrammar,
    codec: TokenCodec,
    m: CmlCore,
    tokens: Seq<u32>,
)
    ensures
        critical_after(m.state != CmlState::Normal, cml_run(g, codec, m, tokens).1) == (cml_run(
            g,
            codec,
            m,
            tokens,
        ).0.state != CmlState::Normal),
    decreases tokens.len(),
{
    if tokens.len() > 0 {
        let before = cml_run(g, codec, m, tokens.drop_last());
        announcements_track_the_stream(g, codec, m, tokens.drop_last());
        announcements_track_the_block(g, codec, before.0, tokens.last());
        lemma_critical_append(
            m.state != CmlState::Normal,
            before.1,
            cml_step(g, codec, before.0, tokens.last()).1,
        );
    }
}

proof fn lemma_critical_shown(inside: bool, codec: TokenCodec, tokens: Seq<u32>)
    ensures
        critical_after(inside, shown(codec, tokens)) == inside,
    decreases tokens.len(),
{
    if tokens.len() > 0 {
        lemma_critical_shown(inside, codec, tokens.drop_last());
        if !codec.opens(tokens.last()) {
            let out = shown(codec, tokens);
            assert(out.drop_last() =~= shown(codec, tokens.drop_last()));
            assert(out.last() == Signal::Token(tokens.last()));
        }
    }
}

/// The block parser, too, announces every block that it enters and leaves, and none else.
pub proof fn crossings_track_the_block(codec: TokenCodec, m: Machine, t: u32)
    ensures
        critical_after(m.core.state != State::Normal, block_step(codec, m, t).1) == (block_step(
            codec,
            m,
            t,
        ).0.core.state != State::Normal),
{
    let inside = m.core.state != State::Normal;
    let (next, out) = feed_step(codec, m, t);
    lemma_feed_is_silent(codec, m, t);
    let cross = crossing(m.core.state, next.core.state);
    lemma_critical_append(inside, out, cross);
    lemma_critical_one(inside, Signal::Enter);
    lemma_critical_one(inside, Signal::Exit);
}

/// The machine itself announces nothing.
proof fn lemma_feed_is_silent(codec: TokenCodec, m: Machine, t: u32)
    ensures
        critical_after(m.core.state != State::Normal, feed_step(codec, m, t).1) == (m.core.state
            != State::Normal),
{
    let inside = m.core.state != State::Normal;
    let out = feed_step(codec, m, t).1;
    let g = m.grammar;
    let buf = m.core.buf.push(t);
    lemma_critical_one(inside, Signal::Token(t));
    lemma_critical_one(inside, Signal::Trap);
    if m.core.state == State::Normal {
        let (d, n) = g.normal_match(buf);
        let lead = crate::machine::stripped(codec, buf.take(buf.len() - n));
        lemma_critical_passed(inside, lead);
        lemma_critical_append(inside, passed(lead), seq![Signal::Trap]);
        assert(passed(lead).push(Signal::Trap) =~= passed(lead) + seq![Signal::Trap]);
        lemma_critical_shown(inside, codec, buf);
        lemma_critical_shown(inside, codec, buf.take(buf.len() - g.held(buf).len()));
    } else if out.len() > 0 && !(m.think.inside || crate::machine::observe(m.think, t).inside) {
        assert(out.len() == 1);
        assert(out =~= seq![out[0]]);
        lemma_critical_one(inside, out[0]);
    }
}

/// Feeding one sequence after another is feeding both at once.
pub proof fn cml_run_append(
    g: CmlGrammar,
    codec: TokenCodec,
    m: CmlCore,
    a: Seq<u32>,
    b: Seq<u32>,
)
    ensures
        ({
            let first = cml_run(g, codec, m, a);
            let second = cml_run(g, codec, first.0, b);
            cml_run(g, codec, m, a + b) == (second.0, first.1 + second.1)
        }),
    decreases b.len(),
{
    let first = cml_run(g, codec, m, a);
    if b.len() == 0 {
        assert(a + b =~= a);
        assert(first.1 + Seq::<Signal>::empty() =~= first.1);
    } else {
        cml_run_append(g, codec, m, a, b.drop_last());
        assert((a + b).drop_last() =~= a + b.drop_last());
        assert((a + b).last() == b.last());
        let part = cml_run(g, codec, first.0, b.drop_last());
        let last = cml_step(g, codec, part.0, b.last());
        assert((first.1 + part.1) + last.1 =~= first.1 + (part.1 + last.1));
    }
}

/// What `held` leaves in the buffer is an end of it, and either empty or the start of some
/// delimiter.
pub proof fn cml_held_is_an_end(g: CmlGrammar, buf: Seq<u32>)
    ensures
        g.held(buf).len() <= buf.len(),
        g.held(buf) == buf.skip(buf.len() - g.held(buf).len()),
        g.held(buf).len() == 0 || g.grows_full(g.held(buf)),
    decreases buf.len(),
{
    if buf.len() == 0 || g.grows_full(buf) {
        assert(buf.skip(0) =~= buf);
    } else {
        cml_held_is_an_end(g, buf.drop_first());
        let h = g.held(buf);
        assert(buf.drop_first().skip(buf.len() - 1 - h.len()) =~= buf.skip(buf.len() - h.len()));
    }
}

/// No token of `tokens` completes a delimiter that opens a block or a trap, fed in ordinary
/// text from `m` on.
pub open spec fn cml_stays_text(g: CmlGrammar, codec: TokenCodec, m: CmlCore, tokens: Seq<u32>) -> bool {
    forall|k: int|
        0 <= k < tokens.len() ==> {
            let d = g.full_match(
                cml_run(g, codec, m, #[trigger] tokens.take(k)).0.buf.push(tokens[k]),
            ).0;
            d == Delim::Nothing || d == Delim::End || d == Delim::Head
        }
}

/// Ordinary text comes through whole: the tokens handed on, and then those that a flush
/// hands on, are the tokens fed, in their order.
pub proof fn cml_text_comes_through(g: CmlGrammar, codec: TokenCodec, m: CmlCore, tokens: Seq<u32>)
    requires
        m.state == CmlState::Normal,
        cml_stays_text(g, codec, m, tokens),
    ensures
        ({
            let (after, out) = cml_run(g, codec, m, tokens);
            &&& after.state == CmlState::Normal
            &&& out + passed(after.buf) == passed(m.buf + tokens)
        }),
    decreases tokens.len(),
{
    if tokens.len() == 0 {
        assert(m.buf + tokens =~= m.buf);
        assert(Seq::<Signal>::empty() + passed(m.buf) =~= passed(m.buf));
    } else {
        let init = tokens.drop_last();
        let t = tokens.last();
        assert forall|k: int| 0 <= k < init.len() implies ({
            let d = g.full_match(
                cml_run(g, codec, m, #[trigger] init.take(k)).0.buf.push(init[k]),
            ).0;
            d == Delim::Nothing || d == Delim::End || d == Delim::Head
        }) by {
            assert(init.take(k) =~= tokens.take(k));
        }
        cml_text_comes_through(g, codec, m, init);
        assert(tokens.take(tokens.len() - 1) =~= init);
        let (mid, out) = cml_run(g, codec, m, init);
        let buf = mid.buf.push(t);
        let (after, more) = cml_step(g, codec, mid, t);
        assert(more + passed(after.buf) =~= passed(buf)) by {
            if g.full_match(buf).0 == Delim::Nothing {
                cml_held_is_an_end(g, buf);
                let rest = g.held(buf);
                assert(buf =~= buf.take(buf.len() - rest.len()) + rest);
            }
        }
        assert(m.buf + tokens =~= (m.buf + init).push(t));
        assert(passed(m.buf + tokens) =~= passed(m.buf + init).push(Signal::Token(t)));
        assert(passed(buf) =~= passed(mid.buf).push(Signal::Token(t)));
        assert((out + more) + passed(after.buf) =~= out + passed(buf));
        assert(out + passed(buf) =~= (out + passed(mid.buf)).push(Signal::Token(t)));
    }
}

/// `t` is not the first token of any delimiter, whole or without its bracket.
pub open spec fn cml_plain(g: CmlGrammar, t: u32) -> bool {
    &&& !g.grows_full(seq![t])
    &&& !starts_any(Seq::empty(), g.block, seq![t])
    &&& !g.grows_inner(seq![t])
}

/// Every token of `tokens` is plain.
pub open spec fn cml_all_plain(g: CmlGrammar, tokens: Seq<u32>) -> bool {
    forall|i: int| 0 <= i < tokens.len() ==> cml_plain(g, #[trigger] tokens[i])
}

/// Fed on its own in ordinary text, `pat` is taken for `d` at its last token and for
/// nothing before.
pub open spec fn cml_reads_in_text(g: CmlGrammar, pat: Seq<u32>, d: Delim) -> bool {
    &&& pat.len() > 0
    &&& forall|k: int|
        0 < k < pat.len() ==> g.full_match(#[trigger] pat.take(k)).0 == Delim::Nothing
            && g.grows_full(pat.take(k))
    &&& g.full_match(pat) == (d, pat.len())
}

/// Fed on its own inside a block, `pat` is taken for `d` at its last token and for nothing
/// before.
pub open spec fn cml_reads_in_block(g: CmlGrammar, pat: Seq<u32>, d: Delim) -> bool {
    &&& pat.len() > 0
    &&& forall|k: int|
        0 < k < pat.len() ==> g.block_match(#[trigger] pat.take(k)).0 == Delim::Nothing && (
        g.grows_full(pat.take(k)) || g.grows_inner(pat.take(k)))
    &&& g.block_match(pat) == (d, pat.len())
}

proof fn lemma_cml_single_unmatched(table: Table, t: u32)
    requires
        !starts_any(Seq::empty(), table, seq![t]),
    ensures
        first_ending(Seq::empty(), table, seq![t]) == (Delim::Nothing, 0nat),
    decreases table.len(),
{
    let none = Seq::<u32>::empty();
    let buf = seq![t];
    if table.len() > 0 {
        assert(!ends_in(none, buf, table[0].1)) by {
            if ends_in(none, buf, table[0].1) {
                assert(buf[buf.len() - table[0].1.len() + 0] == t);
                assert(starts(none, buf, table[0].1));
            }
        }
        let rest = table.drop_first();
        assert(!starts_any(none, rest, buf)) by {
            if starts_any(none, rest, buf) {
                let i = choose|i: int| 0 <= i < rest.len() && starts(none, buf, #[trigger] rest[i].1);
                assert(table[i + 1] == rest[i]);
            }
        }
        lemma_cml_single_unmatched(rest, t);
    }
}

proof fn lemma_cml_text_prefix(
    g: CmlGrammar,
    codec: TokenCodec,
    m: CmlCore,
    pat: Seq<u32>,
    d: Delim,
    k: int,
)
    requires
        m.state == CmlState::Normal,
        m.buf.len() == 0,
        cml_reads_in_text(g, pat, d),
        0 <= k < pat.len(),
    ensures
        cml_run(g, codec, m, pat.take(k)) == (
            CmlCore { buf: pat.take(k), ..m },
            Seq::<Signal>::empty(),
        ),
    decreases k,
{
    if k == 0 {
        assert(pat.take(0) =~= Seq::empty());
        assert(m.buf =~= Seq::empty());
    } else {
        lemma_cml_text_prefix(g, codec, m, pat, d, k - 1);
        assert(pat.take(k).drop_last() =~= pat.take(k - 1));
        assert(pat.take(k - 1).push(pat[k - 1]) =~= pat.take(k));
        let buf = pat.take(k);
        assert(g.held(buf) == buf);
        assert(passed(buf.take(buf.len() - buf.len())) =~= Seq::empty());
        assert(Seq::<Signal>::empty() + Seq::<Signal>::empty() =~= Seq::<Signal>::empty());
    }
}

proof fn lemma_cml_text_delimiter(
    g: CmlGrammar,
    codec: TokenCodec,
    m: CmlCore,
    pat: Seq<u32>,
    d: Delim,
)
    requires
        m.state == CmlState::Normal,
        m.buf.len() == 0,
        cml_reads_in_text(g, pat, d),
    ensures
        d == Delim::Call ==> cml_run(g, codec, m, pat) == (
            CmlCore { state: CmlState::InCallId, ..initial_cml() },
            seq![Signal::Enter],
        ),
        d == Delim::Trap ==> cml_run(g, codec, m, pat) == (
            CmlCore { state: CmlState::InTrap, buf: Seq::empty(), ..m },
            seq![Signal::Enter],
        ),
        d == Delim::TrapEnd ==> cml_run(g, codec, m, pat) == (
            CmlCore { buf: Seq::empty(), ..m },
            seq![Signal::Enter, Signal::Trap, Signal::Exit],
        ),
{
    let k = pat.len() - 1;
    lemma_cml_text_prefix(g, codec, m, pat, d, k);
    assert(pat.drop_last() =~= pat.take(k));
    let mid = CmlCore { buf: pat.take(k), ..m };
    assert(pat.take(k).push(pat[k]) =~= pat);
    let none = Seq::<Signal>::empty();
    assert(passed(pat.take(0)) =~= none);
    assert(none + seq![Signal::Enter] =~= seq![Signal::Enter]);
    let three = seq![Signal::Enter, Signal::Trap, Signal::Exit];
    assert(none + three =~= three);
    let out = cml_step(g, codec, mid, pat.last()).1;
    assert(none + out =~= out);
}

proof fn lemma_cml_block_prefix(
    g: CmlGrammar,
    codec: TokenCodec,
    m: CmlCore,
    pat: Seq<u32>,
    d: Delim,
    k: int,
)
    requires
        m.state != CmlState::Normal,
        m.buf.len() == 0,
        cml_reads_in_block(g, pat, d),
        0 <= k < pat.len(),
    ensures
        cml_run(g, codec, m, pat.take(k)) == (
            CmlCore { buf: pat.take(k), ..m },
            Seq::<Signal>::empty(),
        ),
    decreases k,
{
    if k == 0 {
        assert(pat.take(0) =~= Seq::empty());
        assert(m.buf =~= Seq::empty());
    } else {
        lemma_cml_block_prefix(g, codec, m, pat, d, k - 1);
        assert(pat.take(k).drop_last() =~= pat.take(k - 1));
        assert(pat.take(k - 1).push(pat[k - 1]) =~= pat.take(k));
        assert(Seq::<Signal>::empty() + Seq::<Signal>::empty() =~= Seq::<Signal>::empty());
    }
}

proof fn lemma_cml_block_delimiter(
    g: CmlGrammar,
    codec: TokenCodec,
    m: CmlCore,
    pat: Seq<u32>,
    d: Delim,
)
    requires
        m.state != CmlState::Normal,
        m.buf.len() == 0,
        cml_reads_in_block(g, pat, d),
    ensures
        m.state == CmlState::InCallId && d == Delim::Head ==> cml_run(g, codec, m, pat) == (
            CmlCore {
                state: CmlState::InCallBody,
                id: g.collected(codec, m.id),
                buf: Seq::empty(),
                ..m
            },
            Seq::<Signal>::empty(),
        ),
        m.state == CmlState::InCallId && d == Delim::Call ==> cml_run(g, codec, m, pat) == (
            CmlCore { state: CmlState::InCallId, ..initial_cml() },
            Seq::<Signal>::empty(),
        ),
        m.state == CmlState::InCallBody && d == Delim::End ==> cml_run(g, codec, m, pat) == (
            initial_cml(),
            seq![
                Signal::Call {
                    id: trimmed(codec.text(m.id)),
                    code: trimmed(codec.text(g.collected(codec, m.body))),
                },
                Signal::Exit,
            ],
        ),
        m.state == CmlState::InTrap && d == Delim::End ==> cml_run(g, codec, m, pat) == (
            CmlCore { state: CmlState::Normal, buf: Seq::empty(), ..m },
            seq![Signal::Trap, Signal::Exit],
        ),
{
    let k = pat.len() - 1;
    lemma_cml_block_prefix(g, codec, m, pat, d, k);
    assert(pat.drop_last() =~= pat.take(k));
    let mid = CmlCore { buf: pat.take(k), ..m };
    assert(pat.take(k).push(pat[k]) =~= pat);
    assert(m.id + pat.take(0) =~= m.id);
    assert(m.body + pat.take(0) =~= m.body);
    let out = cml_step(g, codec, mid, pat.last()).1;
    assert(Seq::<Signal>::empty() + out =~= out);
}

proof fn lemma_cml_plain_tokens(g: CmlGrammar, codec: TokenCodec, m: CmlCore, tokens: Seq<u32>)
    requires
        m.state != CmlState::Normal,
        m.buf.len() == 0,
        cml_all_plain(g, tokens),
    ensures
        m.state == CmlState::InCallId ==> cml_run(g, codec, m, tokens) == (
            CmlCore { id: m.id + tokens, ..m },
            Seq::<Signal>::empty(),
        ),
        m.state == CmlState::InCallBody ==> cml_run(g, codec, m, tokens) == (
            CmlCore { body: m.body + tokens, ..m },
            Seq::<Signal>::empty(),
        ),
        m.state == CmlState::InTrap ==> cml_run(g, codec, m, tokens) == (m, Seq::<Signal>::empty()),
    decreases tokens.len(),
{
    if tokens.len() == 0 {
        assert(m.id + tokens =~= m.id);
        assert(m.body + tokens =~= m.body);
    } else {
        let init = tokens.drop_last();
        let t = tokens.last();
        assert forall|i: int| 0 <= i < init.len() implies cml_plain(g, #[trigger] init[i]) by {
            assert(init[i] == tokens[i]);
        }
        lemma_cml_plain_tokens(g, codec, m, init);
        assert(cml_plain(g, tokens[tokens.len() - 1]));
        lemma_cml_single_unmatched(g.full, t);
        lemma_cml_single_unmatched(g.block, t);
        lemma_cml_single_unmatched(g.inner, t);
        assert(m.buf.push(t) =~= seq![t]);
        assert((m.id + init) + seq![t] =~= m.id + tokens);
        assert((m.body + init) + seq![t] =~= m.body + tokens);
        assert(m.buf =~= Seq::empty());
        assert(Seq::<Signal>::empty() + Seq::<Signal>::empty() =~= Seq::<Signal>::empty());
    }
}

/// `[CALL] id [HEAD] body [END]` in ordinary text, in any of its spellings, announces the
/// block, gives exactly one call, with the text of `id` and the text of `body`, announces
/// the end of the block and leads back to the start.
pub proof fn cml_call_block_gives_its_call(
    g: CmlGrammar,
    codec: TokenCodec,
    m: CmlCore,
    call: Seq<u32>,
    id: Seq<u32>,
    head: Seq<u32>,
    body: Seq<u32>,
    end: Seq<u32>,
)
    requires
        m.state == CmlState::Normal,
        m.buf.len() == 0,
        cml_reads_in_text(g, call, Delim::Call),
        cml_reads_in_block(g, head, Delim::Head),
        cml_reads_in_block(g, end, Delim::End),
        cml_all_plain(g, id),
        cml_all_plain(g, body),
    ensures
        cml_run(g, codec, m, call + id + head + body + end) == (
            initial_cml(),
            seq![
                Signal::Enter,
                Signal::Call {
                    id: trimmed(codec.text(g.collected(codec, id))),
                    code: trimmed(codec.text(g.collected(codec, body))),
                },
                Signal::Exit,
            ],
        ),
{
    let enter = seq![Signal::Enter];
    let none = Seq::<Signal>::empty();
    let m1 = CmlCore { state: CmlState::InCallId, ..initial_cml() };
    lemma_cml_text_delimiter(g, codec, m, call, Delim::Call);
    lemma_cml_plain_tokens(g, codec, m1, id);
    assert(m1.id + id =~= id);
    let m2 = CmlCore { id, ..m1 };
    lemma_cml_block_delimiter(g, codec, m2, head, Delim::Head);
    let m3 = CmlCore { state: CmlState::InCallBody, id: g.collected(codec, id), ..m2 };
    lemma_cml_plain_tokens(g, codec, m3, body);
    assert(m3.body + body =~= body);
    let m4 = CmlCore { body, ..m3 };
    lemma_cml_block_delimiter(g, codec, m4, end, Delim::End);
    cml_run_append(g, codec, m, call, id);
    cml_run_append(g, codec, m, call + id, head);
    cml_run_append(g, codec, m, call + id + head, body);
    cml_run_append(g, codec, m, call + id + head + body, end);
    assert(enter + none =~= enter);
    let last = cml_run(g, codec, m4, end).1;
    assert(enter + last =~= seq![Signal::Enter, last[0], last[1]]);
}

/// `[TRAP][END]`, with whatever plain tokens between the two, announces the block, gives
/// exactly one trap and announces the end of the block.
pub proof fn cml_trap_block_gives_its_trap(
    g: CmlGrammar,
    codec: TokenCodec,
    m: CmlCore,
    trap: Seq<u32>,
    between: Seq<u32>,
    end: Seq<u32>,
)
    requires
        m.state == CmlState::Normal,
        m.buf.len() == 0,
        cml_reads_in_text(g, trap, Delim::Trap),
        cml_reads_in_block(g, end, Delim::End),
        cml_all_plain(g, between),
    ensures
        cml_run(g, codec, m, trap + between + end) == (
            m,
            seq![Signal::Enter, Signal::Trap, Signal::Exit],
        ),
{
    let enter = seq![Signal::Enter];
    let none = Seq::<Signal>::empty();
    lemma_cml_text_delimiter(g, codec, m, trap, Delim::Trap);
    let m1 = CmlCore { state: CmlState::InTrap, buf: Seq::empty(), ..m };
    lemma_cml_plain_tokens(g, codec, m1, between);
    lemma_cml_block_delimiter(g, codec, m1, end, Delim::End);
    cml_run_append(g, codec, m, trap, between);
    cml_run_append(g, codec, m, trap + between, end);
    assert(enter + none =~= enter);
    assert(enter + seq![Signal::Trap, Signal::Exit] =~= seq![
        Signal::Enter,
        Signal::Trap,
        Signal::Exit,
    ]);
    assert(m =~= CmlCore { state: CmlState::Normal, buf: Seq::empty(), ..m1 });
}

/// `[TRAP][END]` spelled as one unit gives the same signals.
pub proof fn cml_trap_as_one_unit(g: CmlGrammar, codec: TokenCodec, m: CmlCore, unit: Seq<u32>)
    requires
        m.state == CmlState::Normal,
        m.buf.len() == 0,
        cml_reads_in_text(g, unit, Delim::TrapEnd),
    ensures
        cml_run(g, codec, m, unit) == (m, seq![Signal::Enter, Signal::Trap, Signal::Exit]),
{
    lemma_cml_text_delimiter(g, codec, m, unit, Delim::TrapEnd);
    assert(m =~= CmlCore { buf: Seq::empty(), ..m });
}

/// Where a buffer ends with one of a stretch of entries that stand for `d`, and with no entry
/// before the stretch, it is taken for `d`.
proof fn lemma_first_in_stretch(
    table: Table,
    buf: Seq<u32>,
    lo: int,
    hi: int,
    i: int,
    d: Delim,
)
    requires
        0 <= lo <= i < hi <= table.len(),
        ends_in(Seq::empty(), buf, table[i].1),
        forall|j: int| 0 <= j < lo ==> !ends_in(Seq::empty(), buf, (#[trigger] table[j]).1),
        forall|j: int| lo <= j < hi ==> (#[trigger] table[j]).0 == d,
    ensures
        first_ending(Seq::empty(), table, buf).0 == d,
    decreases table.len(),
{
    assert(table[0] == table[0]);
    if !ends_in(Seq::empty(), buf, table[0].1) {
        let rest = table.drop_first();
        let from: int = if lo == 0 {
            0
        } else {
            lo - 1
        };
        assert(rest[i - 1] == table[i]);
        assert forall|j: int| 0 <= j < from implies !ends_in(
            Seq::empty(),
            buf,
            (#[trigger] rest[j]).1,
        ) by {
            assert(rest[j] == table[j + 1]);
        }
        assert forall|j: int| from <= j < hi - 1 implies (#[trigger] rest[j]).0 == d by {
            assert(rest[j] == table[j + 1]);
        }
        lemma_first_in_stretch(rest, buf, from, hi - 1, i - 1, d);
    }
}

/// In ordinary text a whole `[TRAP][END]` is taken as one, and not for the `[END]` that it
/// ends with.
pub proof fn trap_end_is_taken_as_one(r: VariantsView, buf: Seq<u32>, i: int)
    requires
        0 <= i < r.trap_end.len(),
        ends_in(Seq::empty(), buf, r.trap_end[i]),
        forall|j: int|
            0 <= j < r.call.len() ==> !ends_in(Seq::empty(), buf, #[trigger] r.call[j]),
    ensures
        cml_grammar_of(r).full_match(buf).0 == Delim::TrapEnd,
{
    let full = cml_grammar_of(r).full;
    let a = r.call.len() as int;
    let b = a + r.trap_end.len();
    assert(full[a + i].1 == r.trap_end[i]);
    assert forall|j: int| 0 <= j < a implies !ends_in(
        Seq::empty(),
        buf,
        (#[trigger] full[j]).1,
    ) by {
        assert(full[j].1 == r.call[j]);
    }
    lemma_first_in_stretch(full, buf, a, b, a + i, Delim::TrapEnd);
}

/// Inside a block an `[END]` closes it, whatever stands in front of it.
pub proof fn end_closes_a_block(r: VariantsView, buf: Seq<u32>, i: int)
    requires
        0 <= i < r.end.len(),
        ends_in(Seq::empty(), buf, r.end[i]),
        forall|j: int|
            0 <= j < r.call.len() ==> !ends_in(Seq::empty(), buf, #[trigger] r.call[j]),
    ensures
        cml_grammar_of(r).block_match(buf).0 == Delim::End,
{
    let block = cml_grammar_of(r).block;
    let a = r.call.len() as int;
    let b = a + r.end.len();
    assert(block[a + i].1 == r.end[i]);
    assert forall|j: int| 0 <= j < a implies !ends_in(
        Seq::empty(),
        buf,
        (#[trigger] block[j]).1,
    ) by {
        assert(block[j].1 == r.call[j]);
    }
    lemma_first_in_stretch(block, buf, a, b, a + i, Delim::End);
}

/// A second `[CALL]` before `[HEAD]` starts the call anew: what stood between the two is
/// forgotten.
pub proof fn cml_second_call_restarts(
    g: CmlGrammar,
    codec: TokenCodec,
    m: CmlCore,
    call: Seq<u32>,
    lost: Seq<u32>,
)
    requires
        m.state == CmlState::Normal,
        m.buf.len() == 0,
        cml_reads_in_text(g, call, Delim::Call),
        cml_reads_in_block(g, call, Delim::Call),
        cml_all_plain(g, lost),
    ensures
        cml_run(g, codec, m, call + lost + call) == cml_run(g, codec, m, call),
{
    let enter = seq![Signal::Enter];
    let none = Seq::<Signal>::empty();
    let m1 = CmlCore { state: CmlState::InCallId, ..initial_cml() };
    lemma_cml_text_delimiter(g, codec, m, call, Delim::Call);
    lemma_cml_plain_tokens(g, codec, m1, lost);
    let m2 = CmlCore { id: m1.id + lost, ..m1 };
    lemma_cml_block_delimiter(g, codec, m2, call, Delim::Call);
    cml_run_append(g, codec, m, call, lost);
    cml_run_append(g, codec, m, call + lost, call);
    assert(enter + none =~= enter);
}

} // verus!
