//! What a single token does to a parser, state by state, in terms of the delimiter that it
//! completes and of the tokens collected so far.

use vstd::prelude::*;

use crate::blocks::{block_step, hint_step, opens_block, starts_block, Hinting};
use crate::cml::{
    cml_step, entry_opens, first_of_entry, initial_cml, CmlCore, CmlGrammar, CmlState,
};
use crate::cml_laws::cml_held_is_an_end;
use crate::codec::TokenCodec;
use crate::laws::{held_is_an_end, shown_append};
use crate::machine::{
    at_boundary, feed_step, has_suffix, observe, passed, shown, step, stripped, think_tail,
    think_window, Core, Grammar, Machine, Signal, State, Think,
};
use crate::parser::{machine_of, plain_machine_of};
use crate::pattern::{first_ending, starts, starts_any, Delim};
use crate::registry::RegistryView;
use crate::text::trimmed;

verus! {

/// Of the tokens collected before a delimiter, a last one whose text ends with `[` does not
/// count, and every other does.
pub proof fn only_a_last_bracket_is_left_out(codec: TokenCodec, tokens: Seq<u32>, t: u32)
    ensures
        stripped(codec, Seq::empty()).len() == 0,
        codec.text(seq![t]).len() > 0 && codec.text(seq![t]).last() == '[' ==> stripped(
            codec,
            tokens.push(t),
        ) == tokens,
        codec.text(seq![t]).len() == 0 || codec.text(seq![t]).last() != '[' ==> stripped(
            codec,
            tokens.push(t),
        ) == tokens.push(t),
{
    assert(tokens.push(t).drop_last() =~= tokens);
}

/// Text is handed on token by token, but for the tokens whose text ends with `[`.
pub proof fn text_is_handed_on_without_brackets(codec: TokenCodec, tokens: Seq<u32>, t: u32)
    ensures
        shown(codec, Seq::empty()).len() == 0,
        codec.text(seq![t]).len() > 0 && codec.text(seq![t]).last() == '[' ==> shown(
            codec,
            tokens.push(t),
        ) == shown(codec, tokens),
        codec.text(seq![t]).len() == 0 || codec.text(seq![t]).last() != '[' ==> shown(
            codec,
            tokens.push(t),
        ) == shown(codec, tokens).push(Signal::Token(t)),
{
    assert(tokens.push(t).drop_last() =~= tokens);
}

/// Tokens that are handed on as they are come out one for one.
pub proof fn tokens_are_handed_on_one_for_one(tokens: Seq<u32>, i: int)
    ensures
        passed(tokens).len() == tokens.len(),
        0 <= i < tokens.len() ==> passed(tokens)[i] == Signal::Token(tokens[i]),
{
}

/// A buffer may still grow exactly where it is the start of something in one of the tables.
pub proof fn growing_written_out(g: Grammar, buf: Seq<u32>)
    ensures
        g.may_grow(buf) <==> starts_any(g.alts, g.full, buf) || starts_any(g.alts, g.inner, buf)
            || starts_any(g.alts, g.normal, buf),
{
}

/// In ordinary text a whole delimiter goes before one without its first token, and the table
/// for ordinary text is the one that is asked; inside a block the table for blocks is.
pub proof fn matching_written_out(g: Grammar, buf: Seq<u32>)
    ensures
        first_ending(g.alts, g.full, buf).0 != Delim::Nothing ==> g.normal_match(buf)
            == first_ending(g.alts, g.full, buf) && g.block_match(buf) == first_ending(
            g.alts,
            g.full,
            buf,
        ),
        first_ending(g.alts, g.full, buf).0 == Delim::Nothing ==> g.normal_match(buf)
            == first_ending(g.alts, g.normal, buf) && g.block_match(buf) == first_ending(
            g.alts,
            g.inner,
            buf,
        ),
{
}

/// What is held back is the longest end of the buffer that may still become a delimiter.
pub proof fn held_is_the_longest(g: Grammar, buf: Seq<u32>, j: int)
    requires
        0 <= j < buf.len() - g.held(buf).len(),
    ensures
        !g.may_grow(buf.skip(j)),
    decreases buf.len(),
{
    if j == 0 {
        assert(buf.skip(0) =~= buf);
    } else {
        held_is_the_longest(g, buf.drop_first(), j - 1);
        assert(buf.drop_first().skip(j - 1) =~= buf.skip(j));
    }
}

/// In ordinary text a delimiter that opens a block, or is a whole trap, hands on the text in
/// front of it, but for a last bracket, and leaves nothing held back.
pub proof fn delimiter_in_text(g: Grammar, codec: TokenCodec, m: Core, t: u32)
    requires
        m.state == State::Normal,
    ensures
        ({
            let buf = m.buf.push(t);
            let (d, n) = g.normal_match(buf);
            let lead = passed(stripped(codec, buf.take(buf.len() - n)));
            let (after, out) = step(g, codec, m, t);
            &&& d == Delim::Call ==> after == (Core {
                state: State::InCallId,
                id: Seq::empty(),
                body: Seq::empty(),
                buf: Seq::empty(),
            }) && out == lead
            &&& d == Delim::Trap ==> after.state == State::InTrap && after.buf.len() == 0 && out
                == lead
            &&& d == Delim::Intr ==> after.state == State::InIntrId && after.buf.len() == 0 && out
                == lead
            &&& d == Delim::TrapEnd ==> after.state == State::Normal && after.buf.len() == 0 && out
                == lead + seq![Signal::Trap]
        }),
{
    let buf = m.buf.push(t);
    let n = g.normal_match(buf).1;
    let lead = passed(stripped(codec, buf.take(buf.len() - n)));
    assert(lead.push(Signal::Trap) =~= lead + seq![Signal::Trap]);
}

/// In ordinary text anything else stays text: it is handed on, or held back while it may
/// still become a delimiter. A stray `[END]` or `[HEAD]` is text.
pub proof fn text_in_text(g: Grammar, codec: TokenCodec, m: Core, t: u32)
    requires
        m.state == State::Normal,
    ensures
        ({
            let buf = m.buf.push(t);
            let d = g.normal_match(buf).0;
            let (after, out) = step(g, codec, m, t);
            &&& d == Delim::Nothing || d == Delim::End || d == Delim::Head ==> after.state
                == State::Normal && after.id == m.id && after.body == m.body && out + shown(
                codec,
                after.buf,
            ) == shown(codec, buf)
            &&& d == Delim::End || d == Delim::Head ==> after.buf.len() == 0
            &&& d == Delim::Nothing ==> after.buf == g.held(buf)
        }),
{
    let buf = m.buf.push(t);
    held_is_an_end(g, buf);
    let rest = g.held(buf);
    let head = buf.take(buf.len() - rest.len());
    assert(head + rest =~= buf);
    shown_append(codec, head, rest);
    assert(shown(codec, buf) + shown(codec, Seq::empty()) =~= shown(codec, buf));
}

/// Between `[CALL]` and `[HEAD]`: `[HEAD]` ends the id, `[END]` ends a call without a body,
/// and every other token belongs to the id, unless it may still become a delimiter.
pub proof fn token_of_a_call_id(g: Grammar, codec: TokenCodec, m: Core, t: u32)
    requires
        m.state == State::InCallId,
    ensures
        ({
            let buf = m.buf.push(t);
            let (d, n) = g.block_match(buf);
            let id = stripped(codec, m.id + buf.take(buf.len() - n));
            let (after, out) = step(g, codec, m, t);
            &&& after.body == m.body
            &&& d == Delim::Head ==> after.state == State::InCallBody && after.id == id
                && after.buf.len() == 0 && out.len() == 0
            &&& d == Delim::End ==> after.state == State::Normal && after.buf.len() == 0 && out
                == seq![Signal::Call { id: trimmed(codec.text(id)), code: Seq::empty() }]
            &&& d != Delim::Head && d != Delim::End ==> after.state == State::InCallId && out.len()
                == 0 && after.id + after.buf == m.id + buf
            &&& d == Delim::Nothing && !g.may_grow(buf) ==> after.buf.len() == 0
            &&& d != Delim::Head && d != Delim::End && (d != Delim::Nothing || g.may_grow(buf))
                ==> after.buf == buf
        }),
{
    let buf = m.buf.push(t);
    assert(m.id + buf + Seq::<u32>::empty() =~= m.id + buf);
}

/// Between `[HEAD]` and `[END]`: `[END]` ends the call, whose code is the text of all tokens
/// of the body, and every other token belongs to the body, unless it may still become a
/// delimiter.
pub proof fn token_of_a_call_body(g: Grammar, codec: TokenCodec, m: Core, t: u32)
    requires
        m.state == State::InCallBody,
    ensures
        ({
            let buf = m.buf.push(t);
            let (d, n) = g.block_match(buf);
            let body = stripped(codec, m.body + buf.take(buf.len() - n));
            let (after, out) = step(g, codec, m, t);
            &&& after.id == m.id
            &&& d == Delim::End ==> after.state == State::Normal && after.buf.len() == 0 && out
                == seq![
                Signal::Call { id: trimmed(codec.text(m.id)), code: trimmed(codec.text(body)) },
            ]
            &&& d != Delim::End ==> after.state == State::InCallBody && out.len() == 0 && after.body
                + after.buf == m.body + buf
            &&& d == Delim::Nothing && !g.may_grow(buf) ==> after.buf.len() == 0
            &&& d != Delim::End && (d != Delim::Nothing || g.may_grow(buf)) ==> after.buf == buf
        }),
{
    let buf = m.buf.push(t);
    assert(m.body + buf + Seq::<u32>::empty() =~= m.body + buf);
}

/// In a trap `[END]` gives the trap, and nothing else gives anything.
pub proof fn token_of_a_trap(g: Grammar, codec: TokenCodec, m: Core, t: u32)
    requires
        m.state == State::InTrap,
    ensures
        ({
            let buf = m.buf.push(t);
            let d = g.block_match(buf).0;
            let (after, out) = step(g, codec, m, t);
            &&& after.id == m.id && after.body == m.body
            &&& d == Delim::End ==> after.state == State::Normal && after.buf.len() == 0 && out
                == seq![Signal::Trap]
            &&& d != Delim::End ==> after.state == State::InTrap && out.len() == 0
            &&& d == Delim::Nothing && !g.may_grow(buf) ==> after.buf.len() == 0
            &&& d != Delim::End && (d != Delim::Nothing || g.may_grow(buf)) ==> after.buf == buf
        }),
{
}

/// In an interrupt nothing gives anything: `[HEAD]` leads from its id to its value, and
/// `[END]` out of it.
pub proof fn token_of_an_interrupt(g: Grammar, codec: TokenCodec, m: Core, t: u32)
    requires
        m.state == State::InIntrId || m.state == State::InIntrBody,
    ensures
        ({
            let buf = m.buf.push(t);
            let d = g.block_match(buf).0;
            let (after, out) = step(g, codec, m, t);
            let leads = d == Delim::End || (d == Delim::Head && m.state == State::InIntrId);
            &&& out.len() == 0
            &&& after.id == m.id && after.body == m.body
            &&& d == Delim::End ==> after.state == State::Normal
            &&& d == Delim::Head && m.state == State::InIntrId ==> after.state == State::InIntrBody
            &&& leads ==> after.buf.len() == 0
            &&& !leads ==> after.state == m.state
            &&& d == Delim::Nothing && !g.may_grow(buf) ==> after.buf.len() == 0
            &&& !leads && (d != Delim::Nothing || g.may_grow(buf)) ==> after.buf == buf
        }),
{
}

/// A boundary of a reasoning section counts once its last token has come. A boundary of a
/// single token goes before one of several, and opening before closing.
pub proof fn boundaries_of_reasoning(th: Think, t: u32)
    ensures
        ({
            let all = th.buf.push(t);
            let opens = th.open.len() > 0 && th.open.is_suffix_of(all);
            let closes = th.close.len() > 0 && th.close.is_suffix_of(all);
            let after = observe(th, t);
            &&& after.open == th.open && after.close == th.close
            &&& at_boundary(th, t) <==> opens || closes
            &&& opens && !(closes && th.close.len() == 1 && th.open.len() != 1) ==> after.inside
            &&& closes && (!opens || (th.close.len() == 1 && th.open.len() != 1)) ==> !after.inside
            &&& !opens && !closes ==> after.inside == th.inside && after.buf.is_suffix_of(all) && (
            all.len() <= think_window(th) ==> after.buf == all) && (all.len() > think_window(th)
                ==> after.buf.len() == think_window(th))
            &&& opens || closes ==> after.buf.len() == 0
        }),
{
    let all = th.buf.push(t);
    let tail = think_tail(th, t);
    lemma_suffix_of_tail(th, t, th.open);
    lemma_suffix_of_tail(th, t, th.close);
    lemma_single_boundary(th.open, all, t);
    lemma_single_boundary(th.close, all, t);
    assert(tail.is_suffix_of(all)) by {
        assert(tail =~= all.subrange(all.len() - tail.len(), all.len() as int));
    }
}

proof fn lemma_single_boundary(pat: Seq<u32>, all: Seq<u32>, t: u32)
    requires
        all.len() > 0,
        all.last() == t,
    ensures
        pat == seq![t] <==> pat.len() == 1 && pat.is_suffix_of(all),
{
    if pat == seq![t] {
        assert(pat =~= all.subrange(all.len() - 1, all.len() as int));
    }
    if pat.len() == 1 && pat.is_suffix_of(all) {
        assert(pat[0] == all.subrange(all.len() - 1, all.len() as int)[0]);
        assert(pat =~= seq![t]);
    }
}

proof fn lemma_suffix_of_tail(th: Think, t: u32, pat: Seq<u32>)
    requires
        pat.len() <= think_window(th),
    ensures
        has_suffix(think_tail(th, t), pat) <==> pat.len() > 0 && pat.is_suffix_of(th.buf.push(t)),
{
    let all = th.buf.push(t);
    let tail = think_tail(th, t);
    if 0 < pat.len() <= tail.len() {
        assert(tail.skip(tail.len() - pat.len()) =~= all.subrange(
            all.len() - pat.len(),
            all.len() as int,
        ));
    }
}

/// The window of the last tokens is as long as the longer boundary.
pub proof fn window_is_the_longer_boundary(th: Think)
    ensures
        think_window(th) >= th.open.len(),
        think_window(th) >= th.close.len(),
        think_window(th) == th.open.len() || think_window(th) == th.close.len(),
{
}

/// Inside a reasoning section and at its boundaries a token is handed on as it is and the
/// machine does not move. Elsewhere the machine alone decides.
pub proof fn reasoning_goes_past_the_machine(codec: TokenCodec, m: Machine, t: u32)
    ensures
        ({
            let (after, out) = feed_step(codec, m, t);
            let (core, told) = step(m.grammar, codec, m.core, t);
            &&& after.grammar == m.grammar
            &&& after.think == observe(m.think, t)
            &&& m.think.inside || after.think.inside ==> after.core == m.core && out
                == seq![Signal::Token(t)]
            &&& !m.think.inside && !after.think.inside ==> after.core == core && out == told
        }),
{
}

/// A new parser stands in ordinary text with nothing collected and nothing held back.
pub proof fn new_parser_stands_in_text(r: RegistryView)
    ensures
        machine_of(r).core == (Core {
            state: State::Normal,
            id: Seq::empty(),
            body: Seq::empty(),
            buf: Seq::empty(),
        }),
        machine_of(r).think == (Think {
            open: r.think_open,
            close: r.think_close,
            inside: false,
            buf: Seq::empty(),
        }),
        plain_machine_of(r).core == machine_of(r).core,
        plain_machine_of(r).think.open.len() == 0,
        plain_machine_of(r).think.close.len() == 0,
        !plain_machine_of(r).think.inside,
        initial_cml() == (CmlCore {
            state: CmlState::Normal,
            id: Seq::empty(),
            body: Seq::empty(),
            buf: Seq::empty(),
        }),
{
}

/// A parser that announces blocks gives what the plain one gives, and then the announcement
/// exactly where it enters or leaves a block.
pub proof fn announcement_comes_last(codec: TokenCodec, m: Machine, t: u32)
    ensures
        ({
            let (after, told) = feed_step(codec, m, t);
            let (next, out) = block_step(codec, m, t);
            let before = m.core.state == State::Normal;
            let now = after.core.state == State::Normal;
            &&& next == after
            &&& before && !now ==> out == told + seq![Signal::Enter]
            &&& !before && now ==> out == told + seq![Signal::Exit]
            &&& before == now ==> out == told
        }),
{
    let told = feed_step(codec, m, t).1;
    assert(told + Seq::<Signal>::empty() =~= told);
}

/// The hint comes first, in ordinary text, where what is held back and the token are the start
/// of a delimiter that opens a block, unless it has been given for them already. It changes
/// nothing else.
pub proof fn hint_comes_first(codec: TokenCodec, h: Hinting, t: u32)
    ensures
        ({
            let m = h.machine;
            let buf = m.core.buf.push(t);
            let (next, told) = block_step(codec, m, t);
            let (after, out) = hint_step(codec, h, t);
            let opening = exists|i: int|
                0 <= i < m.grammar.full.len() && ((#[trigger] m.grammar.full[i]).0 == Delim::Call
                    || m.grammar.full[i].0 == Delim::Trap || m.grammar.full[i].0 == Delim::TrapEnd)
                    && starts(m.grammar.alts, buf, m.grammar.full[i].1);
            let due = m.core.state == State::Normal && !h.hinted && opening;
            &&& after.machine == next
            &&& due ==> out == seq![Signal::Hint] + told
            &&& !due ==> out == told
            &&& m.core.state == State::Normal && next.core.state == State::Normal ==> after.hinted
                == (next.core.buf.len() > 0 && (h.hinted || due))
            &&& m.core.state == State::Normal && next.core.state != State::Normal ==> after.hinted
            &&& m.core.state != State::Normal && next.core.state == State::Normal ==> !after.hinted
            &&& m.core.state != State::Normal && next.core.state != State::Normal ==> after.hinted
                == h.hinted
        }),
{
    let told = block_step(codec, h.machine, t).1;
    assert(Seq::<Signal>::empty() + told =~= told);
    let m = h.machine;
    let buf = m.core.buf.push(t);
    if starts_block(m.grammar.alts, m.grammar.full, buf) {
        let i = choose|i: int|
            0 <= i < m.grammar.full.len() && opens_block(
                (#[trigger] m.grammar.full[i]).0,
            ) && starts(m.grammar.alts, buf, m.grammar.full[i].1);
        assert(starts(m.grammar.alts, buf, m.grammar.full[i].1));
    }
}

/// The same of a parser for several spellings: what may still grow, and what is matched where.
pub proof fn spellings_matching_written_out(g: CmlGrammar, buf: Seq<u32>)
    ensures
        ({
            let none = Seq::<u32>::empty();
            &&& g.full_match(buf) == first_ending(none, g.full, buf)
            &&& first_ending(none, g.block, buf).0 != Delim::Nothing ==> g.block_match(buf)
                == first_ending(none, g.block, buf)
            &&& first_ending(none, g.block, buf).0 == Delim::Nothing ==> g.block_match(buf)
                == first_ending(none, g.inner, buf)
            &&& g.inner_match(buf) == first_ending(none, g.inner, buf)
            &&& g.grows_full(buf) <==> starts_any(none, g.full, buf)
            &&& g.grows_inner(buf) <==> starts_any(none, g.inner, buf)
        }),
{
}

/// With brackets, a last token that ends with `[` does not count; without, every token does.
pub proof fn spellings_collect_without_a_bracket(g: CmlGrammar, codec: TokenCodec, tokens: Seq<u32>)
    ensures
        g.bracketed ==> g.collected(codec, tokens) == stripped(codec, tokens),
        !g.bracketed ==> g.collected(codec, tokens) == tokens,
{
}

/// What is held back is the longest end of the buffer that may still become a delimiter.
pub proof fn spellings_held_is_the_longest(g: CmlGrammar, buf: Seq<u32>, j: int)
    requires
        0 <= j < buf.len() - g.held(buf).len(),
    ensures
        !g.grows_full(buf.skip(j)),
    decreases buf.len(),
{
    if j == 0 {
        assert(buf.skip(0) =~= buf);
    } else {
        spellings_held_is_the_longest(g, buf.drop_first(), j - 1);
        assert(buf.drop_first().skip(j - 1) =~= buf.skip(j));
    }
}

/// In ordinary text a delimiter that opens a block hands on all the text in front of it and
/// announces the block; a whole trap announces it, gives the trap and announces its end.
pub proof fn spelled_delimiter_in_text(g: CmlGrammar, codec: TokenCodec, m: CmlCore, t: u32)
    requires
        m.state == CmlState::Normal,
    ensures
        ({
            let buf = m.buf.push(t);
            let (d, n) = g.full_match(buf);
            let lead = passed(buf.take(buf.len() - n));
            let (after, out) = cml_step(g, codec, m, t);
            &&& d == Delim::Call ==> after == (CmlCore {
                state: CmlState::InCallId,
                id: Seq::empty(),
                body: Seq::empty(),
                buf: Seq::empty(),
            }) && out == lead + seq![Signal::Enter]
            &&& d == Delim::Trap ==> after.state == CmlState::InTrap && after.buf.len() == 0 && out
                == lead + seq![Signal::Enter]
            &&& d == Delim::TrapEnd ==> after.state == CmlState::Normal && after.buf.len() == 0
                && out == lead + seq![Signal::Enter, Signal::Trap, Signal::Exit]
            &&& d == Delim::Nothing || d == Delim::End || d == Delim::Head ==> after.state
                == CmlState::Normal && after.id == m.id && after.body == m.body && out + passed(
                after.buf,
            ) == passed(buf)
            &&& d == Delim::End || d == Delim::Head ==> after.buf.len() == 0
            &&& d == Delim::Nothing ==> after.buf == g.held(buf)
        }),
{
    let buf = m.buf.push(t);
    cml_held_is_an_end(g, buf);
    let rest = g.held(buf);
    assert(buf.take(buf.len() - rest.len()) + rest =~= buf);
    assert(passed(buf.take(buf.len() - rest.len())) + passed(rest) =~= passed(buf));
    assert(passed(buf) + passed(Seq::empty()) =~= passed(buf));
}

/// Between `[CALL]` and `[HEAD]`: `[HEAD]` ends the id, `[END]` a call without a body, another
/// `[CALL]` starts anew, and every other token belongs to the id, unless it may still become a
/// delimiter.
pub proof fn spelled_token_of_a_call_id(g: CmlGrammar, codec: TokenCodec, m: CmlCore, t: u32)
    requires
        m.state == CmlState::InCallId,
    ensures
        ({
            let buf = m.buf.push(t);
            let (d, n) = g.block_match(buf);
            let id = g.collected(codec, m.id + buf.take(buf.len() - n));
            let (after, out) = cml_step(g, codec, m, t);
            let grows = g.grows_full(buf) || g.grows_inner(buf);
            let other = d != Delim::Head && d != Delim::End && d != Delim::Call;
            &&& d == Delim::Head ==> after.state == CmlState::InCallBody && after.id == id
                && after.body == m.body && after.buf.len() == 0 && out.len() == 0
            &&& d == Delim::End ==> after.state == CmlState::Normal && after.buf.len() == 0 && out
                == seq![
                Signal::Call { id: trimmed(codec.text(id)), code: Seq::empty() },
                Signal::Exit,
            ]
            &&& d == Delim::Call ==> after == (CmlCore {
                state: CmlState::InCallId,
                id: Seq::empty(),
                body: Seq::empty(),
                buf: Seq::empty(),
            }) && out.len() == 0
            &&& other ==> after.state == CmlState::InCallId && out.len() == 0 && after.id
                + after.buf == m.id + buf && after.body == m.body
            &&& d == Delim::Nothing && !grows ==> after.buf.len() == 0
            &&& other && (d != Delim::Nothing || grows) ==> after.buf == buf
        }),
{
    let buf = m.buf.push(t);
    assert(m.id + buf + Seq::<u32>::empty() =~= m.id + buf);
}

/// Between `[HEAD]` and `[END]`: `[END]` ends the call, whose code is the text of all tokens
/// of the body, and every other token belongs to the body, unless it may still become a
/// delimiter.
pub proof fn spelled_token_of_a_call_body(g: CmlGrammar, codec: TokenCodec, m: CmlCore, t: u32)
    requires
        m.state == CmlState::InCallBody,
    ensures
        ({
            let buf = m.buf.push(t);
            let (d, n) = g.block_match(buf);
            let body = g.collected(codec, m.body + buf.take(buf.len() - n));
            let (after, out) = cml_step(g, codec, m, t);
            let grows = g.grows_full(buf) || g.grows_inner(buf);
            &&& d == Delim::End ==> after.state == CmlState::Normal && after.buf.len() == 0 && out
                == seq![
                Signal::Call { id: trimmed(codec.text(m.id)), code: trimmed(codec.text(body)) },
                Signal::Exit,
            ]
            &&& d != Delim::End ==> after.state == CmlState::InCallBody && out.len() == 0
                && after.body + after.buf == m.body + buf && after.id == m.id
            &&& d == Delim::Nothing && !grows ==> after.buf.len() == 0
            &&& d != Delim::End && (d != Delim::Nothing || grows) ==> after.buf == buf
        }),
{
    let buf = m.buf.push(t);
    assert(m.body + buf + Seq::<u32>::empty() =~= m.body + buf);
}

/// In a trap `[END]` gives the trap and announces the end of the block, and nothing else gives
/// anything.
pub proof fn spelled_token_of_a_trap(g: CmlGrammar, codec: TokenCodec, m: CmlCore, t: u32)
    requires
        m.state == CmlState::InTrap,
    ensures
        ({
            let buf = m.buf.push(t);
            let d = g.block_match(buf).0;
            let (after, out) = cml_step(g, codec, m, t);
            let grows = g.grows_full(buf) || g.grows_inner(buf);
            &&& after.id == m.id && after.body == m.body
            &&& d == Delim::End ==> after.state == CmlState::Normal && after.buf.len() == 0 && out
                == seq![Signal::Trap, Signal::Exit]
            &&& d != Delim::End ==> after.state == CmlState::InTrap && out.len() == 0
            &&& d == Delim::Nothing && !grows ==> after.buf.len() == 0
            &&& d != Delim::End && (d != Delim::Nothing || grows) ==> after.buf == buf
        }),
{
}

/// A token starts an entry to a block exactly where it is the first token of `[CALL]` or
/// `[TRAP]`, whole or without its bracket.
pub proof fn entry_tokens_written_out(g: CmlGrammar, t: u32)
    ensures
        g.enters(t) <==> (exists|i: int|
            0 <= i < g.full.len() && ((#[trigger] g.full[i]).0 == Delim::Call || g.full[i].0
                == Delim::Trap) && g.full[i].1.len() > 0 && g.full[i].1[0] == t) || (exists|i: int|
            0 <= i < g.inner.len() && ((#[trigger] g.inner[i]).0 == Delim::Call || g.inner[i].0
                == Delim::Trap) && g.inner[i].1.len() > 0 && g.inner[i].1[0] == t),
{
    if first_of_entry(g.full, t) {
        let i = choose|i: int|
            0 <= i < g.full.len() && entry_opens(#[trigger] g.full[i], t);
        assert(g.full[i].1[0] == t);
    }
    if first_of_entry(g.inner, t) {
        let i = choose|i: int|
            0 <= i < g.inner.len() && entry_opens(#[trigger] g.inner[i], t);
        assert(g.inner[i].1[0] == t);
    }
    if exists|i: int|
        0 <= i < g.full.len() && ((#[trigger] g.full[i]).0 == Delim::Call || g.full[i].0
            == Delim::Trap) && g.full[i].1.len() > 0 && g.full[i].1[0] == t {
        let i = choose|i: int|
            0 <= i < g.full.len() && ((#[trigger] g.full[i]).0 == Delim::Call || g.full[i].0
                == Delim::Trap) && g.full[i].1.len() > 0 && g.full[i].1[0] == t;
        assert(entry_opens(g.full[i], t));
    }
    if exists|i: int|
        0 <= i < g.inner.len() && ((#[trigger] g.inner[i]).0 == Delim::Call || g.inner[i].0
            == Delim::Trap) && g.inner[i].1.len() > 0 && g.inner[i].1[0] == t {
        let i = choose|i: int|
            0 <= i < g.inner.len() && ((#[trigger] g.inner[i]).0 == Delim::Call || g.inner[i].0
                == Delim::Trap) && g.inner[i].1.len() > 0 && g.inner[i].1[0] == t;
        assert(entry_opens(g.inner[i], t));
    }
}

} // verus!
