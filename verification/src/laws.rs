//! What holds of the parser as a whole.

use vstd::prelude::*;

use crate::codec::TokenCodec;
use crate::machine::{
    feed_run, feed_step, observe, passed, run, shown, step, stripped, Core, Grammar,
    Machine, Signal, State, Think,
};
use crate::pattern::{ends_in, first_ending, first_ending_fits, starts, starts_any, Delim, Table};
use crate::text::trimmed;

verus! {

/// Feeding one sequence after another is feeding both at once.
pub proof fn run_append(g: Grammar, codec: TokenCodec, m: Core, a: Seq<u32>, b: Seq<u32>)
    ensures
        ({
            let first = run(g, codec, m, a);
            let second = run(g, codec, first.0, b);
            run(g, codec, m, a + b) == (second.0, first.1 + second.1)
        }),
    decreases b.len(),
{
    let first = run(g, codec, m, a);
    if b.len() == 0 {
        assert(a + b =~= a);
        assert(first.1 + Seq::<Signal>::empty() =~= first.1);
    } else {
        run_append(g, codec, m, a, b.drop_last());
        assert((a + b).drop_last() =~= a + b.drop_last());
        assert((a + b).last() == b.last());
        let part = run(g, codec, first.0, b.drop_last());
        let last = step(g, codec, part.0, b.last());
        assert((first.1 + part.1) + last.1 =~= first.1 + (part.1 + last.1));
    }
}

/// `shown` of two sequences is that of each.
pub proof fn shown_append(codec: TokenCodec, a: Seq<u32>, b: Seq<u32>)
    ensures
        shown(codec, a + b) == shown(codec, a) + shown(codec, b),
    decreases b.len(),
{
    if b.len() == 0 {
        assert(a + b =~= a);
        assert(shown(codec, a) + shown(codec, b) =~= shown(codec, a));
    } else {
        shown_append(codec, a, b.drop_last());
        assert((a + b).drop_last() =~= a + b.drop_last());
        assert((a + b).last() == b.last());
        assert(shown(codec, a + b) =~= shown(codec, a) + shown(codec, b));
    }
}

/// What `held` leaves in the buffer is an end of it, and either empty or the start of some
/// delimiter.
pub proof fn held_is_an_end(g: Grammar, buf: Seq<u32>)
    ensures
        g.held(buf).len() <= buf.len(),
        g.held(buf) == buf.skip(buf.len() - g.held(buf).len()),
        g.held(buf).len() == 0 || g.may_grow(g.held(buf)),
    decreases buf.len(),
{
    if buf.len() == 0 || g.may_grow(buf) {
        assert(buf.skip(0) =~= buf);
    } else {
        held_is_an_end(g, buf.drop_first());
        let h = g.held(buf);
        assert(buf.drop_first().skip(buf.len() - 1 - h.len()) =~= buf.skip(buf.len() - h.len()));
    }
}

/// No token of `tokens` completes a delimiter that opens or closes a block, fed in ordinary
/// text from `m` on.
pub open spec fn stays_text(g: Grammar, codec: TokenCodec, m: Core, tokens: Seq<u32>) -> bool {
    forall|k: int|
        0 <= k < tokens.len() ==> {
            let d = g.normal_match(
                run(g, codec, m, #[trigger] tokens.take(k)).0.buf.push(tokens[k]),
            ).0;
            d == Delim::Nothing || d == Delim::End || d == Delim::Head
        }
}

/// Ordinary text comes through: the tokens handed on, and then those that a flush hands on,
/// are the tokens fed, in their order and without any lost or made up, but for those that
/// may be the start of a delimiter.
pub proof fn text_comes_through(g: Grammar, codec: TokenCodec, m: Core, tokens: Seq<u32>)
    requires
        m.state == State::Normal,
        stays_text(g, codec, m, tokens),
    ensures
        ({
            let (after, out) = run(g, codec, m, tokens);
            &&& after.state == State::Normal
            &&& out + shown(codec, after.buf) == shown(codec, m.buf + tokens)
        }),
    decreases tokens.len(),
{
    if tokens.len() == 0 {
        assert(m.buf + tokens =~= m.buf);
        assert(Seq::<Signal>::empty() + shown(codec, m.buf) =~= shown(codec, m.buf));
    } else {
        let init = tokens.drop_last();
        let t = tokens.last();
        assert forall|k: int| 0 <= k < init.len() implies ({
            let d = g.normal_match(run(g, codec, m, #[trigger] init.take(k)).0.buf.push(init[k])).0;
            d == Delim::Nothing || d == Delim::End || d == Delim::Head
        }) by {
            assert(init.take(k) =~= tokens.take(k));
        }
        text_comes_through(g, codec, m, init);
        assert(tokens.take(tokens.len() - 1) =~= init);
        let (mid, out) = run(g, codec, m, init);
        let buf = mid.buf.push(t);
        let all = m.buf + tokens;
        assert(all =~= (m.buf + init).push(t));
        let (after, more) = step(g, codec, mid, t);
        assert(more + shown(codec, after.buf) == shown(codec, buf)) by {
            if g.normal_match(buf).0 == Delim::Nothing {
                held_is_an_end(g, buf);
                let rest = g.held(buf);
                assert(buf =~= buf.take(buf.len() - rest.len()) + rest);
                shown_append(codec, buf.take(buf.len() - rest.len()), rest);
            } else {
                assert(shown(codec, after.buf) =~= Seq::empty());
                assert(more + shown(codec, after.buf) =~= more);
            }
        }
        assert(buf =~= mid.buf + seq![t]);
        shown_append(codec, mid.buf, seq![t]);
        shown_append(codec, m.buf + init, seq![t]);
        assert((m.buf + init) + seq![t] =~= all);
        assert((out + more) + shown(codec, after.buf) =~= out + (more + shown(codec, after.buf)));
        assert(out + (shown(codec, mid.buf) + shown(codec, seq![t])) =~= (out + shown(
            codec,
            mid.buf,
        )) + shown(codec, seq![t]));
    }
}

/// Between `[CALL]` and `[HEAD]`, every token that does not leave this state is kept, in
/// order: in the id or, while it may still belong to a delimiter, in the buffer.
pub proof fn call_id_keeps_tokens(g: Grammar, codec: TokenCodec, m: Core, t: u32)
    requires
        m.state == State::InCallId,
        step(g, codec, m, t).0.state == State::InCallId,
    ensures
        ({
            let (after, out) = step(g, codec, m, t);
            &&& after.id + after.buf == (m.id + m.buf).push(t)
            &&& out.len() == 0
        }),
{
    let after = step(g, codec, m, t).0;
    assert(after.id + after.buf =~= (m.id + m.buf).push(t));
}

/// Between `[HEAD]` and `[END]`, every token that does not leave this state is kept, in
/// order: in the body or, while it may still belong to a delimiter, in the buffer.
pub proof fn call_body_keeps_tokens(g: Grammar, codec: TokenCodec, m: Core, t: u32)
    requires
        m.state == State::InCallBody,
        step(g, codec, m, t).0.state == State::InCallBody,
    ensures
        ({
            let (after, out) = step(g, codec, m, t);
            &&& after.body + after.buf == (m.body + m.buf).push(t)
            &&& after.id == m.id
            &&& out.len() == 0
        }),
{
    let after = step(g, codec, m, t).0;
    assert(after.body + after.buf =~= (m.body + m.buf).push(t));
}

/// The token that leaves the body ends the call: its code is the text of all tokens since
/// `[HEAD]` but the delimiter and a bracket in front of it, and its id that of the id tokens.
pub proof fn call_ends_with_its_body(g: Grammar, codec: TokenCodec, m: Core, t: u32)
    requires
        m.state == State::InCallBody,
        step(g, codec, m, t).0.state != State::InCallBody,
    ensures
        ({
            let (after, out) = step(g, codec, m, t);
            let all = (m.body + m.buf).push(t);
            let n = g.block_match(m.buf.push(t)).1;
            &&& after.state == State::Normal
            &&& after.buf.len() == 0
            &&& n <= m.buf.len() + 1
            &&& out == seq![
                Signal::Call {
                    id: trimmed(codec.text(m.id)),
                    code: trimmed(codec.text(stripped(codec, all.take(all.len() - n)))),
                },
            ]
        }),
{
    let buf = m.buf.push(t);
    first_ending_fits(g.alts, g.full, buf);
    first_ending_fits(g.alts, g.inner, buf);
    let n = g.block_match(buf).1;
    let all = (m.body + m.buf).push(t);
    assert(all.take(all.len() - n) =~= m.body + buf.take(buf.len() - n));
}

/// `t` is not the first token of any delimiter, whole or without its bracket.
pub open spec fn plain(g: Grammar, t: u32) -> bool {
    !g.may_grow(seq![t])
}

/// Every token of `tokens` is plain.
pub open spec fn all_plain(g: Grammar, tokens: Seq<u32>) -> bool {
    forall|i: int| 0 <= i < tokens.len() ==> plain(g, #[trigger] tokens[i])
}

/// Fed on its own in ordinary text, `pat` is taken for `d` at its last token and for
/// nothing before.
pub open spec fn reads_in_text(g: Grammar, pat: Seq<u32>, d: Delim) -> bool {
    &&& pat.len() > 0
    &&& forall|k: int|
        0 < k < pat.len() ==> g.normal_match(#[trigger] pat.take(k)).0 == Delim::Nothing
            && g.may_grow(pat.take(k))
    &&& g.normal_match(pat) == (d, pat.len())
}

/// Fed on its own inside a block, `pat` is taken for `d` at its last token and for nothing
/// before.
pub open spec fn reads_in_block(g: Grammar, pat: Seq<u32>, d: Delim) -> bool {
    &&& pat.len() > 0
    &&& forall|k: int|
        0 < k < pat.len() ==> g.block_match(#[trigger] pat.take(k)).0 == Delim::Nothing
            && g.may_grow(pat.take(k))
    &&& g.block_match(pat) == (d, pat.len())
}

proof fn lemma_single_unmatched(alts: Seq<u32>, table: Table, t: u32)
    requires
        !starts_any(alts, table, seq![t]),
    ensures
        first_ending(alts, table, seq![t]) == (Delim::Nothing, 0nat),
    decreases table.len(),
{
    let buf = seq![t];
    if table.len() > 0 {
        assert(!ends_in(alts, buf, table[0].1)) by {
            if ends_in(alts, buf, table[0].1) {
                assert(buf[buf.len() - table[0].1.len() + 0] == t);
                assert(starts(alts, buf, table[0].1));
            }
        }
        let rest = table.drop_first();
        assert(!starts_any(alts, rest, buf)) by {
            if starts_any(alts, rest, buf) {
                let i = choose|i: int| 0 <= i < rest.len() && starts(alts, buf, #[trigger] rest[i].1);
                assert(table[i + 1] == rest[i]);
            }
        }
        lemma_single_unmatched(alts, rest, t);
    }
}

proof fn lemma_plain_unmatched(g: Grammar, t: u32)
    requires
        plain(g, t),
    ensures
        g.block_match(seq![t]).0 == Delim::Nothing,
        g.normal_match(seq![t]).0 == Delim::Nothing,
{
    lemma_single_unmatched(g.alts, g.full, t);
    lemma_single_unmatched(g.alts, g.inner, t);
    lemma_single_unmatched(g.alts, g.normal, t);
}

proof fn lemma_text_prefix(g: Grammar, codec: TokenCodec, m: Core, pat: Seq<u32>, d: Delim, k: int)
    requires
        m.state == State::Normal,
        m.buf.len() == 0,
        reads_in_text(g, pat, d),
        0 <= k < pat.len(),
    ensures
        run(g, codec, m, pat.take(k)) == (Core { buf: pat.take(k), ..m }, Seq::<Signal>::empty()),
    decreases k,
{
    if k == 0 {
        assert(pat.take(0) =~= Seq::empty());
        assert(m.buf =~= Seq::empty());
    } else {
        lemma_text_prefix(g, codec, m, pat, d, k - 1);
        assert(pat.take(k).drop_last() =~= pat.take(k - 1));
        assert(pat.take(k - 1).push(pat[k - 1]) =~= pat.take(k));
        let mid = Core { buf: pat.take(k - 1), ..m };
        let buf = pat.take(k);
        assert(g.held(buf) == buf);
        assert(shown(codec, buf.take(buf.len() - buf.len())) =~= Seq::empty());
        assert(step(g, codec, mid, pat[k - 1]) == (
            Core { buf, ..m },
            Seq::<Signal>::empty(),
        ));
        assert(Seq::<Signal>::empty() + Seq::<Signal>::empty() =~= Seq::<Signal>::empty());
    }
}

proof fn lemma_text_delimiter(g: Grammar, codec: TokenCodec, m: Core, pat: Seq<u32>, d: Delim)
    requires
        m.state == State::Normal,
        m.buf.len() == 0,
        reads_in_text(g, pat, d),
    ensures
        d == Delim::Call ==> run(g, codec, m, pat) == (
            Core {
                state: State::InCallId,
                id: Seq::empty(),
                body: Seq::empty(),
                buf: Seq::empty(),
            },
            Seq::<Signal>::empty(),
        ),
        d == Delim::Trap ==> run(g, codec, m, pat) == (
            Core { state: State::InTrap, buf: Seq::empty(), ..m },
            Seq::<Signal>::empty(),
        ),
        d == Delim::Intr ==> run(g, codec, m, pat) == (
            Core { state: State::InIntrId, buf: Seq::empty(), ..m },
            Seq::<Signal>::empty(),
        ),
        d == Delim::TrapEnd ==> run(g, codec, m, pat) == (
            Core { buf: Seq::empty(), ..m },
            seq![Signal::Trap],
        ),
{
    let k = pat.len() - 1;
    lemma_text_prefix(g, codec, m, pat, d, k);
    assert(pat.drop_last() =~= pat.take(k));
    let mid = Core { buf: pat.take(k), ..m };
    assert(pat.take(k).push(pat[k]) =~= pat);
    assert(passed(stripped(codec, pat.take(0))) =~= Seq::empty());
    let out = step(g, codec, mid, pat.last()).1;
    assert(Seq::<Signal>::empty() + out =~= out);
    assert(Seq::<Signal>::empty().push(Signal::Trap) =~= seq![Signal::Trap]);
}

proof fn lemma_block_prefix(g: Grammar, codec: TokenCodec, m: Core, pat: Seq<u32>, d: Delim, k: int)
    requires
        m.state != State::Normal,
        m.buf.len() == 0,
        reads_in_block(g, pat, d),
        0 <= k < pat.len(),
    ensures
        run(g, codec, m, pat.take(k)) == (Core { buf: pat.take(k), ..m }, Seq::<Signal>::empty()),
    decreases k,
{
    if k == 0 {
        assert(pat.take(0) =~= Seq::empty());
        assert(m.buf =~= Seq::empty());
    } else {
        lemma_block_prefix(g, codec, m, pat, d, k - 1);
        assert(pat.take(k).drop_last() =~= pat.take(k - 1));
        assert(pat.take(k - 1).push(pat[k - 1]) =~= pat.take(k));
        assert(Seq::<Signal>::empty() + Seq::<Signal>::empty() =~= Seq::<Signal>::empty());
    }
}

proof fn lemma_block_delimiter(g: Grammar, codec: TokenCodec, m: Core, pat: Seq<u32>, d: Delim)
    requires
        m.state != State::Normal,
        m.buf.len() == 0,
        reads_in_block(g, pat, d),
    ensures
        m.state == State::InCallId && d == Delim::Head ==> run(g, codec, m, pat) == (
            Core {
                state: State::InCallBody,
                id: stripped(codec, m.id),
                buf: Seq::empty(),
                ..m
            },
            Seq::<Signal>::empty(),
        ),
        m.state == State::InCallId && d == Delim::End ==> run(g, codec, m, pat) == (
            Core { state: State::Normal, id: stripped(codec, m.id), buf: Seq::empty(), ..m },
            seq![
                Signal::Call {
                    id: trimmed(codec.text(stripped(codec, m.id))),
                    code: Seq::empty(),
                },
            ],
        ),
        m.state == State::InCallBody && d == Delim::End ==> run(g, codec, m, pat) == (
            Core { state: State::Normal, body: stripped(codec, m.body), buf: Seq::empty(), ..m },
            seq![
                Signal::Call {
                    id: trimmed(codec.text(m.id)),
                    code: trimmed(codec.text(stripped(codec, m.body))),
                },
            ],
        ),
        m.state == State::InTrap && d == Delim::End ==> run(g, codec, m, pat) == (
            Core { state: State::Normal, buf: Seq::empty(), ..m },
            seq![Signal::Trap],
        ),
        m.state == State::InIntrId && d == Delim::Head ==> run(g, codec, m, pat) == (
            Core { state: State::InIntrBody, buf: Seq::empty(), ..m },
            Seq::<Signal>::empty(),
        ),
        m.state == State::InIntrBody && d == Delim::End ==> run(g, codec, m, pat) == (
            Core { state: State::Normal, buf: Seq::empty(), ..m },
            Seq::<Signal>::empty(),
        ),
{
    let k = pat.len() - 1;
    lemma_block_prefix(g, codec, m, pat, d, k);
    assert(pat.drop_last() =~= pat.take(k));
    let mid = Core { buf: pat.take(k), ..m };
    assert(pat.take(k).push(pat[k]) =~= pat);
    assert(m.id + pat.take(0) =~= m.id);
    assert(m.body + pat.take(0) =~= m.body);
    let out = step(g, codec, mid, pat.last()).1;
    assert(Seq::<Signal>::empty() + out =~= out);
}

proof fn lemma_plain_tokens(g: Grammar, codec: TokenCodec, m: Core, tokens: Seq<u32>)
    requires
        m.state != State::Normal,
        m.buf.len() == 0,
        all_plain(g, tokens),
    ensures
        m.state == State::InCallId ==> run(g, codec, m, tokens) == (
            Core { id: m.id + tokens, ..m },
            Seq::<Signal>::empty(),
        ),
        m.state == State::InCallBody ==> run(g, codec, m, tokens) == (
            Core { body: m.body + tokens, ..m },
            Seq::<Signal>::empty(),
        ),
        m.state == State::InTrap || m.state == State::InIntrId || m.state == State::InIntrBody
            ==> run(g, codec, m, tokens) == (m, Seq::<Signal>::empty()),
    decreases tokens.len(),
{
    if tokens.len() == 0 {
        assert(m.id + tokens =~= m.id);
        assert(m.body + tokens =~= m.body);
    } else {
        let init = tokens.drop_last();
        let t = tokens.last();
        assert forall|i: int| 0 <= i < init.len() implies plain(g, #[trigger] init[i]) by {
            assert(init[i] == tokens[i]);
        }
        lemma_plain_tokens(g, codec, m, init);
        assert(plain(g, tokens[tokens.len() - 1]));
        lemma_plain_unmatched(g, t);
        assert(m.buf.push(t) =~= seq![t]);
        assert((m.id + init) + seq![t] =~= m.id + tokens);
        assert((m.body + init) + seq![t] =~= m.body + tokens);
        assert(m.buf =~= Seq::empty());
        assert(Seq::<Signal>::empty() + Seq::<Signal>::empty() =~= Seq::<Signal>::empty());
    }
}

/// `[CALL] id [HEAD] body [END]` in ordinary text gives exactly one call, with the text of
/// `id` and the text of `body`, and leads back to ordinary text with nothing held back. A
/// last token of either that ends with `[` does not count: it is the bracket of the
/// delimiter that follows.
pub proof fn call_block_gives_its_call(
    g: Grammar,
    codec: TokenCodec,
    m: Core,
    call: Seq<u32>,
    id: Seq<u32>,
    head: Seq<u32>,
    body: Seq<u32>,
    end: Seq<u32>,
)
    requires
        m.state == State::Normal,
        m.buf.len() == 0,
        reads_in_text(g, call, Delim::Call),
        reads_in_block(g, head, Delim::Head),
        reads_in_block(g, end, Delim::End),
        all_plain(g, id),
        all_plain(g, body),
    ensures
        run(g, codec, m, call + id + head + body + end) == (
            Core {
                state: State::Normal,
                id: stripped(codec, id),
                body: stripped(codec, body),
                buf: Seq::empty(),
            },
            seq![
                Signal::Call {
                    id: trimmed(codec.text(stripped(codec, id))),
                    code: trimmed(codec.text(stripped(codec, body))),
                },
            ],
        ),
{
    let none = Seq::<Signal>::empty();
    let m1 = Core {
        state: State::InCallId,
        id: Seq::empty(),
        body: Seq::empty(),
        buf: Seq::empty(),
    };
    lemma_text_delimiter(g, codec, m, call, Delim::Call);
    lemma_plain_tokens(g, codec, m1, id);
    assert(m1.id + id =~= id);
    let m2 = Core { id, ..m1 };
    lemma_block_delimiter(g, codec, m2, head, Delim::Head);
    let m3 = Core { state: State::InCallBody, id: stripped(codec, id), ..m2 };
    lemma_plain_tokens(g, codec, m3, body);
    assert(m3.body + body =~= body);
    let m4 = Core { body, ..m3 };
    lemma_block_delimiter(g, codec, m4, end, Delim::End);
    run_append(g, codec, m, call, id);
    run_append(g, codec, m, call + id, head);
    run_append(g, codec, m, call + id + head, body);
    run_append(g, codec, m, call + id + head + body, end);
    assert(none + none =~= none);
    let last = seq![
        Signal::Call {
            id: trimmed(codec.text(stripped(codec, id))),
            code: trimmed(codec.text(stripped(codec, body))),
        },
    ];
    assert(none + last =~= last);
}

/// `[CALL] id [END]` gives exactly one call, with the text of `id` and no code.
pub proof fn call_without_body_gives_its_call(
    g: Grammar,
    codec: TokenCodec,
    m: Core,
    call: Seq<u32>,
    id: Seq<u32>,
    end: Seq<u32>,
)
    requires
        m.state == State::Normal,
        m.buf.len() == 0,
        reads_in_text(g, call, Delim::Call),
        reads_in_block(g, end, Delim::End),
        all_plain(g, id),
    ensures
        run(g, codec, m, call + id + end).1 == seq![
            Signal::Call {
                id: trimmed(codec.text(stripped(codec, id))),
                code: Seq::empty(),
            },
        ],
        run(g, codec, m, call + id + end).0.state == State::Normal,
        run(g, codec, m, call + id + end).0.buf.len() == 0,
{
    let none = Seq::<Signal>::empty();
    let m1 = Core {
        state: State::InCallId,
        id: Seq::empty(),
        body: Seq::empty(),
        buf: Seq::empty(),
    };
    lemma_text_delimiter(g, codec, m, call, Delim::Call);
    lemma_plain_tokens(g, codec, m1, id);
    assert(m1.id + id =~= id);
    let m2 = Core { id, ..m1 };
    lemma_block_delimiter(g, codec, m2, end, Delim::End);
    run_append(g, codec, m, call, id);
    run_append(g, codec, m, call + id, end);
    assert(none + none =~= none);
    let last = run(g, codec, m2, end).1;
    assert(none + last =~= last);
}

/// `[TRAP][END]`, with whatever plain tokens between the two, gives exactly one trap and
/// leads back to ordinary text with nothing held back.
pub proof fn trap_block_gives_its_trap(
    g: Grammar,
    codec: TokenCodec,
    m: Core,
    trap: Seq<u32>,
    between: Seq<u32>,
    end: Seq<u32>,
)
    requires
        m.state == State::Normal,
        m.buf.len() == 0,
        reads_in_text(g, trap, Delim::Trap),
        reads_in_block(g, end, Delim::End),
        all_plain(g, between),
    ensures
        run(g, codec, m, trap + between + end) == (m, seq![Signal::Trap]),
{
    let none = Seq::<Signal>::empty();
    lemma_text_delimiter(g, codec, m, trap, Delim::Trap);
    let m1 = Core { state: State::InTrap, buf: Seq::empty(), ..m };
    lemma_plain_tokens(g, codec, m1, between);
    lemma_block_delimiter(g, codec, m1, end, Delim::End);
    run_append(g, codec, m, trap, between);
    run_append(g, codec, m, trap + between, end);
    assert(none + none =~= none);
    assert(none + seq![Signal::Trap] =~= seq![Signal::Trap]);
    assert(m =~= Core { state: State::Normal, buf: Seq::empty(), ..m1 });
}

/// `[INTR] id [HEAD] value [END]` gives nothing at all: an interrupt in the stream is
/// dropped, and the stream is back in ordinary text with nothing held back.
pub proof fn interrupt_block_gives_nothing(
    g: Grammar,
    codec: TokenCodec,
    m: Core,
    intr: Seq<u32>,
    id: Seq<u32>,
    head: Seq<u32>,
    value: Seq<u32>,
    end: Seq<u32>,
)
    requires
        m.state == State::Normal,
        m.buf.len() == 0,
        reads_in_text(g, intr, Delim::Intr),
        reads_in_block(g, head, Delim::Head),
        reads_in_block(g, end, Delim::End),
        all_plain(g, id),
        all_plain(g, value),
    ensures
        run(g, codec, m, intr + id + head + value + end) == (m, Seq::<Signal>::empty()),
{
    let none = Seq::<Signal>::empty();
    lemma_text_delimiter(g, codec, m, intr, Delim::Intr);
    let m1 = Core { state: State::InIntrId, buf: Seq::empty(), ..m };
    lemma_plain_tokens(g, codec, m1, id);
    lemma_block_delimiter(g, codec, m1, head, Delim::Head);
    let m2 = Core { state: State::InIntrBody, ..m1 };
    lemma_plain_tokens(g, codec, m2, value);
    lemma_block_delimiter(g, codec, m2, end, Delim::End);
    run_append(g, codec, m, intr, id);
    run_append(g, codec, m, intr + id, head);
    run_append(g, codec, m, intr + id + head, value);
    run_append(g, codec, m, intr + id + head + value, end);
    assert(none + none =~= none);
    assert(m =~= Core { state: State::Normal, ..m2 });
}

/// Plain tokens in ordinary text are handed on at once, but for those that end with `[`.
pub proof fn plain_text_passes_at_once(g: Grammar, codec: TokenCodec, m: Core, tokens: Seq<u32>)
    requires
        m.state == State::Normal,
        m.buf.len() == 0,
        all_plain(g, tokens),
    ensures
        run(g, codec, m, tokens) == (m, shown(codec, tokens)),
    decreases tokens.len(),
{
    if tokens.len() > 0 {
        let init = tokens.drop_last();
        let t = tokens.last();
        assert forall|i: int| 0 <= i < init.len() implies plain(g, #[trigger] init[i]) by {
            assert(init[i] == tokens[i]);
        }
        plain_text_passes_at_once(g, codec, m, init);
        assert(plain(g, tokens[tokens.len() - 1]));
        lemma_plain_unmatched(g, t);
        let buf = m.buf.push(t);
        assert(buf =~= seq![t]);
        assert(buf.drop_first() =~= Seq::empty());
        assert(g.held(buf.drop_first()) =~= Seq::empty());
        assert(g.held(buf) =~= Seq::empty());
        assert(buf.take(1) =~= buf);
        assert(buf.drop_last() =~= Seq::empty());
        assert(m.buf =~= Seq::empty());
        let out = step(g, codec, m, t).1;
        assert(out == shown(codec, seq![t]));
        shown_append(codec, init, seq![t]);
        assert(init + seq![t] =~= tokens);
    }
}

/// Text in front of a block and text after it come through around it: nothing of the block
/// leaks into the text, and the block takes nothing of the text.
pub proof fn call_amid_text(
    g: Grammar,
    codec: TokenCodec,
    m: Core,
    before: Seq<u32>,
    call: Seq<u32>,
    id: Seq<u32>,
    head: Seq<u32>,
    body: Seq<u32>,
    end: Seq<u32>,
    after: Seq<u32>,
)
    requires
        m.state == State::Normal,
        m.buf.len() == 0,
        reads_in_text(g, call, Delim::Call),
        reads_in_block(g, head, Delim::Head),
        reads_in_block(g, end, Delim::End),
        all_plain(g, before),
        all_plain(g, id),
        all_plain(g, body),
        all_plain(g, after),
    ensures
        run(g, codec, m, before + (call + id + head + body + end) + after).1 == shown(codec, before)
            + seq![
            Signal::Call {
                id: trimmed(codec.text(stripped(codec, id))),
                code: trimmed(codec.text(stripped(codec, body))),
            },
        ] + shown(
            codec,
            after,
        ),
{
    let block = call + id + head + body + end;
    plain_text_passes_at_once(g, codec, m, before);
    call_block_gives_its_call(g, codec, m, call, id, head, body, end);
    let m1 = run(g, codec, m, block).0;
    plain_text_passes_at_once(g, codec, m1, after);
    run_append(g, codec, m, before, block);
    run_append(g, codec, m, before + block, after);
}

/// A bracket that has fused with the text in front of it still opens a call: the fused token
/// is dropped and the rest of the delimiter is taken for the whole.
pub proof fn fused_bracket_opens_a_call(
    g: Grammar,
    codec: TokenCodec,
    m: Core,
    fused: u32,
    rest: Seq<u32>,
)
    requires
        m.state == State::Normal,
        m.buf.len() == 0,
        plain(g, fused),
        codec.opens(fused),
        reads_in_text(g, rest, Delim::Call),
    ensures
        run(g, codec, m, seq![fused] + rest) == (
            Core {
                state: State::InCallId,
                id: Seq::empty(),
                body: Seq::empty(),
                buf: Seq::empty(),
            },
            Seq::<Signal>::empty(),
        ),
{
    let one = seq![fused];
    assert(all_plain(g, one));
    plain_text_passes_at_once(g, codec, m, one);
    assert(one.drop_last() =~= Seq::empty());
    reveal_with_fuel(shown, 2);
    assert(shown(codec, one) =~= Seq::empty());
    lemma_text_delimiter(g, codec, m, rest, Delim::Call);
    run_append(g, codec, m, one, rest);
    assert(Seq::<Signal>::empty() + Seq::<Signal>::empty() =~= Seq::<Signal>::empty());
}

/// The bracket of `[HEAD]` and that of `[END]` may have fused with the text in front of
/// them: the fused tokens do not count towards id and body.
pub proof fn fused_brackets_in_a_call(
    g: Grammar,
    codec: TokenCodec,
    m: Core,
    call: Seq<u32>,
    id: Seq<u32>,
    fused_head: u32,
    rest_of_head: Seq<u32>,
    body: Seq<u32>,
    fused_end: u32,
    rest_of_end: Seq<u32>,
)
    requires
        m.state == State::Normal,
        m.buf.len() == 0,
        reads_in_text(g, call, Delim::Call),
        reads_in_block(g, rest_of_head, Delim::Head),
        reads_in_block(g, rest_of_end, Delim::End),
        all_plain(g, id),
        all_plain(g, body),
        plain(g, fused_head),
        plain(g, fused_end),
        codec.opens(fused_head),
        codec.opens(fused_end),
    ensures
        run(
            g,
            codec,
            m,
            call + id.push(fused_head) + rest_of_head + body.push(fused_end) + rest_of_end,
        ).1 == seq![
            Signal::Call { id: trimmed(codec.text(id)), code: trimmed(codec.text(body)) },
        ],
{
    assert(stripped(codec, id.push(fused_head)) =~= id);
    assert(stripped(codec, body.push(fused_end)) =~= body);
    call_block_gives_its_call(
        g,
        codec,
        m,
        call,
        id.push(fused_head),
        rest_of_head,
        body.push(fused_end),
        rest_of_end,
    );
}

/// The tokens that `observe` has seen lead to this.
pub open spec fn observe_run(th: Think, tokens: Seq<u32>) -> Think
    decreases tokens.len(),
{
    if tokens.len() == 0 {
        th
    } else {
        observe(observe_run(th, tokens.drop_last()), tokens.last())
    }
}

/// The stream never stands inside a reasoning section.
pub open spec fn never_reasons(th: Think, tokens: Seq<u32>) -> bool {
    forall|k: int| 0 <= k <= tokens.len() ==> !(#[trigger] observe_run(th, tokens.take(k))).inside
}

/// Outside reasoning sections a stream is parsed by the machine alone.
pub proof fn without_reasoning_the_machine_decides(codec: TokenCodec, m: Machine, tokens: Seq<u32>)
    requires
        never_reasons(m.think, tokens),
    ensures
        ({
            let (after, out) = feed_run(codec, m, tokens);
            &&& (after.core, out) == run(m.grammar, codec, m.core, tokens)
            &&& after.grammar == m.grammar
            &&& after.think == observe_run(m.think, tokens)
        }),
    decreases tokens.len(),
{
    if tokens.len() > 0 {
        let init = tokens.drop_last();
        assert forall|k: int| 0 <= k <= init.len() implies !(#[trigger] observe_run(
            m.think,
            init.take(k),
        )).inside by {
            assert(init.take(k) =~= tokens.take(k));
        }
        without_reasoning_the_machine_decides(codec, m, init);
        assert(tokens.take(tokens.len() - 1) =~= init);
        assert(tokens.take(tokens.len() as int) =~= tokens);
        assert(!observe_run(m.think, tokens.take(tokens.len() - 1)).inside);
        assert(!observe_run(m.think, tokens.take(tokens.len() as int)).inside);
    }
}

/// Inside a reasoning section, its boundaries included, every token is handed on as it is
/// and the machine does not move, whatever delimiters the model quotes there.
pub proof fn reasoning_passes_verbatim(codec: TokenCodec, m: Machine, t: u32)
    requires
        m.think.inside || observe(m.think, t).inside,
    ensures
        feed_step(codec, m, t).1 == seq![Signal::Token(t)],
        feed_step(codec, m, t).0.core == m.core,
{
}

/// A tokenizer without boundaries for reasoning sections never enters one.
pub proof fn no_boundaries_no_reasoning(th: Think, tokens: Seq<u32>)
    requires
        th.open.len() == 0,
        th.close.len() == 0,
        !th.inside,
    ensures
        never_reasons(th, tokens),
{
    assert forall|k: int| 0 <= k <= tokens.len() implies !(#[trigger] observe_run(
        th,
        tokens.take(k),
    )).inside by {
        lemma_no_boundaries(th, tokens.take(k));
    }
}

proof fn lemma_no_boundaries(th: Think, tokens: Seq<u32>)
    requires
        th.open.len() == 0,
        th.close.len() == 0,
        !th.inside,
    ensures
        ({
            let after = observe_run(th, tokens);
            !after.inside && after.open.len() == 0 && after.close.len() == 0
        }),
    decreases tokens.len(),
{
    if tokens.len() > 0 {
        lemma_no_boundaries(th, tokens.drop_last());
        let before = observe_run(th, tokens.drop_last());
        let t = tokens.last();
        assert(seq![t].len() == 1);
    }
}

/// A boundary that is a single token opens and closes a reasoning section at once.
pub proof fn single_token_boundaries(th: Think, t: u32)
    ensures
        th.open == seq![t] ==> observe(th, t).inside,
        th.close == seq![t] && th.open != seq![t] ==> !observe(th, t).inside,
{
}

} // verus!
