//! Shapes of delimiters that the parser for several spellings can tell apart.

use vstd::prelude::*;

use crate::cml::{cml_grammar_of, cml_run, initial_cml};
use crate::cml_laws::{
    cml_all_plain, cml_call_block_gives_its_call, cml_reads_in_block, cml_reads_in_text,
    cml_trap_block_gives_its_trap,
};
use crate::codec::TokenCodec;
use crate::machine::Signal;
use crate::pattern::{ends_in, first_ending, starts, Delim, Table};
use crate::text::trimmed;
use crate::variants::VariantsView;

verus! {

/// Where whatever a buffer ends with stands for one and the same delimiter in the same
/// length, that is the match.
proof fn lemma_first_agrees(table: Table, buf: Seq<u32>, i: int, d: Delim, n: nat)
    requires
        0 <= i < table.len(),
        ends_in(Seq::empty(), buf, table[i].1),
        forall|j: int|
            0 <= j < table.len() && ends_in(Seq::empty(), buf, (#[trigger] table[j]).1)
                ==> table[j].0 == d && table[j].1.len() == n,
    ensures
        first_ending(Seq::empty(), table, buf) == (d, n),
    decreases table.len(),
{
    assert(table[0] == table[0]);
    if !ends_in(Seq::empty(), buf, table[0].1) {
        let rest = table.drop_first();
        assert(rest[i - 1] == table[i]);
        assert forall|j: int|
            0 <= j < rest.len() && ends_in(Seq::empty(), buf, (#[trigger] rest[j]).1) implies rest[j].0
            == d && rest[j].1.len() == n by {
            assert(table[j + 1] == rest[j]);
        }
        lemma_first_agrees(rest, buf, i - 1, d, n);
    }
}

proof fn lemma_first_nothing(table: Table, buf: Seq<u32>)
    requires
        forall|j: int|
            0 <= j < table.len() ==> !ends_in(Seq::empty(), buf, (#[trigger] table[j]).1),
    ensures
        first_ending(Seq::empty(), table, buf) == (Delim::Nothing, 0nat),
    decreases table.len(),
{
    if table.len() > 0 {
        assert(table[0] == table[0]);
        let rest = table.drop_first();
        assert forall|j: int| 0 <= j < rest.len() implies !ends_in(
            Seq::empty(),
            buf,
            (#[trigger] rest[j]).1,
        ) by {
            assert(table[j + 1] == rest[j]);
        }
        lemma_first_nothing(rest, buf);
    }
}

/// What the last tokens of a buffer are where it ends with a pattern.
proof fn lemma_ending_tokens(buf: Seq<u32>, pat: Seq<u32>)
    requires
        ends_in(Seq::empty(), buf, pat),
    ensures
        pat.len() <= buf.len(),
        forall|i: int|
            0 <= i < pat.len() ==> #[trigger] pat[i] == buf[buf.len() - pat.len() + i],
{
    assert forall|i: int| 0 <= i < pat.len() implies #[trigger] pat[i] == buf[buf.len() - pat.len()
        + i] by {
        let b = buf[buf.len() - pat.len() + i];
        assert(!Seq::<u32>::empty().contains(b));
    }
}

/// Every spelling is one token, then `name`, then `close`.
pub open spec fn named(seqs: Seq<Seq<u32>>, name: u32, close: u32) -> bool {
    &&& seqs.len() > 0
    &&& forall|i: int|
        0 <= i < seqs.len() ==> (#[trigger] seqs[i]).len() == 3 && seqs[i][1] == name && seqs[i][2]
            == close
}

/// The delimiters are brackets around names that differ from one another and from the
/// closing bracket, whatever has fused with the opening one.
pub open spec fn cml_bracket_shape(
    r: VariantsView,
    close: u32,
    call: u32,
    end: u32,
    trap: u32,
    head: u32,
) -> bool {
    &&& named(r.call, call, close)
    &&& named(r.end, end, close)
    &&& named(r.trap, trap, close)
    &&& named(r.head, head, close)
    &&& call != end && call != trap && call != head && end != trap && end != head && trap != head
    &&& call != close && end != close && trap != close && head != close
    &&& r.bracketed
    &&& forall|i: int| 0 <= i < r.trap_end.len() ==> (#[trigger] r.trap_end[i]).len() >= 5
}

/// `e` is a spelling of three tokens, or a longer one of `[TRAP][END]`.
spec fn named_entry(
    e: (Delim, Seq<u32>),
    close: u32,
    call: u32,
    end: u32,
    trap: u32,
    head: u32,
) -> bool {
    ||| e.0 == Delim::Call && e.1.len() == 3 && e.1[1] == call && e.1[2] == close
    ||| e.0 == Delim::End && e.1.len() == 3 && e.1[1] == end && e.1[2] == close
    ||| e.0 == Delim::Trap && e.1.len() == 3 && e.1[1] == trap && e.1[2] == close
    ||| e.0 == Delim::Head && e.1.len() == 3 && e.1[1] == head && e.1[2] == close
    ||| e.1.len() >= 5
}

/// What the entries of the tables of whole delimiters are.
proof fn lemma_entries(r: VariantsView, close: u32, call: u32, end: u32, trap: u32, head: u32)
    requires
        cml_bracket_shape(r, close, call, end, trap, head),
    ensures
        forall|j: int|
            0 <= j < cml_grammar_of(r).full.len() ==> named_entry(
                #[trigger] cml_grammar_of(r).full[j],
                close,
                call,
                end,
                trap,
                head,
            ),
        forall|j: int|
            0 <= j < cml_grammar_of(r).block.len() ==> named_entry(
                #[trigger] cml_grammar_of(r).block[j],
                close,
                call,
                end,
                trap,
                head,
            ),
{
    let g = cml_grammar_of(r);
    let a = r.call.len() as int;
    let c = a + r.end.len() + r.trap_end.len();
    let d = c + r.trap.len();
    assert forall|j: int| 0 <= j < g.full.len() implies named_entry(
        #[trigger] g.full[j],
        close,
        call,
        end,
        trap,
        head,
    ) by {
        let b = a + r.trap_end.len();
        if j < a {
            assert(g.full[j].1 == r.call[j]);
        } else if j < b {
            assert(g.full[j].1 == r.trap_end[j - a]);
        } else if j < c {
            assert(g.full[j].1 == r.end[j - b]);
        } else if j < d {
            assert(g.full[j].1 == r.trap[j - c]);
        } else {
            assert(g.full[j].1 == r.head[j - d]);
        }
    }
    assert forall|j: int| 0 <= j < g.block.len() implies named_entry(
        #[trigger] g.block[j],
        close,
        call,
        end,
        trap,
        head,
    ) by {
        let b = a + r.end.len();
        if j < a {
            assert(g.block[j].1 == r.call[j]);
        } else if j < b {
            assert(g.block[j].1 == r.end[j - a]);
        } else if j < c {
            assert(g.block[j].1 == r.trap_end[j - b]);
        } else if j < d {
            assert(g.block[j].1 == r.trap[j - c]);
        } else {
            assert(g.block[j].1 == r.head[j - d]);
        }
    }
}

/// No entry of three tokens or more ends a shorter buffer, and a spelling of three tokens is
/// ended only by those of its own name.
proof fn lemma_table_reads(
    table: Table,
    close: u32,
    call: u32,
    end: u32,
    trap: u32,
    head: u32,
    at: int,
)
    requires
        0 <= at < table.len(),
        table[at].1.len() == 3,
        forall|j: int|
            0 <= j < table.len() ==> named_entry(
                #[trigger] table[j],
                close,
                call,
                end,
                trap,
                head,
            ),
        call != end && call != trap && call != head && end != trap && end != head && trap != head,
    ensures
        first_ending(Seq::empty(), table, table[at].1) == (table[at].0, 3nat),
        forall|k: int|
            0 < k < 3 ==> first_ending(Seq::empty(), table, #[trigger] table[at].1.take(k))
                == (Delim::Nothing, 0nat),
{
    let none = Seq::<u32>::empty();
    let pat = table[at].1;
    assert forall|k: int| 0 < k < 3 implies first_ending(none, table, #[trigger] pat.take(k)) == (
        Delim::Nothing,
        0nat,
    ) by {
        lemma_first_nothing(table, pat.take(k));
    }
    assert(ends_in(none, pat, pat));
    assert forall|j: int|
        0 <= j < table.len() && ends_in(none, pat, (#[trigger] table[j]).1) implies table[j].0
        == table[at].0 && table[j].1.len() == 3 by {
        lemma_ending_tokens(pat, table[j].1);
        assert(table[j].1[1] == pat[1]);
    }
    lemma_first_agrees(table, pat, at, table[at].0, 3);
}

/// A spelling of three tokens is taken for its delimiter at its last token and for nothing
/// before.
proof fn lemma_spelling_reads(
    r: VariantsView,
    close: u32,
    call: u32,
    end: u32,
    trap: u32,
    head: u32,
    at: int,
    block_at: int,
)
    requires
        cml_bracket_shape(r, close, call, end, trap, head),
        0 <= at < cml_grammar_of(r).full.len(),
        0 <= block_at < cml_grammar_of(r).block.len(),
        cml_grammar_of(r).block[block_at] == cml_grammar_of(r).full[at],
        cml_grammar_of(r).full[at].1.len() == 3,
    ensures
        ({
            let g = cml_grammar_of(r);
            &&& cml_reads_in_text(g, g.full[at].1, g.full[at].0)
            &&& cml_reads_in_block(g, g.full[at].1, g.full[at].0)
        }),
{
    let g = cml_grammar_of(r);
    let none = Seq::<u32>::empty();
    let pat = g.full[at].1;
    lemma_entries(r, close, call, end, trap, head);
    lemma_table_reads(g.full, close, call, end, trap, head, at);
    lemma_table_reads(g.block, close, call, end, trap, head, block_at);
    assert(named_entry(g.full[at], close, call, end, trap, head));
    assert forall|k: int| 0 < k < 3 implies g.full_match(#[trigger] pat.take(k)).0 == Delim::Nothing
        && g.block_match(pat.take(k)).0 == Delim::Nothing && g.grows_full(pat.take(k)) by {
        let buf = pat.take(k);
        assert(buf == g.block[block_at].1.take(k));
        assert forall|j: int| 0 <= j < g.inner.len() implies !ends_in(
            none,
            buf,
            (#[trigger] g.inner[j]).1,
        ) by {
            let p = g.inner[j].1;
            lemma_inner_entry(r, close, call, end, trap, head, j);
            if ends_in(none, buf, p) {
                lemma_ending_tokens(buf, p);
                assert(p[1] == buf[1]);
                assert(buf[1] == pat[1]);
            }
        }
        lemma_first_nothing(g.inner, buf);
        assert(starts(none, buf, g.full[at].1));
    }
}

/// What an entry of the table of delimiters without their bracket is.
proof fn lemma_inner_entry(
    r: VariantsView,
    close: u32,
    call: u32,
    end: u32,
    trap: u32,
    head: u32,
    j: int,
)
    requires
        cml_bracket_shape(r, close, call, end, trap, head),
        0 <= j < cml_grammar_of(r).inner.len(),
    ensures
        cml_grammar_of(r).inner[j].1.len() == 2,
        cml_grammar_of(r).inner[j].1[1] == close,
{
    assert(r.call[0].drop_first().len() == 2);
    assert(r.end[0].drop_first().len() == 2);
    assert(r.trap[0].drop_first().len() == 2);
    assert(r.head[0].drop_first().len() == 2);
}

/// In the shape of brackets around names, every spelling of every delimiter is told apart
/// from the others.
pub proof fn bracketed_spellings_are_told_apart(
    r: VariantsView,
    close: u32,
    call: u32,
    end: u32,
    trap: u32,
    head: u32,
    i: int,
)
    requires
        cml_bracket_shape(r, close, call, end, trap, head),
    ensures
        ({
            let g = cml_grammar_of(r);
            &&& 0 <= i < r.call.len() ==> cml_reads_in_text(g, r.call[i], Delim::Call)
            &&& 0 <= i < r.call.len() ==> cml_reads_in_block(g, r.call[i], Delim::Call)
            &&& 0 <= i < r.trap.len() ==> cml_reads_in_text(g, r.trap[i], Delim::Trap)
            &&& 0 <= i < r.head.len() ==> cml_reads_in_block(g, r.head[i], Delim::Head)
            &&& 0 <= i < r.end.len() ==> cml_reads_in_block(g, r.end[i], Delim::End)
        }),
{
    let g = cml_grammar_of(r);
    let a = r.call.len() as int;
    let b = a + r.trap_end.len();
    let c = b + r.end.len();
    let d = c + r.trap.len();
    if 0 <= i < r.call.len() {
        assert(g.full[i] == (Delim::Call, r.call[i]));
        assert(g.block[i] == g.full[i]);
        lemma_spelling_reads(r, close, call, end, trap, head, i, i);
    }
    if 0 <= i < r.end.len() {
        assert(g.full[b + i] == (Delim::End, r.end[i]));
        assert(g.block[a + i] == g.full[b + i]);
        lemma_spelling_reads(r, close, call, end, trap, head, b + i, a + i);
    }
    if 0 <= i < r.trap.len() {
        assert(g.full[c + i] == (Delim::Trap, r.trap[i]));
        assert(g.block[c + i] == g.full[c + i]);
        lemma_spelling_reads(r, close, call, end, trap, head, c + i, c + i);
    }
    if 0 <= i < r.head.len() {
        assert(g.full[d + i] == (Delim::Head, r.head[i]));
        assert(g.block[d + i] == g.full[d + i]);
        lemma_spelling_reads(r, close, call, end, trap, head, d + i, d + i);
    }
}

/// A new parser for delimiters in the shape of brackets around names reads
/// `[CALL] id [HEAD] body [END]` as exactly that call, whichever spelling each of the three
/// delimiters has.
pub proof fn cml_parser_reads_a_call(
    codec: TokenCodec,
    r: VariantsView,
    close: u32,
    call: u32,
    end: u32,
    trap: u32,
    head: u32,
    i: int,
    j: int,
    k: int,
    id: Seq<u32>,
    body: Seq<u32>,
)
    requires
        cml_bracket_shape(r, close, call, end, trap, head),
        0 <= i < r.call.len(),
        0 <= j < r.head.len(),
        0 <= k < r.end.len(),
        cml_all_plain(cml_grammar_of(r), id),
        cml_all_plain(cml_grammar_of(r), body),
    ensures
        ({
            let g = cml_grammar_of(r);
            cml_run(g, codec, initial_cml(), r.call[i] + id + r.head[j] + body + r.end[k]) == (
                initial_cml(),
                seq![
                    Signal::Enter,
                    Signal::Call {
                        id: trimmed(codec.text(g.collected(codec, id))),
                        code: trimmed(codec.text(g.collected(codec, body))),
                    },
                    Signal::Exit,
                ],
            )
        }),
{
    let g = cml_grammar_of(r);
    bracketed_spellings_are_told_apart(r, close, call, end, trap, head, i);
    bracketed_spellings_are_told_apart(r, close, call, end, trap, head, j);
    bracketed_spellings_are_told_apart(r, close, call, end, trap, head, k);
    cml_call_block_gives_its_call(
        g,
        codec,
        initial_cml(),
        r.call[i],
        id,
        r.head[j],
        body,
        r.end[k],
    );
}

/// Every delimiter has one spelling, of one token, and the four that open, divide or close a
/// block differ.
pub open spec fn sentinel_shape(r: VariantsView) -> bool {
    &&& r.call.len() == 1 && r.call[0].len() == 1
    &&& r.end.len() == 1 && r.end[0].len() == 1
    &&& r.trap.len() == 1 && r.trap[0].len() == 1
    &&& r.head.len() == 1 && r.head[0].len() == 1
    &&& r.call[0][0] != r.end[0][0] && r.call[0][0] != r.trap[0][0] && r.call[0][0] != r.head[0][0]
    &&& r.end[0][0] != r.trap[0][0] && r.end[0][0] != r.head[0][0] && r.trap[0][0] != r.head[0][0]
    &&& r.trap_end.len() == 0
    &&& !r.bracketed
}

proof fn lemma_sentinel_reads(r: VariantsView, at: int)
    requires
        sentinel_shape(r),
        0 <= at < 4,
    ensures
        ({
            let g = cml_grammar_of(r);
            &&& g.full.len() == 4
            &&& cml_reads_in_text(g, g.full[at].1, g.full[at].0)
            &&& cml_reads_in_block(g, g.full[at].1, g.full[at].0)
        }),
{
    let g = cml_grammar_of(r);
    let none = Seq::<u32>::empty();
    assert(g.full[0] == (Delim::Call, r.call[0]));
    assert(g.full[1] == (Delim::End, r.end[0]));
    assert(g.full[2] == (Delim::Trap, r.trap[0]));
    assert(g.full[3] == (Delim::Head, r.head[0]));
    assert(g.block =~= g.full);
    let pat = g.full[at].1;
    assert(ends_in(none, pat, g.full[at].1));
    assert forall|j: int|
        0 <= j < g.full.len() && ends_in(none, pat, (#[trigger] g.full[j]).1) implies g.full[j].0
        == g.full[at].0 && g.full[j].1.len() == 1 by {
        lemma_ending_tokens(pat, g.full[j].1);
        assert(g.full[j].1[0] == pat[0]);
    }
    lemma_first_agrees(g.full, pat, at, g.full[at].0, 1);
}

/// A new parser for delimiters that are single tokens reads `<|call|> id <|head|> body
/// <|end|>` as exactly that call and `<|trap|><|end|>` as exactly one trap.
pub proof fn sentinel_parser_reads_blocks(
    codec: TokenCodec,
    r: VariantsView,
    id: Seq<u32>,
    body: Seq<u32>,
)
    requires
        sentinel_shape(r),
        cml_all_plain(cml_grammar_of(r), id),
        cml_all_plain(cml_grammar_of(r), body),
    ensures
        ({
            let g = cml_grammar_of(r);
            &&& cml_run(g, codec, initial_cml(), r.call[0] + id + r.head[0] + body + r.end[0]) == (
                initial_cml(),
                seq![
                    Signal::Enter,
                    Signal::Call {
                        id: trimmed(codec.text(id)),
                        code: trimmed(codec.text(body)),
                    },
                    Signal::Exit,
                ],
            )
            &&& cml_run(g, codec, initial_cml(), r.trap[0] + r.end[0]) == (
                initial_cml(),
                seq![Signal::Enter, Signal::Trap, Signal::Exit],
            )
        }),
{
    let g = cml_grammar_of(r);
    let none = Seq::<u32>::empty();
    assert(g.full[0] == (Delim::Call, r.call[0]));
    assert(g.full[1] == (Delim::End, r.end[0]));
    assert(g.full[2] == (Delim::Trap, r.trap[0]));
    assert(g.full[3] == (Delim::Head, r.head[0]));
    lemma_sentinel_reads(r, 0);
    lemma_sentinel_reads(r, 1);
    lemma_sentinel_reads(r, 2);
    lemma_sentinel_reads(r, 3);
    cml_call_block_gives_its_call(
        g,
        codec,
        initial_cml(),
        r.call[0],
        id,
        r.head[0],
        body,
        r.end[0],
    );
    cml_trap_block_gives_its_trap(g, codec, initial_cml(), r.trap[0], none, r.end[0]);
    assert(r.trap[0] + none + r.end[0] =~= r.trap[0] + r.end[0]);
}

} // verus!
