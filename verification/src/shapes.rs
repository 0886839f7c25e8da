//! Shapes of delimiters that the parser can tell apart.

use vstd::prelude::*;

use crate::codec::TokenCodec;
use crate::laws::{
    all_plain, call_block_gives_its_call, never_reasons, observe_run, plain, reads_in_block,
    reads_in_text, trap_block_gives_its_trap, without_reasoning_the_machine_decides,
};
use crate::machine::{feed_run, stripped, Grammar, Signal, Think};
use crate::parser::{grammar_of, machine_of, plain_grammar_of};
use crate::pattern::{ends_in, first_ending, stands_for, starts, Delim, Table};
use crate::registry::RegistryView;
use crate::step_laws::boundaries_of_reasoning;
use crate::text::trimmed;

verus! {

proof fn lemma_first_is(alts: Seq<u32>, table: Table, buf: Seq<u32>, i: int)
    requires
        0 <= i < table.len(),
        ends_in(alts, buf, table[i].1),
        forall|j: int| 0 <= j < i ==> !ends_in(alts, buf, #[trigger] table[j].1),
    ensures
        first_ending(alts, table, buf) == (table[i].0, table[i].1.len()),
    decreases table.len(),
{
    if i > 0 {
        let rest = table.drop_first();
        assert(!ends_in(alts, buf, table[0].1));
        assert forall|j: int| 0 <= j < i - 1 implies !ends_in(alts, buf, #[trigger] rest[j].1) by {
            assert(rest[j] == table[j + 1]);
        }
        assert(rest[i - 1] == table[i]);
        lemma_first_is(alts, rest, buf, i - 1);
    }
}

proof fn lemma_first_none(alts: Seq<u32>, table: Table, buf: Seq<u32>)
    requires
        forall|j: int| 0 <= j < table.len() ==> !ends_in(alts, buf, #[trigger] table[j].1),
    ensures
        first_ending(alts, table, buf) == (Delim::Nothing, 0nat),
    decreases table.len(),
{
    if table.len() > 0 {
        let rest = table.drop_first();
        assert(!ends_in(alts, buf, table[0].1));
        assert forall|j: int| 0 <= j < rest.len() implies !ends_in(alts, buf, #[trigger] rest[j].1) by {
            assert(rest[j] == table[j + 1]);
        }
        lemma_first_none(alts, rest, buf);
    }
}

/// The delimiters are brackets around names: `open`, a name and `close`, with names that
/// differ from one another and from the brackets. `close` alone may have tokens that stand
/// for it.
pub open spec fn bracket_shape(r: RegistryView, open: u32, close: u32) -> bool {
    let names = seq![r.call[1], r.end[1], r.head[1], r.trap[1], r.intr[1]];
    &&& r.call == seq![open, r.call[1], close]
    &&& r.end == seq![open, r.end[1], close]
    &&& r.head == seq![open, r.head[1], close]
    &&& r.trap == seq![open, r.trap[1], close]
    &&& r.intr == seq![open, r.intr[1], close]
    &&& names.no_duplicates()
    &&& !names.contains(open)
    &&& !names.contains(close)
    &&& open != close
    &&& !r.alts.contains(open)
    &&& forall|i: int| 0 <= i < names.len() ==> !r.alts.contains(#[trigger] names[i])
    &&& forall|i: int| 0 <= i < r.trap_end.len() ==> (#[trigger] r.trap_end[i]).len() >= 5
}

/// The facts about a bracket shape that matching goes by.
proof fn lemma_bracket_names(r: RegistryView, open: u32, close: u32)
    requires
        bracket_shape(r, open, close),
    ensures
        r.call[1] != r.end[1] && r.call[1] != r.head[1] && r.call[1] != r.trap[1] && r.call[1]
            != r.intr[1],
        r.end[1] != r.head[1] && r.end[1] != r.trap[1] && r.end[1] != r.intr[1],
        r.head[1] != r.trap[1] && r.head[1] != r.intr[1] && r.trap[1] != r.intr[1],
        r.call[1] != close && r.end[1] != close && r.head[1] != close && r.trap[1] != close
            && r.intr[1] != close,
        r.call[1] != open && r.end[1] != open && r.head[1] != open && r.trap[1] != open && r.intr[1]
            != open,
        !r.alts.contains(r.call[1]) && !r.alts.contains(r.end[1]) && !r.alts.contains(r.head[1])
            && !r.alts.contains(r.trap[1]) && !r.alts.contains(r.intr[1]),
{
    let names = seq![r.call[1], r.end[1], r.head[1], r.trap[1], r.intr[1]];
    assert(names[0] == r.call[1] && names[1] == r.end[1] && names[2] == r.head[1] && names[3]
        == r.trap[1] && names[4] == r.intr[1]);
    assert(names.contains(names[0]) && names.contains(names[1]) && names.contains(names[2])
        && names.contains(names[3]) && names.contains(names[4]));
}

/// A buffer of at most three tokens that does not end with `name` and `close` does not end
/// with the delimiter of that name.
proof fn lemma_not_ending(alts: Seq<u32>, buf: Seq<u32>, pat: Seq<u32>)
    requires
        pat.len() >= 2,
        buf.len() < pat.len() || !stands_for(alts, buf[buf.len() - 2], pat[pat.len() - 2])
            || !stands_for(alts, buf[buf.len() - 1], pat[pat.len() - 1]),
    ensures
        !ends_in(alts, buf, pat),
{
    if ends_in(alts, buf, pat) {
        let i = pat.len() - 2;
        assert(stands_for(alts, buf[buf.len() - pat.len() + i], pat[i]));
        let j = pat.len() - 1;
        assert(stands_for(alts, buf[buf.len() - pat.len() + j], pat[j]));
    }
}

/// A sequence ends with itself.
proof fn lemma_ends_in_itself(alts: Seq<u32>, pat: Seq<u32>)
    requires
        pat.len() > 0,
    ensures
        ends_in(alts, pat, pat),
        forall|k: int| 0 < k <= pat.len() ==> starts(alts, #[trigger] pat.take(k), pat),
{
}

/// Which delimiter, of those with the names `names`, a buffer of one to three tokens ends
/// with, where it is the start of `open name close`.
proof fn lemma_bracket_full(r: RegistryView, open: u32, close: u32, g: Grammar, pat: Seq<u32>)
    requires
        bracket_shape(r, open, close),
        g == grammar_of(r),
        pat == r.call || pat == r.end || pat == r.head || pat == r.trap || pat == r.intr,
    ensures
        first_ending(g.alts, g.full, pat.take(1)).0 == Delim::Nothing,
        first_ending(g.alts, g.full, pat.take(2)).0 == Delim::Nothing,
        first_ending(g.alts, g.inner, pat.take(1)).0 == Delim::Nothing,
        first_ending(g.alts, g.inner, pat.take(2)).0 == Delim::Nothing,
        first_ending(g.alts, g.normal, pat.take(1)).0 == Delim::Nothing,
        first_ending(g.alts, g.normal, pat.take(2)).0 == Delim::Nothing,
        g.may_grow(pat.take(1)),
        g.may_grow(pat.take(2)),
        pat == r.call ==> first_ending(g.alts, g.full, pat) == (Delim::Call, 3nat),
        pat == r.end ==> first_ending(g.alts, g.full, pat) == (Delim::End, 3nat),
        pat == r.head ==> first_ending(g.alts, g.full, pat) == (Delim::Head, 3nat),
        pat == r.trap ==> first_ending(g.alts, g.full, pat) == (Delim::Trap, 3nat),
        pat == r.intr ==> first_ending(g.alts, g.full, pat) == (Delim::Intr, 3nat),
{
    lemma_bracket_names(r, open, close);
    let n = r.trap_end.len() as int;
    let name = pat[1];
    assert(pat.len() == 3 && pat[0] == open && pat[2] == close);
    lemma_bracket_tables(r, open, close, g);
    // One and two tokens.
    assert forall|k: int| 1 <= k <= 2 implies first_ending(g.alts, g.full, #[trigger] pat.take(k)).0
        == Delim::Nothing && first_ending(g.alts, g.inner, pat.take(k)).0 == Delim::Nothing
        && first_ending(g.alts, g.normal, pat.take(k)).0 == Delim::Nothing by {
        let buf = pat.take(k);
        assert forall|j: int| 0 <= j < g.full.len() implies !ends_in(
            g.alts,
            buf,
            #[trigger] g.full[j].1,
        ) by {
            lemma_not_ending(g.alts, buf, g.full[j].1);
        }
        assert(k == 2 ==> buf[buf.len() - 1] == name);
        assert forall|j: int| 0 <= j < g.inner.len() implies !ends_in(
            g.alts,
            buf,
            #[trigger] g.inner[j].1,
        ) by {
            lemma_not_ending(g.alts, buf, g.inner[j].1);
        }
        assert forall|j: int| 0 <= j < g.normal.len() implies !ends_in(
            g.alts,
            buf,
            #[trigger] g.normal[j].1,
        ) by {
            lemma_not_ending(g.alts, buf, g.normal[j].1);
        }
        lemma_first_none(g.alts, g.full, buf);
        lemma_first_none(g.alts, g.inner, buf);
        lemma_first_none(g.alts, g.normal, buf);
    }
    // The whole.
    let at: int = if pat == r.call {
        0
    } else if pat == r.end {
        1
    } else if pat == r.trap {
        n + 2
    } else if pat == r.intr {
        n + 3
    } else {
        n + 4
    };
    assert(g.full[at].1 == pat);
    lemma_ends_in_itself(g.alts, pat);
    assert forall|j: int| 0 <= j < at implies !ends_in(g.alts, pat, #[trigger] g.full[j].1) by {
        if 2 <= j < n + 2 {
        } else {
            assert(g.full[j].1.len() == 3 && g.full[j].1[1] != name);
        }
        lemma_not_ending(g.alts, pat, g.full[j].1);
    }
    lemma_first_is(g.alts, g.full, pat, at);
    assert(starts(g.alts, pat.take(1), g.full[at].1));
    assert(starts(g.alts, pat.take(2), g.full[at].1));
}

/// What the tables of a bracket shape hold.
proof fn lemma_bracket_tables(r: RegistryView, open: u32, close: u32, g: Grammar)
    requires
        bracket_shape(r, open, close),
        g == grammar_of(r),
    ensures
        g.alts == r.alts,
        g.full.len() == r.trap_end.len() + 5,
        g.full[0] == (Delim::Call, r.call),
        g.full[1] == (Delim::End, r.end),
        g.full[r.trap_end.len() as int + 2] == (Delim::Trap, r.trap),
        g.full[r.trap_end.len() as int + 3] == (Delim::Intr, r.intr),
        g.full[r.trap_end.len() as int + 4] == (Delim::Head, r.head),
        forall|j: int|
            2 <= j < r.trap_end.len() + 2 ==> (#[trigger] g.full[j]).0 == Delim::TrapEnd
                && g.full[j].1.len() >= 5,
        forall|j: int| 0 <= j < g.full.len() ==> (#[trigger] g.full[j]).1.len() >= 3,
        g.inner.len() == 5,
        g.inner[0] == (Delim::Call, seq![r.call[1], close]),
        g.inner[1] == (Delim::End, seq![r.end[1], close]),
        g.inner[2] == (Delim::Trap, seq![r.trap[1], close]),
        g.inner[3] == (Delim::Intr, seq![r.intr[1], close]),
        g.inner[4] == (Delim::Head, seq![r.head[1], close]),
        g.normal.len() == r.trap_end.len() + 2,
        g.normal[r.trap_end.len() as int] == (Delim::Call, seq![r.call[1], close]),
        g.normal[r.trap_end.len() as int + 1] == (Delim::Trap, seq![r.trap[1], close]),
        forall|j: int|
            0 <= j < r.trap_end.len() ==> (#[trigger] g.normal[j]).1.len() >= 4,
        forall|j: int|
            0 <= j < g.normal.len() ==> (#[trigger] g.normal[j]).1.len() >= 2,
        forall|j: int|
            r.trap_end.len() <= j < g.normal.len() ==> (#[trigger] g.normal[j]).1[1] == close,
{
    assert(r.call.drop_first() =~= seq![r.call[1], close]);
    assert(r.end.drop_first() =~= seq![r.end[1], close]);
    assert(r.trap.drop_first() =~= seq![r.trap[1], close]);
    assert(r.intr.drop_first() =~= seq![r.intr[1], close]);
    assert(r.head.drop_first() =~= seq![r.head[1], close]);
    assert(r.call.len() == 3 && r.end.len() == 3 && r.trap.len() == 3 && r.intr.len() == 3
        && r.head.len() == 3);
    assert forall|j: int| 2 <= j < r.trap_end.len() + 2 implies (#[trigger] g.full[j]).0
        == Delim::TrapEnd && g.full[j].1.len() >= 5 by {
        assert(g.full[j].1 == r.trap_end[j - 2]);
    }
    assert forall|j: int| 0 <= j < r.trap_end.len() implies (#[trigger] g.normal[j]).1.len()
        >= 4 by {
        assert(g.normal[j].1 == r.trap_end[j].drop_first());
    }
}

/// A delimiter without its bracket, fed on its own.
proof fn lemma_bracket_inner(r: RegistryView, open: u32, close: u32, g: Grammar, pat: Seq<u32>)
    requires
        bracket_shape(r, open, close),
        g == grammar_of(r),
        pat == r.call || pat == r.end || pat == r.head || pat == r.trap || pat == r.intr,
    ensures
        ({
            let rest = pat.drop_first();
            &&& rest.len() == 2
            &&& first_ending(g.alts, g.full, rest.take(1)).0 == Delim::Nothing
            &&& first_ending(g.alts, g.inner, rest.take(1)).0 == Delim::Nothing
            &&& first_ending(g.alts, g.normal, rest.take(1)).0 == Delim::Nothing
            &&& g.may_grow(rest.take(1))
            &&& first_ending(g.alts, g.full, rest).0 == Delim::Nothing
            &&& pat == r.call ==> first_ending(g.alts, g.normal, rest) == (Delim::Call, 2nat)
            &&& pat == r.trap ==> first_ending(g.alts, g.normal, rest) == (Delim::Trap, 2nat)
            &&& pat == r.end ==> first_ending(g.alts, g.inner, rest) == (Delim::End, 2nat)
            &&& pat == r.head ==> first_ending(g.alts, g.inner, rest) == (Delim::Head, 2nat)
        }),
{
    lemma_bracket_names(r, open, close);
    lemma_bracket_tables(r, open, close, g);
    let n = r.trap_end.len() as int;
    let rest = pat.drop_first();
    let name = pat[1];
    assert(rest =~= seq![name, close]);
    let one = rest.take(1);
    assert forall|j: int| 0 <= j < g.full.len() implies !ends_in(g.alts, one, #[trigger] g.full[j].1)
        && !ends_in(g.alts, rest, g.full[j].1) by {
        lemma_not_ending(g.alts, one, g.full[j].1);
        lemma_not_ending(g.alts, rest, g.full[j].1);
    }
    assert forall|j: int| 0 <= j < g.inner.len() implies !ends_in(
        g.alts,
        one,
        #[trigger] g.inner[j].1,
    ) by {
        lemma_not_ending(g.alts, one, g.inner[j].1);
    }
    assert forall|j: int| 0 <= j < g.normal.len() implies !ends_in(
        g.alts,
        one,
        #[trigger] g.normal[j].1,
    ) by {
        lemma_not_ending(g.alts, one, g.normal[j].1);
    }
    lemma_first_none(g.alts, g.full, one);
    lemma_first_none(g.alts, g.inner, one);
    lemma_first_none(g.alts, g.normal, one);
    lemma_first_none(g.alts, g.full, rest);
    lemma_ends_in_itself(g.alts, rest);
    let at: int = if pat == r.call {
        0
    } else if pat == r.end {
        1
    } else if pat == r.trap {
        2
    } else if pat == r.intr {
        3
    } else {
        4
    };
    assert(g.inner[at].1 =~= rest);
    assert(starts(g.alts, one, g.inner[at].1));
    assert forall|j: int| 0 <= j < at implies !ends_in(g.alts, rest, #[trigger] g.inner[j].1) by {
        assert(g.inner[j].1[0] != name);
        lemma_not_ending(g.alts, rest, g.inner[j].1);
    }
    lemma_first_is(g.alts, g.inner, rest, at);
    if pat == r.call || pat == r.trap {
        let k: int = if pat == r.call {
            n
        } else {
            n + 1
        };
        assert(g.normal[k].1 =~= rest);
        assert forall|j: int| 0 <= j < k implies !ends_in(g.alts, rest, #[trigger] g.normal[j].1) by {
            if j >= n {
                assert(g.normal[j].1[0] != name);
            }
            lemma_not_ending(g.alts, rest, g.normal[j].1);
        }
        lemma_first_is(g.alts, g.normal, rest, k);
    }
}

/// Delimiters in the shape of brackets around names are told apart: each, whole or without
/// its bracket, is taken for itself at its last token and for nothing before. `[INTR]` alone
/// needs its bracket.
pub proof fn bracketed_delimiters_are_told_apart(r: RegistryView, open: u32, close: u32)
    requires
        bracket_shape(r, open, close),
    ensures
        ({
            let g = grammar_of(r);
            &&& reads_in_text(g, r.call, Delim::Call)
            &&& reads_in_text(g, r.trap, Delim::Trap)
            &&& reads_in_text(g, r.intr, Delim::Intr)
            &&& reads_in_block(g, r.head, Delim::Head)
            &&& reads_in_block(g, r.end, Delim::End)
            &&& reads_in_text(g, r.call.drop_first(), Delim::Call)
            &&& reads_in_text(g, r.trap.drop_first(), Delim::Trap)
            &&& reads_in_block(g, r.head.drop_first(), Delim::Head)
            &&& reads_in_block(g, r.end.drop_first(), Delim::End)
        }),
{
    let g = grammar_of(r);
    lemma_bracket_full(r, open, close, g, r.call);
    lemma_bracket_full(r, open, close, g, r.trap);
    lemma_bracket_full(r, open, close, g, r.intr);
    lemma_bracket_full(r, open, close, g, r.head);
    lemma_bracket_full(r, open, close, g, r.end);
    lemma_bracket_inner(r, open, close, g, r.call);
    lemma_bracket_inner(r, open, close, g, r.trap);
    lemma_bracket_inner(r, open, close, g, r.head);
    lemma_bracket_inner(r, open, close, g, r.end);
    assert(r.call.len() == 3 && r.trap.len() == 3 && r.intr.len() == 3 && r.head.len() == 3
        && r.end.len() == 3);
}

/// Every delimiter is one token of its own, and nothing else stands for any of them.
pub open spec fn single_shape(r: RegistryView) -> bool {
    let all = seq![r.call[0], r.end[0], r.head[0], r.trap[0], r.intr[0]];
    &&& r.call.len() == 1
    &&& r.end.len() == 1
    &&& r.head.len() == 1
    &&& r.trap.len() == 1
    &&& r.intr.len() == 1
    &&& all.no_duplicates()
    &&& forall|i: int| 0 <= i < all.len() ==> !r.alts.contains(#[trigger] all[i])
    &&& forall|i: int|
        0 <= i < r.trap_end.len() ==> (#[trigger] r.trap_end[i]).len() >= 2 || (
        r.trap_end[i].len() == 1 && !all.contains(r.trap_end[i][0]))
}

/// A single token does not end with another pattern of one token, nor with one of more.
proof fn lemma_single_apart(alts: Seq<u32>, t: u32, pat: Seq<u32>)
    requires
        !alts.contains(t),
        pat.len() != 1 || pat[0] != t,
    ensures
        !ends_in(alts, seq![t], pat),
{
    if ends_in(alts, seq![t], pat) {
        let buf = seq![t];
        assert(buf[buf.len() - pat.len() + 0] == t);
        assert(stands_for(alts, buf[buf.len() - pat.len() + 0], pat[0]));
    }
}

proof fn lemma_single_read(r: RegistryView, g: Grammar, pat: Seq<u32>)
    requires
        single_shape(r),
        g == grammar_of(r),
        pat == r.call || pat == r.end || pat == r.head || pat == r.trap || pat == r.intr,
    ensures
        pat == r.call ==> first_ending(g.alts, g.full, pat) == (Delim::Call, 1nat),
        pat == r.end ==> first_ending(g.alts, g.full, pat) == (Delim::End, 1nat),
        pat == r.head ==> first_ending(g.alts, g.full, pat) == (Delim::Head, 1nat),
        pat == r.trap ==> first_ending(g.alts, g.full, pat) == (Delim::Trap, 1nat),
        pat == r.intr ==> first_ending(g.alts, g.full, pat) == (Delim::Intr, 1nat),
{
    let all = seq![r.call[0], r.end[0], r.head[0], r.trap[0], r.intr[0]];
    assert(all[0] == r.call[0] && all[1] == r.end[0] && all[2] == r.head[0] && all[3] == r.trap[0]
        && all[4] == r.intr[0]);
    assert(all.contains(all[0]) && all.contains(all[1]) && all.contains(all[2]) && all.contains(
        all[3],
    ) && all.contains(all[4]));
    let n = r.trap_end.len() as int;
    let t = pat[0];
    assert(pat =~= seq![t]);
    let at: int = if pat == r.call {
        0
    } else if pat == r.end {
        1
    } else if pat == r.trap {
        n + 2
    } else if pat == r.intr {
        n + 3
    } else {
        n + 4
    };
    assert(g.full[at].1 == pat);
    lemma_ends_in_itself(g.alts, pat);
    assert forall|j: int| 0 <= j < at implies !ends_in(g.alts, pat, #[trigger] g.full[j].1) by {
        if 2 <= j < n + 2 {
            assert(g.full[j].1 == r.trap_end[j - 2]);
        }
        lemma_single_apart(g.alts, t, g.full[j].1);
    }
    lemma_first_is(g.alts, g.full, pat, at);
}

/// Delimiters that are single tokens of their own are told apart.
pub proof fn single_delimiters_are_told_apart(r: RegistryView)
    requires
        single_shape(r),
    ensures
        ({
            let g = grammar_of(r);
            &&& reads_in_text(g, r.call, Delim::Call)
            &&& reads_in_text(g, r.trap, Delim::Trap)
            &&& reads_in_text(g, r.intr, Delim::Intr)
            &&& reads_in_block(g, r.head, Delim::Head)
            &&& reads_in_block(g, r.end, Delim::End)
        }),
{
    let g = grammar_of(r);
    lemma_single_read(r, g, r.call);
    lemma_single_read(r, g, r.trap);
    lemma_single_read(r, g, r.intr);
    lemma_single_read(r, g, r.head);
    lemma_single_read(r, g, r.end);
}

/// A table without an entry that does not match gives the same match.
proof fn lemma_first_without(alts: Seq<u32>, table: Table, buf: Seq<u32>, i: int)
    requires
        0 <= i < table.len(),
        !ends_in(alts, buf, table[i].1),
    ensures
        first_ending(alts, table.remove(i), buf) == first_ending(alts, table, buf),
    decreases table.len(),
{
    let less = table.remove(i);
    if i == 0 {
        assert(less =~= table.drop_first());
    } else {
        assert(less[0] == table[0]);
        assert(less.drop_first() =~= table.drop_first().remove(i - 1));
        assert(table.drop_first()[i - 1] == table[i]);
        lemma_first_without(alts, table.drop_first(), buf, i - 1);
    }
}

/// Without interrupts the tables are those with them, less the entries for `[INTR]`.
proof fn lemma_plain_tables(r: RegistryView)
    requires
        r.alts.len() == 0,
    ensures
        ({
            let g = grammar_of(r);
            let p = plain_grammar_of(r);
            let n = r.trap_end.len() as int;
            &&& p.full == g.full.remove(n + 3)
            &&& p.inner == g.inner.remove(3)
            &&& p.normal == g.normal
            &&& p.alts == g.alts
            &&& g.full[n + 3] == (Delim::Intr, r.intr)
            &&& g.inner[3] == (Delim::Intr, r.intr.drop_first())
        }),
{
    let g = grammar_of(r);
    let p = plain_grammar_of(r);
    let n = r.trap_end.len() as int;
    assert(p.full =~= g.full.remove(n + 3));
    assert(p.inner =~= g.inner.remove(3));
    assert(p.normal =~= g.normal);
    assert(p.alts =~= g.alts);
}

/// A buffer that does not end with `[INTR]`, whole or without its bracket, matches the same
/// with and without interrupts.
proof fn lemma_plain_matches(r: RegistryView, buf: Seq<u32>)
    requires
        r.alts.len() == 0,
        !ends_in(r.alts, buf, r.intr),
        !ends_in(r.alts, buf, r.intr.drop_first()),
    ensures
        plain_grammar_of(r).normal_match(buf) == grammar_of(r).normal_match(buf),
        plain_grammar_of(r).block_match(buf) == grammar_of(r).block_match(buf),
{
    lemma_plain_tables(r);
    let g = grammar_of(r);
    let n = r.trap_end.len() as int;
    lemma_first_without(g.alts, g.full, buf, n + 3);
    lemma_first_without(g.alts, g.inner, buf, 3);
}

proof fn lemma_plain_reads(r: RegistryView, open: u32, close: u32, pat: Seq<u32>, whole: Seq<u32>, d: Delim)
    requires
        bracket_shape(r, open, close),
        r.alts.len() == 0,
        whole == r.call || whole == r.end || whole == r.head || whole == r.trap,
        pat == whole || pat == whole.drop_first(),
    ensures
        reads_in_text(grammar_of(r), pat, d) ==> reads_in_text(plain_grammar_of(r), pat, d),
        reads_in_block(grammar_of(r), pat, d) ==> reads_in_block(plain_grammar_of(r), pat, d),
{
    let g = grammar_of(r);
    let p = plain_grammar_of(r);
    let n = r.trap_end.len() as int;
    lemma_bracket_names(r, open, close);
    lemma_plain_tables(r);
    assert(r.intr.drop_first() =~= seq![r.intr[1], close]);
    assert forall|k: int| 0 < k <= pat.len() implies p.normal_match(#[trigger] pat.take(k))
        == g.normal_match(pat.take(k)) && p.block_match(pat.take(k)) == g.block_match(pat.take(k))
        && p.may_grow(pat.take(k)) by {
        let buf = pat.take(k);
        assert(buf.len() >= 2 && buf[buf.len() - 1] == close ==> buf[buf.len() - 2] == whole[1]);
        lemma_not_ending(r.alts, buf, r.intr);
        lemma_not_ending(r.alts, buf, r.intr.drop_first());
        lemma_plain_matches(r, buf);
        lemma_ends_in_itself(r.alts, pat);
        assert(starts(p.alts, buf, pat));
        let at: int = if whole == r.call {
            0
        } else if whole == r.end {
            1
        } else if whole == r.trap {
            n + 2
        } else {
            n + 3
        };
        assert(p.full[at].1 == whole);
        let inner_at: int = if whole == r.call {
            0
        } else if whole == r.end {
            1
        } else if whole == r.trap {
            2
        } else {
            3
        };
        assert(p.inner[inner_at].1 == whole.drop_first());
    }
    assert(pat.take(pat.len() as int) =~= pat);
}

/// Delimiters in the shape of brackets around names are told apart where interrupts are not
/// parsed, too.
pub proof fn bracketed_delimiters_are_told_apart_without_interrupts(
    r: RegistryView,
    open: u32,
    close: u32,
)
    requires
        bracket_shape(r, open, close),
        r.alts.len() == 0,
    ensures
        ({
            let g = plain_grammar_of(r);
            &&& reads_in_text(g, r.call, Delim::Call)
            &&& reads_in_text(g, r.trap, Delim::Trap)
            &&& reads_in_block(g, r.head, Delim::Head)
            &&& reads_in_block(g, r.end, Delim::End)
            &&& reads_in_text(g, r.call.drop_first(), Delim::Call)
            &&& reads_in_block(g, r.head.drop_first(), Delim::Head)
            &&& reads_in_block(g, r.end.drop_first(), Delim::End)
        }),
{
    bracketed_delimiters_are_told_apart(r, open, close);
    lemma_plain_reads(r, open, close, r.call, r.call, Delim::Call);
    lemma_plain_reads(r, open, close, r.trap, r.trap, Delim::Trap);
    lemma_plain_reads(r, open, close, r.head, r.head, Delim::Head);
    lemma_plain_reads(r, open, close, r.end, r.end, Delim::End);
    lemma_plain_reads(r, open, close, r.call.drop_first(), r.call, Delim::Call);
    lemma_plain_reads(r, open, close, r.head.drop_first(), r.head, Delim::Head);
    lemma_plain_reads(r, open, close, r.end.drop_first(), r.end, Delim::End);
}

/// A new parser for delimiters in the shape of brackets around names reads
/// `[CALL] id [HEAD] body [END]` as exactly that call.
pub proof fn parser_reads_a_call(
    codec: TokenCodec,
    r: RegistryView,
    open: u32,
    close: u32,
    id: Seq<u32>,
    body: Seq<u32>,
)
    requires
        bracket_shape(r, open, close),
        all_plain(grammar_of(r), id),
        all_plain(grammar_of(r), body),
        never_reasons(machine_of(r).think, r.call + id + r.head + body + r.end),
    ensures
        feed_run(codec, machine_of(r), r.call + id + r.head + body + r.end).1 == seq![
            Signal::Call {
                id: trimmed(codec.text(stripped(codec, id))),
                code: trimmed(codec.text(stripped(codec, body))),
            },
        ],
{
    let m = machine_of(r);
    bracketed_delimiters_are_told_apart(r, open, close);
    call_block_gives_its_call(m.grammar, codec, m.core, r.call, id, r.head, body, r.end);
    without_reasoning_the_machine_decides(codec, m, r.call + id + r.head + body + r.end);
}

/// A token that is no bracket, no name and neither of the first two tokens of a `[TRAP][END]`
/// is plain.
pub proof fn other_tokens_are_plain(r: RegistryView, open: u32, close: u32, t: u32)
    requires
        bracket_shape(r, open, close),
        t != open,
        t != r.call[1] && t != r.end[1] && t != r.head[1] && t != r.trap[1] && t != r.intr[1],
        forall|j: int|
            0 <= j < r.trap_end.len() ==> !(#[trigger] r.trap_end[j]).take(2).contains(t)
                && !r.alts.contains(r.trap_end[j][0]) && !r.alts.contains(r.trap_end[j][1]),
    ensures
        plain(grammar_of(r), t),
{
    let g = grammar_of(r);
    let one = seq![t];
    let n = r.trap_end.len() as int;
    lemma_bracket_names(r, open, close);
    lemma_bracket_tables(r, open, close, g);
    assert forall|j: int| 0 <= j < n implies (#[trigger] r.trap_end[j])[0] != t
        && r.trap_end[j][1] != t by {
        let two = r.trap_end[j].take(2);
        assert(two[0] == r.trap_end[j][0] && two[1] == r.trap_end[j][1]);
        assert(two.contains(two[0]) && two.contains(two[1]));
    }
    assert forall|j: int| 0 <= j < g.full.len() implies !starts(g.alts, one, #[trigger] g.full[j].1) by {
        let p = g.full[j].1;
        if 2 <= j < n + 2 {
            assert(p == r.trap_end[j - 2]);
        } else {
            assert(p[0] == open);
        }
        if starts(g.alts, one, p) {
            assert(stands_for(g.alts, one[0], p[0]));
        }
    }
    assert forall|j: int| 0 <= j < g.inner.len() implies !starts(
        g.alts,
        one,
        #[trigger] g.inner[j].1,
    ) by {
        let p = g.inner[j].1;
        if starts(g.alts, one, p) {
            assert(stands_for(g.alts, one[0], p[0]));
        }
    }
    assert forall|j: int| 0 <= j < g.normal.len() implies !starts(
        g.alts,
        one,
        #[trigger] g.normal[j].1,
    ) by {
        let p = g.normal[j].1;
        if j < n {
            assert(p == r.trap_end[j].drop_first());
            assert(p[0] == r.trap_end[j][1]);
        }
        if starts(g.alts, one, p) {
            assert(stands_for(g.alts, one[0], p[0]));
        }
    }
}

/// Tokens without the last token of the boundary that opens a reasoning section open none.
pub proof fn no_reasoning_without_its_boundary(th: Think, tokens: Seq<u32>)
    requires
        !th.inside,
        th.open.len() > 0 ==> !tokens.contains(th.open.last()),
    ensures
        never_reasons(th, tokens),
{
    assert forall|k: int| 0 <= k <= tokens.len() implies !(#[trigger] observe_run(
        th,
        tokens.take(k),
    )).inside by {
        lemma_opens_nothing(th, tokens.take(k));
    }
}

proof fn lemma_opens_nothing(th: Think, tokens: Seq<u32>)
    requires
        !th.inside,
        th.open.len() > 0 ==> !tokens.contains(th.open.last()),
    ensures
        !observe_run(th, tokens).inside,
        observe_run(th, tokens).open == th.open,
    decreases tokens.len(),
{
    if tokens.len() > 0 {
        let init = tokens.drop_last();
        let t = tokens.last();
        assert(tokens.contains(t));
        assert forall|i: int| 0 <= i < init.len() implies tokens.contains(#[trigger] init[i]) by {
            assert(tokens[i] == init[i]);
        }
        lemma_opens_nothing(th, init);
        let before = observe_run(th, init);
        boundaries_of_reasoning(before, t);
        if th.open.len() > 0 && th.open.is_suffix_of(before.buf.push(t)) {
            let all = before.buf.push(t);
            assert(th.open[th.open.len() - 1] == all.subrange(
                all.len() - th.open.len(),
                all.len() as int,
            )[th.open.len() - 1]);
        }
    }
}

/// A new parser for delimiters in the shape of brackets around names reads
/// `[CALL] id [HEAD] body [END]`, with ids and bodies of any other tokens, as exactly one call:
/// its id is the text of the tokens of the id and its code that of the tokens of the body,
/// each without white space around it, and without a last token that ends with `[`.
pub proof fn call_written_out(
    codec: TokenCodec,
    r: RegistryView,
    open: u32,
    close: u32,
    id: Seq<u32>,
    body: Seq<u32>,
)
    requires
        bracket_shape(r, open, close),
        forall|t: u32|
            id.contains(t) || body.contains(t) ==> t != open && t != r.call[1] && t != r.end[1] && t
                != r.head[1] && t != r.trap[1] && t != r.intr[1],
        forall|j: int, t: u32|
            0 <= j < r.trap_end.len() && (id.contains(t) || body.contains(t))
                ==> !#[trigger] r.trap_end[j].take(2).contains(t),
        forall|j: int|
            0 <= j < r.trap_end.len() ==> !r.alts.contains((#[trigger] r.trap_end[j])[0])
                && !r.alts.contains(r.trap_end[j][1]),
        r.think_open.len() > 0 ==> !(r.call + id + r.head + body + r.end).contains(
            r.think_open.last(),
        ),
    ensures
        ({
            let id_tokens = if id.len() > 0 && codec.text(seq![id.last()]).len() > 0 && codec.text(
                seq![id.last()],
            ).last() == '[' {
                id.take(id.len() - 1)
            } else {
                id
            };
            let body_tokens = if body.len() > 0 && codec.text(seq![body.last()]).len() > 0
                && codec.text(seq![body.last()]).last() == '[' {
                body.take(body.len() - 1)
            } else {
                body
            };
            feed_run(codec, machine_of(r), r.call + id + r.head + body + r.end).1 == seq![
                Signal::Call {
                    id: trimmed(codec.text(id_tokens)),
                    code: trimmed(codec.text(body_tokens)),
                },
            ]
        }),
{
    assert forall|i: int| 0 <= i < id.len() implies plain(grammar_of(r), #[trigger] id[i]) by {
        assert(id.contains(id[i]));
        other_tokens_are_plain(r, open, close, id[i]);
    }
    assert forall|i: int| 0 <= i < body.len() implies plain(grammar_of(r), #[trigger] body[i]) by {
        assert(body.contains(body[i]));
        other_tokens_are_plain(r, open, close, body[i]);
    }
    no_reasoning_without_its_boundary(
        machine_of(r).think,
        r.call + id + r.head + body + r.end,
    );
    parser_reads_a_call(codec, r, open, close, id, body);
    if id.len() > 0 {
        assert(id.take(id.len() - 1) =~= id.drop_last());
    }
    if body.len() > 0 {
        assert(body.take(body.len() - 1) =~= body.drop_last());
    }
}

/// A new parser for delimiters in the shape of brackets around names reads `[TRAP][END]` as
/// exactly one trap.
pub proof fn parser_reads_a_trap(codec: TokenCodec, r: RegistryView, open: u32, close: u32)
    requires
        bracket_shape(r, open, close),
        never_reasons(machine_of(r).think, r.trap + r.end),
    ensures
        feed_run(codec, machine_of(r), r.trap + r.end).1 == seq![Signal::Trap],
{
    let m = machine_of(r);
    let none = Seq::<u32>::empty();
    bracketed_delimiters_are_told_apart(r, open, close);
    trap_block_gives_its_trap(m.grammar, codec, m.core, r.trap, none, r.end);
    assert(r.trap + none + r.end =~= r.trap + r.end);
    without_reasoning_the_machine_decides(codec, m, r.trap + r.end);
}

} // verus!
