//! What holds of the markup as tokens: matching, the registries, the tables of the parsers
//! and the mask, in terms of the token sequences alone.

use vstd::prelude::*;
use vstd::string::*;
use vstd::utf8::encode_utf8;

use crate::cml::cml_grammar_of;
use crate::codec::TokenCodec;
use crate::mask::{allowed_bits, largest, mask_width, run_bits};
use crate::parser::{grammar_of, plain_grammar_of};
use crate::pattern::{ends_in, first_ending, stands_for, starts, starts_any, Delim, Table};
use crate::registry::{
    close_bracket_ids, full_registry, intr_only, lookup, plain_registry, resolved, special_entries,
    spells_markup, trap_end_variants, zipped, RegistryView,
};
use crate::variants::{
    fused_registry, fused_variants, probed_registry, probed_variants, sentinel_registry,
    spells_brackets, spells_sentinels, with_probe, VariantsView,
};

verus! {

broadcast use vstd::string::group_string_axioms;

/// A buffer ends with a sequence exactly where its last tokens are that sequence, or tokens
/// that may stand for one another.
pub proof fn ending_written_out(alts: Seq<u32>, lead: Seq<u32>, tail: Seq<u32>, pat: Seq<u32>)
    requires
        tail.len() == pat.len(),
    ensures
        ends_in(alts, lead + tail, pat) <==> pat.len() > 0 && forall|i: int|
            0 <= i < pat.len() ==> (#[trigger] tail[i]) == pat[i] || (alts.contains(pat[i])
                && alts.contains(tail[i])),
{
    let buf = lead + tail;
    let at = buf.len() - pat.len();
    assert forall|i: int| 0 <= i < pat.len() implies buf[at + i] == #[trigger] tail[i] by {}
    if ends_in(alts, buf, pat) {
        assert forall|i: int| 0 <= i < pat.len() implies (#[trigger] tail[i]) == pat[i] || (
        alts.contains(pat[i]) && alts.contains(tail[i])) by {
            assert(buf[at + i] == tail[i]);
        }
    }
    if pat.len() > 0 && (forall|i: int|
        0 <= i < pat.len() ==> (#[trigger] tail[i]) == pat[i] || (alts.contains(pat[i])
            && alts.contains(tail[i]))) {
        assert forall|i: int| 0 <= i < pat.len() implies stands_for(
            alts,
            #[trigger] buf[at + i],
            pat[i],
        ) by {
            assert(buf[at + i] == tail[i]);
        }
    }
}

/// Nothing shorter than a sequence ends with it.
pub proof fn ending_needs_the_whole(alts: Seq<u32>, buf: Seq<u32>, pat: Seq<u32>)
    requires
        buf.len() < pat.len() || pat.len() == 0,
    ensures
        !ends_in(alts, buf, pat),
{
}

/// A buffer is the start of a sequence exactly where its tokens are the first tokens of that
/// sequence, or tokens that may stand for them.
pub proof fn starting_written_out(alts: Seq<u32>, buf: Seq<u32>, pat: Seq<u32>)
    ensures
        starts(alts, buf, pat) <==> pat.len() > 0 && buf.len() <= pat.len() && forall|i: int|
            0 <= i < buf.len() ==> (#[trigger] buf[i]) == pat[i] || (alts.contains(pat[i])
                && alts.contains(buf[i])),
{
    if pat.len() > 0 && buf.len() <= pat.len() && (forall|i: int|
        0 <= i < buf.len() ==> (#[trigger] buf[i]) == pat[i] || (alts.contains(pat[i])
            && alts.contains(buf[i]))) {
        assert forall|i: int| 0 <= i < buf.len() implies stands_for(
            alts,
            #[trigger] buf[i],
            pat[i],
        ) by {}
    }
    if starts(alts, buf, pat) {
        assert forall|i: int| 0 <= i < buf.len() implies (#[trigger] buf[i]) == pat[i] || (
        alts.contains(pat[i]) && alts.contains(buf[i])) by {
            assert(stands_for(alts, buf[i], pat[i]));
        }
    }
}

/// Of the entries that a buffer ends with, the first in the table is taken, for its delimiter
/// and its length; and nothing where there is none.
pub proof fn first_entry_is_taken(alts: Seq<u32>, table: Table, buf: Seq<u32>, i: int)
    ensures
        0 <= i < table.len() && ends_in(alts, buf, table[i].1) && (forall|j: int|
            0 <= j < i ==> !ends_in(alts, buf, (#[trigger] table[j]).1)) ==> first_ending(
            alts,
            table,
            buf,
        ) == (table[i].0, table[i].1.len()),
        (forall|j: int| 0 <= j < table.len() ==> !ends_in(alts, buf, (#[trigger] table[j]).1))
            ==> first_ending(alts, table, buf) == (Delim::Nothing, 0nat),
    decreases table.len(),
{
    if table.len() > 0 {
        assert(table[0] == table[0]);
        if !ends_in(alts, buf, table[0].1) {
            let rest = table.drop_first();
            first_entry_is_taken(alts, rest, buf, i - 1);
            assert forall|j: int| 0 <= j < rest.len() implies #[trigger] rest[j] == table[j
                + 1] by {}
            if 0 < i < table.len() {
                assert(rest[i - 1] == table[i]);
            }
        }
    }
}

/// A buffer is the start of something in a table exactly where it is the start of an entry.
pub proof fn starting_an_entry(alts: Seq<u32>, table: Table, buf: Seq<u32>, i: int)
    ensures
        0 <= i < table.len() && starts(alts, buf, table[i].1) ==> starts_any(alts, table, buf),
        starts_any(alts, table, buf) ==> exists|j: int|
            0 <= j < table.len() && starts(alts, buf, (#[trigger] table[j]).1),
{
    if starts_any(alts, table, buf) {
        let j = choose|j: int| 0 <= j < table.len() && starts(alts, buf, #[trigger] table[j].1);
        assert(starts(alts, buf, table[j].1));
    }
}

/// Of several special tokens with the same bytes the last one counts, and the tags of the
/// markup are looked up by their bytes.
pub proof fn last_special_token_counts(codec: TokenCodec, tag: Seq<char>, i: int)
    ensures
        ({
            let (ids, names) = codec.special();
            &&& 0 <= i < ids.len() && i < names.len() && names[i] == encode_utf8(tag) && (forall|
                j: int,
            |
                i < j < ids.len() && j < names.len() ==> #[trigger] names[j] != encode_utf8(tag))
                ==> resolved(codec, tag) == seq![ids[i]]
            &&& (forall|j: int|
                0 <= j < ids.len() && j < names.len() ==> #[trigger] names[j] != encode_utf8(tag))
                ==> resolved(codec, tag) == codec.encoded(tag)
        }),
{
    let (ids, names) = codec.special();
    let entries = special_entries(codec);
    let key = encode_utf8(tag);
    lemma_last_entry(entries, key, i);
    if 0 <= i < ids.len() && i < names.len() && names[i] == key && (forall|j: int|
        i < j < ids.len() && j < names.len() ==> #[trigger] names[j] != key) {
        assert forall|j: int| i < j < entries.len() implies (#[trigger] entries[j]).0 != key by {
            assert(names[j] != key);
        }
        assert(entries[i] == (names[i], ids[i]));
    }
    if forall|j: int| 0 <= j < ids.len() && j < names.len() ==> #[trigger] names[j] != key {
        assert forall|j: int| 0 <= j < entries.len() implies (#[trigger] entries[j]).0 != key by {
            assert(names[j] != key);
        }
    }
}

proof fn lemma_last_entry(entries: Seq<(Seq<u8>, u32)>, key: Seq<u8>, i: int)
    ensures
        0 <= i < entries.len() && entries[i].0 == key && (forall|j: int|
            i < j < entries.len() ==> (#[trigger] entries[j]).0 != key) ==> lookup(entries, key)
            == Some(entries[i].1),
        (forall|j: int| 0 <= j < entries.len() ==> (#[trigger] entries[j]).0 != key) ==> lookup(
            entries,
            key,
        ) is None,
    decreases entries.len(),
{
    if entries.len() > 0 {
        let init = entries.drop_last();
        assert(entries[entries.len() - 1] == entries.last());
        assert forall|j: int| 0 <= j < init.len() implies #[trigger] init[j] == entries[j] by {}
        lemma_last_entry(init, key, i);
    }
}

/// `[TRAP][END]` is `[TRAP]` and then `[END]`, and, where `][` is a single token, also the two
/// with that token in place of the brackets between them.
pub proof fn trap_end_written_out(codec: TokenCodec, trap: Seq<u32>, end: Seq<u32>)
    requires
        trap.len() > 0,
        end.len() > 0,
    ensures
        ({
            let merge = codec.encoded("]["@);
            let all = trap_end_variants(codec, trap, end);
            &&& all[0] == trap + end
            &&& merge.len() == 1 ==> all.len() == 2 && all[1] == trap.take(trap.len() - 1) + merge
                + end.skip(1)
            &&& merge.len() != 1 ==> all.len() == 1
        }),
{
    let merge = codec.encoded("]["@);
    if merge.len() == 1 {
        assert(trap.drop_last().push(merge[0]) + end.drop_first() =~= trap.take(trap.len() - 1)
            + merge + end.skip(1));
    }
}

/// The tokens that may close a bracket are those whose bytes start with `]`, in the order of
/// the vocabulary.
pub proof fn closing_tokens_start_with_a_bracket(
    entries: Seq<(Seq<u8>, u32)>,
    name: Seq<u8>,
    id: u32,
)
    ensures
        close_bracket_ids(Seq::empty()).len() == 0,
        name.len() > 0 && name[0] == 93u8 ==> close_bracket_ids(entries.push((name, id)))
            == close_bracket_ids(entries).push(id),
        name.len() == 0 || name[0] != 93u8 ==> close_bracket_ids(entries.push((name, id)))
            == close_bracket_ids(entries),
{
    assert(entries.push((name, id)).drop_last() =~= entries);
}

/// Names and ids are paired by position, as far as both go.
pub proof fn names_and_ids_are_paired(names: Seq<Seq<u8>>, ids: Seq<u32>, i: int)
    ensures
        zipped(names, ids).len() <= names.len(),
        zipped(names, ids).len() <= ids.len(),
        zipped(names, ids).len() == names.len() || zipped(names, ids).len() == ids.len(),
        0 <= i < zipped(names, ids).len() ==> zipped(names, ids)[i] == (names[i], ids[i]),
{
}

/// A token is suppressed exactly where it is one of `[INTR]` and of no other delimiter.
pub proof fn suppressed_tokens_written_out(
    call: Seq<u32>,
    end: Seq<u32>,
    head: Seq<u32>,
    trap: Seq<u32>,
    intr: Seq<u32>,
    t: u32,
)
    ensures
        intr_only(call, end, head, trap, intr).contains(t) <==> intr.contains(t) && !call.contains(
            t,
        ) && !end.contains(t) && !head.contains(t) && !trap.contains(t),
{
}

/// A registry holds each delimiter under its own tag.
pub proof fn registry_written_out(codec: TokenCodec, t: u32)
    ensures
        ({
            let r = full_registry(codec);
            &&& r.call == resolved(codec, "[CALL]"@)
            &&& r.end == resolved(codec, "[END]"@)
            &&& r.head == resolved(codec, "[HEAD]"@)
            &&& r.trap == resolved(codec, "[TRAP]"@)
            &&& r.intr == resolved(codec, "[INTR]"@)
            &&& r.think_open == resolved(codec, "<think>"@)
            &&& r.think_close == resolved(codec, "</think>"@)
            &&& r.trap_end == trap_end_variants(codec, r.trap, r.end)
            &&& r.alts == close_bracket_ids(zipped(codec.vocab().1, codec.vocab().0))
            &&& r.suppressed.contains(t) <==> r.intr.contains(t) && !r.call.contains(t)
                && !r.end.contains(t) && !r.head.contains(t) && !r.trap.contains(t)
            &&& plain_registry(codec) == (RegistryView {
                think_open: Seq::empty(),
                think_close: Seq::empty(),
                alts: Seq::empty(),
                ..r
            })
        }),
{
}

/// The markup can be spelled exactly where every tag has a token.
pub proof fn spelling_needs_every_tag(codec: TokenCodec)
    ensures
        spells_markup(codec) <==> resolved(codec, "[CALL]"@).len() > 0 && resolved(
            codec,
            "[END]"@,
        ).len() > 0 && resolved(codec, "[HEAD]"@).len() > 0 && resolved(codec, "[TRAP]"@).len() > 0
            && resolved(codec, "[INTR]"@).len() > 0,
        spells_brackets(codec) <==> spells_markup(codec),
        spells_sentinels(codec) <==> resolved(codec, "<|call|>"@).len() > 0 && resolved(
            codec,
            "<|end|>"@,
        ).len() > 0 && resolved(codec, "<|head|>"@).len() > 0 && resolved(codec, "<|trap|>"@).len()
            > 0 && resolved(codec, "<|intr|>"@).len() > 0,
{
}

/// A probe adds a spelling exactly where it starts with another token than the primary and is
/// not there already.
pub proof fn probes_add_new_spellings(spellings: Seq<Seq<u32>>, extra: Seq<u32>)
    requires
        spellings.len() > 0,
        spellings[0].len() > 0,
    ensures
        extra.len() > 0 && extra[0] != spellings[0][0] && !spellings.contains(extra) ==> with_probe(
            spellings,
            extra,
        ) == spellings.push(extra),
        extra.len() == 0 || extra[0] == spellings[0][0] || spellings.contains(extra) ==> with_probe(
            spellings,
            extra,
        ) == spellings,
{
}

/// Where the probes with a newline and with a space start with two tokens that are not the
/// primary's, both are spellings, in that order.
pub proof fn both_probes_count(codec: TokenCodec, tag: Seq<char>)
    requires
        resolved(codec, tag).len() > 0,
    ensures
        ({
            let primary = resolved(codec, tag);
            let nl = codec.encoded("\n"@ + tag);
            let sp = codec.encoded(" "@ + tag);
            let all = probed_variants(codec, tag);
            &&& all[0] == primary
            &&& nl.len() > 0 && nl[0] != primary[0] ==> all.len() > 1 && all[1] == nl
            &&& sp.len() > 0 && sp[0] != primary[0] ==> all.contains(sp)
            &&& forall|i: int|
                0 <= i < all.len() ==> (#[trigger] all[i]) == primary || all[i] == nl || all[i]
                    == sp
            &&& all.len() <= 3
        }),
{
    let primary = resolved(codec, tag);
    let nl = codec.encoded("\n"@ + tag);
    let sp = codec.encoded(" "@ + tag);
    let one = seq![primary];
    let two = with_probe(one, nl);
    let all = probed_variants(codec, tag);
    if nl.len() > 0 && nl[0] != primary[0] {
        assert(!one.contains(nl)) by {
            assert forall|i: int| 0 <= i < one.len() implies one[i] != nl by {
                assert(one[i] == primary);
            }
        }
        assert(two == one.push(nl));
        assert(two[1] == nl);
    }
    if sp.len() > 0 && sp[0] != primary[0] {
        if !two.contains(sp) {
            assert(all == two.push(sp));
            assert(all[all.len() - 1] == sp);
        } else {
            assert(all == two);
        }
    }
}

/// A newline fuses with the bracket exactly where the tag behind it has the same tokens but
/// for the first; then that is a second spelling.
pub proof fn fused_spelling_written_out(codec: TokenCodec, tag: Seq<char>)
    requires
        resolved(codec, tag).len() > 0,
    ensures
        ({
            let primary = resolved(codec, tag);
            let nl = codec.encoded("\n"@ + tag);
            let all = fused_variants(codec, tag);
            &&& all[0] == primary
            &&& all.len() == 2 <==> nl.len() == primary.len() && nl[0] != primary[0] && forall|
                i: int,
            |
                1 <= i < nl.len() ==> #[trigger] nl[i] == primary[i]
            &&& all.len() == 2 ==> all[1] == nl
            &&& all.len() == 1 || all.len() == 2
        }),
{
    let primary = resolved(codec, tag);
    let nl = codec.encoded("\n"@ + tag);
    if nl.len() == primary.len() {
        if forall|i: int| 1 <= i < nl.len() ==> #[trigger] nl[i] == primary[i] {
            assert forall|i: int| 0 <= i < nl.len() - 1 implies nl.drop_first()[i]
                == primary.drop_first()[i] by {
                assert(nl[i + 1] == primary[i + 1]);
            }
            assert(nl.drop_first() =~= primary.drop_first());
        }
        if nl.drop_first() == primary.drop_first() {
            assert forall|i: int| 1 <= i < nl.len() implies #[trigger] nl[i] == primary[i] by {
                assert(nl.drop_first()[i - 1] == nl[i]);
                assert(primary.drop_first()[i - 1] == primary[i]);
            }
        }
    }
}

/// A registry of several spellings holds those of each delimiter under its own tag.
pub proof fn variants_written_out(codec: TokenCodec, t: u32)
    ensures
        ({
            let r = probed_registry(codec);
            &&& r.call == probed_variants(codec, "[CALL]"@)
            &&& r.end == probed_variants(codec, "[END]"@)
            &&& r.intr == probed_variants(codec, "[INTR]"@)
            &&& r.trap == probed_variants(codec, "[TRAP]"@)
            &&& r.head == probed_variants(codec, "[HEAD]"@)
            &&& r.trap_end == trap_end_variants(codec, r.trap[0], r.end[0])
            &&& r.bracketed
            &&& r.suppressed.contains(t) <==> r.intr[0].contains(t) && !r.call[0].contains(t)
                && !r.end[0].contains(t) && !r.head[0].contains(t) && !r.trap[0].contains(t)
        }),
        ({
            let r = fused_registry(codec);
            &&& r.call == fused_variants(codec, "[CALL]"@)
            &&& r.end == fused_variants(codec, "[END]"@)
            &&& r.intr == fused_variants(codec, "[INTR]"@)
            &&& r.trap == fused_variants(codec, "[TRAP]"@)
            &&& r.head == fused_variants(codec, "[HEAD]"@)
            &&& r.trap_end == trap_end_variants(codec, r.trap[0], r.end[0])
            &&& r.bracketed
            &&& r.suppressed.contains(t) <==> r.intr[0].contains(t) && !r.call[0].contains(t)
                && !r.end[0].contains(t) && !r.head[0].contains(t) && !r.trap[0].contains(t)
        }),
        ({
            let r = sentinel_registry(codec);
            &&& r.call == seq![resolved(codec, "<|call|>"@)]
            &&& r.end == seq![resolved(codec, "<|end|>"@)]
            &&& r.intr == seq![resolved(codec, "<|intr|>"@)]
            &&& r.trap == seq![resolved(codec, "<|trap|>"@)]
            &&& r.head == seq![resolved(codec, "<|head|>"@)]
            &&& r.trap_end.len() == 0
            &&& !r.bracketed
            &&& r.suppressed.contains(t) <==> resolved(codec, "<|intr|>"@).contains(t)
        }),
{
}

/// The tables of a parser, entry by entry.
pub proof fn parser_tables_written_out(r: RegistryView, i: int)
    ensures
        ({
            let g = grammar_of(r);
            let n = r.trap_end.len() as int;
            &&& g.full.len() == n + 5
            &&& g.full[0] == (Delim::Call, r.call)
            &&& g.full[1] == (Delim::End, r.end)
            &&& 0 <= i < n ==> g.full[2 + i] == (Delim::TrapEnd, r.trap_end[i])
            &&& g.full[n + 2] == (Delim::Trap, r.trap)
            &&& g.full[n + 3] == (Delim::Intr, r.intr)
            &&& g.full[n + 4] == (Delim::Head, r.head)
            &&& g.inner.len() == 5
            &&& g.inner[0] == (Delim::Call, r.call.drop_first())
            &&& g.inner[1] == (Delim::End, r.end.drop_first())
            &&& g.inner[2] == (Delim::Trap, r.trap.drop_first())
            &&& g.inner[3] == (Delim::Intr, r.intr.drop_first())
            &&& g.inner[4] == (Delim::Head, r.head.drop_first())
            &&& g.normal.len() == n + 2
            &&& 0 <= i < n ==> g.normal[i] == (Delim::TrapEnd, r.trap_end[i].drop_first())
            &&& g.normal[n] == (Delim::Call, r.call.drop_first())
            &&& g.normal[n + 1] == (Delim::Trap, r.trap.drop_first())
            &&& g.alts == r.alts
        }),
        ({
            let g = plain_grammar_of(r);
            let n = r.trap_end.len() as int;
            &&& g.full.len() == n + 4
            &&& g.full[0] == (Delim::Call, r.call)
            &&& g.full[1] == (Delim::End, r.end)
            &&& 0 <= i < n ==> g.full[2 + i] == (Delim::TrapEnd, r.trap_end[i])
            &&& g.full[n + 2] == (Delim::Trap, r.trap)
            &&& g.full[n + 3] == (Delim::Head, r.head)
            &&& g.inner.len() == 4
            &&& g.inner[0] == (Delim::Call, r.call.drop_first())
            &&& g.inner[1] == (Delim::End, r.end.drop_first())
            &&& g.inner[2] == (Delim::Trap, r.trap.drop_first())
            &&& g.inner[3] == (Delim::Head, r.head.drop_first())
            &&& g.normal.len() == n + 2
            &&& 0 <= i < n ==> g.normal[i] == (Delim::TrapEnd, r.trap_end[i].drop_first())
            &&& g.normal[n] == (Delim::Call, r.call.drop_first())
            &&& g.normal[n + 1] == (Delim::Trap, r.trap.drop_first())
            &&& g.alts.len() == 0
        }),
{
}

/// The tables of a parser for several spellings, stretch by stretch.
pub proof fn variant_tables_written_out(r: VariantsView, i: int)
    ensures
        ({
            let g = cml_grammar_of(r);
            let a = r.call.len() as int;
            let c = a + r.end.len() + r.trap_end.len();
            let d = c + r.trap.len();
            &&& g.full.len() == d + r.head.len() && g.block.len() == g.full.len()
            &&& 0 <= i < r.call.len() ==> g.full[i] == (Delim::Call, r.call[i]) && g.block[i]
                == g.full[i]
            &&& 0 <= i < r.trap_end.len() ==> g.full[a + i] == (Delim::TrapEnd, r.trap_end[i])
                && g.block[a + r.end.len() + i] == (Delim::TrapEnd, r.trap_end[i])
            &&& 0 <= i < r.end.len() ==> g.full[a + r.trap_end.len() + i] == (Delim::End, r.end[i])
                && g.block[a + i] == (Delim::End, r.end[i])
            &&& 0 <= i < r.trap.len() ==> g.full[c + i] == (Delim::Trap, r.trap[i]) && g.block[c
                + i] == g.full[c + i]
            &&& 0 <= i < r.head.len() ==> g.full[d + i] == (Delim::Head, r.head[i]) && g.block[d
                + i] == g.full[d + i]
            &&& g.bracketed == r.bracketed
            &&& !r.bracketed ==> g.inner.len() == 0
            &&& r.bracketed ==> g.inner == seq![
                (Delim::Call, r.call[0].drop_first()),
                (Delim::End, r.end[0].drop_first()),
                (Delim::Trap, r.trap[0].drop_first()),
                (Delim::Head, r.head[0].drop_first()),
            ]
        }),
{
}

/// Runs of bits alternate and start with a run of zeros: a bit is set exactly where it lies
/// in a run with an odd index.
pub proof fn runs_alternate(runs: Seq<u32>, k: int, i: int)
    requires
        0 <= k < runs.len(),
        0 <= i < runs[k],
    ensures
        run_bits(Seq::empty()).len() == 0,
        run_bits(runs.take(k + 1)).len() == run_bits(runs.take(k)).len() + runs[k],
        run_bits(runs.take(k)).len() + i < run_bits(runs).len(),
        run_bits(runs)[run_bits(runs.take(k)).len() + i] == (k % 2 == 1),
    decreases runs.len(),
{
    let upto = runs.take(k + 1);
    assert(upto.drop_last() =~= runs.take(k));
    assert(upto.last() == runs[k]);
    if k + 1 == runs.len() {
        assert(upto =~= runs);
    } else {
        let less = runs.drop_last();
        runs_alternate(less, k, i);
        assert(less.take(k) =~= runs.take(k));
        assert(less.take(k + 1) =~= upto);
    }
}

/// The bits that a mask has to have are as many as its width, set exactly for the ids that are
/// not suppressed.
pub proof fn allowed_bits_written_out(width: nat, suppressed: Set<u32>, id: u32)
    ensures
        allowed_bits(width, suppressed).len() == width,
        id < width ==> (allowed_bits(width, suppressed)[id as int] <==> !suppressed.contains(id)),
{
}

/// A mask is as wide as the vocabulary, and wide enough for every special token; and it is no
/// wider than that takes.
pub proof fn mask_is_just_wide_enough(special: Seq<u32>, vocab: u32)
    ensures
        mask_width(special, vocab) >= vocab,
        forall|i: int|
            0 <= i < special.len() ==> mask_width(special, vocab) > (#[trigger] special[i]),
        mask_width(special, vocab) == vocab || exists|i: int|
            0 <= i < special.len() && mask_width(special, vocab) == (#[trigger] special[i]) + 1,
{
    lemma_largest(special);
    if let Some(m) = largest(special) {
        let i = choose|i: int| 0 <= i < special.len() && (#[trigger] special[i]) == m;
        assert(special[i] == m);
    }
}

proof fn lemma_largest(ids: Seq<u32>)
    ensures
        largest(ids) is None <==> ids.len() == 0,
        largest(ids) matches Some(m) ==> (forall|i: int|
            0 <= i < ids.len() ==> (#[trigger] ids[i]) <= m) && exists|i: int|
            0 <= i < ids.len() && (#[trigger] ids[i]) == m,
    decreases ids.len(),
{
    if ids.len() > 0 {
        let init = ids.drop_last();
        lemma_largest(init);
        assert(ids[ids.len() - 1] == ids.last());
        assert forall|i: int| 0 <= i < init.len() implies #[trigger] init[i] == ids[i] by {}
        let m = largest(ids)->0;
        assert forall|i: int| 0 <= i < ids.len() implies (#[trigger] ids[i]) <= m by {
            if i < init.len() {
                assert(init[i] == ids[i]);
            }
        }
        if m != ids.last() {
            let i = choose|i: int| 0 <= i < init.len() && (#[trigger] init[i]) == m;
            assert(ids[i] == m);
        }
    }
}

} // verus!
