//! The token sequences of the call markup where each delimiter may have several spellings.

use std::collections::HashSet;

use vstd::prelude::*;
use vstd::string::*;

use crate::codec::{rows, TokenCodec};
use crate::registry::{
    build_special_map, build_trap_end_variants, compute_intr_suppression, intr_only, resolve_token,
    resolved, special_entries, trap_end_variants, SpecialMap,
};

verus! {

broadcast use {vstd::std_specs::hash::group_hash_axioms, vstd::string::group_string_axioms};

/// The token sequences of the call markup. The first spelling of each delimiter is its
/// primary one.
pub struct CmlTokenRegistry {
    pub call_ids: Vec<Vec<u32>>,
    pub end_ids: Vec<Vec<u32>>,
    pub intr_ids: Vec<Vec<u32>>,
    pub trap_ids: Vec<Vec<u32>>,
    pub head_ids: Vec<Vec<u32>>,
    /// The sequences for `[TRAP][END]` as one unit.
    pub trap_end_ids: Vec<Vec<u32>>,
    pub suppressed_ids: HashSet<u32>,
    /// Whether delimiters start with a bracket that may fuse with the text before it.
    pub bracketed: bool,
}

/// A registry as sequences.
#[verifier::ext_equal]
pub struct VariantsView {
    pub call: Seq<Seq<u32>>,
    pub end: Seq<Seq<u32>>,
    pub intr: Seq<Seq<u32>>,
    pub trap: Seq<Seq<u32>>,
    pub head: Seq<Seq<u32>>,
    pub trap_end: Seq<Seq<u32>>,
    pub suppressed: Set<u32>,
    pub bracketed: bool,
}

impl View for CmlTokenRegistry {
    type V = VariantsView;

    open spec fn view(&self) -> VariantsView {
        VariantsView {
            call: rows(self.call_ids@),
            end: rows(self.end_ids@),
            intr: rows(self.intr_ids@),
            trap: rows(self.trap_ids@),
            head: rows(self.head_ids@),
            trap_end: rows(self.trap_end_ids@),
            suppressed: self.suppressed_ids@,
            bracketed: self.bracketed,
        }
    }
}

/// There is a spelling and none is empty.
pub open spec fn spelled(seqs: Seq<Seq<u32>>) -> bool {
    seqs.len() > 0 && forall|i: int| 0 <= i < seqs.len() ==> (#[trigger] seqs[i]).len() > 0
}

impl VariantsView {
    /// Every delimiter is spelled.
    pub open spec fn wf(self) -> bool {
        &&& spelled(self.call)
        &&& spelled(self.end)
        &&& spelled(self.intr)
        &&& spelled(self.trap)
        &&& spelled(self.head)
    }
}

/// `spellings` with `extra` added, unless it is empty, starts as the primary spelling does
/// or is there already.
pub open spec fn with_probe(spellings: Seq<Seq<u32>>, extra: Seq<u32>) -> Seq<Seq<u32>> {
    if extra.len() > 0 && extra[0] != spellings[0][0] && !spellings.contains(extra) {
        spellings.push(extra)
    } else {
        spellings
    }
}

/// The spellings of `tag`: its own, and those that it takes after a line break and after a
/// space.
pub open spec fn probed_variants(codec: TokenCodec, tag: Seq<char>) -> Seq<Seq<u32>> {
    with_probe(
        with_probe(seq![resolved(codec, tag)], codec.encoded("\n"@ + tag)),
        codec.encoded(" "@ + tag),
    )
}

/// The spellings of `tag`: its own, and the one after a line break where that differs in
/// the first token alone, as when the line break has fused with it.
pub open spec fn fused_variants(codec: TokenCodec, tag: Seq<char>) -> Seq<Seq<u32>> {
    let primary = resolved(codec, tag);
    let nl = codec.encoded("\n"@ + tag);
    if nl.len() == primary.len() && nl.len() > 0 && nl[0] != primary[0] && nl.drop_first()
        == primary.drop_first() {
        seq![primary, nl]
    } else {
        seq![primary]
    }
}

/// `a` followed by `b`.
pub fn concat_text(a: &str, b: &str) -> (both: String)
    ensures
        both@ == a@ + b@,
{
    let mut both = a.to_owned();
    both.append(b);
    both
}

/// Tells whether two token sequences are the same.
pub fn same_row(a: &Vec<u32>, b: &Vec<u32>) -> (yes: bool)
    ensures
        yes == (a@ == b@),
{
    same_from(a, b, 0)
}

/// Tells whether two token sequences are the same but for their first `from` tokens.
fn same_from(a: &Vec<u32>, b: &Vec<u32>, from: usize) -> (yes: bool)
    requires
        from <= a.len(),
        from <= b.len(),
    ensures
        yes == (a@.skip(from as int) == b@.skip(from as int)),
        from == 0 ==> yes == (a@ == b@),
{
    proof {
        assert(a@.skip(0) =~= a@);
        assert(b@.skip(0) =~= b@);
    }
    if a.len() != b.len() {
        proof {
            assert(a@.skip(from as int).len() != b@.skip(from as int).len());
        }
        return false;
    }
    let mut i: usize = from;
    while i < a.len()
        invariant
            from <= i <= a.len(),
            a@.len() == b@.len(),
            forall|j: int| from <= j < i ==> a@[j] == b@[j],
        decreases a.len() - i,
    {
        if a[i] != b[i] {
            proof {
                assert(a@.skip(from as int)[i - from] != b@.skip(from as int)[i - from]);
            }
            return false;
        }
        i = i + 1;
    }
    proof {
        assert(a@.skip(from as int) =~= b@.skip(from as int));
    }
    true
}

/// Tells whether `row` is among `seqs`.
fn rows_contain(seqs: &Vec<Vec<u32>>, row: &Vec<u32>) -> (yes: bool)
    ensures
        yes == rows(seqs@).contains(row@),
{
    let mut i: usize = 0;
    while i < seqs.len()
        invariant
            i <= seqs.len(),
            forall|j: int| 0 <= j < i ==> (#[trigger] seqs@[j])@ != row@,
        decreases seqs.len() - i,
    {
        if same_row(&seqs[i], row) {
            proof {
                assert(rows(seqs@)[i as int] == row@);
            }
            return true;
        }
        i = i + 1;
    }
    proof {
        assert forall|j: int| 0 <= j < rows(seqs@).len() implies rows(seqs@)[j] != row@ by {
            assert(rows(seqs@)[j] == seqs@[j]@);
        }
    }
    false
}

fn add_probe(spellings: &mut Vec<Vec<u32>>, extra: Vec<u32>)
    requires
        spelled(rows(old(spellings)@)),
    ensures
        rows(final(spellings)@) == with_probe(rows(old(spellings)@), extra@),
        spelled(rows(final(spellings)@)),
{
    let ghost before = rows(spellings@);
    proof {
        assert(before[0] == spellings@[0]@);
    }
    if extra.len() > 0 && extra[0] != spellings[0][0] && !rows_contain(spellings, &extra) {
        spellings.push(extra);
        proof {
            assert(rows(spellings@) =~= before.push(extra@));
            assert forall|i: int| 0 <= i < before.push(extra@).len() implies (#[trigger] before.push(
                extra@,
            )[i]).len() > 0 by {
                if i < before.len() {
                    assert(before.push(extra@)[i] == before[i]);
                }
            }
        }
    }
}

fn first_row(row: Vec<u32>) -> (seqs: Vec<Vec<u32>>)
    requires
        row.len() > 0,
    ensures
        rows(seqs@) == seq![row@],
        spelled(rows(seqs@)),
{
    let mut seqs: Vec<Vec<u32>> = Vec::new();
    seqs.push(row);
    proof {
        assert(rows(seqs@) =~= seq![row@]);
    }
    seqs
}

/// The tokenizer spells each of the delimiters with at least one token.
pub open spec fn spells_all(
    codec: TokenCodec,
    call: Seq<char>,
    end: Seq<char>,
    intr: Seq<char>,
    trap: Seq<char>,
    head: Seq<char>,
) -> bool {
    &&& resolved(codec, call).len() > 0
    &&& resolved(codec, end).len() > 0
    &&& resolved(codec, intr).len() > 0
    &&& resolved(codec, trap).len() > 0
    &&& resolved(codec, head).len() > 0
}

/// The tokenizer spells each of `[CALL]`, `[END]`, `[INTR]`, `[TRAP]` and `[HEAD]`.
pub open spec fn spells_brackets(codec: TokenCodec) -> bool {
    spells_all(codec, "[CALL]"@, "[END]"@, "[INTR]"@, "[TRAP]"@, "[HEAD]"@)
}

/// The tokenizer spells each of `<|call|>`, `<|end|>`, `<|intr|>`, `<|trap|>` and
/// `<|head|>`.
pub open spec fn spells_sentinels(codec: TokenCodec) -> bool {
    spells_all(codec, "<|call|>"@, "<|end|>"@, "<|intr|>"@, "<|trap|>"@, "<|head|>"@)
}

/// The registry of bracket delimiters whose spellings are given.
pub open spec fn bracket_registry(
    codec: TokenCodec,
    call: Seq<Seq<u32>>,
    end: Seq<Seq<u32>>,
    intr: Seq<Seq<u32>>,
    trap: Seq<Seq<u32>>,
    head: Seq<Seq<u32>>,
) -> VariantsView {
    VariantsView {
        call,
        end,
        intr,
        trap,
        head,
        trap_end: trap_end_variants(codec, trap[0], end[0]),
        suppressed: intr_only(call[0], end[0], head[0], trap[0], intr[0]),
        bracketed: true,
    }
}

/// The registry with the spellings after a line break and after a space.
pub open spec fn probed_registry(codec: TokenCodec) -> VariantsView {
    bracket_registry(
        codec,
        probed_variants(codec, "[CALL]"@),
        probed_variants(codec, "[END]"@),
        probed_variants(codec, "[INTR]"@),
        probed_variants(codec, "[TRAP]"@),
        probed_variants(codec, "[HEAD]"@),
    )
}

/// The registry with the spellings in which a line break has fused with the bracket.
pub open spec fn fused_registry(codec: TokenCodec) -> VariantsView {
    bracket_registry(
        codec,
        fused_variants(codec, "[CALL]"@),
        fused_variants(codec, "[END]"@),
        fused_variants(codec, "[INTR]"@),
        fused_variants(codec, "[TRAP]"@),
        fused_variants(codec, "[HEAD]"@),
    )
}

/// The registry of the sentinel delimiters, with one spelling each and every token of
/// `<|intr|>` suppressed.
pub open spec fn sentinel_registry(codec: TokenCodec) -> VariantsView {
    VariantsView {
        call: seq![resolved(codec, "<|call|>"@)],
        end: seq![resolved(codec, "<|end|>"@)],
        intr: seq![resolved(codec, "<|intr|>"@)],
        trap: seq![resolved(codec, "<|trap|>"@)],
        head: seq![resolved(codec, "<|head|>"@)],
        trap_end: Seq::empty(),
        suppressed: resolved(codec, "<|intr|>"@).to_set(),
        bracketed: false,
    }
}

fn spells(
    codec: &TokenCodec,
    call: &str,
    end: &str,
    intr: &str,
    trap: &str,
    head: &str,
) -> (yes: bool)
    ensures
        yes == spells_all(*codec, call@, end@, intr@, trap@, head@),
{
    let special_map = build_special_map(codec);
    resolve_token(call, &special_map, codec).len() > 0 && resolve_token(
        end,
        &special_map,
        codec,
    ).len() > 0 && resolve_token(intr, &special_map, codec).len() > 0 && resolve_token(
        trap,
        &special_map,
        codec,
    ).len() > 0 && resolve_token(head, &special_map, codec).len() > 0
}

impl CmlTokenRegistry {
    /// The spellings of `tag`: its own, and those that it takes after a line break and
    /// after a space.
    pub fn resolve_variants(codec: &TokenCodec, special_map: &SpecialMap, tag: &str) -> (seqs: Vec<
        Vec<u32>,
    >)
        requires
            special_map@ == special_entries(*codec),
            resolved(*codec, tag@).len() > 0,
        ensures
            rows(seqs@) == probed_variants(*codec, tag@),
            spelled(rows(seqs@)),
    {
        let mut seqs = first_row(resolve_token(tag, special_map, codec));
        let after_break = concat_text("\n", tag);
        add_probe(&mut seqs, codec.encode(after_break.as_str()));
        let after_space = concat_text(" ", tag);
        add_probe(&mut seqs, codec.encode(after_space.as_str()));
        seqs
    }

    /// The spellings of `tag`: its own, and the one in which a line break has fused with
    /// its first token.
    pub fn resolve_fused(codec: &TokenCodec, special_map: &SpecialMap, tag: &str) -> (seqs: Vec<
        Vec<u32>,
    >)
        requires
            special_map@ == special_entries(*codec),
            resolved(*codec, tag@).len() > 0,
        ensures
            rows(seqs@) == fused_variants(*codec, tag@),
            spelled(rows(seqs@)),
    {
        let primary = resolve_token(tag, special_map, codec);
        let after_break = concat_text("\n", tag);
        let nl = codec.encode(after_break.as_str());
        if nl.len() == primary.len() && nl.len() > 0 && nl[0] != primary[0] && same_from(
            &nl,
            &primary,
            1,
        ) {
            let mut seqs = first_row(primary);
            let ghost one = rows(seqs@);
            seqs.push(nl);
            proof {
                assert(rows(seqs@) =~= one.push(nl@));
                assert(one.push(nl@) =~= seq![resolved(*codec, tag@), nl@]);
            }
            seqs
        } else {
            first_row(primary)
        }
    }

    fn assemble(
        codec: &TokenCodec,
        call_ids: Vec<Vec<u32>>,
        end_ids: Vec<Vec<u32>>,
        intr_ids: Vec<Vec<u32>>,
        trap_ids: Vec<Vec<u32>>,
        head_ids: Vec<Vec<u32>>,
    ) -> (reg: CmlTokenRegistry)
        requires
            spelled(rows(call_ids@)),
            spelled(rows(end_ids@)),
            spelled(rows(intr_ids@)),
            spelled(rows(trap_ids@)),
            spelled(rows(head_ids@)),
        ensures
            reg@ == bracket_registry(
                *codec,
                rows(call_ids@),
                rows(end_ids@),
                rows(intr_ids@),
                rows(trap_ids@),
                rows(head_ids@),
            ),
            reg@.wf(),
    {
        let trap_end_ids = build_trap_end_variants(&trap_ids[0], &end_ids[0], codec);
        let suppressed_ids = compute_intr_suppression(
            &call_ids[0],
            &end_ids[0],
            &head_ids[0],
            &trap_ids[0],
            &intr_ids[0],
        );
        CmlTokenRegistry {
            call_ids,
            end_ids,
            intr_ids,
            trap_ids,
            head_ids,
            trap_end_ids,
            suppressed_ids,
            bracketed: true,
        }
    }

    /// The registry with the spellings after a line break and after a space.
    pub fn new(codec: &TokenCodec) -> (reg: CmlTokenRegistry)
        requires
            spells_brackets(*codec),
        ensures
            reg@ == probed_registry(*codec),
            reg@.wf(),
    {
        let special_map = build_special_map(codec);
        let call_ids = Self::resolve_variants(codec, &special_map, "[CALL]");
        let end_ids = Self::resolve_variants(codec, &special_map, "[END]");
        let intr_ids = Self::resolve_variants(codec, &special_map, "[INTR]");
        let trap_ids = Self::resolve_variants(codec, &special_map, "[TRAP]");
        let head_ids = Self::resolve_variants(codec, &special_map, "[HEAD]");
        Self::assemble(codec, call_ids, end_ids, intr_ids, trap_ids, head_ids)
    }

    /// The registry with the spellings in which a line break has fused with the bracket.
    pub fn new_fused(codec: &TokenCodec) -> (reg: CmlTokenRegistry)
        requires
            spells_brackets(*codec),
        ensures
            reg@ == fused_registry(*codec),
            reg@.wf(),
    {
        let special_map = build_special_map(codec);
        let call_ids = Self::resolve_fused(codec, &special_map, "[CALL]");
        let end_ids = Self::resolve_fused(codec, &special_map, "[END]");
        let intr_ids = Self::resolve_fused(codec, &special_map, "[INTR]");
        let trap_ids = Self::resolve_fused(codec, &special_map, "[TRAP]");
        let head_ids = Self::resolve_fused(codec, &special_map, "[HEAD]");
        Self::assemble(codec, call_ids, end_ids, intr_ids, trap_ids, head_ids)
    }

    /// The registry of the sentinel delimiters `<|call|>`, `<|end|>`, `<|intr|>`,
    /// `<|trap|>` and `<|head|>`.
    pub fn new_sentinel(codec: &TokenCodec) -> (reg: CmlTokenRegistry)
        requires
            spells_sentinels(*codec),
        ensures
            reg@ == sentinel_registry(*codec),
            reg@.wf(),
    {
        let special_map = build_special_map(codec);
        let none: Vec<u32> = Vec::new();
        let intr = resolve_token("<|intr|>", &special_map, codec);
        let suppressed_ids = compute_intr_suppression(&none, &none, &none, &none, &intr);
        proof {
            assert(suppressed_ids@ =~= intr@.to_set());
        }
        let reg = CmlTokenRegistry {
            call_ids: first_row(resolve_token("<|call|>", &special_map, codec)),
            end_ids: first_row(resolve_token("<|end|>", &special_map, codec)),
            intr_ids: first_row(intr),
            trap_ids: first_row(resolve_token("<|trap|>", &special_map, codec)),
            head_ids: first_row(resolve_token("<|head|>", &special_map, codec)),
            trap_end_ids: Vec::new(),
            suppressed_ids,
            bracketed: false,
        };
        proof {
            assert(reg@.trap_end =~= Seq::empty());
        }
        reg
    }

    /// As `new`, or `None` where the tokenizer leaves a delimiter without tokens.
    pub fn try_new(codec: &TokenCodec) -> (reg: Option<CmlTokenRegistry>)
        ensures
            reg is Some <==> spells_brackets(*codec),
            reg matches Some(r) ==> r@ == probed_registry(*codec) && r@.wf(),
    {
        if spells(codec, "[CALL]", "[END]", "[INTR]", "[TRAP]", "[HEAD]") {
            Some(Self::new(codec))
        } else {
            None
        }
    }

    /// As `new_fused`, or `None` where the tokenizer leaves a delimiter without tokens.
    pub fn try_new_fused(codec: &TokenCodec) -> (reg: Option<CmlTokenRegistry>)
        ensures
            reg is Some <==> spells_brackets(*codec),
            reg matches Some(r) ==> r@ == fused_registry(*codec) && r@.wf(),
    {
        if spells(codec, "[CALL]", "[END]", "[INTR]", "[TRAP]", "[HEAD]") {
            Some(Self::new_fused(codec))
        } else {
            None
        }
    }

    /// As `new_sentinel`, or `None` where the tokenizer leaves a delimiter without tokens.
    pub fn try_new_sentinel(codec: &TokenCodec) -> (reg: Option<CmlTokenRegistry>)
        ensures
            reg is Some <==> spells_sentinels(*codec),
            reg matches Some(r) ==> r@ == sentinel_registry(*codec) && r@.wf(),
    {
        if spells(codec, "<|call|>", "<|end|>", "<|intr|>", "<|trap|>", "<|head|>") {
            Some(Self::new_sentinel(codec))
        } else {
            None
        }
    }

    /// Tells whether the primary spelling of every delimiter is a single token.
    pub fn all_single_token(&self) -> (yes: bool)
        requires
            self@.wf(),
        ensures
            yes == (self@.call[0].len() == 1 && self@.end[0].len() == 1 && self@.intr[0].len() == 1
                && self@.trap[0].len() == 1 && self@.head[0].len() == 1),
    {
        self.call_ids[0].len() == 1 && self.end_ids[0].len() == 1 && self.intr_ids[0].len() == 1
            && self.trap_ids[0].len() == 1 && self.head_ids[0].len() == 1
    }
}

/// Every spelling but the primary starts with another token than the primary does.
pub proof fn variants_start_apart(codec: TokenCodec, tag: Seq<char>, i: int)
    requires
        resolved(codec, tag).len() > 0,
        1 <= i < probed_variants(codec, tag).len(),
    ensures
        probed_variants(codec, tag)[0] == resolved(codec, tag),
        probed_variants(codec, tag)[i].len() > 0,
        probed_variants(codec, tag)[i][0] != resolved(codec, tag)[0],
{
}

} // verus!
