//! The token sequences of the call markup, as a tokenizer spells them.

use std::collections::HashSet;

use vstd::prelude::*;
use vstd::string::*;
use vstd::utf8::encode_utf8;

use crate::codec::{copy_row, rows, TokenCodec};
use crate::pattern::row_contains;

verus! {

broadcast use {vstd::std_specs::hash::group_hash_axioms, vstd::string::group_string_axioms};

/// `names` and `ids` side by side, as far as both go.
pub open spec fn zipped(names: Seq<Seq<u8>>, ids: Seq<u32>) -> Seq<(Seq<u8>, u32)> {
    let n = if names.len() <= ids.len() {
        names.len()
    } else {
        ids.len()
    };
    Seq::new(n, |i: int| (names[i], ids[i]))
}

/// The id under `key`: that of its last entry.
pub open spec fn lookup(entries: Seq<(Seq<u8>, u32)>, key: Seq<u8>) -> Option<u32>
    decreases entries.len(),
{
    if entries.len() == 0 {
        None
    } else if entries.last().0 == key {
        Some(entries.last().1)
    } else {
        lookup(entries.drop_last(), key)
    }
}

/// The special tokens by their byte strings.
pub struct SpecialMap {
    names: Vec<Vec<u8>>,
    ids: Vec<u32>,
}

impl View for SpecialMap {
    type V = Seq<(Seq<u8>, u32)>;

    closed spec fn view(&self) -> Seq<(Seq<u8>, u32)> {
        zipped(rows(self.names@), self.ids@)
    }
}

/// The entries of the special tokens of a tokenizer.
pub open spec fn special_entries(codec: TokenCodec) -> Seq<(Seq<u8>, u32)> {
    zipped(codec.special().1, codec.special().0)
}

/// The special tokens of a tokenizer, by their byte strings.
pub fn build_special_map(codec: &TokenCodec) -> (map: SpecialMap)
    ensures
        map@ == special_entries(*codec),
{
    let (ids, names) = codec.special_tokens();
    SpecialMap { names, ids }
}

/// Tells whether two byte strings are the same.
pub fn same_bytes(a: &[u8], b: &[u8]) -> (yes: bool)
    ensures
        yes == (a@ == b@),
{
    if a.len() != b.len() {
        return false;
    }
    let mut i: usize = 0;
    while i < a.len()
        invariant
            i <= a.len(),
            a@.len() == b@.len(),
            forall|j: int| 0 <= j < i ==> a@[j] == b@[j],
        decreases a.len() - i,
    {
        if a[i] != b[i] {
            return false;
        }
        i = i + 1;
    }
    proof {
        assert(a@ =~= b@);
    }
    true
}

impl SpecialMap {
    /// The id under `key`; of several entries the last counts.
    pub fn get(&self, key: &[u8]) -> (id: Option<u32>)
        ensures
            id == lookup(self@, key@),
    {
        let mut n: usize = if self.names.len() <= self.ids.len() {
            self.names.len()
        } else {
            self.ids.len()
        };
        proof {
            assert(self@.take(n as int) =~= self@);
        }
        while n > 0
            invariant
                n <= self@.len(),
                self@ == zipped(rows(self.names@), self.ids@),
                lookup(self@, key@) == lookup(self@.take(n as int), key@),
            decreases n,
        {
            proof {
                assert(self@.take(n as int).last() == self@[n - 1]);
                assert(self@.take(n as int).drop_last() =~= self@.take(n - 1));
            }
            if same_bytes(self.names[n - 1].as_slice(), key) {
                return Some(self.ids[n - 1]);
            }
            n = n - 1;
        }
        None
    }
}

/// The tokens that stand for `s`: the special token of that name, or else its encoding.
pub open spec fn resolved(codec: TokenCodec, s: Seq<char>) -> Seq<u32> {
    match lookup(special_entries(codec), encode_utf8(s)) {
        Some(id) => seq![id],
        None => codec.encoded(s),
    }
}

/// The tokens that stand for `s`.
pub fn resolve_token(s: &str, special_map: &SpecialMap, codec: &TokenCodec) -> (ids: Vec<u32>)
    requires
        special_map@ == special_entries(*codec),
    ensures
        ids@ == resolved(*codec, s@),
{
    match special_map.get(s.as_bytes()) {
        Some(id) => {
            let one: Vec<u32> = vec![id];
            proof {
                assert(one@ =~= seq![id]);
            }
            one
        },
        None => codec.encode(s),
    }
}

/// The sequences that stand for `[TRAP][END]` as one unit: the two delimiters one after the
/// other and, where `][` is a single token, the sequence with that token in the middle.
pub open spec fn trap_end_variants(codec: TokenCodec, trap: Seq<u32>, end: Seq<u32>) -> Seq<
    Seq<u32>,
> {
    let merge = codec.encoded("]["@);
    if merge.len() == 1 && trap.len() > 0 && end.len() > 0 {
        seq![trap + end, trap.drop_last().push(merge[0]) + end.drop_first()]
    } else {
        seq![trap + end]
    }
}

/// `a` followed by `b`.
pub fn joined(a: &Vec<u32>, b: &Vec<u32>) -> (both: Vec<u32>)
    ensures
        both@ == a@ + b@,
{
    let mut both = copy_row(a);
    append_range(&mut both, b, 0, b.len());
    proof {
        assert(b@.subrange(0, b@.len() as int) =~= b@);
    }
    both
}

/// Appends `src[from..to]` to `dst`.
pub fn append_range(dst: &mut Vec<u32>, src: &Vec<u32>, from: usize, to: usize)
    requires
        from <= to <= src.len(),
    ensures
        final(dst)@ == old(dst)@ + src@.subrange(from as int, to as int),
{
    let ghost start = dst@;
    let mut i: usize = from;
    proof {
        assert(start + src@.subrange(from as int, from as int) =~= start);
    }
    while i < to
        invariant
            from <= i <= to <= src.len(),
            dst@ == start + src@.subrange(from as int, i as int),
        decreases to - i,
    {
        dst.push(src[i]);
        i = i + 1;
        proof {
            assert(start + src@.subrange(from as int, i as int) =~= (start + src@.subrange(
                from as int,
                i - 1,
            )).push(src@[i - 1]));
        }
    }
}

/// The sequences that stand for `[TRAP][END]` as one unit.
pub fn build_trap_end_variants(trap: &Vec<u32>, end: &Vec<u32>, codec: &TokenCodec) -> (variants:
    Vec<Vec<u32>>)
    ensures
        rows(variants@) == trap_end_variants(*codec, trap@, end@),
{
    let mut variants: Vec<Vec<u32>> = Vec::new();
    variants.push(joined(trap, end));
    let merge = codec.encode("][");
    if merge.len() == 1 && trap.len() > 0 && end.len() > 0 {
        let mut merged: Vec<u32> = Vec::new();
        append_range(&mut merged, trap, 0, trap.len() - 1);
        merged.push(merge[0]);
        append_range(&mut merged, end, 1, end.len());
        proof {
            assert(merged@ =~= trap@.drop_last().push(merge@[0]) + end@.drop_first());
        }
        variants.push(merged);
    }
    proof {
        assert(rows(variants@) =~= trap_end_variants(*codec, trap@, end@));
    }
    variants
}

/// The ids among `entries` whose byte string starts with `]`, in their order.
pub open spec fn close_bracket_ids(entries: Seq<(Seq<u8>, u32)>) -> Seq<u32>
    decreases entries.len(),
{
    if entries.len() == 0 {
        Seq::empty()
    } else {
        let before = close_bracket_ids(entries.drop_last());
        let name = entries.last().0;
        if name.len() > 0 && name[0] == 0x5du8 {
            before.push(entries.last().1)
        } else {
            before
        }
    }
}

/// The ids of the vocabulary whose byte string starts with `]`.
pub fn collect_close_bracket_alts(codec: &TokenCodec) -> (alts: Vec<u32>)
    ensures
        alts@ == close_bracket_ids(zipped(codec.vocab().1, codec.vocab().0)),
{
    let (ids, names) = codec.vocabs();
    let ghost entries = zipped(codec.vocab().1, codec.vocab().0);
    let n: usize = if names.len() <= ids.len() {
        names.len()
    } else {
        ids.len()
    };
    let mut alts: Vec<u32> = Vec::new();
    let mut i: usize = 0;
    while i < n
        invariant
            i <= n,
            n <= names.len(),
            n <= ids.len(),
            n == entries.len(),
            entries == zipped(rows(names@), ids@),
            alts@ == close_bracket_ids(entries.take(i as int)),
        decreases n - i,
    {
        proof {
            assert(entries.take(i + 1).drop_last() =~= entries.take(i as int));
            assert(entries.take(i + 1).last() == (names@[i as int]@, ids@[i as int]));
        }
        if names[i].len() > 0 && names[i][0] == 0x5du8 {
            alts.push(ids[i]);
        }
        i = i + 1;
    }
    proof {
        assert(entries.take(n as int) =~= entries);
    }
    alts
}

/// The tokens of `intr` that no other delimiter shares.
pub open spec fn intr_only(
    call: Seq<u32>,
    end: Seq<u32>,
    head: Seq<u32>,
    trap: Seq<u32>,
    intr: Seq<u32>,
) -> Set<u32> {
    Set::new(
        |t: u32|
            intr.contains(t) && !call.contains(t) && !end.contains(t) && !head.contains(t)
                && !trap.contains(t),
    )
}

/// The tokens of `[INTR]` that no other delimiter shares.
pub fn compute_intr_suppression(
    call_ids: &Vec<u32>,
    end_ids: &Vec<u32>,
    head_ids: &Vec<u32>,
    trap_ids: &Vec<u32>,
    intr_ids: &Vec<u32>,
) -> (suppressed: HashSet<u32>)
    ensures
        suppressed@ == intr_only(call_ids@, end_ids@, head_ids@, trap_ids@, intr_ids@),
{
    let mut suppressed: HashSet<u32> = HashSet::new();
    let mut i: usize = 0;
    while i < intr_ids.len()
        invariant
            i <= intr_ids.len(),
            suppressed@ =~= intr_only(
                call_ids@,
                end_ids@,
                head_ids@,
                trap_ids@,
                intr_ids@.take(i as int),
            ),
        decreases intr_ids.len() - i,
    {
        let t: u32 = intr_ids[i];
        proof {
            assert(intr_ids@.take(i + 1) =~= intr_ids@.take(i as int).push(t));
            assert(intr_ids@.take(i + 1)[i as int] == t);
            assert forall|u: u32| #[trigger]
                intr_ids@.take(i + 1).contains(u) <==> intr_ids@.take(i as int).contains(u) || u
                    == t by {
                if intr_ids@.take(i as int).contains(u) {
                    let k = choose|k: int| 0 <= k < i && intr_ids@.take(i as int)[k] == u;
                    assert(intr_ids@.take(i + 1)[k] == u);
                }
            }
        }
        if !row_contains(call_ids, t) && !row_contains(end_ids, t) && !row_contains(head_ids, t)
            && !row_contains(trap_ids, t) {
            suppressed.insert(t);
        }
        i = i + 1;
    }
    proof {
        assert(intr_ids@.take(intr_ids@.len() as int) =~= intr_ids@);
    }
    suppressed
}

/// The token sequences of the call markup.
pub struct CmlRegistry {
    pub call_ids: Vec<u32>,
    pub end_ids: Vec<u32>,
    pub head_ids: Vec<u32>,
    pub trap_ids: Vec<u32>,
    pub intr_ids: Vec<u32>,
    /// The sequences for `[TRAP][END]` as one unit.
    pub trap_end_ids: Vec<Vec<u32>>,
    /// Tokens of `[INTR]` alone: masked while sampling, so that the model cannot make up an
    /// interrupt. Tokens that other delimiters share stay available.
    pub suppressed: HashSet<u32>,
    /// The boundaries of a reasoning section, empty where the tokenizer has none.
    pub think_open_ids: Vec<u32>,
    pub think_close_ids: Vec<u32>,
    /// Tokens that start with `]`, each of which may close a delimiter.
    pub close_bracket_alts: Vec<u32>,
}

/// A registry as sequences.
#[verifier::ext_equal]
pub struct RegistryView {
    pub call: Seq<u32>,
    pub end: Seq<u32>,
    pub head: Seq<u32>,
    pub trap: Seq<u32>,
    pub intr: Seq<u32>,
    pub trap_end: Seq<Seq<u32>>,
    pub suppressed: Set<u32>,
    pub think_open: Seq<u32>,
    pub think_close: Seq<u32>,
    pub alts: Seq<u32>,
}

impl View for CmlRegistry {
    type V = RegistryView;

    open spec fn view(&self) -> RegistryView {
        RegistryView {
            call: self.call_ids@,
            end: self.end_ids@,
            head: self.head_ids@,
            trap: self.trap_ids@,
            intr: self.intr_ids@,
            trap_end: rows(self.trap_end_ids@),
            suppressed: self.suppressed@,
            think_open: self.think_open_ids@,
            think_close: self.think_close_ids@,
            alts: self.close_bracket_alts@,
        }
    }
}

impl RegistryView {
    /// Every delimiter has at least one token.
    pub open spec fn wf(self) -> bool {
        &&& self.call.len() > 0
        &&& self.end.len() > 0
        &&& self.head.len() > 0
        &&& self.trap.len() > 0
        &&& self.intr.len() > 0
        &&& forall|i: int| 0 <= i < self.trap_end.len() ==> (#[trigger] self.trap_end[i]).len() > 0
    }
}

/// The tokenizer spells every delimiter with at least one token.
pub open spec fn spells_markup(codec: TokenCodec) -> bool {
    &&& resolved(codec, "[CALL]"@).len() > 0
    &&& resolved(codec, "[END]"@).len() > 0
    &&& resolved(codec, "[HEAD]"@).len() > 0
    &&& resolved(codec, "[TRAP]"@).len() > 0
    &&& resolved(codec, "[INTR]"@).len() > 0
}

/// The registry of a tokenizer, without reasoning sections and with `]` closing delimiters
/// in its own form only.
pub open spec fn plain_registry(codec: TokenCodec) -> RegistryView {
    let call = resolved(codec, "[CALL]"@);
    let end = resolved(codec, "[END]"@);
    let head = resolved(codec, "[HEAD]"@);
    let trap = resolved(codec, "[TRAP]"@);
    let intr = resolved(codec, "[INTR]"@);
    RegistryView {
        call,
        end,
        head,
        trap,
        intr,
        trap_end: trap_end_variants(codec, trap, end),
        suppressed: intr_only(call, end, head, trap, intr),
        think_open: Seq::empty(),
        think_close: Seq::empty(),
        alts: Seq::empty(),
    }
}

/// The registry of a tokenizer.
pub open spec fn full_registry(codec: TokenCodec) -> RegistryView {
    RegistryView {
        think_open: resolved(codec, "<think>"@),
        think_close: resolved(codec, "</think>"@),
        alts: close_bracket_ids(zipped(codec.vocab().1, codec.vocab().0)),
        ..plain_registry(codec)
    }
}

impl CmlRegistry {
    /// The registry of a tokenizer that spells every delimiter, without reasoning sections
    /// and with `]` closing delimiters in its own form only.
    pub fn new_plain(codec: &TokenCodec) -> (reg: CmlRegistry)
        requires
            spells_markup(*codec),
        ensures
            reg@ == plain_registry(*codec),
            reg@.wf(),
    {
        let special_map = build_special_map(codec);
        let call_ids = resolve_token("[CALL]", &special_map, codec);
        let end_ids = resolve_token("[END]", &special_map, codec);
        let head_ids = resolve_token("[HEAD]", &special_map, codec);
        let trap_ids = resolve_token("[TRAP]", &special_map, codec);
        let intr_ids = resolve_token("[INTR]", &special_map, codec);
        let trap_end_ids = build_trap_end_variants(&trap_ids, &end_ids, codec);
        let suppressed = compute_intr_suppression(
            &call_ids,
            &end_ids,
            &head_ids,
            &trap_ids,
            &intr_ids,
        );
        CmlRegistry {
            call_ids,
            end_ids,
            head_ids,
            trap_ids,
            intr_ids,
            trap_end_ids,
            suppressed,
            think_open_ids: Vec::new(),
            think_close_ids: Vec::new(),
            close_bracket_alts: Vec::new(),
        }
    }

    /// The registry of a tokenizer that spells every delimiter.
    pub fn new(codec: &TokenCodec) -> (reg: CmlRegistry)
        requires
            spells_markup(*codec),
        ensures
            reg@ == full_registry(*codec),
            reg@.wf(),
    {
        let special_map = build_special_map(codec);
        let mut reg = CmlRegistry::new_plain(codec);
        reg.close_bracket_alts = collect_close_bracket_alts(codec);
        reg.think_open_ids = resolve_token("<think>", &special_map, codec);
        reg.think_close_ids = resolve_token("</think>", &special_map, codec);
        reg
    }

    /// Tells whether a tokenizer spells every delimiter with at least one token.
    pub fn can_spell(codec: &TokenCodec) -> (yes: bool)
        ensures
            yes == spells_markup(*codec),
    {
        let special_map = build_special_map(codec);
        resolve_token("[CALL]", &special_map, codec).len() > 0 && resolve_token(
            "[END]",
            &special_map,
            codec,
        ).len() > 0 && resolve_token("[HEAD]", &special_map, codec).len() > 0 && resolve_token(
            "[TRAP]",
            &special_map,
            codec,
        ).len() > 0 && resolve_token("[INTR]", &special_map, codec).len() > 0
    }

    /// The registry of a tokenizer, or `None` where it leaves a delimiter without tokens.
    pub fn try_new(codec: &TokenCodec) -> (reg: Option<CmlRegistry>)
        ensures
            reg is Some <==> spells_markup(*codec),
            reg matches Some(r) ==> r@ == full_registry(*codec) && r@.wf(),
    {
        if CmlRegistry::can_spell(codec) {
            Some(CmlRegistry::new(codec))
        } else {
            None
        }
    }

    /// As `try_new`, for `new_plain`.
    pub fn try_new_plain(codec: &TokenCodec) -> (reg: Option<CmlRegistry>)
        ensures
            reg is Some <==> spells_markup(*codec),
            reg matches Some(r) ==> r@ == plain_registry(*codec) && r@.wf(),
    {
        if CmlRegistry::can_spell(codec) {
            Some(CmlRegistry::new_plain(codec))
        } else {
            None
        }
    }
}

/// Suppressing the tokens of `[INTR]` alone never takes a token away that another delimiter
/// needs, and it takes away only tokens of `[INTR]`.
pub proof fn suppression_spares_other_delimiters(codec: TokenCodec, t: u32)
    requires
        full_registry(codec).suppressed.contains(t),
    ensures
        full_registry(codec).intr.contains(t),
        !full_registry(codec).call.contains(t),
        !full_registry(codec).end.contains(t),
        !full_registry(codec).head.contains(t),
        !full_registry(codec).trap.contains(t),
{
}

} // verus!
