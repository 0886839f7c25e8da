//! Delimiter patterns and how a token buffer is matched against them.

use vstd::prelude::*;

verus! {

/// A delimiter of the call markup.
#[derive(Debug, Clone, Copy, PartialEq, Eq, Structural)]
pub enum Delim {
    Call,
    End,
    Head,
    Trap,
    /// `[TRAP][END]` as one unit.
    TrapEnd,
    Intr,
    /// No delimiter.
    Nothing,
}

/// One token sequence that stands for a delimiter.
pub struct Pattern {
    pub delim: Delim,
    pub ids: Vec<u32>,
}

/// A table of patterns, in the order in which they are tried.
pub type Table = Seq<(Delim, Seq<u32>)>;

/// The table that a vector of patterns stands for.
pub open spec fn table_of(patterns: Seq<Pattern>) -> Table {
    patterns.map_values(|p: Pattern| (p.delim, p.ids@))
}

/// Token `b` may stand where a pattern has `p`: they are the same, or both are among the
/// interchangeable tokens `alts`.
pub open spec fn stands_for(alts: Seq<u32>, b: u32, p: u32) -> bool {
    b == p || (alts.contains(p) && alts.contains(b))
}

/// `buf` ends with the non-empty pattern `pat`.
pub open spec fn ends_in(alts: Seq<u32>, buf: Seq<u32>, pat: Seq<u32>) -> bool {
    &&& 0 < pat.len() <= buf.len()
    &&& forall|i: int|
        0 <= i < pat.len() ==> stands_for(
            alts,
            #[trigger] buf[buf.len() - pat.len() + i],
            pat[i],
        )
}

/// `buf` is the start (or the whole) of the non-empty pattern `pat`.
pub open spec fn starts(alts: Seq<u32>, buf: Seq<u32>, pat: Seq<u32>) -> bool {
    &&& 0 < pat.len()
    &&& buf.len() <= pat.len()
    &&& forall|i: int| 0 <= i < buf.len() ==> stands_for(alts, #[trigger] buf[i], pat[i])
}

/// The first entry of `table` that `buf` ends with: its delimiter and its length, or
/// `Delim::Nothing` and zero.
pub open spec fn first_ending(alts: Seq<u32>, table: Table, buf: Seq<u32>) -> (Delim, nat)
    decreases table.len(),
{
    if table.len() == 0 {
        (Delim::Nothing, 0)
    } else if ends_in(alts, buf, table[0].1) {
        (table[0].0, table[0].1.len())
    } else {
        first_ending(alts, table.drop_first(), buf)
    }
}

/// `buf` is the start of some entry of `table`.
pub open spec fn starts_any(alts: Seq<u32>, table: Table, buf: Seq<u32>) -> bool {
    exists|i: int| 0 <= i < table.len() && starts(alts, buf, #[trigger] table[i].1)
}

/// What a match takes is never longer than the buffer.
pub proof fn first_ending_fits(alts: Seq<u32>, table: Table, buf: Seq<u32>)
    ensures
        first_ending(alts, table, buf).1 <= buf.len(),
    decreases table.len(),
{
    if table.len() > 0 && !ends_in(alts, buf, table[0].1) {
        first_ending_fits(alts, table.drop_first(), buf);
    }
}

/// A table has a match exactly where the buffer ends with one of its entries, if no entry
/// is tagged as no delimiter.
pub proof fn first_ending_found(alts: Seq<u32>, table: Table, buf: Seq<u32>)
    requires
        forall|i: int| 0 <= i < table.len() ==> (#[trigger] table[i]).0 != Delim::Nothing,
    ensures
        first_ending(alts, table, buf).0 != Delim::Nothing <==> exists|i: int|
            0 <= i < table.len() && ends_in(alts, buf, #[trigger] table[i].1),
    decreases table.len(),
{
    if table.len() > 0 {
        let rest = table.drop_first();
        first_ending_found(alts, rest, buf);
        if ends_in(alts, buf, table[0].1) {
        } else {
            assert forall|i: int| 0 <= i < table.len() && ends_in(alts, buf, #[trigger] table[i].1) implies exists|j: int|
                0 <= j < rest.len() && ends_in(alts, buf, #[trigger] rest[j].1) by {
                assert(rest[i - 1] == table[i]);
            }
            assert forall|j: int| 0 <= j < rest.len() && ends_in(alts, buf, #[trigger] rest[j].1) implies exists|i: int|
                0 <= i < table.len() && ends_in(alts, buf, #[trigger] table[i].1) by {
                assert(rest[j] == table[j + 1]);
            }
        }
    }
}

/// Tells whether `row` holds `t`.
pub fn row_contains(row: &Vec<u32>, t: u32) -> (yes: bool)
    ensures
        yes == row@.contains(t),
{
    let mut i: usize = 0;
    while i < row.len()
        invariant
            i <= row.len(),
            forall|j: int| 0 <= j < i ==> row@[j] != t,
        decreases row.len() - i,
    {
        if row[i] == t {
            return true;
        }
        i = i + 1;
    }
    false
}

/// Tells whether token `b` may stand where a pattern has `p`.
pub fn may_stand(alts: &Vec<u32>, b: u32, p: u32) -> (yes: bool)
    ensures
        yes == stands_for(alts@, b, p),
{
    b == p || (row_contains(alts, p) && row_contains(alts, b))
}

/// Tells whether `buf` ends with the non-empty pattern `pat`.
pub fn ends_pattern(alts: &Vec<u32>, buf: &Vec<u32>, pat: &Vec<u32>) -> (yes: bool)
    ensures
        yes == ends_in(alts@, buf@, pat@),
{
    if pat.len() == 0 || buf.len() < pat.len() {
        return false;
    }
    let off: usize = buf.len() - pat.len();
    let mut i: usize = 0;
    while i < pat.len()
        invariant
            i <= pat.len(),
            pat.len() > 0,
            off == buf.len() - pat.len(),
            forall|j: int| 0 <= j < i ==> stands_for(alts@, #[trigger] buf@[off + j], pat@[j]),
        decreases pat.len() - i,
    {
        if !may_stand(alts, buf[off + i], pat[i]) {
            proof {
                assert(!stands_for(alts@, buf@[buf@.len() - pat@.len() + i], pat@[i as int]));
            }
            return false;
        }
        i = i + 1;
    }
    true
}

/// Tells whether `buf` is the start of the non-empty pattern `pat`.
pub fn starts_pattern(alts: &Vec<u32>, buf: &Vec<u32>, pat: &Vec<u32>) -> (yes: bool)
    ensures
        yes == starts(alts@, buf@, pat@),
{
    if pat.len() == 0 || buf.len() > pat.len() {
        return false;
    }
    let mut i: usize = 0;
    while i < buf.len()
        invariant
            i <= buf.len() <= pat.len(),
            pat.len() > 0,
            forall|j: int| 0 <= j < i ==> stands_for(alts@, #[trigger] buf@[j], pat@[j]),
        decreases buf.len() - i,
    {
        if !may_stand(alts, buf[i], pat[i]) {
            return false;
        }
        i = i + 1;
    }
    true
}

/// The first pattern that `buf` ends with: its delimiter and its length.
pub fn match_table(alts: &Vec<u32>, patterns: &Vec<Pattern>, buf: &Vec<u32>) -> (r: (Delim, usize))
    ensures
        (r.0, r.1 as nat) == first_ending(alts@, table_of(patterns@), buf@),
        r.1 <= buf.len(),
{
    let mut i: usize = 0;
    let ghost table = table_of(patterns@);
    proof {
        assert(table.skip(0) =~= table);
    }
    while i < patterns.len()
        invariant
            i <= patterns.len(),
            table == table_of(patterns@),
            first_ending(alts@, table, buf@) == first_ending(alts@, table.skip(i as int), buf@),
        decreases patterns.len() - i,
    {
        proof {
            assert(table.skip(i as int)[0] == table[i as int]);
            assert(table.skip(i as int).drop_first() =~= table.skip(i + 1));
        }
        if ends_pattern(alts, buf, &patterns[i].ids) {
            return (patterns[i].delim, patterns[i].ids.len());
        }
        i = i + 1;
    }
    (Delim::Nothing, 0)
}

/// Tells whether `buf` is the start of some pattern.
pub fn starts_some(alts: &Vec<u32>, patterns: &Vec<Pattern>, buf: &Vec<u32>) -> (yes: bool)
    ensures
        yes == starts_any(alts@, table_of(patterns@), buf@),
{
    let ghost table = table_of(patterns@);
    let mut i: usize = 0;
    while i < patterns.len()
        invariant
            i <= patterns.len(),
            table == table_of(patterns@),
            forall|j: int| 0 <= j < i ==> !starts(alts@, buf@, #[trigger] table[j].1),
        decreases patterns.len() - i,
    {
        proof {
            assert(table[i as int].1 == patterns@[i as int].ids@);
        }
        if starts_pattern(alts, buf, &patterns[i].ids) {
            return true;
        }
        i = i + 1;
    }
    false
}

} // verus!
