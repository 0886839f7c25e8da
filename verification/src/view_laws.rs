//! What values stand for in contracts, element by element.

use vstd::prelude::*;

use crate::codec::{rows, TokenCodec};
use crate::executor::{by_id, calls, unique_ids, CallView, FunctionCall};
use crate::interrupts::{results, texts, ExecutionResult, ResultView};
use crate::machine::{signals, Event, Signal};
use crate::mask::vocab_width;
use crate::parallel::{queued, QueuedCall};
use crate::parser::sequences;
use crate::pattern::{table_of, Delim, Pattern, Table};
use crate::session::{pendings, plain_results, Pending, PendingView};

verus! {

/// An event stands for the signal of its kind, with its own texts.
pub proof fn events_stand_for_their_signals(t: u32, id: String, code: String)
    ensures
        Event::Passthrough(t)@ == Signal::Token(t),
        (Event::Call { id, code })@ == (Signal::Call { id: id@, code: code@ }),
        Event::Trap@ == Signal::Trap,
        Event::EnterCriticalSection@ == Signal::Enter,
        Event::ExitCriticalSection@ == Signal::Exit,
        Event::EnteringBlockHint@ == Signal::Hint,
{
}

/// Lists stand for the lists of what their elements stand for.
pub proof fn lists_stand_for_their_elements(
    events: Seq<Event>,
    strings: Seq<String>,
    ids: Seq<Vec<u32>>,
    patterns: Seq<Pattern>,
    queue: Seq<QueuedCall>,
    pairs: Seq<(String, String)>,
    i: int,
)
    ensures
        signals(events).len() == events.len(),
        0 <= i < events.len() ==> signals(events)[i] == events[i]@,
        texts(strings).len() == strings.len(),
        0 <= i < strings.len() ==> texts(strings)[i] == strings[i]@,
        rows(ids).len() == ids.len(),
        0 <= i < ids.len() ==> rows(ids)[i] == ids[i]@,
        table_of(patterns).len() == patterns.len(),
        0 <= i < patterns.len() ==> table_of(patterns)[i] == (patterns[i].delim, patterns[i].ids@),
        queued(queue).len() == queue.len(),
        0 <= i < queue.len() ==> queued(queue)[i] == (queue[i].id@, queue[i].code@),
        plain_results(pairs).len() == pairs.len(),
        0 <= i < pairs.len() ==> plain_results(pairs)[i] == (ResultView {
            id: pairs[i].0@,
            output: pairs[i].1@,
            is_error: false,
        }),
{
}

/// Calls and results stand for their texts and numbers.
pub proof fn calls_and_results_stand_for_their_parts(
    rs: Seq<ExecutionResult>,
    ps: Seq<Pending>,
    cs: Seq<FunctionCall>,
    i: int,
)
    ensures
        results(rs).len() == rs.len(),
        0 <= i < rs.len() ==> results(rs)[i] == (ResultView {
            id: rs[i].id@,
            output: rs[i].output@,
            is_error: rs[i].is_error,
        }),
        pendings(ps).len() == ps.len(),
        0 <= i < ps.len() ==> pendings(ps)[i] == (PendingView {
            id: ps[i].id@,
            code: ps[i].code@,
            wait_ms: ps[i].wait_ms,
        }),
        calls(cs).len() == cs.len(),
        0 <= i < cs.len() ==> calls(cs)[i] == (CallView {
            id: cs[i].id@,
            code: cs[i].code@,
            dispatch_token_count: cs[i].dispatch_token_count as nat,
        }),
{
}

/// A list of calls with different ids stands for the map from their ids to them.
pub proof fn calls_are_found_by_their_ids(s: Seq<CallView>, id: Seq<char>)
    requires
        unique_ids(s),
    ensures
        by_id(s).contains_key(id) <==> exists|i: int| 0 <= i < s.len() && (#[trigger] s[i]).id == id,
        forall|i: int| 0 <= i < s.len() ==> by_id(s)[(#[trigger] s[i]).id] == s[i],
    decreases s.len(),
{
    if s.len() > 0 {
        let init = s.drop_last();
        calls_are_found_by_their_ids(init, id);
        assert(s[s.len() - 1] == s.last());
        assert forall|i: int| 0 <= i < init.len() implies #[trigger] init[i] == s[i] by {}
        if exists|i: int| 0 <= i < s.len() && (#[trigger] s[i]).id == id {
            let i = choose|i: int| 0 <= i < s.len() && (#[trigger] s[i]).id == id;
            if i < init.len() {
                assert(init[i].id == id);
            }
        }
        if by_id(s).contains_key(id) && s.last().id != id {
            let i = choose|i: int| 0 <= i < init.len() && (#[trigger] init[i]).id == id;
            assert(s[i].id == id);
        }
        assert forall|i: int| 0 <= i < s.len() implies by_id(s)[(#[trigger] s[i]).id] == s[i] by {
            if i < init.len() {
                assert(init[i] == s[i]);
                assert(s[i].id != s[s.len() - 1].id);
            }
        }
    }
}

/// The sequences of a table are listed in its order, those of `[TRAP][END]` apart from the
/// others.
pub proof fn sequences_are_listed_in_order(table: Table, d: Delim, pat: Seq<u32>)
    ensures
        sequences(Seq::empty(), true).len() == 0,
        sequences(Seq::empty(), false).len() == 0,
        d == Delim::TrapEnd ==> sequences(table.push((d, pat)), true) == sequences(table, true).push(
            pat,
        ) && sequences(table.push((d, pat)), false) == sequences(table, false),
        d != Delim::TrapEnd ==> sequences(table.push((d, pat)), false) == sequences(
            table,
            false,
        ).push(pat) && sequences(table.push((d, pat)), true) == sequences(table, true),
{
    assert(table.push((d, pat)).drop_last() =~= table);
}

/// The width of a vocabulary is how many entries it has, where a width can tell.
pub proof fn vocabulary_width_is_its_length(codec: TokenCodec)
    requires
        codec.vocab().0.len() <= u32::MAX,
    ensures
        vocab_width(codec) == codec.vocab().0.len(),
{
}

} // verus!
