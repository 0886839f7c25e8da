//! What holds of calls, replies, results and interrupts, written out over their texts.

use vstd::prelude::*;
use vstd::string::*;

use crate::codec::TokenCodec;
use crate::executor::{
    after_bar, awaited, before_bar, call_payload, first_bar, has_bar, parsed_result, polled,
    CallView, ExecutorView,
};
use crate::interrupts::{
    drained, frame, ids_of, result_frame, result_frames, FrameStyle, InterruptView, ResultView,
};
use crate::machine::Signal;
use crate::session::{
    encoded_all, longest_wait, results_of, stages, still_out, stops_with, tokens_of, PendingView,
    Staging,
};
use crate::tools::tool_result;

verus! {

broadcast use vstd::string::group_string_axioms;

/// An interrupt, written out in each style.
pub proof fn interrupt_written_out(id: Seq<char>, value: Seq<char>)
    ensures
        frame(FrameStyle::Spaced, id, value) == " [INTR] "@ + id + " [HEAD] "@ + value
            + " [END] "@,
        frame(FrameStyle::Bracket, id, value) == "[INTR] "@ + id + " [HEAD] "@ + value + " [END]"@,
        frame(FrameStyle::Sentinel, id, value) == "<|intr|> "@ + id + " <|head|> "@ + value
            + " <|end|>"@,
{
}

/// The interrupt of a result carries the whole output, marked where it is an error, in every
/// style.
pub proof fn interrupt_carries_the_whole_output(r: ResultView)
    ensures
        !r.is_error ==> {
            &&& result_frame(FrameStyle::Spaced, r) == " [INTR] "@ + r.id + " [HEAD] "@ + r.output
                + " [END] "@
            &&& result_frame(FrameStyle::Bracket, r) == "[INTR] "@ + r.id + " [HEAD] "@ + r.output
                + " [END]"@
            &&& result_frame(FrameStyle::Sentinel, r) == "<|intr|> "@ + r.id + " <|head|> "@
                + r.output + " <|end|>"@
        },
        r.is_error ==> {
            let value = "ERROR: "@ + r.output;
            &&& result_frame(FrameStyle::Spaced, r) == " [INTR] "@ + r.id + " [HEAD] "@ + value
                + " [END] "@
            &&& result_frame(FrameStyle::Bracket, r) == "[INTR] "@ + r.id + " [HEAD] "@ + value
                + " [END]"@
            &&& result_frame(FrameStyle::Sentinel, r) == "<|intr|> "@ + r.id + " <|head|> "@
                + value + " <|end|>"@
        },
{
}

/// Two results with the same interrupt under the same id, both errors or neither, have the
/// same output: nothing of it is lost on the way.
pub proof fn interrupts_tell_outputs_apart(style: FrameStyle, a: ResultView, b: ResultView)
    requires
        a.id == b.id,
        a.is_error == b.is_error,
        result_frame(style, a) == result_frame(style, b),
    ensures
        a.output == b.output,
{
    let x = result_frame(style, a);
    let y = result_frame(style, b);
    let (open, mid, close) = match style {
        FrameStyle::Spaced => (" [INTR] "@, " [HEAD] "@, " [END] "@),
        FrameStyle::Bracket => ("[INTR] "@, " [HEAD] "@, " [END]"@),
        FrameStyle::Sentinel => ("<|intr|> "@, " <|head|> "@, " <|end|>"@),
    };
    let mark = if a.is_error {
        "ERROR: "@
    } else {
        Seq::<char>::empty()
    };
    interrupt_carries_the_whole_output(a);
    interrupt_carries_the_whole_output(b);
    let lead = open + a.id + mid + mark;
    assert(x =~= lead + a.output + close);
    assert(y =~= lead + b.output + close);
    assert(x.len() == y.len());
    assert forall|i: int| 0 <= i < a.output.len() implies a.output[i] == b.output[i] by {
        assert(x[lead.len() + i] == a.output[i]);
        assert(y[lead.len() + i] == b.output[i]);
    }
    assert(a.output =~= b.output);
}

/// There is one interrupt for each result, in the order of the results.
pub proof fn one_interrupt_for_each_result(style: FrameStyle, rs: Seq<ResultView>, i: int)
    ensures
        result_frames(style, rs).len() == rs.len(),
        0 <= i < rs.len() ==> result_frames(style, rs)[i] == result_frame(style, rs[i]),
{
}

/// Draining outside a block hands out an interrupt for every result that waits, in order,
/// takes note of their ids and leaves nothing waiting; inside a block it does nothing.
pub proof fn draining_hands_out_what_waits(v: InterruptView, i: int, id: Seq<char>)
    ensures
        v.critical ==> drained(v).0 == v && drained(v).1.len() == 0,
        !v.critical ==> {
            let (after, frames) = drained(v);
            &&& after.queue.len() == 0
            &&& after.style == v.style
            &&& !after.critical
            &&& after.injected.contains(id) <==> v.injected.contains(id) || exists|j: int|
                0 <= j < v.queue.len() && (#[trigger] v.queue[j]).id == id
            &&& frames.len() == v.queue.len()
            &&& 0 <= i < v.queue.len() ==> frames[i] == result_frame(v.style, v.queue[i])
        },
{
    if !v.critical {
        let named = v.queue.map_values(|r: ResultView| r.id);
        if ids_of(v.queue).contains(id) {
            let j = choose|j: int| 0 <= j < named.len() && named[j] == id;
            assert(v.queue[j].id == id);
        }
        if exists|j: int| 0 <= j < v.queue.len() && (#[trigger] v.queue[j]).id == id {
            let j = choose|j: int| 0 <= j < v.queue.len() && (#[trigger] v.queue[j]).id == id;
            assert(named[j] == id);
            assert(named.contains(id));
        }
    }
}

proof fn lemma_bar_after(head: Seq<char>, rest: Seq<char>)
    requires
        !head.contains('|'),
    ensures
        before_bar(head + seq!['|'] + rest) == head,
        after_bar(head + seq!['|'] + rest) == rest,
        has_bar(head + seq!['|'] + rest),
    decreases head.len(),
{
    let s = head + seq!['|'] + rest;
    lemma_first_bar(head, rest);
    assert(s.take(head.len() as int) =~= head);
    assert(s.skip(head.len() as int + 1) =~= rest);
}

proof fn lemma_first_bar(head: Seq<char>, rest: Seq<char>)
    requires
        !head.contains('|'),
    ensures
        first_bar(head + seq!['|'] + rest) == head.len(),
    decreases head.len(),
{
    let s = head + seq!['|'] + rest;
    if head.len() == 0 {
        assert(s[0] == '|');
    } else {
        assert(s[0] == head[0]);
        assert(head.contains(head[0]));
        let tail = head.drop_first();
        assert forall|i: int| 0 <= i < tail.len() implies tail[i] != '|' by {
            assert(head.contains(head[i + 1]));
        }
        lemma_first_bar(tail, rest);
        assert(s.drop_first() =~= tail + seq!['|'] + rest);
    }
}

proof fn lemma_no_bar(s: Seq<char>)
    requires
        !s.contains('|'),
    ensures
        first_bar(s) == s.len(),
    decreases s.len(),
{
    if s.len() > 0 {
        assert(s.contains(s[0]));
        let tail = s.drop_first();
        assert forall|i: int| 0 <= i < tail.len() implies tail[i] != '|' by {
            assert(s.contains(s[i + 1]));
        }
        lemma_no_bar(tail);
    }
}

/// A reply is an id, a word and an output, parted by the first two bars. It is an error
/// exactly where the word is `true`, and the output may hold further bars. What is missing
/// is empty, and without the word there is no error.
pub proof fn replies_are_parted_by_their_first_bars(
    id: Seq<char>,
    word: Seq<char>,
    output: Seq<char>,
)
    requires
        !id.contains('|'),
        !word.contains('|'),
    ensures
        parsed_result(id + seq!['|'] + word + seq!['|'] + output) == (ResultView {
            id,
            output,
            is_error: word == "true"@,
        }),
        parsed_result(id + seq!['|'] + word) == (ResultView {
            id,
            output: Seq::empty(),
            is_error: word == "true"@,
        }),
        parsed_result(id) == (ResultView { id, output: Seq::empty(), is_error: false }),
{
    let bar = seq!['|'];
    let rest = word + bar + output;
    assert(id + bar + word + bar + output =~= id + bar + rest);
    lemma_bar_after(id, rest);
    lemma_bar_after(word, output);
    lemma_bar_after(id, word);
    lemma_no_bar(word);
    lemma_no_bar(id);
    assert(word.take(word.len() as int) =~= word);
    assert(id.take(id.len() as int) =~= id);
    let none = Seq::<char>::empty();
    assert(first_bar(none) == 0);
    assert(parsed_result(id + bar + word + bar + output) =~= (ResultView {
        id,
        output,
        is_error: word == "true"@,
    }));
    assert(parsed_result(id + bar + word) =~= (ResultView {
        id,
        output: none,
        is_error: word == "true"@,
    }));
    assert(parsed_result(id) =~= (ResultView { id, output: none, is_error: false }));
}

/// What goes out for a call is its id, a bar and its code.
pub proof fn payload_written_out(id: Seq<char>, code: Seq<char>)
    ensures
        call_payload(id, code) == id + "|"@ + code,
{
}

/// A call waits exactly where one is out.
pub proof fn waiting_is_having_a_call_out(e: ExecutorView, id: Seq<char>)
    ensures
        e.pending.contains_key(id) ==> e.waits(),
        !e.waits() ==> e.pending == Map::<Seq<char>, CallView>::empty(),
        e.waits() ==> e.pending.dom() != Set::<Seq<char>>::empty(),
{
    if !e.waits() {
        assert(e.pending =~= Map::empty());
    }
    if e.waits() {
        let k = choose|k: Seq<char>| #[trigger] e.pending.contains_key(k);
        assert(e.pending.dom().contains(k));
    }
}

/// What a reply says of a call that is out stays so: after polling, a call is out exactly
/// where it was and no reply under its id has come, and it is the same call. Every reply
/// gives its result, behind the results that came early.
pub proof fn polling_reads_every_reply(e: ExecutorView, msgs: Seq<Seq<char>>, id: Seq<char>)
    ensures
        ({
            let (after, rs) = polled(e, msgs);
            &&& after.pending.contains_key(id) <==> e.pending.contains_key(id) && forall|j: int|
                0 <= j < msgs.len() ==> parsed_result(#[trigger] msgs[j]).id != id
            &&& after.pending.contains_key(id) ==> after.pending[id] == e.pending[id]
            &&& after.completed.len() == 0
            &&& rs == e.completed + msgs.map_values(|m: Seq<char>| parsed_result(m))
        }),
    decreases msgs.len(),
{
    let read = |m: Seq<char>| parsed_result(m);
    if msgs.len() == 0 {
        assert(e.completed + msgs.map_values(read) =~= e.completed);
    } else {
        let init = msgs.drop_last();
        polling_reads_every_reply(e, init, id);
        assert forall|j: int| 0 <= j < init.len() implies #[trigger] init[j] == msgs[j] by {}
        let r = parsed_result(msgs.last());
        assert((e.completed + init.map_values(read)).push(r) =~= e.completed + msgs.map_values(
            read,
        ));
        if forall|j: int| 0 <= j < msgs.len() ==> parsed_result(#[trigger] msgs[j]).id != id {
            assert(msgs[msgs.len() - 1] == msgs.last());
            assert forall|j: int| 0 <= j < init.len() implies parsed_result(
                #[trigger] init[j],
            ).id != id by {
                assert(init[j] == msgs[j]);
            }
        }
        if polled(e, msgs).0.pending.contains_key(id) {
            assert forall|j: int| 0 <= j < msgs.len() implies parsed_result(
                #[trigger] msgs[j],
            ).id != id by {
                if j < init.len() {
                    assert(init[j] == msgs[j]);
                }
            }
        }
    }
}

/// A call that is out stays out, as it is, until a reply under its own id has been read, and
/// while it is out every reply is read.
pub proof fn call_stays_out_until_its_own_reply(
    e: ExecutorView,
    msgs: Seq<Seq<char>>,
    id: Seq<char>,
)
    requires
        e.pending.contains_key(id),
        forall|j: int| 0 <= j < msgs.len() ==> parsed_result(#[trigger] msgs[j]).id != id,
    ensures
        awaited(e, msgs).0.pending.contains_key(id),
        awaited(e, msgs).0.pending[id] == e.pending[id],
        awaited(e, msgs).1 == e.completed + msgs.map_values(|m: Seq<char>| parsed_result(m)),
    decreases msgs.len(),
{
    let read = |m: Seq<char>| parsed_result(m);
    if msgs.len() == 0 {
        assert(e.completed + msgs.map_values(read) =~= e.completed);
    } else {
        let init = msgs.drop_last();
        assert forall|j: int| 0 <= j < init.len() implies parsed_result(#[trigger] init[j]).id
            != id by {
            assert(init[j] == msgs[j]);
        }
        call_stays_out_until_its_own_reply(e, init, id);
        assert(awaited(e, init).0.waits());
        assert(msgs[msgs.len() - 1] == msgs.last());
        let r = parsed_result(msgs.last());
        assert((e.completed + init.map_values(read)).push(r) =~= e.completed + msgs.map_values(
            read,
        ));
    }
}

/// After waiting, a call is out exactly where it was and no reply under its id has come.
pub proof fn waiting_leaves_the_unanswered(e: ExecutorView, msgs: Seq<Seq<char>>, id: Seq<char>)
    ensures
        awaited(e, msgs).0.pending.contains_key(id) <==> e.pending.contains_key(id) && forall|j: int|
            0 <= j < msgs.len() ==> parsed_result(#[trigger] msgs[j]).id != id,
        awaited(e, msgs).0.completed.len() == 0,
    decreases msgs.len(),
{
    if msgs.len() > 0 {
        let init = msgs.drop_last();
        waiting_leaves_the_unanswered(e, init, id);
        if awaited(e, msgs).0.pending.contains_key(id) {
            assert(awaited(e, init).0.pending.contains_key(id));
            assert(awaited(e, init).0.waits());
            assert forall|j: int| 0 <= j < msgs.len() implies parsed_result(
                #[trigger] msgs[j],
            ).id != id by {
                if j < init.len() {
                    assert(init[j] == msgs[j]);
                }
            }
        }
    }
    if e.pending.contains_key(id) && forall|j: int|
        0 <= j < msgs.len() ==> parsed_result(#[trigger] msgs[j]).id != id {
        call_stays_out_until_its_own_reply(e, msgs, id);
    }
}

/// Once no call is out, waiting is over: what comes after that is not read.
pub proof fn waiting_ends_with_the_last_call(
    e: ExecutorView,
    msgs: Seq<Seq<char>>,
    more: Seq<Seq<char>>,
)
    requires
        !awaited(e, msgs).0.waits(),
    ensures
        awaited(e, msgs + more) == awaited(e, msgs),
    decreases more.len(),
{
    if more.len() == 0 {
        assert(msgs + more =~= msgs);
    } else {
        assert((msgs + more).drop_last() =~= msgs + more.drop_last());
        waiting_ends_with_the_last_call(e, msgs, more.drop_last());
    }
}

/// With nothing to read, waiting hands out the early results.
pub proof fn waiting_starts_with_the_early_results(e: ExecutorView)
    ensures
        awaited(e, Seq::empty()).1 == e.completed,
        awaited(e, Seq::empty()).0.pending == e.pending,
{
}

/// Polling handles each call by itself: what two lists of calls give is what the first gives
/// and then what the second gives.
pub proof fn polling_goes_call_by_call(
    a: Seq<PendingView>,
    b: Seq<PendingView>,
    ra: Seq<bool>,
    rb: Seq<bool>,
)
    requires
        a.len() == ra.len(),
        b.len() == rb.len(),
    ensures
        still_out(a + b, ra + rb) == still_out(a, ra) + still_out(b, rb),
        results_of(a + b, ra + rb) == results_of(a, ra) + results_of(b, rb),
    decreases b.len(),
{
    if b.len() == 0 {
        assert(a + b =~= a);
        assert(ra + rb =~= ra);
        assert(still_out(a, ra) + still_out(b, rb) =~= still_out(a, ra));
        assert(results_of(a, ra) + results_of(b, rb) =~= results_of(a, ra));
    } else {
        let init = b.drop_last();
        let ri = rb.drop_last();
        polling_goes_call_by_call(a, init, ra, ri);
        assert((a + b).drop_last() =~= a + init);
        assert((a + b).last() == b.last());
        assert((ra + rb)[a.len() + b.len() - 1] == rb[b.len() - 1]);
        lemma_ready_beyond(a + init, ra + ri, ra + rb);
        lemma_ready_beyond(init, ri, rb);
        let c = b.last();
        let r = ResultView { id: c.id, output: tool_result(c.code), is_error: false };
        assert((still_out(a, ra) + still_out(init, ri)).push(c) =~= still_out(a, ra) + still_out(
            init,
            ri,
        ).push(c));
        assert((results_of(a, ra) + results_of(init, ri)).push(r) =~= results_of(a, ra)
            + results_of(init, ri).push(r));
    }
}

proof fn lemma_ready_beyond(calls: Seq<PendingView>, short: Seq<bool>, long: Seq<bool>)
    requires
        calls.len() <= short.len(),
        calls.len() <= long.len(),
        forall|i: int| 0 <= i < calls.len() ==> short[i] == long[i],
    ensures
        still_out(calls, short) == still_out(calls, long),
        results_of(calls, short) == results_of(calls, long),
    decreases calls.len(),
{
    if calls.len() > 0 {
        lemma_ready_beyond(calls.drop_last(), short, long);
    }
}

/// A call that is ready gives its result, under its id and with what the tool says of its
/// code, and is out no longer; one that is not stays out as it is.
pub proof fn polling_one_call(c: PendingView, ready: bool)
    ensures
        ready ==> still_out(seq![c], seq![ready]).len() == 0 && results_of(seq![c], seq![ready])
            == seq![ResultView { id: c.id, output: tool_result(c.code), is_error: false }],
        !ready ==> still_out(seq![c], seq![ready]) == seq![c] && results_of(
            seq![c],
            seq![ready],
        ).len() == 0,
        still_out(Seq::empty(), Seq::empty()).len() == 0,
        results_of(Seq::empty(), Seq::empty()).len() == 0,
{
    let one = seq![c];
    assert(one.drop_last() =~= Seq::empty());
    assert(one.last() == c);
    reveal_with_fuel(still_out, 2);
    reveal_with_fuel(results_of, 2);
    let r = ResultView { id: c.id, output: tool_result(c.code), is_error: false };
    assert(Seq::<ResultView>::empty().push(r) =~= seq![r]);
    assert(Seq::<PendingView>::empty().push(c) =~= seq![c]);
}

/// The longest wait is long enough for every call and no longer than some call needs.
pub proof fn longest_wait_is_the_largest(calls: Seq<PendingView>, elapsed: Seq<u64>, n: nat)
    requires
        n <= calls.len(),
        n <= elapsed.len(),
    ensures
        longest_wait(calls, elapsed, n) >= 0,
        forall|i: int|
            0 <= i < n ==> longest_wait(calls, elapsed, n) >= (#[trigger] calls[i]).wait_ms
                - elapsed[i],
        longest_wait(calls, elapsed, n) == 0 || exists|i: int|
            0 <= i < n && longest_wait(calls, elapsed, n) == (#[trigger] calls[i]).wait_ms
                - elapsed[i],
    decreases n,
{
    if n > 0 {
        longest_wait_is_the_largest(calls, elapsed, (n - 1) as nat);
        let this = calls[n - 1].wait_ms - elapsed[n - 1];
        let before = longest_wait(calls, elapsed, (n - 1) as nat);
        if this <= before && before != 0 {
            let i = choose|i: int|
                0 <= i < n - 1 && before == (#[trigger] calls[i]).wait_ms - elapsed[i];
            assert(longest_wait(calls, elapsed, n) == calls[i].wait_ms - elapsed[i]);
        }
    }
}

/// The tokens among signals are those of each part, a token gives itself, and nothing else
/// gives a token.
pub proof fn tokens_among_signals(a: Seq<Signal>, b: Seq<Signal>, s: Signal, t: u32)
    ensures
        tokens_of(a + b) == tokens_of(a) + tokens_of(b),
        tokens_of(seq![Signal::Token(t)]) == seq![t],
        (forall|u: u32| s != Signal::Token(u)) ==> tokens_of(seq![s]).len() == 0,
        tokens_of(Seq::empty()).len() == 0,
    decreases b.len(),
{
    reveal_with_fuel(tokens_of, 2);
    let one = seq![Signal::Token(t)];
    assert(one.drop_last() =~= Seq::empty());
    assert(one.last() == Signal::Token(t));
    assert(Seq::<u32>::empty().push(t) =~= seq![t]);
    assert(seq![s].drop_last() =~= Seq::empty());
    assert(seq![s].last() == s);
    if b.len() == 0 {
        assert(a + b =~= a);
        assert(tokens_of(a) + tokens_of(b) =~= tokens_of(a));
    } else {
        tokens_among_signals(a, b.drop_last(), s, t);
        assert((a + b).drop_last() =~= a + b.drop_last());
        assert((a + b).last() == b.last());
        if let Signal::Token(u) = b.last() {
            assert((tokens_of(a) + tokens_of(b.drop_last())).push(u) =~= tokens_of(a) + tokens_of(
                b.drop_last(),
            ).push(u));
        }
    }
}

/// The tokens of interrupts are those of each, one after another.
pub proof fn interrupts_are_encoded_one_by_one(
    codec: TokenCodec,
    a: Seq<Seq<char>>,
    b: Seq<Seq<char>>,
    one: Seq<char>,
)
    ensures
        encoded_all(codec, a + b) == encoded_all(codec, a) + encoded_all(codec, b),
        encoded_all(codec, seq![one]) == codec.encoded(one),
        encoded_all(codec, Seq::empty()).len() == 0,
    decreases b.len(),
{
    reveal_with_fuel(encoded_all, 2);
    assert(seq![one].drop_last() =~= Seq::empty());
    assert(seq![one].last() == one);
    assert(Seq::<u32>::empty() + codec.encoded(one) =~= codec.encoded(one));
    if b.len() == 0 {
        assert(a + b =~= a);
        assert(encoded_all(codec, a) + encoded_all(codec, b) =~= encoded_all(codec, a));
    } else {
        interrupts_are_encoded_one_by_one(codec, a, b.drop_last(), one);
        assert((a + b).drop_last() =~= a + b.drop_last());
        assert((a + b).last() == b.last());
        assert((encoded_all(codec, a) + encoded_all(codec, b.drop_last())) + codec.encoded(b.last())
            =~= encoded_all(codec, a) + (encoded_all(codec, b.drop_last()) + codec.encoded(
            b.last(),
        )));
    }
}

/// Whatever way an injection is staged, all its tokens go in, in order; only the last of
/// several is held back.
pub proof fn staging_keeps_every_token(s: Staging, tokens: Seq<u32>)
    requires
        stages(s, tokens),
    ensures
        s is Nothing <==> tokens.len() == 0,
        s is Whole <==> tokens.len() == 1,
        s matches Staging::Whole(all) ==> all@ == tokens,
        s matches Staging::Split { prefix, tail } ==> prefix@ + seq![tail] == tokens && prefix@.len()
            > 0,
{
    if let Staging::Split { prefix, tail } = s {
        assert(prefix@ + seq![tail] =~= prefix@.push(tail));
        assert(tokens.len() == prefix@.len() + 1);
    }
}

/// An answer stops with a sequence exactly where it is something and then that sequence.
pub proof fn stopping_is_ending_with_the_sequence(before: Seq<u32>, stop: Seq<u32>, tokens: Seq<u32>)
    ensures
        stops_with(before + stop, stop),
        stops_with(tokens, stop) ==> stop.len() <= tokens.len() && tokens == tokens.take(
            tokens.len() - stop.len(),
        ) + stop,
{
    assert((before + stop).skip(before.len() as int) =~= stop);
    if stops_with(tokens, stop) {
        assert(tokens =~= tokens.take(tokens.len() - stop.len()) + tokens.skip(
            tokens.len() - stop.len(),
        ));
    }
}

} // verus!
