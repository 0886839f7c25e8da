//! Calls sent out to a worker by message, and the replies that come back.
//!
//! A call goes out as `id|code`. A reply reads `id|is_error|output`.

use std::collections::VecDeque;

use vstd::prelude::*;
use vstd::string::*;

use crate::interrupts::{results, texts, ExecutionResult, ResultView};
use crate::text::{chars_of, same_text};

verus! {

broadcast use vstd::string::group_string_axioms;

/// How many characters stand before the first `|`.
pub open spec fn first_bar(s: Seq<char>) -> nat
    decreases s.len(),
{
    if s.len() == 0 || s[0] == '|' {
        0
    } else {
        1 + first_bar(s.drop_first())
    }
}

/// There is a `|`.
pub open spec fn has_bar(s: Seq<char>) -> bool {
    first_bar(s) < s.len()
}

/// What stands before the first `|`, or all of it.
pub open spec fn before_bar(s: Seq<char>) -> Seq<char> {
    s.take(first_bar(s) as int)
}

/// What stands after the first `|`, or nothing.
pub open spec fn after_bar(s: Seq<char>) -> Seq<char> {
    if has_bar(s) {
        s.skip(first_bar(s) as int + 1)
    } else {
        Seq::empty()
    }
}

/// What a reply says: the id, then whether it is an error (the word `true`), then the
/// output, which may hold further bars.
pub open spec fn parsed_result(msg: Seq<char>) -> ResultView {
    ResultView {
        id: before_bar(msg),
        output: after_bar(after_bar(msg)),
        is_error: has_bar(msg) && before_bar(after_bar(msg)) == "true"@,
    }
}

/// A reply.
pub open spec fn reply(r: ResultView) -> Seq<char> {
    r.id + "|"@ + (if r.is_error {
        "true"@
    } else {
        "false"@
    }) + "|"@ + r.output
}

/// What goes out for a call.
pub open spec fn call_payload(id: Seq<char>, code: Seq<char>) -> Seq<char> {
    id + "|"@ + code
}

proof fn lemma_first_bar_at(head: Seq<char>, rest: Seq<char>)
    requires
        !head.contains('|'),
    ensures
        first_bar(head + seq!['|'] + rest) == head.len(),
    decreases head.len(),
{
    let s = head + seq!['|'] + rest;
    if head.len() == 0 {
        assert(s[0] == '|');
    } else {
        assert(s[0] == head[0]);
        assert(head.contains(head[0]));
        let tail = head.drop_first();
        assert forall|i: int| 0 <= i < tail.len() implies tail[i] != '|' by {
            assert(head.contains(head[i + 1]));
        }
        lemma_first_bar_at(tail, rest);
        assert(s.drop_first() =~= tail + seq!['|'] + rest);
    }
}

/// A reply reads back as the result that it was written for, whatever its output holds, if
/// its id holds no `|`.
pub proof fn reply_reads_back(r: ResultView)
    requires
        !r.id.contains('|'),
    ensures
        parsed_result(reply(r)) == r,
{
    reveal_strlit("|");
    reveal_strlit("true");
    reveal_strlit("false");
    let flag = if r.is_error {
        "true"@
    } else {
        "false"@
    };
    let msg = reply(r);
    let bar = seq!['|'];
    assert("|"@ =~= bar);
    let rest = flag + bar + r.output;
    assert(msg =~= r.id + bar + rest);
    lemma_first_bar_at(r.id, rest);
    assert(before_bar(msg) =~= r.id);
    assert(after_bar(msg) =~= rest);
    assert(!flag.contains('|')) by {
        assert forall|i: int| 0 <= i < flag.len() implies flag[i] != '|' by {}
    }
    lemma_first_bar_at(flag, r.output);
    assert(before_bar(rest) =~= flag);
    assert(after_bar(rest) =~= r.output);
    assert("true"@ != "false"@) by {
        assert("true"@.len() == 4);
        assert("false"@.len() == 5);
    }
    assert(parsed_result(msg) =~= r);
}

/// A worker that splits what goes out for a call at its first `|` gets back the id and the
/// code, whatever the code holds, if the id holds no `|`.
pub proof fn call_payload_reads_back(id: Seq<char>, code: Seq<char>)
    requires
        !id.contains('|'),
    ensures
        before_bar(call_payload(id, code)) == id,
        after_bar(call_payload(id, code)) == code,
{
    reveal_strlit("|");
    assert("|"@ =~= seq!['|']);
    let s = call_payload(id, code);
    assert(s =~= id + seq!['|'] + code);
    lemma_first_bar_at(id, code);
    assert(before_bar(s) =~= id);
    assert(after_bar(s) =~= code);
}

/// The position of the first `|` at or after `from`, or the length.
fn find_bar(chars: &Vec<char>, from: usize) -> (at: usize)
    requires
        from <= chars.len(),
    ensures
        at == from + first_bar(chars@.skip(from as int)),
        from <= at <= chars.len(),
{
    let mut at: usize = from;
    while at < chars.len() && chars[at] != '|'
        invariant
            from <= at <= chars.len(),
            first_bar(chars@.skip(from as int)) == (at - from) + first_bar(chars@.skip(at as int)),
        decreases chars.len() - at,
    {
        proof {
            assert(chars@.skip(at as int)[0] == chars@[at as int]);
            assert(chars@.skip(at as int).drop_first() =~= chars@.skip(at + 1));
        }
        at = at + 1;
    }
    proof {
        if at < chars@.len() {
            assert(chars@.skip(at as int)[0] == chars@[at as int]);
        }
    }
    at
}

/// Reads a reply.
pub fn parse_result(msg: &str) -> (r: ExecutionResult)
    ensures
        r@ == parsed_result(msg@),
{
    let chars = chars_of(msg);
    let n: usize = chars.len();
    let first: usize = find_bar(&chars, 0);
    proof {
        assert(chars@.skip(0) =~= chars@);
    }
    let id = msg.substring_char(0, first).to_owned();
    proof {
        assert(id@ =~= before_bar(msg@));
    }
    if first == n {
        let r = ExecutionResult { id, output: String::new(), is_error: false };
        proof {
            assert(after_bar(msg@).len() == 0);
            assert(r@ =~= parsed_result(msg@));
        }
        return r;
    }
    let second: usize = find_bar(&chars, first + 1);
    let ghost rest = after_bar(msg@);
    proof {
        assert(rest =~= chars@.skip(first + 1));
    }
    let flag = msg.substring_char(first + 1, second).to_owned();
    proof {
        assert(flag@ =~= before_bar(rest));
    }
    let is_error: bool = same_text(flag.as_str(), "true");
    let output = if second == n {
        String::new()
    } else {
        msg.substring_char(second + 1, n).to_owned()
    };
    proof {
        assert(output@ =~= after_bar(rest));
    }
    ExecutionResult { id, output, is_error }
}

/// A call as it went out.
#[derive(Debug)]
pub struct FunctionCall {
    pub id: String,
    pub code: String,
    /// How long the context was when the call went out.
    pub dispatch_token_count: usize,
}

/// A call, with its texts as sequences of characters.
#[verifier::ext_equal]
pub struct CallView {
    pub id: Seq<char>,
    pub code: Seq<char>,
    pub dispatch_token_count: nat,
}

impl View for FunctionCall {
    type V = CallView;

    open spec fn view(&self) -> CallView {
        CallView {
            id: self.id@,
            code: self.code@,
            dispatch_token_count: self.dispatch_token_count as nat,
        }
    }
}

/// The calls that a sequence of values stands for.
pub open spec fn calls(s: Seq<FunctionCall>) -> Seq<CallView> {
    s.map_values(|c: FunctionCall| c@)
}

/// Calls by their ids.
pub open spec fn by_id(s: Seq<CallView>) -> Map<Seq<char>, CallView>
    decreases s.len(),
{
    if s.len() == 0 {
        Map::empty()
    } else {
        by_id(s.drop_last()).insert(s.last().id, s.last())
    }
}

/// No two calls have the same id.
pub open spec fn unique_ids(s: Seq<CallView>) -> bool {
    forall|i: int, j: int| 0 <= i < j < s.len() ==> (#[trigger] s[i]).id != (#[trigger] s[j]).id
}

proof fn lemma_by_id(s: Seq<CallView>)
    requires
        unique_ids(s),
    ensures
        by_id(s).dom().finite(),
        by_id(s).dom().len() == s.len(),
        forall|i: int| 0 <= i < s.len() ==> by_id(s).contains_key((#[trigger] s[i]).id)
            && by_id(s)[s[i].id] == s[i],
        forall|k: Seq<char>| #[trigger]
            by_id(s).contains_key(k) ==> exists|i: int| 0 <= i < s.len() && (#[trigger] s[i]).id == k,
    decreases s.len(),
{
    if s.len() > 0 {
        let t = s.drop_last();
        lemma_by_id(t);
        assert(!by_id(t).contains_key(s.last().id)) by {
            if by_id(t).contains_key(s.last().id) {
                let i = choose|i: int| 0 <= i < t.len() && (#[trigger] t[i]).id == s.last().id;
                assert(s[i].id == s[s.len() - 1].id);
            }
        }
        assert(by_id(s).dom() =~= by_id(t).dom().insert(s.last().id));
        assert forall|i: int| 0 <= i < s.len() implies by_id(s).contains_key((#[trigger] s[i]).id)
            && by_id(s)[s[i].id] == s[i] by {
            if i < t.len() {
                assert(t[i] == s[i]);
                assert(s[i].id != s[s.len() - 1].id);
            }
        }
        assert forall|k: Seq<char>| #[trigger] by_id(s).contains_key(k) implies exists|i: int|
            0 <= i < s.len() && (#[trigger] s[i]).id == k by {
            if k == s.last().id {
                assert(s[s.len() - 1].id == k);
            } else {
                let i = choose|i: int| 0 <= i < t.len() && (#[trigger] t[i]).id == k;
                assert(s[i].id == k);
            }
        }
    }
}

/// The map of a sequence with unique ids is settled by its entries.
proof fn lemma_by_id_is(s: Seq<CallView>, m: Map<Seq<char>, CallView>)
    requires
        unique_ids(s),
        forall|i: int| 0 <= i < s.len() ==> m.contains_key((#[trigger] s[i]).id) && m[s[i].id] == s[i],
        forall|k: Seq<char>| #[trigger]
            m.contains_key(k) ==> exists|i: int| 0 <= i < s.len() && (#[trigger] s[i]).id == k,
    ensures
        by_id(s) == m,
{
    lemma_by_id(s);
    assert forall|k: Seq<char>| #[trigger] by_id(s).contains_key(k) == m.contains_key(k) by {}
    assert forall|k: Seq<char>| by_id(s).contains_key(k) implies #[trigger] by_id(s)[k] == m[k] by {
        let i = choose|i: int| 0 <= i < s.len() && (#[trigger] s[i]).id == k;
        assert(m[s[i].id] == s[i]);
    }
    assert(by_id(s) =~= m);
}

/// The calls that are out and the results that came early.
#[verifier::ext_equal]
pub struct ExecutorView {
    pub pending: Map<Seq<char>, CallView>,
    pub completed: Seq<ResultView>,
}

impl ExecutorView {
    /// A call is out.
    pub open spec fn waits(self) -> bool {
        exists|id: Seq<char>| #[trigger] self.pending.contains_key(id)
    }
}

/// Keeps the calls that are out.
pub struct MessageExecutor {
    pending: Vec<FunctionCall>,
    completed: VecDeque<ExecutionResult>,
}

impl View for MessageExecutor {
    type V = ExecutorView;

    closed spec fn view(&self) -> ExecutorView {
        ExecutorView {
            pending: by_id(calls(self.pending@)),
            completed: results(self.completed@),
        }
    }
}

impl MessageExecutor {
    /// No two pending calls have the same id.
    pub closed spec fn wf(&self) -> bool {
        unique_ids(calls(self.pending@))
    }

    /// Nothing is out.
    pub fn new() -> (e: MessageExecutor)
        ensures
            e.wf(),
            e@.pending == Map::<Seq<char>, CallView>::empty(),
            e@.completed.len() == 0,
    {
        MessageExecutor { pending: Vec::new(), completed: VecDeque::new() }
    }

    fn position(&self, id: &str) -> (at: Option<usize>)
        ensures
            at matches Some(i) ==> i < self.pending.len() && self.pending@[i as int].id@ == id@,
            at is None ==> forall|i: int|
                0 <= i < self.pending@.len() ==> (#[trigger] self.pending@[i]).id@ != id@,
    {
        let mut i: usize = 0;
        while i < self.pending.len()
            invariant
                i <= self.pending.len(),
                forall|j: int| 0 <= j < i ==> (#[trigger] self.pending@[j]).id@ != id@,
            decreases self.pending.len() - i,
        {
            if same_text(self.pending[i].id.as_str(), id) {
                return Some(i);
            }
            i = i + 1;
        }
        None
    }

    fn forget(&mut self, id: &str)
        requires
            old(self).wf(),
        ensures
            final(self).wf(),
            final(self)@ == (ExecutorView { pending: old(self)@.pending.remove(id@), ..old(self)@ }),
            !final(self)@.pending.contains_key(id@),
            forall|i: int|
                0 <= i < final(self).pending@.len() ==> (#[trigger] final(self).pending@[i]).id@
                    != id@,
    {
        let ghost before = calls(self.pending@);
        proof {
            lemma_by_id(before);
        }
        match self.position(id) {
            Some(i) => {
                let _ = self.pending.remove(i);
                proof {
                    let after = calls(self.pending@);
                    assert(after =~= before.remove(i as int));
                    assert(before[i as int].id == id@);
                    assert forall|a: int, b: int| 0 <= a < b < after.len() implies (
                    #[trigger] after[a]).id != (#[trigger] after[b]).id by {
                        let a2 = if a < i {
                            a
                        } else {
                            a + 1
                        };
                        let b2 = if b < i {
                            b
                        } else {
                            b + 1
                        };
                        assert(before[a2].id != before[b2].id);
                    }
                    let m = by_id(before).remove(id@);
                    assert forall|a: int| 0 <= a < after.len() implies m.contains_key(
                        (#[trigger] after[a]).id,
                    ) && m[after[a].id] == after[a] by {
                        let a2 = if a < i {
                            a
                        } else {
                            a + 1
                        };
                        assert(after[a] == before[a2]);
                        if a2 < i {
                            assert(before[a2].id != before[i as int].id);
                        } else {
                            assert(before[i as int].id != before[a2].id);
                        }
                    }
                    assert forall|k: Seq<char>| #[trigger] m.contains_key(k) implies exists|a: int|
                        0 <= a < after.len() && (#[trigger] after[a]).id == k by {
                        let a2 = choose|a2: int| 0 <= a2 < before.len() && (#[trigger] before[a2]).id == k;
                        if a2 < i {
                            assert(after[a2].id == k);
                        } else {
                            assert(after[a2 - 1].id == k);
                        }
                    }
                    lemma_by_id_is(after, m);
                    assert forall|a: int| 0 <= a < self.pending@.len() implies (
                    #[trigger] self.pending@[a]).id@ != id@ by {
                        assert(after[a].id == self.pending@[a].id@);
                        let a2 = if a < i {
                            a
                        } else {
                            a + 1
                        };
                        assert(after[a] == before[a2]);
                        if a2 < i {
                            assert(before[a2].id != before[i as int].id);
                        } else {
                            assert(before[i as int].id != before[a2].id);
                        }
                    }
                }
            },
            None => {
                proof {
                    assert(!by_id(before).contains_key(id@)) by {
                        if by_id(before).contains_key(id@) {
                            let a = choose|a: int| 0 <= a < before.len() && (#[trigger] before[a]).id == id@;
                            assert(self.pending@[a].id@ == id@);
                        }
                    }
                    assert(by_id(before).remove(id@) =~= by_id(before));
                }
            },
        }
    }

    /// Notes that a call goes out and gives the message to send. A call that is out under
    /// the same id is replaced.
    pub fn dispatch(&mut self, call: FunctionCall) -> (payload: String)
        requires
            old(self).wf(),
        ensures
            final(self).wf(),
            payload@ == call_payload(call@.id, call@.code),
            final(self)@ == (ExecutorView {
                pending: old(self)@.pending.insert(call@.id, call@),
                ..old(self)@
            }),
    {
        let mut payload = call.id.as_str().to_owned();
        payload.append("|");
        payload.append(call.code.as_str());
        self.forget(call.id.as_str());
        let ghost before = calls(self.pending@);
        let ghost view = call@;
        let ghost entries = self.pending@;
        self.pending.push(call);
        proof {
            let after = calls(self.pending@);
            assert(after =~= before.push(view));
            assert(after.drop_last() =~= before);
            assert forall|a: int, b: int| 0 <= a < b < after.len() implies (#[trigger] after[a]).id != (
            #[trigger] after[b]).id by {
                if b < before.len() {
                    assert(before[a].id != before[b].id);
                } else {
                    assert(after[a].id == entries[a].id@);
                }
            }
            assert(old(self)@.pending.remove(view.id).insert(view.id, view)
                =~= old(self)@.pending.insert(view.id, view));
        }
        payload
    }

    /// Reads a reply; its call is no longer out.
    pub fn absorb(&mut self, msg: &str) -> (r: ExecutionResult)
        requires
            old(self).wf(),
        ensures
            final(self).wf(),
            r@ == parsed_result(msg@),
            final(self)@ == (ExecutorView {
                pending: old(self)@.pending.remove(r@.id),
                ..old(self)@
            }),
    {
        let r = parse_result(msg);
        self.forget(r.id.as_str());
        r
    }

    /// Takes the results that came early.
    pub fn take_completed(&mut self) -> (rs: Vec<ExecutionResult>)
        requires
            old(self).wf(),
        ensures
            final(self).wf(),
            results(rs@) == old(self)@.completed,
            final(self)@ == (ExecutorView { completed: Seq::empty(), ..old(self)@ }),
    {
        let mut rs: Vec<ExecutionResult> = Vec::new();
        let ghost all = self.completed@;
        proof {
            assert(rs@ + all =~= all);
        }
        while self.completed.len() > 0
            invariant
                self.wf(),
                rs@ + self.completed@ == all,
                self.pending@ == old(self).pending@,
            decreases self.completed.len(),
        {
            match self.completed.pop_front() {
                Some(r) => {
                    let ghost got = rs@;
                    let ghost rest = self.completed@;
                    rs.push(r);
                    proof {
                        assert(all =~= got.push(r) + rest);
                    }
                },
                None => {},
            }
        }
        proof {
            assert(rs@ =~= all);
            assert(self@.completed =~= Seq::empty());
        }
        rs
    }

    /// Keeps a result until it is asked for.
    pub fn complete_early(&mut self, r: ExecutionResult)
        requires
            old(self).wf(),
        ensures
            final(self).wf(),
            final(self)@ == (ExecutorView {
                completed: old(self)@.completed.push(r@),
                ..old(self)@
            }),
    {
        self.completed.push_back(r);
        proof {
            assert(self@.completed =~= old(self)@.completed.push(r@));
        }
    }

    /// The results at hand: those that came early, then those of the replies `msgs`.
    pub fn poll_completed(&mut self, msgs: &Vec<String>) -> (rs: Vec<ExecutionResult>)
        requires
            old(self).wf(),
        ensures
            final(self).wf(),
            (final(self)@, results(rs@)) == polled(old(self)@, texts(msgs@)),
    {
        let ghost start = self@;
        let ghost all = texts(msgs@);
        let mut rs = self.take_completed();
        let mut i: usize = 0;
        proof {
            assert(all.take(0) =~= Seq::empty());
        }
        while i < msgs.len()
            invariant
                self.wf(),
                i <= msgs.len(),
                all == texts(msgs@),
                (self@, results(rs@)) == polled(start, all.take(i as int)),
            decreases msgs.len() - i,
        {
            let ghost got = rs@;
            let r = self.absorb(msgs[i].as_str());
            rs.push(r);
            i = i + 1;
            proof {
                assert(all.take(i as int).drop_last() =~= all.take(i - 1));
                assert(all.take(i as int).last() == msgs@[i - 1]@);
                assert(results(rs@) =~= results(got).push(r@));
            }
        }
        proof {
            assert(all.take(msgs@.len() as int) =~= all);
        }
        rs
    }

    /// Waits with the replies that have come: gives the results that came early, then those
    /// of `replies`, for as long as a call is out. What comes after the last call is done is
    /// left alone.
    pub fn wait_all(&mut self, replies: &Vec<String>) -> (rs: Vec<ExecutionResult>)
        requires
            old(self).wf(),
        ensures
            final(self).wf(),
            (final(self)@, results(rs@)) == awaited(old(self)@, texts(replies@)),
    {
        let ghost start = self@;
        let ghost all = texts(replies@);
        let mut rs = self.take_completed();
        let mut i: usize = 0;
        proof {
            assert(all.take(0) =~= Seq::empty());
        }
        while i < replies.len()
            invariant
                self.wf(),
                i <= replies.len(),
                all == texts(replies@),
                (self@, results(rs@)) == awaited(start, all.take(i as int)),
            decreases replies.len() - i,
        {
            proof {
                assert(all.take(i + 1).drop_last() =~= all.take(i as int));
                assert(all.take(i + 1).last() == replies@[i as int]@);
            }
            if self.has_pending() {
                let ghost got = rs@;
                let r = self.absorb(replies[i].as_str());
                rs.push(r);
                proof {
                    assert(results(rs@) =~= results(got).push(r@));
                }
            }
            i = i + 1;
        }
        proof {
            assert(all.take(replies@.len() as int) =~= all);
        }
        rs
    }

    /// How many calls are out.
    pub fn pending_count(&self) -> (n: usize)
        requires
            self.wf(),
        ensures
            self@.pending.dom().finite(),
            n == self@.pending.dom().len(),
    {
        proof {
            lemma_by_id(calls(self.pending@));
        }
        self.pending.len()
    }

    /// Tells whether a call is out.
    pub fn has_pending(&self) -> (yes: bool)
        requires
            self.wf(),
        ensures
            yes == self@.waits(),
    {
        proof {
            let s = calls(self.pending@);
            lemma_by_id(s);
            if s.len() > 0 {
                assert(self@.pending.contains_key(s[0].id));
            }
        }
        self.pending.len() > 0
    }
}

/// Early results and then the replies `msgs`, each of which takes its call off the list.
pub open spec fn polled(e: ExecutorView, msgs: Seq<Seq<char>>) -> (ExecutorView, Seq<ResultView>)
    decreases msgs.len(),
{
    if msgs.len() == 0 {
        (ExecutorView { completed: Seq::empty(), ..e }, e.completed)
    } else {
        let before = polled(e, msgs.drop_last());
        let r = parsed_result(msgs.last());
        (
            ExecutorView { pending: before.0.pending.remove(r.id), ..before.0 },
            before.1.push(r),
        )
    }
}

/// Early results and then the replies `msgs`, for as long as a call is out.
pub open spec fn awaited(e: ExecutorView, msgs: Seq<Seq<char>>) -> (ExecutorView, Seq<ResultView>)
    decreases msgs.len(),
{
    if msgs.len() == 0 {
        (ExecutorView { completed: Seq::empty(), ..e }, e.completed)
    } else {
        let before = awaited(e, msgs.drop_last());
        if before.0.waits() {
            let r = parsed_result(msgs.last());
            (
                ExecutorView { pending: before.0.pending.remove(r.id), ..before.0 },
                before.1.push(r),
            )
        } else {
            before
        }
    }
}

/// Waiting for replies as they come is waiting for all of them at once.
pub proof fn waiting_may_be_split(e: ExecutorView, first: Seq<Seq<char>>, more: Seq<Seq<char>>)
    ensures
        ({
            let (mid, rs) = awaited(e, first);
            let (after, rest) = awaited(mid, more);
            awaited(e, first + more) == (after, rs + rest)
        }),
    decreases more.len(),
{
    let (mid, rs) = awaited(e, first);
    lemma_awaited_empties(e, first);
    if more.len() == 0 {
        assert(first + more =~= first);
        assert(awaited(mid, more).1 =~= Seq::empty());
        assert(rs + awaited(mid, more).1 =~= rs);
        assert(awaited(mid, more).0 =~= mid);
    } else {
        waiting_may_be_split(e, first, more.drop_last());
        assert((first + more).drop_last() =~= first + more.drop_last());
        assert((first + more).last() == more.last());
        let rest = awaited(mid, more.drop_last()).1;
        let r = parsed_result(more.last());
        assert((rs + rest).push(r) =~= rs + rest.push(r));
    }
}

/// Waiting takes the early results.
proof fn lemma_awaited_empties(e: ExecutorView, msgs: Seq<Seq<char>>)
    ensures
        awaited(e, msgs).0.completed =~= Seq::<ResultView>::empty(),
    decreases msgs.len(),
{
    if msgs.len() > 0 {
        lemma_awaited_empties(e, msgs.drop_last());
    }
}

/// A call that is out after the wait was out before it, and no reply under its id has come.
proof fn lemma_still_awaited(e: ExecutorView, msgs: Seq<Seq<char>>, id: Seq<char>, j: int)
    requires
        awaited(e, msgs).0.pending.contains_key(id),
    ensures
        e.pending.contains_key(id),
        0 <= j < msgs.len() ==> parsed_result(msgs[j]).id != id,
    decreases msgs.len(),
{
    if msgs.len() > 0 {
        let before = awaited(e, msgs.drop_last());
        assert(before.0.pending.contains_key(id));
        assert(before.0.waits());
        lemma_still_awaited(e, msgs.drop_last(), id, j);
        if 0 <= j < msgs.len() - 1 {
            assert(msgs.drop_last()[j] == msgs[j]);
        }
    }
}

/// The wait is over once a reply under the id of every call that is out has come.
pub proof fn replies_end_the_wait(e: ExecutorView, msgs: Seq<Seq<char>>)
    requires
        forall|id: Seq<char>| #[trigger]
            e.pending.contains_key(id) ==> exists|j: int|
                0 <= j < msgs.len() && parsed_result(#[trigger] msgs[j]).id == id,
    ensures
        !awaited(e, msgs).0.waits(),
{
    let after = awaited(e, msgs).0;
    if after.waits() {
        let id = choose|id: Seq<char>| #[trigger] after.pending.contains_key(id);
        lemma_still_awaited(e, msgs, id, 0);
        let j = choose|j: int| 0 <= j < msgs.len() && parsed_result(#[trigger] msgs[j]).id == id;
        lemma_still_awaited(e, msgs, id, j);
    }
}

/// A call that went out under an id without `|` is off the list once the reply to it has
/// been read, and its reply comes out as it was written.
pub proof fn reply_settles_its_call(e: ExecutorView, call: CallView, r: ResultView)
    requires
        !call.id.contains('|'),
        r.id == call.id,
        e.completed.len() == 0,
    ensures
        ({
            let out = ExecutorView { pending: e.pending.insert(call.id, call), ..e };
            let (after, rs) = polled(out, seq![reply(r)]);
            &&& !after.pending.contains_key(call.id)
            &&& after.pending == e.pending.remove(call.id)
            &&& rs == seq![r]
        }),
{
    let out = ExecutorView { pending: e.pending.insert(call.id, call), ..e };
    reply_reads_back(r);
    let msgs = seq![reply(r)];
    assert(msgs.drop_last() =~= Seq::empty());
    assert(msgs.last() == reply(r));
    let none = polled(out, msgs.drop_last());
    assert(none.1 =~= Seq::empty());
    assert(none.1.push(r) =~= seq![r]);
    assert(polled(out, msgs).0.pending =~= e.pending.remove(call.id));
}

} // verus!
