//! Interrupts: results that wait to be injected into the stream.

use std::collections::VecDeque;

use vstd::prelude::*;
use vstd::string::*;

use crate::text::same_text;

verus! {

broadcast use vstd::string::group_string_axioms;

/// The result of a call.
#[derive(Debug)]
pub struct ExecutionResult {
    pub id: String,
    pub output: String,
    pub is_error: bool,
}

/// A result, with its texts as sequences of characters.
#[verifier::ext_equal]
pub struct ResultView {
    pub id: Seq<char>,
    pub output: Seq<char>,
    pub is_error: bool,
}

impl View for ExecutionResult {
    type V = ResultView;

    open spec fn view(&self) -> ResultView {
        ResultView { id: self.id@, output: self.output@, is_error: self.is_error }
    }
}

/// The results that a sequence of values stands for.
pub open spec fn results(s: Seq<ExecutionResult>) -> Seq<ResultView> {
    s.map_values(|r: ExecutionResult| r@)
}

/// The texts that a sequence of strings stands for.
pub open spec fn texts(s: Seq<String>) -> Seq<Seq<char>> {
    s.map_values(|t: String| t@)
}

/// How an interrupt is written.
#[derive(Debug, Clone, Copy, PartialEq, Eq, Structural)]
pub enum FrameStyle {
    /// ` [INTR] id [HEAD] value [END] `, with a space at either end.
    Spaced,
    /// `[INTR] id [HEAD] value [END]`.
    Bracket,
    /// `<|intr|> id <|head|> value <|end|>`.
    Sentinel,
}

/// What stands before the id.
pub open spec fn frame_open(style: FrameStyle) -> Seq<char> {
    match style {
        FrameStyle::Spaced => " [INTR] "@,
        FrameStyle::Bracket => "[INTR] "@,
        FrameStyle::Sentinel => "<|intr|> "@,
    }
}

/// What stands between id and value.
pub open spec fn frame_mid(style: FrameStyle) -> Seq<char> {
    match style {
        FrameStyle::Sentinel => " <|head|> "@,
        _ => " [HEAD] "@,
    }
}

/// What stands after the value.
pub open spec fn frame_close(style: FrameStyle) -> Seq<char> {
    match style {
        FrameStyle::Spaced => " [END] "@,
        FrameStyle::Bracket => " [END]"@,
        FrameStyle::Sentinel => " <|end|>"@,
    }
}

/// The interrupt that carries `value` under `id`.
pub open spec fn frame(style: FrameStyle, id: Seq<char>, value: Seq<char>) -> Seq<char> {
    frame_open(style) + id + frame_mid(style) + value + frame_close(style)
}

/// What an interrupt says of a result: its output, marked where it is an error.
pub open spec fn frame_value(r: ResultView) -> Seq<char> {
    if r.is_error {
        "ERROR: "@ + r.output
    } else {
        r.output
    }
}

/// The interrupt for a result.
pub open spec fn result_frame(style: FrameStyle, r: ResultView) -> Seq<char> {
    frame(style, r.id, frame_value(r))
}

/// The interrupts for results, one after another.
pub open spec fn result_frames(style: FrameStyle, rs: Seq<ResultView>) -> Seq<Seq<char>> {
    rs.map_values(|r: ResultView| result_frame(style, r))
}

/// The interrupt that carries `value` under `id`.
pub fn styled_frame(style: FrameStyle, id: &str, value: &str) -> (text: String)
    ensures
        text@ == frame(style, id@, value@),
{
    let mut text = match style {
        FrameStyle::Spaced => " [INTR] ".to_owned(),
        FrameStyle::Bracket => "[INTR] ".to_owned(),
        FrameStyle::Sentinel => "<|intr|> ".to_owned(),
    };
    text.append(id);
    match style {
        FrameStyle::Sentinel => text.append(" <|head|> "),
        _ => text.append(" [HEAD] "),
    }
    text.append(value);
    match style {
        FrameStyle::Spaced => text.append(" [END] "),
        FrameStyle::Bracket => text.append(" [END]"),
        FrameStyle::Sentinel => text.append(" <|end|>"),
    }
    text
}

/// The interrupt that carries `result` under `id`, with a space at either end.
pub fn intr_frame(id: &str, result: &str) -> (text: String)
    ensures
        text@ == " [INTR] "@ + id@ + " [HEAD] "@ + result@ + " [END] "@,
{
    styled_frame(FrameStyle::Spaced, id, result)
}

/// The interrupt for a result.
pub fn frame_result(style: FrameStyle, r: &ExecutionResult) -> (text: String)
    ensures
        text@ == result_frame(style, r@),
{
    if r.is_error {
        let mut value = "ERROR: ".to_owned();
        value.append(r.output.as_str());
        styled_frame(style, r.id.as_str(), value.as_str())
    } else {
        styled_frame(style, r.id.as_str(), r.output.as_str())
    }
}

/// The texts among `s`.
pub open spec fn text_set(s: Seq<Seq<char>>) -> Set<Seq<char>> {
    s.to_set()
}

/// Tells whether `t` is among `s`.
pub fn holds_text(s: &Vec<String>, t: &str) -> (yes: bool)
    ensures
        yes == texts(s@).contains(t@),
{
    let mut i: usize = 0;
    while i < s.len()
        invariant
            i <= s.len(),
            forall|j: int| 0 <= j < i ==> (#[trigger] s@[j])@ != t@,
        decreases s.len() - i,
    {
        if same_text(s[i].as_str(), t) {
            proof {
                assert(texts(s@)[i as int] == t@);
            }
            return true;
        }
        i = i + 1;
    }
    proof {
        assert forall|j: int| 0 <= j < texts(s@).len() implies texts(s@)[j] != t@ by {
            assert(texts(s@)[j] == s@[j]@);
        }
    }
    false
}

/// The interrupts that wait, and whether they have to.
#[verifier::ext_equal]
pub struct InterruptView {
    pub style: FrameStyle,
    /// Results not yet injected, first come first.
    pub queue: Seq<ResultView>,
    /// The ids of the results injected so far.
    pub injected: Set<Seq<char>>,
    /// The stream stands inside a block: nothing may be injected.
    pub critical: bool,
}

/// The ids of results.
pub open spec fn ids_of(rs: Seq<ResultView>) -> Set<Seq<char>> {
    rs.map_values(|r: ResultView| r.id).to_set()
}

/// The queue after what may be injected has been taken out, and the interrupts taken out:
/// none inside a block, else all of them, in the order in which their results came.
pub open spec fn drained(v: InterruptView) -> (InterruptView, Seq<Seq<char>>) {
    if v.critical {
        (v, Seq::empty())
    } else {
        (
            InterruptView {
                queue: Seq::empty(),
                injected: v.injected.union(ids_of(v.queue)),
                ..v
            },
            result_frames(v.style, v.queue),
        )
    }
}

/// Queues results until they may be injected.
pub struct InterruptManager {
    style: FrameStyle,
    pending: VecDeque<ExecutionResult>,
    injected_ids: Vec<String>,
    in_critical_section: bool,
}

impl View for InterruptManager {
    type V = InterruptView;

    closed spec fn view(&self) -> InterruptView {
        InterruptView {
            style: self.style,
            queue: results(self.pending@),
            injected: text_set(texts(self.injected_ids@)),
            critical: self.in_critical_section,
        }
    }
}

impl InterruptManager {
    /// No id is kept twice.
    pub closed spec fn wf(&self) -> bool {
        texts(self.injected_ids@).no_duplicates()
    }

    /// An empty queue, outside a block.
    pub fn new(style: FrameStyle) -> (m: InterruptManager)
        ensures
            m.wf(),
            m@.style == style,
            m@.queue.len() == 0,
            m@.injected == Set::<Seq<char>>::empty(),
            !m@.critical,
    {
        let m = InterruptManager {
            style,
            pending: VecDeque::new(),
            injected_ids: Vec::new(),
            in_critical_section: false,
        };
        proof {
            assert(m@.injected =~= Set::<Seq<char>>::empty());
        }
        m
    }

    /// Adds a result at the end of the queue.
    pub fn enqueue_result(&mut self, result: ExecutionResult)
        requires
            old(self).wf(),
        ensures
            final(self).wf(),
            final(self)@ == (InterruptView {
                queue: old(self)@.queue.push(result@),
                ..old(self)@
            }),
    {
        self.pending.push_back(result);
        proof {
            assert(self@.queue =~= old(self)@.queue.push(result@));
        }
    }

    /// Adds results at the end of the queue.
    pub fn enqueue_all(&mut self, given: Vec<ExecutionResult>)
        requires
            old(self).wf(),
        ensures
            final(self).wf(),
            final(self)@ == (InterruptView {
                queue: old(self)@.queue + results(given@),
                ..old(self)@
            }),
    {
        let ghost start = self@;
        let ghost all = results(given@);
        let mut rest = given;
        let ghost mut n: int = 0;
        proof {
            assert(start.queue + all.take(0) =~= start.queue);
            assert(all.skip(0) =~= all);
        }
        while rest.len() > 0
            invariant
                self.wf(),
                0 <= n <= all.len(),
                results(rest@) == all.skip(n),
                self@ == (InterruptView { queue: start.queue + all.take(n), ..start }),
            decreases rest.len(),
        {
            let ghost before = rest@;
            proof {
                assert(results(before).len() == all.skip(n).len());
                assert(results(before)[0] == all.skip(n)[0]);
            }
            let r = rest.remove(0);
            self.enqueue_result(r);
            proof {
                assert(results(rest@) =~= results(before).drop_first());
                assert(all.skip(n).drop_first() =~= all.skip(n + 1));
                assert(start.queue + all.take(n + 1) =~= (start.queue + all.take(n)).push(all[n]));
                n = n + 1;
            }
        }
        proof {
            assert(n == all.len()) by {
                assert(all.skip(n).len() == 0);
            }
            assert(all.take(n) =~= all);
        }
    }

    /// Adds the result of a call that did not fail at the end of the queue.
    pub fn enqueue(&mut self, id: &str, result: &str)
        requires
            old(self).wf(),
        ensures
            final(self).wf(),
            final(self)@ == (InterruptView {
                queue: old(self)@.queue.push(
                    ResultView { id: id@, output: result@, is_error: false },
                ),
                ..old(self)@
            }),
    {
        self.enqueue_result(
            ExecutionResult { id: id.to_owned(), output: result.to_owned(), is_error: false },
        );
    }

    /// Notes whether the stream stands inside a block.
    pub fn set_critical_section(&mut self, val: bool)
        requires
            old(self).wf(),
        ensures
            final(self).wf(),
            final(self)@ == (InterruptView { critical: val, ..old(self)@ }),
    {
        self.in_critical_section = val;
    }

    /// The same as `set_critical_section`.
    pub fn set_critical(&mut self, val: bool)
        requires
            old(self).wf(),
        ensures
            final(self).wf(),
            final(self)@ == (InterruptView { critical: val, ..old(self)@ }),
    {
        self.set_critical_section(val);
    }

    /// Tells whether the stream stands inside a block.
    pub fn in_critical_section(&self) -> (yes: bool)
        ensures
            yes == self@.critical,
    {
        self.in_critical_section
    }

    fn note_injected(&mut self, id: String)
        requires
            old(self).wf(),
        ensures
            final(self).wf(),
            final(self)@ == (InterruptView {
                injected: old(self)@.injected.insert(id@),
                ..old(self)@
            }),
    {
        let ghost before = texts(self.injected_ids@);
        if !holds_text(&self.injected_ids, id.as_str()) {
            let ghost new_id = id@;
            self.injected_ids.push(id);
            proof {
                assert(texts(self.injected_ids@) =~= before.push(new_id));
                assert(before.push(new_id).to_set() =~= before.to_set().insert(new_id)) by {
                    assert forall|t: Seq<char>| #[trigger]
                        before.push(new_id).contains(t) <==> before.contains(t) || t == new_id by {
                        if before.contains(t) {
                            let k = choose|k: int| 0 <= k < before.len() && before[k] == t;
                            assert(before.push(new_id)[k] == t);
                        }
                        assert(before.push(new_id)[before.len() as int] == new_id);
                    }
                }
            }
        } else {
            proof {
                assert(before.to_set().insert(id@) =~= before.to_set());
            }
        }
        proof {
            assert(self@ =~= (InterruptView {
                injected: old(self)@.injected.insert(id@),
                ..old(self)@
            }));
        }
    }

    /// Takes out the interrupts that may be injected now.
    pub fn drain(&mut self) -> (frames: Vec<String>)
        requires
            old(self).wf(),
        ensures
            final(self).wf(),
            (final(self)@, texts(frames@)) == drained(old(self)@),
    {
        let mut frames: Vec<String> = Vec::new();
        if self.in_critical_section {
            proof {
                assert(texts(frames@) =~= Seq::empty());
            }
            return frames;
        }
        let ghost start = self@;
        let ghost queue = self@.queue;
        let ghost mut n: int = 0;
        proof {
            assert(queue.skip(0) =~= queue);
            assert(texts(frames@) =~= result_frames(start.style, queue.take(0)));
            assert(start.injected.union(ids_of(queue.take(0))) =~= start.injected);
        }
        while self.pending.len() > 0
            invariant
                self.wf(),
                0 <= n <= queue.len(),
                queue == start.queue,
                self@ == (InterruptView {
                    queue: queue.skip(n),
                    injected: start.injected.union(ids_of(queue.take(n))),
                    ..start
                }),
                texts(frames@) == result_frames(start.style, queue.take(n)),
            decreases self.pending.len(),
        {
            let ghost waiting = self.pending@;
            let ghost told = frames@;
            proof {
                assert(results(waiting) == queue.skip(n));
                assert(results(waiting).len() > 0);
            }
            match self.pending.pop_front() {
                Some(r) => {
                    proof {
                        assert(results(waiting)[0] == r@);
                        assert(queue.skip(n)[0] == queue[n]);
                        assert(self.pending@ =~= waiting.drop_first());
                        assert forall|i: int| 0 <= i < self.pending@.len() implies #[trigger] results(
                            self.pending@,
                        )[i] == queue.skip(n + 1)[i] by {
                            assert(results(waiting)[i + 1] == queue.skip(n)[i + 1]);
                        }
                        assert(results(self.pending@) =~= queue.skip(n + 1));
                    }
                    frames.push(frame_result(self.style, &r));
                    let ghost view = r@;
                    self.note_injected(r.id);
                    proof {
                        assert(queue.take(n + 1) =~= queue.take(n).push(queue[n]));
                        assert(texts(frames@) =~= texts(told).push(result_frame(start.style, view)));
                        assert(result_frames(start.style, queue.take(n + 1)) =~= result_frames(
                            start.style,
                            queue.take(n),
                        ).push(result_frame(start.style, queue[n])));
                        lemma_ids_push(queue.take(n), queue[n]);
                        assert(start.injected.union(ids_of(queue.take(n + 1))) =~= start.injected.union(
                            ids_of(queue.take(n)),
                        ).insert(queue[n].id));
                        n = n + 1;
                    }
                },
                None => {},
            }
        }
        proof {
            assert(n == queue.len()) by {
                assert(queue.skip(n).len() == 0);
            }
            assert(queue.take(n) =~= queue);
            assert(queue.skip(n) =~= Seq::empty());
        }
        frames
    }

    /// How many results wait.
    pub fn pending_count(&self) -> (n: usize)
        ensures
            n == self@.queue.len(),
    {
        self.pending.len()
    }

    /// Tells whether no result waits.
    pub fn is_empty(&self) -> (yes: bool)
        ensures
            yes == (self@.queue.len() == 0),
    {
        self.pending.len() == 0
    }
}

proof fn lemma_ids_push(rs: Seq<ResultView>, r: ResultView)
    ensures
        ids_of(rs.push(r)) == ids_of(rs).insert(r.id),
{
    let f = |r: ResultView| r.id;
    let a = rs.map_values(f);
    let b = rs.push(r).map_values(f);
    assert(b =~= a.push(r.id));
    assert forall|t: Seq<char>| #[trigger] b.contains(t) <==> a.contains(t) || t == r.id by {
        if a.contains(t) {
            let k = choose|k: int| 0 <= k < a.len() && a[k] == t;
            assert(b[k] == t);
        }
        assert(b[a.len() as int] == r.id);
    }
    assert(ids_of(rs.push(r)) =~= ids_of(rs).insert(r.id));
}

/// Results that came inside a block are not lost: draining inside it gives nothing and
/// keeps the queue, and draining after it gives the results from before and from inside the
/// block, in the order in which they came.
pub proof fn deferred_results_come_out_later(v: InterruptView, inside: Seq<ResultView>)
    requires
        v.critical,
    ensures
        ({
            let waiting = InterruptView { queue: v.queue + inside, ..v };
            let after = InterruptView { critical: false, ..drained(waiting).0 };
            &&& drained(waiting).1.len() == 0
            &&& drained(after).1 == result_frames(v.style, v.queue + inside)
            &&& drained(after).0.queue.len() == 0
        }),
{
}

} // verus!
