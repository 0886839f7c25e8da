//! The part of a session that calls and interrupts flow through.

use vstd::prelude::*;
use vstd::string::*;

use crate::interrupts::{drained, texts, FrameStyle, InterruptManager, InterruptView};
use crate::machine::{Event, Signal};
use crate::session::{
    pendings, plain_results, poll_all, results_of, still_out, Action, Pending, PendingView,
};

verus! {

broadcast use vstd::string::group_string_axioms;

/// The flow as it stands.
#[verifier::ext_equal]
pub struct FlowView {
    /// The tokens of the answer.
    pub generated: Seq<u32>,
    /// The calls that are out, in the order in which they went out.
    pub pending: Seq<PendingView>,
    pub interrupts: InterruptView,
    /// How long a call takes, in milliseconds.
    pub wait_ms: u64,
}

/// What a signal does, and what the driver is asked to do.
pub open spec fn flow_effect(s: FlowView, e: Signal) -> (FlowView, Action) {
    match e {
        Signal::Token(t) => (FlowView { generated: s.generated.push(t), ..s }, Action::Continue),
        Signal::Call { id, code } => (
            FlowView {
                pending: s.pending.push(PendingView { id, code, wait_ms: s.wait_ms }),
                ..s
            },
            Action::Started,
        ),
        Signal::Trap => (s, Action::Trap),
        Signal::Enter => (
            FlowView { interrupts: InterruptView { critical: true, ..s.interrupts }, ..s },
            Action::Continue,
        ),
        Signal::Exit => (
            FlowView { interrupts: InterruptView { critical: false, ..s.interrupts }, ..s },
            Action::Continue,
        ),
        Signal::Hint => (s, Action::Checkpoint),
    }
}

/// The flow after every call has been polled once: results queue up as interrupts.
pub open spec fn flow_polled(s: FlowView, ready: Seq<bool>) -> FlowView {
    FlowView {
        pending: still_out(s.pending, ready),
        interrupts: InterruptView {
            queue: s.interrupts.queue + results_of(s.pending, ready),
            ..s.interrupts
        },
        ..s
    }
}

/// The flow after the interrupts have been let through, and the interrupts.
pub open spec fn flow_released(s: FlowView) -> (FlowView, Seq<Seq<char>>) {
    let (interrupts, frames) = drained(InterruptView { critical: false, ..s.interrupts });
    (FlowView { interrupts, ..s }, frames)
}

/// Calls and interrupts of a session.
pub struct Flow {
    pub generated: Vec<u32>,
    pub pending: Vec<Pending>,
    pub interrupts: InterruptManager,
    pub wait_ms: u64,
}

impl View for Flow {
    type V = FlowView;

    open spec fn view(&self) -> FlowView {
        FlowView {
            generated: self.generated@,
            pending: pendings(self.pending@),
            interrupts: self.interrupts@,
            wait_ms: self.wait_ms,
        }
    }
}

/// A flow in which nothing has happened yet.
pub open spec fn fresh_flow(wait_ms: u64) -> FlowView {
    FlowView {
        generated: Seq::empty(),
        pending: Seq::empty(),
        interrupts: InterruptView {
            style: FrameStyle::Spaced,
            queue: Seq::empty(),
            injected: Set::empty(),
            critical: false,
        },
        wait_ms,
    }
}

impl Flow {
    /// The queue of interrupts is well-formed.
    pub open spec fn wf(&self) -> bool {
        self.interrupts.wf()
    }

    /// Nothing has happened yet.
    pub fn new(wait_ms: u64) -> (f: Flow)
        ensures
            f.wf(),
            f@ == fresh_flow(wait_ms),
    {
        let f = Flow {
            generated: Vec::new(),
            pending: Vec::new(),
            interrupts: InterruptManager::new(FrameStyle::Spaced),
            wait_ms,
        };
        proof {
            assert(f@ =~= fresh_flow(wait_ms));
        }
        f
    }

    /// Takes an event of the parser and says what the driver is to do.
    pub fn on_event(&mut self, e: Event) -> (action: Action)
        requires
            old(self).wf(),
        ensures
            final(self).wf(),
            (final(self)@, action) == flow_effect(old(self)@, e@),
    {
        match e {
            Event::Passthrough(t) => {
                self.generated.push(t);
                Action::Continue
            },
            Event::Call { id, code } => {
                let ghost before = self.pending@;
                let call = Pending { id, code, wait_ms: self.wait_ms };
                let ghost view = call@;
                self.pending.push(call);
                proof {
                    assert(pendings(self.pending@) =~= pendings(before).push(view));
                }
                Action::Started
            },
            Event::Trap => Action::Trap,
            Event::EnterCriticalSection => {
                self.interrupts.set_critical(true);
                Action::Continue
            },
            Event::ExitCriticalSection => {
                self.interrupts.set_critical(false);
                Action::Continue
            },
            Event::EnteringBlockHint => Action::Checkpoint,
        }
    }

    /// Polls every call once: the results of those that are ready queue up as interrupts.
    pub fn poll(&mut self, ready: &Vec<bool>)
        requires
            old(self).wf(),
            old(self)@.pending.len() == ready.len(),
        ensures
            final(self).wf(),
            final(self)@ == flow_polled(old(self)@, ready@),
    {
        let ghost before = self@;
        let done = poll_all(&mut self.pending, ready);
        let ghost results = plain_results(done@);
        let mut i: usize = 0;
        proof {
            assert(before.interrupts.queue + results.take(0) =~= before.interrupts.queue);
        }
        while i < done.len()
            invariant
                self.wf(),
                i <= done.len(),
                results == plain_results(done@),
                self@ == (FlowView {
                    pending: still_out(before.pending, ready@),
                    interrupts: InterruptView {
                        queue: before.interrupts.queue + results.take(i as int),
                        ..before.interrupts
                    },
                    ..before
                }),
            decreases done.len() - i,
        {
            self.interrupts.enqueue(done[i].0.as_str(), done[i].1.as_str());
            i = i + 1;
            proof {
                assert(before.interrupts.queue + results.take(i as int) =~= (
                before.interrupts.queue + results.take(i - 1)).push(results[i - 1]));
            }
        }
        proof {
            assert(results.take(done@.len() as int) =~= results);
        }
    }

    /// Tells whether a trap has anything to wait for or to inject.
    pub fn trap_due(&self) -> (yes: bool)
        ensures
            yes == (self@.pending.len() > 0 || self@.interrupts.queue.len() > 0),
    {
        self.pending.len() > 0 || self.interrupts.pending_count() > 0
    }

    /// Lets the interrupts through, as at the end of a trap.
    pub fn release(&mut self) -> (frames: Vec<String>)
        requires
            old(self).wf(),
        ensures
            final(self).wf(),
            (final(self)@, texts(frames@)) == flow_released(old(self)@),
    {
        self.interrupts.set_critical(false);
        self.interrupts.drain()
    }
}

/// A trap that has waited for every call injects all results, those that were queued before
/// and those that came while it waited, and leaves nothing behind.
pub proof fn trap_injects_everything(s: FlowView, ready: Seq<bool>)
    requires
        forall|i: int| 0 <= i < s.pending.len() ==> ready[i],
    ensures
        ({
            let waited = flow_polled(s, ready);
            let (after, frames) = flow_released(waited);
            &&& after.pending.len() == 0
            &&& after.interrupts.queue.len() == 0
            &&& frames.len() == s.interrupts.queue.len() + s.pending.len()
        }),
{
    crate::session::all_ready_empties_the_list(s.pending, ready);
}

} // verus!
