//! A point in the stream to go back to.

use vstd::prelude::*;

use crate::interrupts::texts;

verus! {

/// A fork of the context and how long things were when it was made.
pub struct Checkpoint<C> {
    pub ctx: C,
    /// The whole context, committed and pending.
    pub token_count_at_save: usize,
    /// The committed part alone.
    pub committed_len_at_save: usize,
    /// The tokens generated.
    pub generated_len_at_save: usize,
}

/// Holds at most one checkpoint.
pub struct CheckpointManager<C> {
    pub current: Option<Checkpoint<C>>,
}

impl<C> CheckpointManager<C> {
    /// No checkpoint.
    pub fn new() -> (m: CheckpointManager<C>)
        ensures
            m.current is None,
    {
        CheckpointManager { current: None }
    }

    /// Makes a checkpoint of `fork`, in place of one that was there.
    pub fn save(&mut self, fork: C, committed: usize, pending: usize, generated_len: usize)
        requires
            committed + pending <= usize::MAX,
        ensures
            final(self).current == Some(
                Checkpoint {
                    ctx: fork,
                    token_count_at_save: (committed + pending) as usize,
                    committed_len_at_save: committed,
                    generated_len_at_save: generated_len,
                },
            ),
    {
        self.current = Some(
            Checkpoint {
                ctx: fork,
                token_count_at_save: committed + pending,
                committed_len_at_save: committed,
                generated_len_at_save: generated_len,
            },
        );
    }

    /// Tells whether there is a checkpoint.
    pub fn has_checkpoint(&self) -> (yes: bool)
        ensures
            yes == (self.current is Some),
    {
        self.current.is_some()
    }

    /// Takes the checkpoint.
    pub fn take(&mut self) -> (c: Option<Checkpoint<C>>)
        ensures
            c == old(self).current,
            final(self).current is None,
    {
        self.current.take()
    }

    /// Drops the checkpoint.
    pub fn discard(&mut self)
        ensures
            final(self).current is None,
    {
        self.current = None;
    }

    /// The length of the context at the checkpoint.
    pub fn checkpoint_token_count(&self) -> (n: Option<usize>)
        ensures
            n == (match self.current {
                Some(c) => Some(c.token_count_at_save),
                None => None,
            }),
    {
        match &self.current {
            Some(c) => Some(c.token_count_at_save),
            None => None,
        }
    }

    /// The length of the committed part of the context at the checkpoint.
    pub fn committed_len(&self) -> (n: Option<usize>)
        ensures
            n == (match self.current {
                Some(c) => Some(c.committed_len_at_save),
                None => None,
            }),
    {
        match &self.current {
            Some(c) => Some(c.committed_len_at_save),
            None => None,
        }
    }
}

/// How generation goes on after a trap.
pub enum Resumption<C> {
    /// As before.
    Unchanged,
    /// With `frames` added to the context.
    Fill { frames: Vec<String> },
    /// With `ctx` in place of the context, and `frames` added to it.
    Restore { ctx: C, frames: Vec<String> },
    /// With the context cut back, and `frames` added to it.
    Shorten { cut: CutBack, frames: Vec<String> },
}

/// The interrupts that are added to the context.
pub open spec fn added<C>(r: Resumption<C>) -> Seq<Seq<char>> {
    match r {
        Resumption::Unchanged => Seq::empty(),
        Resumption::Fill { frames } => texts(frames@),
        Resumption::Restore { ctx: _, frames } => texts(frames@),
        Resumption::Shorten { cut: _, frames } => texts(frames@),
    }
}

/// The first `n` tokens, or all of them.
pub open spec fn shortened(s: Seq<u32>, n: usize) -> Seq<u32> {
    if n <= s.len() {
        s.take(n as int)
    } else {
        s
    }
}

/// Cuts `tokens` to its first `n`.
pub fn shorten(tokens: &mut Vec<u32>, n: usize)
    ensures
        final(tokens)@ == shortened(old(tokens)@, n),
{
    tokens.truncate(n);
    proof {
        assert(n <= old(tokens)@.len() ==> tokens@ =~= old(tokens)@.take(n as int));
    }
}

/// How a context is cut back to a checkpoint.
#[derive(Debug, Clone, Copy, PartialEq, Eq, Structural)]
pub struct CutBack {
    /// The length to cut back to.
    pub target: usize,
    /// How many tokens go.
    pub removed: usize,
    /// The end of the range of the attention mask that goes, from `target` on.
    pub mask_end: usize,
}

/// `cut` takes the committed part of a context back to its length at the checkpoint. The
/// mask covers one token more, the one that is pending.
pub open spec fn cuts_committed(cut: CutBack, committed: usize, committed_at_save: usize) -> bool {
    &&& cut.target == committed_at_save
    &&& cut.removed == (if committed >= committed_at_save {
        committed - committed_at_save
    } else {
        0
    })
    &&& cut.mask_end == cut.target + cut.removed + 1
}

/// Cuts the committed part of a context back to its length at the checkpoint.
pub fn cut_committed(committed: usize, committed_at_save: usize) -> (cut: CutBack)
    requires
        committed < usize::MAX,
        committed_at_save < usize::MAX,
    ensures
        cuts_committed(cut, committed, committed_at_save),
{
    let removed: usize = if committed >= committed_at_save {
        committed - committed_at_save
    } else {
        0
    };
    CutBack { target: committed_at_save, removed, mask_end: committed_at_save + removed + 1 }
}

/// `cut` takes a context back by as many tokens as it has grown by since the checkpoint.
pub open spec fn cuts_grown(
    cut: CutBack,
    committed: usize,
    context_len: usize,
    token_count_at_save: usize,
) -> bool {
    &&& cut.removed == (if context_len >= token_count_at_save {
        context_len - token_count_at_save
    } else {
        0
    })
    &&& cut.target == (if committed >= cut.removed {
        committed - cut.removed
    } else {
        0
    })
    &&& cut.mask_end == cut.target + cut.removed
}

/// Cuts a context back by as many tokens as it has grown by since the checkpoint.
pub fn cut_grown(committed: usize, context_len: usize, token_count_at_save: usize) -> (cut: CutBack)
    requires
        committed <= context_len,
    ensures
        cuts_grown(cut, committed, context_len, token_count_at_save),
{
    let removed: usize = if context_len >= token_count_at_save {
        context_len - token_count_at_save
    } else {
        0
    };
    let target: usize = if committed >= removed {
        committed - removed
    } else {
        0
    };
    CutBack { target, removed, mask_end: target + removed }
}

/// A context that has grown since the checkpoint is back at its committed length there.
pub proof fn cut_restores_committed_length(
    cut: CutBack,
    committed: usize,
    committed_at_save: usize,
)
    requires
        cuts_committed(cut, committed, committed_at_save),
        committed >= committed_at_save,
    ensures
        committed - cut.removed == committed_at_save,
        cut.mask_end == committed + 1,
{
}

} // verus!
