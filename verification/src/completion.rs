//! Plain text completion: what a chat decoder tells, put together.

use vstd::prelude::*;
use vstd::string::*;

use crate::prompts::COMPLETION_SYSTEM;

verus! {

broadcast use vstd::string::group_string_axioms;

/// How many tokens are generated unless the request says otherwise.
pub fn default_max_tokens() -> (n: usize)
    ensures
        n == 1024,
{
    1024
}

/// The system prompt unless the request says otherwise.
pub fn default_system() -> (text: String)
    ensures
        text@ == COMPLETION_SYSTEM@,
{
    COMPLETION_SYSTEM.to_owned()
}

/// What a chat decoder tells of a step.
#[derive(Debug)]
pub enum Told {
    /// More text.
    Delta(String),
    /// The whole text; nothing follows.
    Done(String),
    /// Nothing.
    Idle,
}

/// The text of an answer.
pub struct Transcript {
    text: String,
    done: bool,
}

impl Transcript {
    /// The text so far.
    pub closed spec fn text(&self) -> Seq<char> {
        self.text@
    }

    /// The answer is complete.
    pub closed spec fn is_done(&self) -> bool {
        self.done
    }

    /// No text yet.
    pub fn new() -> (t: Transcript)
        ensures
            t.text().len() == 0,
            !t.is_done(),
    {
        Transcript { text: String::new(), done: false }
    }

    /// Takes what the decoder tells and says whether the answer is complete: text is added,
    /// and the whole text takes the place of what there was.
    pub fn take(&mut self, told: Told) -> (done: bool)
        ensures
            done == final(self).is_done(),
            match told {
                Told::Delta(s) => final(self).text() == old(self).text() + s@
                    && final(self).is_done() == old(self).is_done(),
                Told::Done(s) => final(self).text() == s@ && final(self).is_done(),
                Told::Idle => final(self).text() == old(self).text() && final(self).is_done()
                    == old(self).is_done(),
            },
    {
        match told {
            Told::Delta(s) => {
                self.text.append(s.as_str());
            },
            Told::Done(s) => {
                self.text = s;
                self.done = true;
            },
            Told::Idle => {},
        }
        self.done
    }

    /// The text.
    pub fn into_text(self) -> (text: String)
        ensures
            text@ == self.text(),
    {
        self.text
    }
}

} // verus!
