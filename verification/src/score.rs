//! Per-term aggregate score: how often the term was answered right on the
//! first try (`correct`) and how often only after at least one mistake
//! (`incorrect`).

use vstd::prelude::*;

verus! {

#[derive(Clone, Copy, Debug, PartialEq, Eq, Structural)]
pub struct Score {
    pub correct: u32,
    pub incorrect: u32,
}

impl Default for Score {
    /// A fresh score: no tries recorded yet.
    fn default() -> (r: Self)
        ensures
            r.correct == 0,
            r.incorrect == 0,
    {
        Score { correct: 0, incorrect: 0 }
    }
}

impl Score {
    /// Record a first-try correct answer.
    pub fn increment_correct(&self) -> (r: Self)
        requires
            self.correct < u32::MAX,
        ensures
            r.correct == self.correct + 1,
            r.incorrect == self.incorrect,
    {
        Self { correct: self.correct + 1, incorrect: self.incorrect }
    }

    /// Record a correct answer that was reached only after mistakes.
    pub fn increment_incorrect(&self) -> (r: Self)
        requires
            self.incorrect < u32::MAX,
        ensures
            r.correct == self.correct,
            r.incorrect == self.incorrect + 1,
    {
        Self { correct: self.correct, incorrect: self.incorrect + 1 }
    }

    /// How many times this term has been answered over all sessions.
    pub fn total_tries(&self) -> (r: u32)
        requires
            self.correct + self.incorrect <= u32::MAX,
        ensures
            r == self.correct + self.incorrect,
    {
        self.correct + self.incorrect
    }
}

} // verus!
