//! The quiz state machine: an immutable entry list, a progress cursor that
//! only moves forward, a per-question mistake counter, and the score
//! mapping updated on every correct answer.
//!
//! Scoring follows the counter-pair policy: a first-try correct answer
//! bumps `correct`, a correct answer reached after mistakes bumps
//! `incorrect`, and a wrong submission alone never writes to the mapping.
//! The single signed counter appears only as an alternative persisted
//! layout in `persist`.

use vstd::prelude::*;

use crate::chars::str_eq;
use crate::record::Entry;
use crate::score::Score;
use crate::table::Scores;

verus! {

/// One quiz round, standing for the entry at `index` in the state's list.
#[derive(Debug, Clone, Copy, PartialEq, Eq, Structural)]
pub struct Question {
    pub index: usize,
}

/// What one `next_question` step does to the cursor, as a pure function:
/// below the total it hands out the cursor and advances it, at the total
/// it reports exhaustion and stays put.
pub open spec fn next_question_model(progress: nat, total: nat) -> (nat, Option<nat>) {
    if progress < total {
        ((progress + 1) as nat, Some(progress))
    } else {
        (progress, None)
    }
}

/// The cursor after `n` steps of `next_question_model` from zero.
pub open spec fn progress_after(total: nat, n: nat) -> nat
    decreases n,
{
    if n == 0 {
        0
    } else {
        next_question_model(progress_after(total, (n - 1) as nat), total).0
    }
}

/// What the `n`-th call (counting from zero) hands out.
pub open spec fn call_result(total: nat, n: nat) -> Option<nat> {
    next_question_model(progress_after(total, n), total).1
}

pub proof fn lemma_progress_after(total: nat, n: nat)
    requires
        n <= total,
    ensures
        progress_after(total, n) == n,
    decreases n,
{
    if n > 0 {
        lemma_progress_after(total, (n - 1) as nat);
    }
}

/// Over a list of `total` entries, each of the first `total` calls hands
/// out a question, in list order; the call after them reports exhaustion,
/// with the cursor standing at `total`.
pub proof fn lemma_quiz_exhaustion(total: nat)
    ensures
        forall|k: nat| k < total ==> #[trigger] call_result(total, k) == Some(k),
        call_result(total, total) is None,
        progress_after(total, total) == total,
{
    assert forall|k: nat| k < total implies #[trigger] call_result(total, k) == Some(k) by {
        lemma_progress_after(total, k);
    }
    lemma_progress_after(total, total);
}

/// The aggregate written for a correct answer: the previous counters (or a
/// fresh pair), with `correct` bumped on a first-try answer and
/// `incorrect` bumped otherwise.
pub open spec fn record_answer(prev: Option<Score>, first_try: bool) -> Score {
    let base = match prev {
        Some(s) => s,
        None => Score { correct: 0, incorrect: 0 },
    };
    if first_try {
        Score { correct: (base.correct + 1) as u32, incorrect: base.incorrect }
    } else {
        Score { correct: base.correct, incorrect: (base.incorrect + 1) as u32 }
    }
}

/// The whole quiz: entries, scores, the cursor, and the mistake counter
/// for the question currently active.
pub struct GameState {
    pub entries: Vec<Entry>,
    pub scores: Scores,
    pub progress: usize,
    pub mistakes: usize,
}

impl GameState {
    /// The cursor never passes the entry list; the score keys stay
    /// pairwise distinct.
    pub open spec fn wf(&self) -> bool {
        self.progress <= self.entries@.len() && self.scores.wf()
    }

    /// What the mapping holds for a term.
    pub open spec fn score_of(&self, term: Seq<char>) -> Option<Score> {
        if self.scores@.dom().contains(term) {
            Some(self.scores@[term])
        } else {
            None
        }
    }

    /// The counters for `term` have room for one more answer.
    pub open spec fn can_score(&self, term: Seq<char>) -> bool {
        match self.score_of(term) {
            Some(s) => s.correct < u32::MAX && s.incorrect < u32::MAX,
            None => true,
        }
    }

    /// A fresh quiz over `entries`, with the cursor at the start.
    pub fn new(entries: Vec<Entry>, scores: Scores) -> (s: GameState)
        requires
            scores.wf(),
        ensures
            s.wf(),
            s.entries == entries,
            s.scores == scores,
            s.progress == 0,
            s.mistakes == 0,
    {
        Self { entries, scores, progress: 0, mistakes: 0 }
    }

    /// Hand out the next question and advance the cursor, resetting the
    /// mistake counter; report exhaustion, changing nothing, once the
    /// cursor has passed every entry.
    pub fn next_question(&mut self) -> (r: Option<Question>)
        requires
            old(self).wf(),
        ensures
            final(self).wf(),
            final(self).entries == old(self).entries,
            final(self).scores == old(self).scores,
            old(self).progress < old(self).entries@.len() ==> r == Some(
                Question { index: old(self).progress },
            ) && final(self).progress == old(self).progress + 1 && final(self).mistakes == 0,
            old(self).progress >= old(self).entries@.len() ==> r is None && *final(self) == *old(
                self,
            ),
            (final(self).progress as nat, match r {
                Some(q) => Some(q.index as nat),
                None => None,
            }) == next_question_model(old(self).progress as nat, old(self).entries@.len()),
    {
        if self.progress < self.entries.len() {
            let i = self.progress;
            self.progress = self.progress + 1;
            self.mistakes = 0;
            Some(Question { index: i })
        } else {
            None
        }
    }

    /// Compare a submission with the active question's term, exactly and
    /// case-sensitively. A match records the answer under the scoring
    /// policy and leaves the mistake counter alone; a mismatch only
    /// increments the mistake counter.
    pub fn answer_question(&mut self, question: &Question, answer: String) -> (r: bool)
        requires
            old(self).wf(),
            question.index < old(self).entries@.len(),
            old(self).mistakes < usize::MAX,
            old(self).can_score(old(self).entries@[question.index as int].term@),
        ensures
            final(self).wf(),
            final(self).entries == old(self).entries,
            final(self).progress == old(self).progress,
            r == (old(self).entries@[question.index as int].term@ == answer@),
            r ==> final(self).mistakes == old(self).mistakes && final(self).scores@ == old(
                self,
            ).scores@.insert(
                answer@,
                record_answer(old(self).score_of(answer@), old(self).mistakes == 0),
            ),
            !r ==> final(self).scores == old(self).scores && final(self).mistakes == old(
                self,
            ).mistakes + 1,
    {
        let is_correct = str_eq(self.entries[question.index].term.as_str(), answer.as_str());
        if is_correct {
            let prev = self.scores.get(answer.as_str());
            let sc = match prev {
                Some(p) => if self.mistakes == 0 {
                    p.increment_correct()
                } else {
                    p.increment_incorrect()
                },
                None => if self.mistakes == 0 {
                    Score { correct: 1, incorrect: 0 }
                } else {
                    Score { correct: 0, incorrect: 1 }
                },
            };
            self.scores.insert(answer, sc);
        } else {
            self.mistakes = self.mistakes + 1;
        }
        is_correct
    }

    /// The stored aggregate for a term, if any.
    pub fn get_score(&self, term: &str) -> (r: Option<Score>)
        requires
            self.wf(),
        ensures
            r == self.score_of(term@),
    {
        self.scores.get(term)
    }

    /// The entry a question stands for.
    pub fn entry(&self, question: &Question) -> (r: &Entry)
        requires
            question.index < self.entries@.len(),
        ensures
            r == &self.entries@[question.index as int],
    {
        &self.entries[question.index]
    }
}

} // verus!
