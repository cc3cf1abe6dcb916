//! The session-level decisions: sorting a raw input line into an answer or
//! a quit command, and the outcome of one quiz round. The blocking
//! terminal loop around them only performs what these functions decide.

use vstd::prelude::*;

use crate::chars::string_chars;
use crate::quiz::record_answer;
use crate::quiz::GameState;
use crate::quiz::Question;

verus! {

/// What the input boundary hands back: a submitted line, or the wish to
/// stop (an explicit quit command, an interrupt, or end of input).
#[derive(Debug)]
pub enum UIResponse {
    Return(String),
    Quit,
}

/// How one round ends: move to the next question, ask the same one again,
/// or abandon the session.
#[derive(Debug, Clone, Copy, PartialEq, Eq, Structural)]
pub enum RoundOutcome {
    Advance,
    Retry,
    Abort,
}

pub open spec fn quit_word() -> Seq<char> {
    seq!['q', 'u', 'i', 't']
}

/// A line is a quit command when it opens with the command prefix `:` and
/// the rest is a prefix of `quit` — including the bare `:`.
pub open spec fn is_quit_command(s: Seq<char>) -> bool {
    s.len() > 0 && s[0] == ':' && s.drop_first().is_prefix_of(quit_word())
}

/// Sort one submitted line: a quit command becomes `Quit`; everything
/// else — prefixed or not — passes through unchanged as an answer.
pub fn classify_input(input: String) -> (r: UIResponse)
    ensures
        is_quit_command(input@) ==> r == UIResponse::Quit,
        !is_quit_command(input@) ==> r == UIResponse::Return(input),
{
    let ghost s = input@;
    let cs = string_chars(input.as_str());
    let n = cs.len();
    if n == 0 {
        return UIResponse::Return(input);
    }
    if cs[0] != ':' {
        return UIResponse::Return(input);
    }
    if n > 5 {
        proof {
            assert(s.drop_first().len() > quit_word().len());
            assert(!s.drop_first().is_prefix_of(quit_word()));
        }
        return UIResponse::Return(input);
    }
    let mut qv: Vec<char> = Vec::new();
    qv.push('q');
    qv.push('u');
    qv.push('i');
    qv.push('t');
    proof {
        assert(qv@ =~= quit_word());
    }
    let mut i: usize = 1;
    while i < n
        invariant
            s == input@,
            cs@ == s,
            n == s.len(),
            1 <= i <= n,
            n <= 5,
            qv@ == quit_word(),
            forall|j: int| 1 <= j < i ==> s[j] == quit_word()[j - 1],
        decreases n - i,
    {
        if cs[i] != qv[i - 1] {
            proof {
                assert(quit_word().len() == 4);
                assert(s.drop_first()[i - 1] == s[i as int]);
                if s.drop_first().is_prefix_of(quit_word()) {
                    assert(s.drop_first() == quit_word().subrange(
                        0,
                        s.drop_first().len() as int,
                    ));
                    assert(s.drop_first()[i - 1] == quit_word()[i - 1]);
                    assert(false);
                }
            }
            return UIResponse::Return(input);
        }
        i = i + 1;
    }
    proof {
        assert(s.drop_first() =~= quit_word().subrange(0, s.drop_first().len() as int));
        assert(s.drop_first().is_prefix_of(quit_word()));
    }
    UIResponse::Quit
}

/// Decide one round of the session loop from the input boundary's answer:
/// quitting aborts with the state untouched; a submission is judged by the
/// state machine, a correct one advancing and recording the score, a wrong
/// one asking again with one more mistake on the counter.
pub fn play_round(state: &mut GameState, question: &Question, response: UIResponse) -> (r:
    RoundOutcome)
    requires
        old(state).wf(),
        question.index < old(state).entries@.len(),
        old(state).mistakes < usize::MAX,
        old(state).can_score(old(state).entries@[question.index as int].term@),
    ensures
        final(state).wf(),
        final(state).entries == old(state).entries,
        final(state).progress == old(state).progress,
        response matches UIResponse::Quit ==> r == RoundOutcome::Abort && *final(state)
            == *old(state),
        response matches UIResponse::Return(ans) ==> (if old(state).entries@[question.index
            as int].term@ == ans@ {
            r == RoundOutcome::Advance && final(state).mistakes == old(state).mistakes
                && final(state).scores@ == old(state).scores@.insert(
                ans@,
                record_answer(old(state).score_of(ans@), old(state).mistakes == 0),
            )
        } else {
            r == RoundOutcome::Retry && final(state).scores == old(state).scores
                && final(state).mistakes == old(state).mistakes + 1
        }),
{
    match response {
        UIResponse::Quit => RoundOutcome::Abort,
        UIResponse::Return(ans) => {
            if state.answer_question(question, ans) {
                RoundOutcome::Advance
            } else {
                RoundOutcome::Retry
            }
        },
    }
}

} // verus!
