//! The progressive hint: a masked copy of the term in which every
//! non-letter shows as itself, and a letter shows only once the learner's
//! mistake count exceeds its position among the term's letters. The live
//! input's length is skipped, so the hint is always the remaining suffix.

use vstd::prelude::*;

use crate::chars::chars_string;
use crate::chars::is_alpha;
use crate::chars::is_ascii_alpha;
use crate::chars::string_chars;

verus! {

/// How many ASCII letters `s` holds.
pub open spec fn count_alpha(s: Seq<char>) -> nat
    decreases s.len(),
{
    if s.len() == 0 {
        0
    } else {
        count_alpha(s.drop_last()) + if is_alpha(s.last()) {
            1nat
        } else {
            0nat
        }
    }
}

/// The character shown at position `i` of the term's hint: non-letters as
/// themselves, a letter only when its index among the letters is below the
/// mistake count, a mask otherwise.
pub open spec fn hint_char(term: Seq<char>, mistakes: nat, i: int) -> char {
    if !is_alpha(term[i]) {
        term[i]
    } else if count_alpha(term.take(i)) < mistakes {
        term[i]
    } else {
        '_'
    }
}

/// The whole masked term at a given mistake count.
pub open spec fn hint_seq(term: Seq<char>, mistakes: nat) -> Seq<char> {
    Seq::new(term.len(), |i: int| hint_char(term, mistakes, i))
}

/// The hint actually displayed: the masked term with the characters the
/// learner has already typed cut off the front.
pub open spec fn hint_display(term: Seq<char>, mistakes: nat, typed: nat) -> Seq<char> {
    if typed <= term.len() {
        hint_seq(term, mistakes).skip(typed as int)
    } else {
        Seq::<char>::empty()
    }
}

/// Compute the hint for `term` after `mistakes` wrong submissions, with
/// `typed` characters already in the input buffer.
pub fn hint(term: &str, mistakes: usize, typed: usize) -> (r: String)
    ensures
        r@ == hint_display(term@, mistakes as nat, typed as nat),
{
    let ghost s = term@;
    let cs = string_chars(term);
    let n = cs.len();
    let mut out: Vec<char> = Vec::new();
    let mut letters: usize = 0;
    let mut i: usize = 0;
    while i < n
        invariant
            cs@ == s,
            n == s.len(),
            i <= n,
            letters <= i,
            letters == count_alpha(s.take(i as int)),
            out@ == (if typed as int <= i as int {
                hint_seq(s, mistakes as nat).subrange(typed as int, i as int)
            } else {
                Seq::<char>::empty()
            }),
        decreases n - i,
    {
        let c = cs[i];
        let alpha = is_ascii_alpha(c);
        let emit: char = if alpha {
            if letters < mistakes {
                c
            } else {
                '_'
            }
        } else {
            c
        };
        proof {
            assert(hint_seq(s, mistakes as nat)[i as int] == emit);
        }
        if i >= typed {
            out.push(emit);
            proof {
                assert(out@ =~= hint_seq(s, mistakes as nat).subrange(typed as int, i + 1));
            }
        }
        proof {
            assert(s.take(i + 1).drop_last() =~= s.take(i as int));
            assert(s.take(i + 1).last() == s[i as int]);
        }
        if alpha {
            letters = letters + 1;
        }
        i = i + 1;
    }
    proof {
        if typed as int <= n as int {
            assert(hint_seq(s, mistakes as nat).subrange(typed as int, n as int) =~= hint_seq(
                s,
                mistakes as nat,
            ).skip(typed as int));
        }
    }
    chars_string(&out)
}

/// With no mistakes the hint reveals nothing of the letters: every ASCII
/// letter of the term is masked and every other character shows as itself.
pub proof fn lemma_hint_zero_mistakes(term: Seq<char>, i: int)
    requires
        0 <= i < term.len(),
    ensures
        is_alpha(term[i]) ==> hint_seq(term, 0)[i] == '_',
        !is_alpha(term[i]) ==> hint_seq(term, 0)[i] == term[i],
{
}

/// At `mistakes == k` a letter is revealed exactly when its position among
/// the term's letters lies below `k`; non-letters are always shown.
pub proof fn lemma_hint_reveal(term: Seq<char>, mistakes: nat, i: int)
    requires
        0 <= i < term.len(),
    ensures
        is_alpha(term[i]) ==> hint_seq(term, mistakes)[i] == (if count_alpha(term.take(i))
            < mistakes {
            term[i]
        } else {
            '_'
        }),
        !is_alpha(term[i]) ==> hint_seq(term, mistakes)[i] == term[i],
{
}

/// Raising the mistake count never re-masks a character: whatever the hint
/// shows of the term at `m1`, it still shows at any `m2 >= m1`.
pub proof fn lemma_hint_monotonic(term: Seq<char>, m1: nat, m2: nat, i: int)
    requires
        m1 <= m2,
        0 <= i < term.len(),
        hint_seq(term, m1)[i] == term[i],
    ensures
        hint_seq(term, m2)[i] == term[i],
{
}

} // verus!
