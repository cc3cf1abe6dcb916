//! The persisted score file: one term per line, tab-separated fields. Two
//! layouts exist: the counter pair `term\tcorrect\tincorrect`, and the
//! single signed counter `term\tscore`. Missing or unparsable numeric
//! fields read as zero; surplus fields are ignored. Saving writes the
//! mapping wholesale, one line per pair in insertion order.

use vstd::prelude::*;

use crate::chars::chars_string;
use crate::chars::is_digit;
use crate::chars::string_chars;
use crate::chars::subvec;
use crate::numfmt::all_digits;
use crate::numfmt::dec_digits;
use crate::numfmt::dec_signed;
use crate::numfmt::format_i64;
use crate::numfmt::format_u64;
use crate::numfmt::lemma_dec_digits_val;
use crate::numfmt::lemma_i64_round_trip;
use crate::numfmt::lemma_u32_round_trip;
use crate::numfmt::parse_i64;
use crate::numfmt::parse_i64_spec;
use crate::numfmt::parse_u32;
use crate::numfmt::parse_u32_spec;
use crate::score::Score;
use crate::table::table_map;
use crate::table::ScoreTable;
use crate::table::Scores;

verus! {

/// The first tab at or after `i`, or the line's length.
pub open spec fn field_end(s: Seq<char>, i: int) -> int
    decreases s.len() - i,
{
    if i < 0 || i >= s.len() {
        s.len() as int
    } else if s[i] == '\t' {
        i
    } else {
        field_end(s, i + 1)
    }
}

/// Where no tab stands in `from..k` and `k` holds a tab or ends the line,
/// the field ends at `k`.
pub proof fn lemma_field_end_at(s: Seq<char>, from: int, k: int)
    requires
        0 <= from <= k <= s.len(),
        forall|j: int| from <= j < k ==> s[j] != '\t',
        k == s.len() || s[k] == '\t',
    ensures
        field_end(s, from) == k,
    decreases k - from,
{
    if from < k {
        lemma_field_end_at(s, from + 1, k);
    }
}

/// No tab anywhere: the shape a term must have for its line to read back.
pub open spec fn no_tabs(s: Seq<char>) -> bool {
    forall|i: int| 0 <= i < s.len() ==> s[i] != '\t'
}

pub open spec fn or_zero_u32(o: Option<u32>) -> u32 {
    match o {
        Some(v) => v,
        None => 0,
    }
}

pub open spec fn or_zero_i64(o: Option<i64>) -> i64 {
    match o {
        Some(v) => v,
        None => 0,
    }
}

/// The term a score line carries: everything before the first tab.
pub open spec fn parse_line_term(s: Seq<char>) -> Seq<char> {
    s.take(field_end(s, 0))
}

/// The counter pair a score line carries, absent or malformed fields read
/// as zero and fields past the third ignored.
pub open spec fn parse_line_score(s: Seq<char>) -> Score {
    let t1 = field_end(s, 0);
    if t1 >= s.len() {
        Score { correct: 0, incorrect: 0 }
    } else {
        let t2 = field_end(s, t1 + 1);
        let correct = or_zero_u32(parse_u32_spec(s.subrange(t1 + 1, t2)));
        if t2 >= s.len() {
            Score { correct, incorrect: 0 }
        } else {
            let t3 = field_end(s, t2 + 1);
            Score { correct, incorrect: or_zero_u32(parse_u32_spec(s.subrange(t2 + 1, t3))) }
        }
    }
}

/// The signed counter a score line carries under the single-field layout.
pub open spec fn parse_line_signed(s: Seq<char>) -> i64 {
    let t1 = field_end(s, 0);
    if t1 >= s.len() {
        0
    } else {
        let t2 = field_end(s, t1 + 1);
        or_zero_i64(parse_i64_spec(s.subrange(t1 + 1, t2)))
    }
}

/// One saved line under the counter-pair layout.
pub open spec fn score_line(term: Seq<char>, sc: Score) -> Seq<char> {
    term + seq!['\t'] + dec_digits(sc.correct as nat) + seq!['\t'] + dec_digits(
        sc.incorrect as nat,
    )
}

/// One saved line under the signed layout.
pub open spec fn signed_line(term: Seq<char>, v: i64) -> Seq<char> {
    term + seq!['\t'] + dec_signed(v as int)
}

/// The mapping a whole score file denotes under the counter-pair layout.
pub open spec fn scores_map(lines: Seq<Seq<char>>) -> Map<Seq<char>, Score>
    decreases lines.len(),
{
    if lines.len() == 0 {
        Map::<Seq<char>, Score>::empty()
    } else {
        scores_map(lines.drop_last()).insert(
            parse_line_term(lines.last()),
            parse_line_score(lines.last()),
        )
    }
}

/// The mapping a whole score file denotes under the signed layout.
pub open spec fn signed_map(lines: Seq<Seq<char>>) -> Map<Seq<char>, i64>
    decreases lines.len(),
{
    if lines.len() == 0 {
        Map::<Seq<char>, i64>::empty()
    } else {
        signed_map(lines.drop_last()).insert(
            parse_line_term(lines.last()),
            parse_line_signed(lines.last()),
        )
    }
}

/// The saved form of a mapping, line by line, under the counter-pair layout.
pub open spec fn score_lines(items: Seq<(String, Score)>) -> Seq<Seq<char>> {
    items.map_values(|p: (String, Score)| score_line(p.0@, p.1))
}

/// The saved form of a mapping under the signed layout.
pub open spec fn signed_lines(items: Seq<(String, i64)>) -> Seq<Seq<char>> {
    items.map_values(|p: (String, i64)| signed_line(p.0@, p.1))
}

/// The first tab at or after `from`, or the line's length.
fn find_tab(cs: &Vec<char>, from: usize) -> (r: usize)
    requires
        from <= cs@.len(),
    ensures
        r == field_end(cs@, from as int),
        from <= r <= cs@.len(),
{
    let n = cs.len();
    let mut i: usize = from;
    while i < n && cs[i] != '\t'
        invariant
            from <= i <= n,
            n == cs@.len(),
            field_end(cs@, from as int) == field_end(cs@, i as int),
        decreases n - i,
    {
        proof {
            assert(field_end(cs@, i as int) == field_end(cs@, i + 1));
        }
        i = i + 1;
    }
    proof {
        assert(field_end(cs@, i as int) == i as int);
    }
    i
}

/// Read one line of the counter-pair layout: the term before the first
/// tab, then two numeric fields, each zero when missing or malformed.
pub fn parse_score_line(line: &str) -> (r: (String, Score))
    ensures
        r.0@ == parse_line_term(line@),
        r.1 == parse_line_score(line@),
{
    let cs = string_chars(line);
    let n = cs.len();
    let t1 = find_tab(&cs, 0);
    let term = chars_string(&subvec(&cs, 0, t1));
    if t1 == n {
        return (term, Score { correct: 0, incorrect: 0 });
    }
    let t2 = find_tab(&cs, t1 + 1);
    let f2 = chars_string(&subvec(&cs, t1 + 1, t2));
    let correct = match parse_u32(f2.as_str()) {
        Some(v) => v,
        None => 0,
    };
    if t2 == n {
        return (term, Score { correct, incorrect: 0 });
    }
    let t3 = find_tab(&cs, t2 + 1);
    let f3 = chars_string(&subvec(&cs, t2 + 1, t3));
    let incorrect = match parse_u32(f3.as_str()) {
        Some(v) => v,
        None => 0,
    };
    (term, Score { correct, incorrect })
}

/// Read one line of the signed layout.
pub fn parse_signed_line(line: &str) -> (r: (String, i64))
    ensures
        r.0@ == parse_line_term(line@),
        r.1 == parse_line_signed(line@),
{
    let cs = string_chars(line);
    let n = cs.len();
    let t1 = find_tab(&cs, 0);
    let term = chars_string(&subvec(&cs, 0, t1));
    if t1 == n {
        return (term, 0);
    }
    let t2 = find_tab(&cs, t1 + 1);
    let f2 = chars_string(&subvec(&cs, t1 + 1, t2));
    let v = match parse_i64(f2.as_str()) {
        Some(v) => v,
        None => 0,
    };
    (term, v)
}

/// Load a counter-pair score file given as lines: each line's term is
/// bound to its counters, later duplicates overriding earlier ones.
pub fn parse_scores(lines: &Vec<String>) -> (r: Scores)
    ensures
        r.wf(),
        r@ == scores_map(lines.deep_view()),
{
    let mut r = ScoreTable::<Score>::new();
    let mut i: usize = 0;
    proof {
        assert(lines.deep_view().take(0) =~= Seq::<Seq<char>>::empty());
    }
    while i < lines.len()
        invariant
            i <= lines@.len(),
            r.wf(),
            r@ == scores_map(lines.deep_view().take(i as int)),
        decreases lines@.len() - i,
    {
        let (term, sc) = parse_score_line(lines[i].as_str());
        r.insert(term, sc);
        proof {
            assert(lines.deep_view().take(i + 1).drop_last() =~= lines.deep_view().take(i as int));
            assert(lines.deep_view().take(i + 1).last() == lines@[i as int]@);
        }
        i = i + 1;
    }
    proof {
        assert(lines.deep_view().take(lines@.len() as int) =~= lines.deep_view());
    }
    r
}

/// Load a signed-layout score file given as lines.
pub fn parse_scores_signed(lines: &Vec<String>) -> (r: ScoreTable<i64>)
    ensures
        r.wf(),
        r@ == signed_map(lines.deep_view()),
{
    let mut r = ScoreTable::<i64>::new();
    let mut i: usize = 0;
    proof {
        assert(lines.deep_view().take(0) =~= Seq::<Seq<char>>::empty());
    }
    while i < lines.len()
        invariant
            i <= lines@.len(),
            r.wf(),
            r@ == signed_map(lines.deep_view().take(i as int)),
        decreases lines@.len() - i,
    {
        let (term, v) = parse_signed_line(lines[i].as_str());
        r.insert(term, v);
        proof {
            assert(lines.deep_view().take(i + 1).drop_last() =~= lines.deep_view().take(i as int));
            assert(lines.deep_view().take(i + 1).last() == lines@[i as int]@);
        }
        i = i + 1;
    }
    proof {
        assert(lines.deep_view().take(lines@.len() as int) =~= lines.deep_view());
    }
    r
}

/// The saved form of a counter-pair mapping, one line per pair, in order.
pub fn format_scores(scores: &Scores) -> (r: Vec<String>)
    ensures
        r.deep_view() == score_lines(scores.items@),
{
    let mut r: Vec<String> = Vec::new();
    let n = scores.items.len();
    let mut i: usize = 0;
    proof {
        assert(r.deep_view() =~= score_lines(scores.items@.take(0)));
        assert(score_lines(scores.items@.take(0)) =~= score_lines(scores.items@).take(0));
    }
    while i < n
        invariant
            i <= n,
            n == scores.items@.len(),
            r.deep_view() == score_lines(scores.items@).take(i as int),
        decreases n - i,
    {
        let ghost before = r.deep_view();
        let mut v = string_chars(scores.items[i].0.as_str());
        v.push('\t');
        let mut d1 = format_u64(scores.items[i].1.correct as u64);
        v.append(&mut d1);
        v.push('\t');
        let mut d2 = format_u64(scores.items[i].1.incorrect as u64);
        v.append(&mut d2);
        proof {
            assert(v@ =~= score_line(scores.items@[i as int].0@, scores.items@[i as int].1));
        }
        r.push(chars_string(&v));
        proof {
            assert(r.deep_view() =~= before.push(v@));
            assert(before.push(v@) =~= score_lines(scores.items@).take(i + 1));
        }
        i = i + 1;
    }
    proof {
        assert(score_lines(scores.items@).take(n as int) =~= score_lines(scores.items@));
    }
    r
}

/// The saved form of a signed mapping.
pub fn format_scores_signed(scores: &ScoreTable<i64>) -> (r: Vec<String>)
    ensures
        r.deep_view() == signed_lines(scores.items@),
{
    let mut r: Vec<String> = Vec::new();
    let n = scores.items.len();
    let mut i: usize = 0;
    proof {
        assert(r.deep_view() =~= signed_lines(scores.items@).take(0));
    }
    while i < n
        invariant
            i <= n,
            n == scores.items@.len(),
            r.deep_view() == signed_lines(scores.items@).take(i as int),
        decreases n - i,
    {
        let ghost before = r.deep_view();
        let mut v = string_chars(scores.items[i].0.as_str());
        v.push('\t');
        let formatted = format_i64(scores.items[i].1);
        let mut d1 = string_chars(formatted.as_str());
        v.append(&mut d1);
        proof {
            assert(v@ =~= signed_line(scores.items@[i as int].0@, scores.items@[i as int].1));
        }
        r.push(chars_string(&v));
        proof {
            assert(r.deep_view() =~= before.push(v@));
            assert(before.push(v@) =~= signed_lines(scores.items@).take(i + 1));
        }
        i = i + 1;
    }
    proof {
        assert(signed_lines(scores.items@).take(n as int) =~= signed_lines(scores.items@));
    }
    r
}

/// A counter-pair line reads back to the term and counters it was written
/// from, provided the term holds no tab.
pub proof fn lemma_score_line_round_trip(term: Seq<char>, sc: Score)
    requires
        no_tabs(term),
    ensures
        parse_line_term(score_line(term, sc)) == term,
        parse_line_score(score_line(term, sc)) == sc,
{
    let d1 = dec_digits(sc.correct as nat);
    let d2 = dec_digits(sc.incorrect as nat);
    lemma_dec_digits_val(sc.correct as nat);
    lemma_dec_digits_val(sc.incorrect as nat);
    let s = score_line(term, sc);
    let tl = term.len() as int;
    assert(s.len() == term.len() + 1 + d1.len() + 1 + d2.len());
    assert(forall|j: int| 0 <= j < tl ==> s[j] == term[j]);
    assert(s[tl] == '\t');
    assert(forall|j: int| 0 <= j < d1.len() ==> s[tl + 1 + j] == d1[j]);
    assert(s[tl + 1 + d1.len()] == '\t');
    assert(forall|j: int| 0 <= j < d2.len() ==> s[tl + 1 + d1.len() + 1 + j] == d2[j]);
    assert(forall|j: int| 0 <= j < d1.len() ==> is_digit(d1[j]) && d1[j] != '\t');
    assert(forall|j: int| 0 <= j < d2.len() ==> is_digit(d2[j]) && d2[j] != '\t');
    lemma_field_end_at(s, 0, tl);
    assert(s.take(tl) =~= term);
    let t2 = tl + 1 + d1.len();
    lemma_field_end_at(s, tl + 1, t2);
    assert(s.subrange(tl + 1, t2) =~= d1);
    lemma_u32_round_trip(sc.correct);
    let t3 = t2 + 1 + d2.len();
    lemma_field_end_at(s, t2 + 1, t3);
    assert(s.subrange(t2 + 1, t3) =~= d2);
    lemma_u32_round_trip(sc.incorrect);
}

/// A signed line reads back to the term and counter it was written from,
/// provided the term holds no tab.
pub proof fn lemma_signed_line_round_trip(term: Seq<char>, v: i64)
    requires
        no_tabs(term),
    ensures
        parse_line_term(signed_line(term, v)) == term,
        parse_line_signed(signed_line(term, v)) == v,
{
    let d = dec_signed(v as int);
    let s = signed_line(term, v);
    let tl = term.len() as int;
    if v < 0 {
        lemma_dec_digits_val((-(v as int)) as nat);
        assert(d[0] == '-');
        assert(forall|j: int|
            1 <= j < d.len() ==> is_digit(dec_digits((-(v as int)) as nat)[j - 1]) && d[j]
                == dec_digits((-(v as int)) as nat)[j - 1]);
    } else {
        lemma_dec_digits_val(v as nat);
        assert(forall|j: int| 0 <= j < d.len() ==> is_digit(d[j]));
    }
    assert(forall|j: int| 0 <= j < d.len() ==> d[j] != '\t');
    assert(s.len() == term.len() + 1 + d.len());
    assert(forall|j: int| 0 <= j < tl ==> s[j] == term[j]);
    assert(s[tl] == '\t');
    assert(forall|j: int| 0 <= j < d.len() ==> s[tl + 1 + j] == d[j]);
    lemma_field_end_at(s, 0, tl);
    assert(s.take(tl) =~= term);
    let t2 = tl + 1 + d.len();
    lemma_field_end_at(s, tl + 1, t2);
    assert(s.subrange(tl + 1, t2) =~= d);
    lemma_i64_round_trip(v);
}

/// Saving a counter-pair mapping and loading the lines back yields an
/// equal mapping, provided no term holds a tab.
pub proof fn lemma_scores_round_trip(items: Seq<(String, Score)>)
    requires
        forall|i: int| 0 <= i < items.len() ==> no_tabs(items[i].0@),
    ensures
        scores_map(score_lines(items)) == table_map(items),
    decreases items.len(),
{
    if items.len() > 0 {
        assert(forall|i: int|
            0 <= i < items.drop_last().len() ==> no_tabs(items.drop_last()[i].0@));
        lemma_scores_round_trip(items.drop_last());
        assert(score_lines(items).drop_last() =~= score_lines(items.drop_last()));
        let last = items.last();
        assert(no_tabs(last.0@));
        lemma_score_line_round_trip(last.0@, last.1);
        assert(score_lines(items).last() == score_line(last.0@, last.1));
    }
}

/// Saving a signed mapping and loading the lines back yields an equal
/// mapping, provided no term holds a tab.
pub proof fn lemma_scores_signed_round_trip(items: Seq<(String, i64)>)
    requires
        forall|i: int| 0 <= i < items.len() ==> no_tabs(items[i].0@),
    ensures
        signed_map(signed_lines(items)) == table_map(items),
    decreases items.len(),
{
    if items.len() > 0 {
        assert(forall|i: int|
            0 <= i < items.drop_last().len() ==> no_tabs(items.drop_last()[i].0@));
        lemma_scores_signed_round_trip(items.drop_last());
        assert(signed_lines(items).drop_last() =~= signed_lines(items.drop_last()));
        let last = items.last();
        assert(no_tabs(last.0@));
        lemma_signed_line_round_trip(last.0@, last.1);
        assert(signed_lines(items).last() == signed_line(last.0@, last.1));
    }
}

} // verus!
