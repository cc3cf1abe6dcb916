//! The record parser: one line of text becomes at most one `Entry`, a term
//! followed by `/`-closed phrases, where `;` switches the rest of a phrase
//! into an annotation.
//!
//! Grammar, left to right: characters belong to the term until the
//! two-character sequence `" /"`, which is consumed; after that, `/` closes
//! the phrase being built, the first `;` of a phrase turns its comment mode
//! on, and every other character — a further `;` included — lands in the
//! phrase body or, once in comment mode, in its comment. Material after the
//! last `/` is dropped. An empty line, a line whose first character is `;`,
//! and a line whose term comes out empty all carry no entry: terms are
//! never empty after parsing.

use vstd::prelude::*;

use crate::chars::chars_string;
use crate::chars::string_chars;

verus! {

/// One sense of a term, with an optional annotation.
#[derive(Debug)]
pub struct Phrase {
    pub body: String,
    pub comment: String,
}

pub ghost struct PhraseView {
    pub body: Seq<char>,
    pub comment: Seq<char>,
}

impl View for Phrase {
    type V = PhraseView;

    open spec fn view(&self) -> PhraseView {
        PhraseView { body: self.body@, comment: self.comment@ }
    }
}

/// One vocabulary record: the answer string and its definitional phrases.
#[derive(Debug)]
pub struct Entry {
    pub term: String,
    pub phrases: Vec<Phrase>,
}

pub ghost struct EntryView {
    pub term: Seq<char>,
    pub phrases: Seq<PhraseView>,
}

pub open spec fn phrases_view(ps: Seq<Phrase>) -> Seq<PhraseView> {
    ps.map_values(|p: Phrase| p@)
}

impl View for Entry {
    type V = EntryView;

    open spec fn view(&self) -> EntryView {
        EntryView { term: self.term@, phrases: phrases_view(self.phrases@) }
    }
}

/// The index at which the term part of `s` ends, scanning from `i`: the
/// first position holding a space directly followed by a slash, or the
/// line's length if there is none.
pub open spec fn term_end(s: Seq<char>, i: int) -> int
    decreases s.len() - i,
{
    if i < 0 || i >= s.len() {
        s.len() as int
    } else if s[i] == ' ' && i + 1 < s.len() && s[i + 1] == '/' {
        i
    } else {
        term_end(s, i + 1)
    }
}

/// The phrases read from `s` when a phrase with body `body` and comment
/// `comment` is under construction and comment mode is `in_comment`.
pub open spec fn scan_phrases(
    s: Seq<char>,
    body: Seq<char>,
    comment: Seq<char>,
    in_comment: bool,
) -> Seq<PhraseView>
    decreases s.len(),
{
    if s.len() == 0 {
        Seq::<PhraseView>::empty()
    } else if s[0] == '/' {
        seq![PhraseView { body, comment }] + scan_phrases(
            s.drop_first(),
            Seq::<char>::empty(),
            Seq::<char>::empty(),
            false,
        )
    } else if s[0] == ';' && !in_comment {
        scan_phrases(s.drop_first(), body, comment, true)
    } else if in_comment {
        scan_phrases(s.drop_first(), body, comment.push(s[0]), in_comment)
    } else {
        scan_phrases(s.drop_first(), body.push(s[0]), comment, in_comment)
    }
}

/// What parsing one line yields: nothing for an empty line, a comment
/// line, or a line whose term would be empty; otherwise the term up to the
/// `" /"` separator and the slash-closed phrases of the remainder.
pub open spec fn parse_spec(s: Seq<char>) -> Option<EntryView> {
    if s.len() == 0 || s[0] == ';' || term_end(s, 0) == 0 {
        None
    } else {
        let te = term_end(s, 0);
        let rest = if te < s.len() {
            s.skip(te + 2)
        } else {
            Seq::<char>::empty()
        };
        Some(
            EntryView {
                term: s.take(te),
                phrases: scan_phrases(rest, Seq::<char>::empty(), Seq::<char>::empty(), false),
            },
        )
    }
}

impl Entry {
    /// Parse one line. Yields no entry exactly for an empty line, one that
    /// opens with `;`, or one whose term would be empty; anything else
    /// yields the entry the grammar describes, phrase whitespace preserved
    /// and the term never empty.
    pub fn parse(line: &str) -> (r: Option<Entry>)
        ensures
            r is None <==> parse_spec(line@) is None,
            r is None <==> (line@.len() == 0 || line@[0] == ';' || term_end(line@, 0) == 0),
            r matches Some(e) ==> parse_spec(line@) == Some(e@) && e@.term.len() > 0,
    {
        let ghost s = line@;
        let cs = string_chars(line);
        let n = cs.len();
        if n == 0 {
            return None;
        }
        if cs[0] == ';' {
            return None;
        }
        let mut i: usize = 0;
        while i < n && !(cs[i] == ' ' && i + 1 < n && cs[i + 1] == '/')
            invariant
                cs@ == s,
                n == s.len(),
                i <= n,
                term_end(s, 0) == term_end(s, i as int),
            decreases n - i,
        {
            proof {
                assert(term_end(s, i as int) == term_end(s, i + 1));
            }
            i = i + 1;
        }
        let te = i;
        proof {
            assert(term_end(s, te as int) == te as int);
            assert(term_end(s, 0) == te as int);
        }
        if te == 0 {
            return None;
        }
        let mut tb: Vec<char> = Vec::new();
        let mut k: usize = 0;
        while k < te
            invariant
                cs@ == s,
                n == s.len(),
                k <= te <= n,
                tb@ == s.take(k as int),
            decreases te - k,
        {
            tb.push(cs[k]);
            k = k + 1;
            assert(tb@ =~= s.take(k as int));
        }
        let term = chars_string(&tb);
        let start: usize = if i < n {
            i + 2
        } else {
            n
        };
        let ghost rest = if (te as int) < s.len() {
            s.skip(te + 2)
        } else {
            Seq::<char>::empty()
        };
        proof {
            assert(s.skip(start as int) =~= rest);
        }
        let mut phrases: Vec<Phrase> = Vec::new();
        let mut body: Vec<char> = Vec::new();
        let mut comment: Vec<char> = Vec::new();
        let mut in_c = false;
        let mut j: usize = start;
        proof {
            assert(phrases_view(phrases@) =~= Seq::<PhraseView>::empty());
            assert(phrases_view(phrases@) + scan_phrases(s.skip(j as int), body@, comment@, in_c)
                =~= scan_phrases(rest, Seq::<char>::empty(), Seq::<char>::empty(), false));
        }
        while j < n
            invariant
                cs@ == s,
                n == s.len(),
                start <= j <= n,
                rest == s.skip(start as int),
                phrases_view(phrases@) + scan_phrases(s.skip(j as int), body@, comment@, in_c)
                    == scan_phrases(rest, Seq::<char>::empty(), Seq::<char>::empty(), false),
            decreases n - j,
        {
            let c = cs[j];
            proof {
                assert(s.skip(j as int).len() == n - j);
                assert(s.skip(j as int)[0] == s[j as int]);
                assert(s.skip(j as int).drop_first() =~= s.skip(j + 1));
            }
            if c == '/' {
                let ghost before = phrases_view(phrases@);
                let ghost pv = PhraseView { body: body@, comment: comment@ };
                let ph = Phrase { body: chars_string(&body), comment: chars_string(&comment) };
                proof {
                    assert(ph@ == pv);
                }
                phrases.push(ph);
                body = Vec::new();
                comment = Vec::new();
                in_c = false;
                proof {
                    assert(phrases_view(phrases@) =~= before.push(pv));
                    assert(before.push(pv) + scan_phrases(
                        s.skip(j + 1),
                        Seq::<char>::empty(),
                        Seq::<char>::empty(),
                        false,
                    ) =~= before + (seq![pv] + scan_phrases(
                        s.skip(j + 1),
                        Seq::<char>::empty(),
                        Seq::<char>::empty(),
                        false,
                    )));
                }
            } else if c == ';' && !in_c {
                in_c = true;
            } else if in_c {
                comment.push(c);
            } else {
                body.push(c);
            }
            j = j + 1;
        }
        proof {
            assert(s.skip(n as int) =~= Seq::<char>::empty());
            assert(phrases_view(phrases@) =~= scan_phrases(
                rest,
                Seq::<char>::empty(),
                Seq::<char>::empty(),
                false,
            ));
        }
        let e = Entry { term, phrases };
        proof {
            assert(e@.term == s.take(te as int));
            assert(parse_spec(s) == Some(e@));
        }
        Some(e)
    }
}

/// The entries carried by a sequence of lines, in order: each line's entry
/// if it has one, comment and empty lines skipped.
pub open spec fn entries_of(lines: Seq<Seq<char>>) -> Seq<EntryView>
    decreases lines.len(),
{
    if lines.len() == 0 {
        Seq::<EntryView>::empty()
    } else {
        entries_of(lines.drop_last()) + match parse_spec(lines.last()) {
            Some(e) => seq![e],
            None => Seq::<EntryView>::empty(),
        }
    }
}

/// Parse every line of a record stream, keeping the entries in input order.
pub fn parse_entries(lines: &Vec<String>) -> (r: Vec<Entry>)
    ensures
        r@.map_values(|e: Entry| e@) == entries_of(lines.deep_view()),
{
    let mut r: Vec<Entry> = Vec::new();
    let mut i: usize = 0;
    proof {
        assert(r@.map_values(|e: Entry| e@) =~= entries_of(lines.deep_view().take(0)));
    }
    while i < lines.len()
        invariant
            i <= lines@.len(),
            r@.map_values(|e: Entry| e@) == entries_of(lines.deep_view().take(i as int)),
        decreases lines@.len() - i,
    {
        let ghost before = r@.map_values(|e: Entry| e@);
        let parsed = Entry::parse(lines[i].as_str());
        proof {
            assert(lines.deep_view().take(i + 1).drop_last() =~= lines.deep_view().take(i as int));
            assert(lines.deep_view().take(i + 1).last() == lines@[i as int]@);
        }
        match parsed {
            Some(e) => {
                r.push(e);
                proof {
                    assert(r@.map_values(|e: Entry| e@) =~= before.push(
                        parse_spec(lines@[i as int]@)->Some_0,
                    ));
                    assert(before.push(parse_spec(lines@[i as int]@)->Some_0) =~= before + seq![
                        parse_spec(lines@[i as int]@)->Some_0,
                    ]);
                }
            },
            None => {
                proof {
                    assert(before + Seq::<EntryView>::empty() =~= before);
                }
            },
        }
        i = i + 1;
    }
    proof {
        assert(lines.deep_view().take(lines@.len() as int) =~= lines.deep_view());
    }
    r
}

} // verus!
