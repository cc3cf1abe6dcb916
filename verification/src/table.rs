//! The score mapping: an association from term to aggregate counter, kept
//! as a vector of pairs with pairwise-distinct keys and viewed as a
//! `Map<Seq<char>, V>`. The insertion order is kept, which is what lets the
//! persisted form round-trip exactly.

use vstd::prelude::*;

use crate::chars::str_eq;
use crate::score::Score;

verus! {

/// The mapping a key/value sequence denotes, later pairs overriding
/// earlier ones.
pub open spec fn table_map<V>(items: Seq<(String, V)>) -> Map<Seq<char>, V>
    decreases items.len(),
{
    if items.len() == 0 {
        Map::<Seq<char>, V>::empty()
    } else {
        table_map(items.drop_last()).insert(items.last().0@, items.last().1)
    }
}

/// No two pairs share a key.
pub open spec fn unique_keys<V>(items: Seq<(String, V)>) -> bool {
    forall|i: int, j: int| 0 <= i < j < items.len() ==> items[i].0@ != items[j].0@
}

/// A key is in the denoted mapping exactly when some pair holds it.
pub proof fn lemma_table_map_contains<V>(items: Seq<(String, V)>, k: Seq<char>)
    ensures
        table_map(items).dom().contains(k) <==> exists|i: int|
            0 <= i < items.len() && items[i].0@ == k,
    decreases items.len(),
{
    if items.len() > 0 {
        lemma_table_map_contains(items.drop_last(), k);
        if items.last().0@ == k {
            assert(items[items.len() - 1].0@ == k);
        } else if table_map(items).dom().contains(k) {
            let i = choose|i: int| 0 <= i < items.drop_last().len() && items.drop_last()[i].0@
                == k;
            assert(items[i].0@ == k);
        } else if exists|i: int| 0 <= i < items.len() && items[i].0@ == k {
            let i = choose|i: int| 0 <= i < items.len() && items[i].0@ == k;
            assert(items.drop_last()[i].0@ == k);
        }
    }
}

/// Under distinct keys, the pair holding a key gives the mapping's value.
pub proof fn lemma_table_map_index<V>(items: Seq<(String, V)>, i: int)
    requires
        unique_keys(items),
        0 <= i < items.len(),
    ensures
        table_map(items).dom().contains(items[i].0@),
        table_map(items)[items[i].0@] == items[i].1,
    decreases items.len(),
{
    if i == items.len() - 1 {
        assert(items.last() == items[i]);
    } else {
        assert(unique_keys(items.drop_last())) by {
            assert(forall|p: int, q: int|
                0 <= p < q < items.drop_last().len() ==> items.drop_last()[p]
                    == items[p] && items.drop_last()[q] == items[q]);
        }
        lemma_table_map_index(items.drop_last(), i);
        assert(items.drop_last()[i] == items[i]);
        assert(items[i].0@ != items.last().0@);
    }
}

/// Replacing the pair that holds a key denotes the same mapping as
/// inserting into the old one.
pub proof fn lemma_table_map_update<V>(items: Seq<(String, V)>, i: int, key: String, value: V)
    requires
        unique_keys(items),
        0 <= i < items.len(),
        items[i].0@ == key@,
    ensures
        table_map(items.update(i, (key, value))) == table_map(items).insert(key@, value),
    decreases items.len(),
{
    let upd = items.update(i, (key, value));
    if i == items.len() - 1 {
        assert(upd.drop_last() =~= items.drop_last());
        assert(upd.last() == (key, value));
        assert(table_map(upd) =~= table_map(items).insert(key@, value));
    } else {
        assert(unique_keys(items.drop_last())) by {
            assert(forall|p: int, q: int|
                0 <= p < q < items.drop_last().len() ==> items.drop_last()[p]
                    == items[p] && items.drop_last()[q] == items[q]);
        }
        assert(upd.drop_last() =~= items.drop_last().update(i, (key, value)));
        lemma_table_map_update(items.drop_last(), i, key, value);
        assert(upd.last() == items.last());
        assert(items[i].0@ != items.last().0@);
        assert(table_map(upd) =~= table_map(items).insert(key@, value));
    }
}

/// An association from string key to value, keys pairwise distinct,
/// insertion order kept.
#[derive(Debug)]
pub struct ScoreTable<V> {
    pub items: Vec<(String, V)>,
}

impl<V> View for ScoreTable<V> {
    type V = Map<Seq<char>, V>;

    open spec fn view(&self) -> Map<Seq<char>, V> {
        table_map(self.items@)
    }
}

impl<V> ScoreTable<V> {
    pub open spec fn wf(&self) -> bool {
        unique_keys(self.items@)
    }

    /// The empty mapping.
    pub fn new() -> (r: Self)
        ensures
            r.wf(),
            r@ == Map::<Seq<char>, V>::empty(),
            r.items@.len() == 0,
    {
        ScoreTable { items: Vec::new() }
    }

    /// Bind `key` to `value`, replacing in place what the key was bound to
    /// before, or appending a pair for a key seen for the first time.
    pub fn insert(&mut self, key: String, value: V)
        requires
            old(self).wf(),
        ensures
            final(self).wf(),
            final(self)@ == old(self)@.insert(key@, value),
            !old(self)@.dom().contains(key@) ==> final(self).items@ == old(self).items@.push(
                (key, value),
            ),
    {
        let ghost items0 = self.items@;
        let n = self.items.len();
        let mut i: usize = 0;
        while i < n
            invariant
                self.items@ == items0,
                old(self).items@ == items0,
                n == items0.len(),
                i <= n,
                unique_keys(items0),
                forall|j: int| 0 <= j < i ==> items0[j].0@ != key@,
            decreases n - i,
        {
            if str_eq(self.items[i].0.as_str(), key.as_str()) {
                self.items.set(i, (key, value));
                proof {
                    assert(forall|j: int|
                        0 <= j < self.items@.len() ==> self.items@[j].0@ == items0[j].0@);
                    assert(unique_keys(self.items@));
                    lemma_table_map_update(items0, i as int, key, value);
                    lemma_table_map_contains(items0, key@);
                    assert(items0[i as int].0@ == key@);
                    assert(table_map(items0).dom().contains(key@));
                }
                return ;
            }
            i = i + 1;
        }
        proof {
            lemma_table_map_contains(items0, key@);
        }
        self.items.push((key, value));
        proof {
            assert(self.items@.drop_last() =~= items0);
            assert(self.items@.last() == (key, value));
        }
    }
}

impl<V: Copy> ScoreTable<V> {
    /// What the mapping binds `key` to, if anything.
    pub fn get(&self, key: &str) -> (r: Option<V>)
        requires
            self.wf(),
        ensures
            self@.dom().contains(key@) ==> r == Some(self@[key@]),
            !self@.dom().contains(key@) ==> r is None,
    {
        let n = self.items.len();
        let mut i: usize = 0;
        while i < n
            invariant
                self.wf(),
                n == self.items@.len(),
                i <= n,
                forall|j: int| 0 <= j < i ==> self.items@[j].0@ != key@,
            decreases n - i,
        {
            if str_eq(self.items[i].0.as_str(), key) {
                let v = self.items[i].1;
                proof {
                    lemma_table_map_index(self.items@, i as int);
                }
                return Some(v);
            }
            i = i + 1;
        }
        proof {
            lemma_table_map_contains(self.items@, key@);
        }
        None
    }
}

/// The canonical score mapping: term to first-try/after-mistakes counters.
pub type Scores = ScoreTable<Score>;

} // verus!
