//! Tables of rules, keyed by the text that a rule replaces.
//!
//! A table is a list that is read as a map. The contracts that vstd gives a
//! hash map hold only for keys whose hashing it knows, which are the
//! integers and `bool`; of a map keyed by text they would say nothing. The
//! list has the contract of a map: a text has one rule, and a rule that is
//! inserted for a text that has one takes its place.

use vstd::prelude::*;
use crate::text::same_text;

verus! {

/// A table from texts to rules. A text has at most one rule: a rule that is
/// inserted for a text that has one takes its place.
pub struct RuleTable<R> {
    entries: Vec<(String, R)>,
}

/// The table held by the first `n` entries: a later entry with the text of
/// an earlier one takes its place.
pub open spec fn table_of<R>(entries: Seq<(String, R)>, n: int) -> Map<Seq<char>, R>
    decreases n,
{
    if n <= 0 {
        Map::empty()
    } else {
        table_of(entries, n - 1).insert(entries[n - 1].0@, entries[n - 1].1)
    }
}

/// Entries that agree in their first `n` places hold the same table there.
pub proof fn lemma_table_same<R>(a: Seq<(String, R)>, b: Seq<(String, R)>, n: int)
    requires
        0 <= n <= a.len(),
        n <= b.len(),
        forall|j: int| 0 <= j < n ==> a[j] == b[j],
    ensures
        table_of(a, n) == table_of(b, n),
    decreases n,
{
    if n > 0 {
        lemma_table_same(a, b, n - 1);
    }
}

/// An entry put in the place `at` takes the place of the rule of its text,
/// where it has the text of the entry that stood there and no later entry
/// has that text.
pub proof fn lemma_table_update<R>(entries: Seq<(String, R)>, at: int, entry: (String, R), n: int)
    requires
        0 <= at < n <= entries.len(),
        entry.0@ == entries[at].0@,
        forall|j: int| at < j < n ==> entries[j].0@ != entry.0@,
    ensures
        table_of(entries.update(at, entry), n) == table_of(entries, n).insert(entry.0@, entry.1),
    decreases n - at,
{
    if n == at + 1 {
        lemma_table_same(entries, entries.update(at, entry), at);
    } else {
        lemma_table_update(entries, at, entry, n - 1);
    }
    assert(table_of(entries.update(at, entry), n) =~= table_of(entries, n).insert(
        entry.0@,
        entry.1,
    ));
}

impl<R> RuleTable<R> {
    /// The rules by their texts.
    pub closed spec fn view(&self) -> Map<Seq<char>, R> {
        table_of(self.entries@, self.entries@.len() as int)
    }

    /// A table without rules.
    pub fn new() -> (r: Self)
        ensures
            r@ == Map::<Seq<char>, R>::empty(),
    {
        RuleTable { entries: Vec::new() }
    }

    /// The place of the last entry with the text `key`.
    fn position(&self, key: &str) -> (r: Option<usize>)
        ensures
            match r {
                Some(at) => {
                    &&& at < self.entries@.len()
                    &&& self.entries@[at as int].0@ == key@
                    &&& forall|j: int|
                        at < j < self.entries@.len() ==> self.entries@[j].0@ != key@
                    &&& self@.contains_key(key@)
                    &&& self@[key@] == self.entries@[at as int].1
                },
                None => !self@.contains_key(key@),
            },
    {
        let n = self.entries.len();
        let mut i: usize = n;
        while i > 0
            invariant
                n == self.entries@.len(),
                i <= n,
                forall|j: int| i <= j < n ==> self.entries@[j].0@ != key@,
                self@.contains_key(key@) == table_of(self.entries@, i as int).contains_key(key@),
                self@.contains_key(key@) ==> self@[key@] == table_of(self.entries@, i as int)[key@],
            decreases i,
        {
            i -= 1;
            if same_text(self.entries[i].0.as_str(), key) {
                return Some(i);
            }
        }
        None
    }

    /// The rule of the text `key`.
    pub fn get(&self, key: &str) -> (r: Option<&R>)
        ensures
            match r {
                Some(rule) => self@.contains_key(key@) && self@[key@] == *rule,
                None => !self@.contains_key(key@),
            },
    {
        match self.position(key) {
            Some(at) => Some(&self.entries[at].1),
            None => None,
        }
    }

    /// Gives the text `key` the rule `rule`.
    pub fn insert(&mut self, key: String, rule: R)
        ensures
            final(self)@ == old(self)@.insert(key@, rule),
    {
        match self.position(key.as_str()) {
            Some(at) => {
                proof {
                    lemma_table_update(
                        self.entries@,
                        at as int,
                        (key, rule),
                        self.entries@.len() as int,
                    );
                }
                self.entries.set(at, (key, rule));
            },
            None => {
                proof {
                    lemma_table_same(
                        self.entries@,
                        self.entries@.push((key, rule)),
                        self.entries@.len() as int,
                    );
                }
                self.entries.push((key, rule));
            },
        }
    }
}

} // verus!
