//! Named boolean facts about the machine, and the table of their values.

pub mod evaluate;
pub mod facts;
pub mod path;

use crate::text::same_text;
use vstd::prelude::*;

verus! {

/// The map that `pairs` builds when inserted from first to last.
pub open spec fn table_of(pairs: Seq<(Seq<char>, bool)>) -> Map<Seq<char>, bool>
    decreases pairs.len(),
{
    if pairs.len() == 0 {
        Map::empty()
    } else {
        table_of(pairs.drop_last()).insert(pairs.last().0, pairs.last().1)
    }
}

/// The value of each evaluated environment, by name.
pub struct EnvironmentTable {
    entries: Vec<(String, bool)>,
}

impl View for EnvironmentTable {
    type V = Map<Seq<char>, bool>;

    closed spec fn view(&self) -> Map<Seq<char>, bool> {
        table_of(self.entries.deep_view())
    }
}

impl EnvironmentTable {
    /// A table that knows no environment.
    pub fn new() -> (table: Self)
        ensures
            table@ == Map::<Seq<char>, bool>::empty(),
    {
        let table = EnvironmentTable { entries: Vec::new() };
        assert(table.entries.deep_view() =~= Seq::empty());
        table
    }

    /// A table of the given values; of two for one name the later counts.
    pub fn from_pairs(pairs: Vec<(String, bool)>) -> (table: Self)
        ensures
            table@ == table_of(pairs.deep_view()),
    {
        EnvironmentTable { entries: pairs }
    }

    /// Sets the value of `name`.
    pub fn insert(&mut self, name: String, value: bool)
        ensures
            final(self)@ == old(self)@.insert(name@, value),
    {
        let ghost before = self.entries.deep_view();
        self.entries.push((name, value));
        assert(self.entries.deep_view().drop_last() =~= before);
        assert(self.entries.deep_view().last() == (name@, value));
    }

    /// The value of `name`, if it was evaluated.
    pub fn get(&self, name: &str) -> (value: Option<bool>)
        ensures
            value == (if self@.contains_key(name@) {
                Some(self@[name@])
            } else {
                None
            }),
    {
        let mut i: usize = self.entries.len();
        let ghost all = self.entries.deep_view();
        assert(all.take(i as int) =~= all);
        while i > 0
            invariant
                i <= self.entries.len(),
                all == self.entries.deep_view(),
                table_of(all).contains_key(name@) == table_of(all.take(i as int)).contains_key(
                    name@,
                ),
                table_of(all).contains_key(name@) ==> table_of(all)[name@] == table_of(
                    all.take(i as int),
                )[name@],
            decreases i,
        {
            let ghost prefix = all.take(i as int);
            assert(prefix.drop_last() =~= all.take(i as int - 1));
            assert(prefix.last() == all[i as int - 1]);
            i -= 1;
            if same_text(self.entries[i].0.as_str(), name) {
                return Some(self.entries[i].1);
            }
        }
        None
    }

    /// Whether `name` was evaluated and holds.
    pub fn holds(&self, name: &str) -> (held: bool)
        ensures
            held == (self@.contains_key(name@) && self@[name@]),
    {
        match self.get(name) {
            Some(value) => value,
            None => false,
        }
    }
}

} // verus!
