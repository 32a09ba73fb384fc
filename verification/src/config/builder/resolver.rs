//! Chooses among candidate paths by the environments that each one requires.
//!
//! A candidate is labelled by a condition key such as `linux|has_steam`: the
//! names of the environments that must all hold. Among the candidates whose
//! environments hold, the one that requires the most wins. Two that require
//! equally many, with none above them, are an error, never a silent choice.

use super::environment::EnvironmentTable;
use crate::text::{contains_name, dedup_names, distinct, fields, lemma_distinct, split_fields};
use vstd::prelude::*;
use vstd::string::*;

verus! {

/// The environment names that the key `key` requires, each once, in the
/// order in which the key first writes them.
pub open spec fn key_names(key: Seq<char>) -> Seq<Seq<char>> {
    distinct(fields(key, '|'))
}

/// How many environments the key `key` requires.
pub open spec fn specificity(key: Seq<char>) -> nat {
    key_names(key).len()
}

/// Whether `env` knows every name of `names` and holds it true.
pub open spec fn satisfied(names: Seq<Seq<char>>, env: Map<Seq<char>, bool>) -> bool {
    forall|i: int| 0 <= i < names.len() ==> env.contains_key(#[trigger] names[i]) && env[names[i]]
}

/// Whether every environment that the key `key` requires holds in `env`.
pub open spec fn matches(key: Seq<char>, env: Map<Seq<char>, bool>) -> bool {
    satisfied(key_names(key), env)
}

/// Whether two different names of `names` both belong to `group`.
pub open spec fn conflicts(names: Seq<Seq<char>>, group: Seq<Seq<char>>) -> bool {
    exists|a: int, b: int|
        0 <= a < names.len() && 0 <= b < names.len() && names[a] != names[b] && group.contains(
            names[a],
        ) && group.contains(names[b])
}

/// Whether the key `key` takes at most one name from each group of `groups`.
pub open spec fn allowed(key: Seq<char>, groups: Seq<Seq<Seq<char>>>) -> bool {
    forall|g: int| 0 <= g < groups.len() ==> !conflicts(key_names(key), #[trigger] groups[g])
}

/// Whether no key of `table` matches `env`.
pub open spec fn no_match<P>(table: Seq<(Seq<char>, P)>, env: Map<Seq<char>, bool>) -> bool {
    forall|i: int| 0 <= i < table.len() ==> !matches(#[trigger] table[i].0, env)
}

/// Whether candidate `i` matches `env` and requires more than every other
/// candidate that matches.
pub open spec fn dominant<P>(table: Seq<(Seq<char>, P)>, env: Map<Seq<char>, bool>, i: int) -> bool {
    &&& 0 <= i < table.len()
    &&& matches(table[i].0, env)
    &&& forall|j: int|
        0 <= j < table.len() && j != i && matches(#[trigger] table[j].0, env) ==> specificity(
            table[j].0,
        ) < specificity(table[i].0)
}

/// Whether candidates `i` and `j` are two that match `env`, require equally
/// many environments, and have no matching candidate above them.
pub open spec fn tied<P>(
    table: Seq<(Seq<char>, P)>,
    env: Map<Seq<char>, bool>,
    i: int,
    j: int,
) -> bool {
    &&& 0 <= i < table.len()
    &&& 0 <= j < table.len()
    &&& i != j
    &&& matches(table[i].0, env)
    &&& matches(table[j].0, env)
    &&& specificity(table[i].0) == specificity(table[j].0)
    &&& forall|k: int|
        0 <= k < table.len() && matches(#[trigger] table[k].0, env) ==> specificity(table[k].0)
            <= specificity(table[i].0)
}

/// What resolution comes to.
pub enum Decision<P> {
    /// No candidate matches.
    NoMatch,
    /// One candidate is above all others that match: its payload.
    Chosen(P),
    /// Candidates match, and none is above all others.
    Ambiguous,
}

/// The decision that `table` and `env` determine.
pub open spec fn decision<P>(table: Seq<(Seq<char>, P)>, env: Map<Seq<char>, bool>) -> Decision<P> {
    if no_match(table, env) {
        Decision::NoMatch
    } else if exists|i: int| dominant(table, env, i) {
        Decision::Chosen(table[choose|i: int| dominant(table, env, i)].1)
    } else {
        Decision::Ambiguous
    }
}

/// Why no path could be chosen.
#[derive(Debug, Clone, PartialEq, Eq)]
pub enum Error {
    /// Two candidates match, require equally many environments, and nothing
    /// is above them. Holds the two keys as written.
    Indecision(String, String),
    /// A key names two environments of one exclusivity group. Holds the key
    /// as written.
    InvalidCondition(String),
}

/// A condition: the set of environments that must all hold.
pub struct ConditionKey {
    text: String,
    names: Vec<String>,
}

impl View for ConditionKey {
    type V = Seq<Seq<char>>;

    open spec fn view(&self) -> Seq<Seq<char>> {
        key_names(self.text())
    }
}

impl ConditionKey {
    #[verifier::type_invariant]
    spec fn names_follow_text(&self) -> bool {
        self.names.deep_view() == key_names(self.text@)
    }

    /// The key as written.
    pub closed spec fn text(&self) -> Seq<char> {
        self.text@
    }

    /// Reads a key: environment names separated by `|`. Empty names are
    /// skipped, so the empty key requires nothing.
    pub fn parse(text: &str) -> (key: Self)
        ensures
            key.text() == text@,
    {
        let pieces = split_fields(text, '|');
        let names = dedup_names(&pieces);
        ConditionKey { text: String::from_str(text), names }
    }

    /// The key as written.
    pub fn as_str(&self) -> (text: &str)
        ensures
            text@ == self.text(),
    {
        self.text.as_str()
    }

    /// The names that the key requires, each once.
    pub fn names(&self) -> (names: &Vec<String>)
        ensures
            names.deep_view() == self@,
            names.deep_view().no_duplicates(),
    {
        proof {
            use_type_invariant(self);
            lemma_distinct(fields(self.text@, '|'));
        }
        &self.names
    }

    /// How many environments the key requires.
    pub fn specificity(&self) -> (count: usize)
        ensures
            count == specificity(self.text()),
    {
        proof {
            use_type_invariant(self);
        }
        self.names.len()
    }

    /// Whether every environment that the key requires holds in `env`.
    pub fn is_satisfied(&self, env: &EnvironmentTable) -> (held: bool)
        ensures
            held == matches(self.text(), env@),
    {
        proof {
            use_type_invariant(self);
        }
        let mut i: usize = 0;
        while i < self.names.len()
            invariant
                i <= self.names.len(),
                self.names.deep_view() == key_names(self.text@),
                forall|j: int|
                    0 <= j < i ==> env@.contains_key(#[trigger] self.names.deep_view()[j])
                        && env@[self.names.deep_view()[j]],
            decreases self.names.len() - i,
        {
            if !env.holds(self.names[i].as_str()) {
                assert(self.names.deep_view()[i as int] == self.names[i as int]@);
                return false;
            }
            assert(self.names.deep_view()[i as int] == self.names[i as int]@);
            i += 1;
        }
        true
    }
}

/// Groups of environments of which a condition may require at most one each.
pub struct ExclusivityConstraints {
    groups: Vec<Vec<String>>,
}

impl View for ExclusivityConstraints {
    type V = Seq<Seq<Seq<char>>>;

    closed spec fn view(&self) -> Seq<Seq<Seq<char>>> {
        self.groups.deep_view()
    }
}

/// Whether two different names of `names` both belong to `group`.
fn group_conflicts(names: &Vec<String>, group: &Vec<String>) -> (clash: bool)
    requires
        names.deep_view().no_duplicates(),
    ensures
        clash == conflicts(names.deep_view(), group.deep_view()),
{
    let ghost ns = names.deep_view();
    let ghost gs = group.deep_view();
    let mut first: Option<usize> = None;
    let mut i: usize = 0;
    while i < names.len()
        invariant
            i <= names.len(),
            ns == names.deep_view(),
            gs == group.deep_view(),
            ns.no_duplicates(),
            match first {
                None => forall|j: int| 0 <= j < i ==> !gs.contains(#[trigger] ns[j]),
                Some(f) => f < i && gs.contains(ns[f as int]) && forall|j: int|
                    0 <= j < i && j != f ==> !gs.contains(#[trigger] ns[j]),
            },
        decreases names.len() - i,
    {
        assert(ns[i as int] == names[i as int]@);
        if contains_name(group, &names[i]) {
            match first {
                Some(f) => {
                    assert(ns[f as int] != ns[i as int]);
                    return true;
                },
                None => {
                    first = Some(i);
                },
            }
        }
        i += 1;
    }
    false
}

impl ExclusivityConstraints {
    /// The constraints that `groups` state.
    pub fn new(groups: Vec<Vec<String>>) -> (constraints: Self)
        ensures
            constraints@ == groups.deep_view(),
    {
        ExclusivityConstraints { groups }
    }

    /// Whether `condition` takes at most one name from each group.
    pub fn is_valid(&self, condition: &ConditionKey) -> (valid: bool)
        ensures
            valid == allowed(condition.text(), self@),
    {
        let names = condition.names();
        let mut g: usize = 0;
        while g < self.groups.len()
            invariant
                g <= self.groups.len(),
                names.deep_view() == key_names(condition.text()),
                names.deep_view().no_duplicates(),
                forall|h: int|
                    0 <= h < g ==> !conflicts(
                        key_names(condition.text()),
                        #[trigger] self.groups.deep_view()[h],
                    ),
            decreases self.groups.len() - g,
        {
            assert(self.groups.deep_view()[g as int] == self.groups[g as int].deep_view());
            if group_conflicts(names, &self.groups[g]) {
                return false;
            }
            g += 1;
        }
        true
    }
}

/// A candidate: a condition and what it stands for.
pub struct Candidate<P> {
    key: ConditionKey,
    payload: P,
}

/// The candidates among which resolution chooses.
pub struct CandidateTable<P> {
    entries: Vec<Candidate<P>>,
}

/// The keys as written, each with its payload.
pub open spec fn pairs_view<P>(pairs: Seq<(String, P)>) -> Seq<(Seq<char>, P)> {
    Seq::new(pairs.len(), |i: int| (pairs[i].0@, pairs[i].1))
}

impl<P> View for CandidateTable<P> {
    type V = Seq<(Seq<char>, P)>;

    closed spec fn view(&self) -> Seq<(Seq<char>, P)> {
        Seq::new(
            self.entries@.len(),
            |i: int| (self.entries@[i].key.text(), self.entries@[i].payload),
        )
    }
}

impl<P> CandidateTable<P> {
    /// Builds the table for `pairs`, each a key as written and its payload.
    /// A key that names two environments of one exclusivity group is refused:
    /// the error holds the first such key.
    pub fn new(pairs: Vec<(String, P)>, exclusivity: &ExclusivityConstraints) -> (made: Result<
        Self,
        Error,
    >)
        ensures
            made is Ok <==> forall|i: int|
                0 <= i < pairs.len() ==> allowed(#[trigger] pairs[i].0@, exclusivity@),
            match made {
                Ok(table) => table@ == pairs_view(pairs@),
                Err(Error::InvalidCondition(key)) => exists|i: int|
                    0 <= i < pairs.len() && key@ == pairs[i].0@ && !allowed(
                        pairs[i].0@,
                        exclusivity@,
                    ) && forall|j: int| 0 <= j < i ==> allowed(#[trigger] pairs[j].0@, exclusivity@),
                Err(_) => false,
            },
    {
        let ghost given = pairs@;
        let mut entries: Vec<Candidate<P>> = Vec::new();
        for pair in it: pairs
            invariant
                it.seq() == given,
                entries@.len() == it.index(),
                forall|j: int|
                    0 <= j < it.index() ==> (#[trigger] entries@[j]).key.text() == given[j].0@
                        && entries@[j].payload == given[j].1,
                forall|j: int| 0 <= j < it.index() ==> allowed(#[trigger] given[j].0@, exclusivity@),
        {
            let key = ConditionKey::parse(pair.0.as_str());
            if !exclusivity.is_valid(&key) {
                return Err(Error::InvalidCondition(pair.0));
            }
            entries.push(Candidate { key, payload: pair.1 });
        }
        let table = CandidateTable { entries };
        assert(table@ =~= pairs_view(given));
        Ok(table)
    }

    /// How many candidates the table holds.
    pub fn len(&self) -> (count: usize)
        ensures
            count == self@.len(),
    {
        self.entries.len()
    }
}

/// Chooses the payload of the candidate that matches `env` and requires more
/// environments than every other candidate that matches.
///
/// With no candidate that matches there is nothing to choose, which is no
/// error. With candidates that match and none above all others the choice is
/// refused: the error names two keys that match, require equally many
/// environments, and have no matching key above them.
pub fn resolve<'a, P>(candidates: &'a CandidateTable<P>, env: &EnvironmentTable) -> (found: Result<
    Option<&'a P>,
    Error,
>)
    ensures
        no_match(candidates@, env@) <==> found matches Ok(None),
        forall|i: int| dominant(candidates@, env@, i) ==> found == Ok::<Option<&P>, Error>(Some(&candidates@[i].1)),
        match decision(candidates@, env@) {
            Decision::NoMatch => found matches Ok(None),
            Decision::Chosen(payload) => found == Ok::<Option<&P>, Error>(Some(&payload)),
            Decision::Ambiguous => found matches Err(Error::Indecision(left, right)) && exists|
                i: int,
                j: int,
            |
                tied(candidates@, env@, i, j) && left@ == candidates@[i].0 && right@
                    == candidates@[j].0,
        },
{
    let ghost table = candidates@;
    let n = candidates.entries.len();
    let mut best: Option<usize> = None;
    let mut rival: Option<usize> = None;
    let mut i: usize = 0;
    while i < n
        invariant
            i <= n,
            n == candidates.entries.len(),
            table == candidates@,
            table.len() == n,
            match best {
                None => rival is None && forall|j: int|
                    0 <= j < i ==> !matches(#[trigger] table[j].0, env@),
                Some(b) => b < i && matches(table[b as int].0, env@) && forall|j: int|
                    0 <= j < i && matches(#[trigger] table[j].0, env@) ==> specificity(table[j].0)
                        <= specificity(table[b as int].0),
            },
            match rival {
                None => best matches Some(b) ==> forall|j: int|
                    0 <= j < i && j != b && matches(#[trigger] table[j].0, env@) ==> specificity(
                        table[j].0,
                    ) < specificity(table[b as int].0),
                Some(r) => best matches Some(b) && r < i && r != b && matches(
                    table[r as int].0,
                    env@,
                ) && specificity(table[r as int].0) == specificity(table[b as int].0),
            },
        decreases n - i,
    {
        let candidate = &candidates.entries[i];
        assert(table[i as int].0 == candidate.key.text());
        if candidate.key.is_satisfied(env) {
            let weight = candidate.key.specificity();
            match best {
                None => {
                    best = Some(i);
                },
                Some(b) => {
                    assert(table[b as int].0 == candidates.entries[b as int].key.text());
                    let top = candidates.entries[b].key.specificity();
                    if weight > top {
                        best = Some(i);
                        rival = None;
                    } else if weight == top && rival.is_none() {
                        rival = Some(i);
                    }
                },
            }
        }
        i += 1;
    }
    match best {
        None => Ok(None),
        Some(b) => match rival {
            None => {
                proof {
                    assert(dominant(table, env@, b as int));
                    assert(table[b as int].1 == candidates.entries[b as int].payload);
                    lemma_dominant_is_unique(table, env@, b as int);
                }
                Ok(Some(&candidates.entries[b].payload))
            },
            Some(r) => {
                proof {
                    assert(tied(table, env@, b as int, r as int));
                    lemma_tie_excludes_dominant(table, env@, b as int, r as int);
                    assert(table[b as int].0 == candidates.entries[b as int].key.text());
                    assert(table[r as int].0 == candidates.entries[r as int].key.text());
                }
                Err(
                    Error::Indecision(
                        candidates.entries[b].key.text.clone(),
                        candidates.entries[r].key.text.clone(),
                    ),
                )
            },
        },
    }
}

/// At most one candidate is above all others that match.
pub proof fn lemma_dominant_is_unique<P>(
    table: Seq<(Seq<char>, P)>,
    env: Map<Seq<char>, bool>,
    i: int,
)
    requires
        dominant(table, env, i),
    ensures
        forall|j: int| dominant(table, env, j) ==> j == i,
        decision(table, env) == Decision::Chosen(table[i].1),
{
    assert forall|j: int| dominant(table, env, j) implies j == i by {
        if j != i {
            assert(specificity(table[j].0) < specificity(table[i].0));
            assert(specificity(table[i].0) < specificity(table[j].0));
        }
    }
    let chosen = choose|j: int| dominant(table, env, j);
    assert(chosen == i);
}

/// Where two candidates tie with nothing above them, none is above all
/// others.
pub proof fn lemma_tie_excludes_dominant<P>(
    table: Seq<(Seq<char>, P)>,
    env: Map<Seq<char>, bool>,
    i: int,
    j: int,
)
    requires
        tied(table, env, i, j),
    ensures
        forall|k: int| !dominant(table, env, k),
        decision(table, env) == Decision::<P>::Ambiguous,
{
    assert forall|k: int| !dominant(table, env, k) by {
        if dominant(table, env, k) {
            if k == i {
                assert(specificity(table[j].0) < specificity(table[k].0));
            } else {
                assert(specificity(table[i].0) < specificity(table[k].0));
            }
        }
    }
}

/// A key that requires all that another requires, and more, wins over it:
/// where the larger key matches, so does the smaller, with fewer
/// environments; and where no third candidate that matches requires as many
/// as the larger key, the larger key's payload is chosen, wherever in the
/// table the two stand.
pub proof fn lemma_superset_wins<P>(
    table: Seq<(Seq<char>, P)>,
    env: Map<Seq<char>, bool>,
    sub: int,
    sup: int,
)
    requires
        0 <= sub < table.len(),
        0 <= sup < table.len(),
        key_names(table[sub].0).to_set().subset_of(key_names(table[sup].0).to_set()),
        key_names(table[sub].0).to_set() != key_names(table[sup].0).to_set(),
        matches(table[sup].0, env),
        forall|k: int|
            0 <= k < table.len() && k != sub && k != sup && matches(#[trigger] table[k].0, env)
                ==> specificity(table[k].0) < specificity(table[sup].0),
    ensures
        matches(table[sub].0, env),
        specificity(table[sub].0) < specificity(table[sup].0),
        dominant(table, env, sup),
        decision(table, env) == Decision::Chosen(table[sup].1),
{
    let small = key_names(table[sub].0);
    let large = key_names(table[sup].0);
    lemma_distinct(fields(table[sub].0, '|'));
    lemma_distinct(fields(table[sup].0, '|'));
    small.unique_seq_to_set();
    large.unique_seq_to_set();
    vstd::seq_lib::seq_to_set_is_finite(small);
    vstd::seq_lib::seq_to_set_is_finite(large);
    vstd::set_lib::lemma_len_subset(small.to_set(), large.to_set());
    if small.len() == large.len() {
        vstd::set_lib::lemma_subset_equality(small.to_set(), large.to_set());
    }
    assert forall|i: int| 0 <= i < small.len() implies env.contains_key(#[trigger] small[i])
        && env[small[i]] by {
        assert(small.to_set().contains(small[i]));
        assert(large.to_set().contains(small[i]));
        let j = choose|j: int| 0 <= j < large.len() && large[j] == small[i];
        assert(env.contains_key(large[j]) && env[large[j]]);
    }
    assert(dominant(table, env, sup));
    lemma_dominant_is_unique(table, env, sup);
}

/// Two different candidates that match and require equally many environments
/// are never settled in silence: unless a single candidate is above all
/// others that match, the decision is `Ambiguous`. Where no candidate that
/// matches requires more than the two, they are themselves a tie.
pub proof fn lemma_equal_matches_tie<P>(
    table: Seq<(Seq<char>, P)>,
    env: Map<Seq<char>, bool>,
    i: int,
    j: int,
)
    requires
        0 <= i < table.len(),
        0 <= j < table.len(),
        i != j,
        matches(table[i].0, env),
        matches(table[j].0, env),
        specificity(table[i].0) == specificity(table[j].0),
        forall|k: int| !dominant(table, env, k),
    ensures
        decision(table, env) == Decision::<P>::Ambiguous,
        (forall|k: int|
            0 <= k < table.len() && matches(#[trigger] table[k].0, env) ==> specificity(
                table[k].0,
            ) <= specificity(table[i].0)) ==> tied(table, env, i, j),
{
}

/// A table without a candidate that matches decides `NoMatch`.
pub proof fn lemma_no_match_decides_nothing<P>(
    table: Seq<(Seq<char>, P)>,
    env: Map<Seq<char>, bool>,
)
    requires
        no_match(table, env),
    ensures
        decision(table, env) == Decision::<P>::NoMatch,
{
}

/// Whether `b` holds the candidates of `a` in another order: candidate `i` of
/// `b` is candidate `order[i]` of `a`.
pub open spec fn reordered<P>(
    a: Seq<(Seq<char>, P)>,
    b: Seq<(Seq<char>, P)>,
    order: Seq<int>,
) -> bool {
    &&& order.len() == a.len()
    &&& b.len() == a.len()
    &&& order.no_duplicates()
    &&& forall|i: int|
        0 <= i < order.len() ==> 0 <= #[trigger] order[i] < a.len() && b[i] == a[order[i]]
}

/// An order of `n` different positions below `n` reaches each of them.
proof fn lemma_order_reaches_all(order: Seq<int>, n: int)
    requires
        order.len() == n,
        order.no_duplicates(),
        forall|i: int| 0 <= i < order.len() ==> 0 <= #[trigger] order[i] < n,
    ensures
        forall|x: int| 0 <= x < n ==> order.contains(x),
{
    let range = vstd::set_lib::set_int_range(0, n);
    vstd::set_lib::lemma_int_range(0, n);
    order.unique_seq_to_set();
    vstd::seq_lib::seq_to_set_is_finite(order);
    assert(order.to_set().subset_of(range)) by {
        assert forall|x: int| order.to_set().contains(x) implies range.contains(x) by {
            let i = choose|i: int| 0 <= i < order.len() && order[i] == x;
        }
    }
    vstd::set_lib::lemma_subset_equality(order.to_set(), range);
    assert forall|x: int| 0 <= x < n implies order.contains(x) by {
        assert(range.contains(x));
        assert(order.to_set().contains(x));
    }
}

/// The decision does not depend on the order of the candidates.
pub proof fn lemma_order_is_irrelevant<P>(
    a: Seq<(Seq<char>, P)>,
    b: Seq<(Seq<char>, P)>,
    order: Seq<int>,
    env: Map<Seq<char>, bool>,
)
    requires
        reordered(a, b, order),
    ensures
        decision(a, env) == decision(b, env),
{
    lemma_order_reaches_all(order, a.len() as int);
    assert forall|x: int| dominant(a, env, x) implies exists|i: int|
        dominant(b, env, i) && b[i] == a[x] by {
        assert(order.contains(x));
        let i = choose|i: int| 0 <= i < order.len() && order[i] == x;
        assert forall|j: int| 0 <= j < b.len() && j != i && matches(#[trigger] b[j].0, env)
            implies specificity(b[j].0) < specificity(b[i].0) by {
            assert(order[j] != order[i]);
            assert(matches(a[order[j]].0, env));
        }
        assert(dominant(b, env, i));
    }
    assert forall|i: int| dominant(b, env, i) implies dominant(a, env, order[i]) by {
        let x = order[i];
        assert forall|y: int| 0 <= y < a.len() && y != x && matches(#[trigger] a[y].0, env)
            implies specificity(a[y].0) < specificity(a[x].0) by {
            assert(order.contains(y));
            let j = choose|j: int| 0 <= j < order.len() && order[j] == y;
            assert(matches(b[j].0, env));
        }
    }
    if no_match(a, env) {
        assert forall|i: int| 0 <= i < b.len() implies !matches(#[trigger] b[i].0, env) by {
            assert(!matches(a[order[i]].0, env));
        }
    } else {
        let x = choose|x: int| 0 <= x < a.len() && matches(#[trigger] a[x].0, env);
        assert(order.contains(x));
        let i = choose|i: int| 0 <= i < order.len() && order[i] == x;
        assert(matches(b[i].0, env));
        if exists|x: int| dominant(a, env, x) {
            let x = choose|x: int| dominant(a, env, x);
            let i = choose|i: int| dominant(b, env, i) && b[i] == a[x];
            lemma_dominant_is_unique(a, env, x);
            lemma_dominant_is_unique(b, env, i);
        } else {
            assert forall|i: int| !dominant(b, env, i) by {
                if dominant(b, env, i) {
                    assert(dominant(a, env, order[i]));
                }
            }
        }
    }
}

} // verus!
