//! Evaluates the declared facts, in whatever order they refer to each other.
//!
//! A combination may refer to a fact that is declared after it. Each fact is
//! evaluated when it is first needed and then remembered. A fact that is
//! needed while it is itself being evaluated depends on itself: that is a
//! cycle, and an error.

use super::facts::{EnvironmentFact, Error, Host};
use super::EnvironmentTable;
use crate::text::same_text;
use vstd::prelude::*;

verus! {

/// Position of the first declaration of `name`, or `decls.len()` where it is
/// not declared.
pub open spec fn index_named(decls: Seq<(String, EnvironmentFact)>, name: Seq<char>) -> int
    decreases decls.len(),
{
    if decls.len() == 0 || decls[0].0@ == name {
        0
    } else {
        1 + index_named(decls.drop_first(), name)
    }
}

/// Whether no name is declared twice.
pub open spec fn unique_names(decls: Seq<(String, EnvironmentFact)>) -> bool {
    forall|i: int, j: int| 0 <= i < j < decls.len() ==> decls[i].0@ != decls[j].0@
}

/// Whether `name` is declared.
pub open spec fn declares(decls: Seq<(String, EnvironmentFact)>, name: Seq<char>) -> bool {
    exists|i: int| 0 <= i < decls.len() && (#[trigger] decls[i]).0@ == name
}

/// Whether every name that a declaration refers to is declared.
pub open spec fn closed(decls: Seq<(String, EnvironmentFact)>) -> bool {
    forall|i: int, k: int|
        0 <= i < decls.len() && 0 <= k < decls[i].1.refs().len() ==> declares(
            decls,
            #[trigger] decls[i].1.refs()[k],
        )
}

/// Whether declaration `i` refers to declaration `j`.
pub open spec fn edge(decls: Seq<(String, EnvironmentFact)>, i: int, j: int) -> bool {
    0 <= i < decls.len() && 0 <= j < decls.len() && decls[i].1.refs().contains(decls[j].0@)
}

/// Whether `rank` gives each declaration a higher number than those it
/// refers to.
pub open spec fn ranked(decls: Seq<(String, EnvironmentFact)>, rank: Seq<nat>) -> bool {
    rank.len() == decls.len() && forall|i: int, j: int| #[trigger]
        edge(decls, i, j) ==> rank[j] < rank[i]
}

/// Whether no declaration depends on itself: the declarations can be
/// numbered so that each refers to lower numbers only.
pub open spec fn acyclic(decls: Seq<(String, EnvironmentFact)>) -> bool {
    exists|rank: Seq<nat>| ranked(decls, rank)
}

/// Whether `path` goes from declaration to declaration, each referring to
/// the next, in one step at least.
pub open spec fn is_path(decls: Seq<(String, EnvironmentFact)>, path: Seq<int>) -> bool {
    path.len() >= 2 && forall|k: int|
        0 <= k < path.len() - 1 ==> edge(decls, #[trigger] path[k], path[k + 1])
}

/// Whether declaration `a` depends on declaration `b`, directly or through
/// others.
pub open spec fn reaches(decls: Seq<(String, EnvironmentFact)>, a: int, b: int) -> bool {
    exists|path: Seq<int>| is_path(decls, path) && path[0] == a && path.last() == b
}

/// Whether `table` holds exactly the declared names, each with the value of
/// its fact on `host`.
pub open spec fn describes(
    decls: Seq<(String, EnvironmentFact)>,
    host: &Host,
    table: Map<Seq<char>, bool>,
) -> bool {
    &&& forall|name: Seq<char>| table.contains_key(name) <==> declares(decls, name)
    &&& forall|i: int|
        0 <= i < decls.len() ==> table[(#[trigger] decls[i]).0@] == decls[i].1.value(host, table)
}

/// Whether `error` names a defect of `decls`: a name that is referred to and
/// not declared, or a declaration that depends on itself.
pub open spec fn fault(decls: Seq<(String, EnvironmentFact)>, error: Error) -> bool {
    match error {
        Error::UnknownEnvironment(name) => !declares(decls, name@) && exists|i: int, k: int|
            0 <= i < decls.len() && 0 <= k < decls[i].1.refs().len() && #[trigger] decls[i].1.refs()[k]
                == name@,
        Error::CyclicDependency(name) => exists|j: int|
            0 <= j < decls.len() && (#[trigger] decls[j]).0@ == name@ && reaches(decls, j, j),
    }
}

/// `index_named` lies within the declarations, passes no declaration of the
/// name, and stops on one.
pub proof fn lemma_index_named(decls: Seq<(String, EnvironmentFact)>, name: Seq<char>)
    ensures
        0 <= index_named(decls, name) <= decls.len(),
        forall|j: int| 0 <= j < index_named(decls, name) ==> (#[trigger] decls[j]).0@ != name,
        index_named(decls, name) < decls.len() ==> decls[index_named(decls, name)].0@ == name,
        declares(decls, name) <==> index_named(decls, name) < decls.len(),
    decreases decls.len(),
{
    if decls.len() == 0 || decls[0].0@ == name {
        if decls.len() > 0 {
            assert(decls[0].0@ == name);
        }
    } else {
        let rest = decls.drop_first();
        lemma_index_named(rest, name);
        assert forall|j: int| 0 <= j < index_named(decls, name) implies (#[trigger] decls[j]).0@
            != name by {
            if j > 0 {
                assert(decls[j] == rest[j - 1]);
            }
        }
        if declares(decls, name) {
            let i = choose|i: int| 0 <= i < decls.len() && (#[trigger] decls[i]).0@ == name;
            assert(rest[i - 1] == decls[i]);
        }
        if index_named(rest, name) < rest.len() {
            assert(decls[index_named(rest, name) + 1] == rest[index_named(rest, name)]);
        }
    }
}

/// Where no name is declared twice, a declaration is found under its name.
pub proof fn lemma_index_of_declared(decls: Seq<(String, EnvironmentFact)>, i: int)
    requires
        unique_names(decls),
        0 <= i < decls.len(),
    ensures
        index_named(decls, decls[i].0@) == i,
{
    lemma_index_named(decls, decls[i].0@);
    let found = index_named(decls, decls[i].0@);
    if found < i {
        assert(decls[found].0@ == decls[i].0@);
    }
}

/// Along a path the rank falls.
proof fn lemma_rank_falls(decls: Seq<(String, EnvironmentFact)>, rank: Seq<nat>, path: Seq<int>)
    requires
        ranked(decls, rank),
        is_path(decls, path),
    ensures
        rank[path.last()] < rank[path[0]],
    decreases path.len(),
{
    if path.len() == 2 {
        assert(edge(decls, path[0], path[1]));
    } else {
        let shorter = path.drop_last();
        assert forall|k: int| 0 <= k < shorter.len() - 1 implies edge(
            decls,
            #[trigger] shorter[k],
            shorter[k + 1],
        ) by {
            assert(edge(decls, path[k], path[k + 1]));
        }
        lemma_rank_falls(decls, rank, shorter);
        assert(edge(decls, path[path.len() - 2], path[path.len() - 2 + 1]));
    }
}

/// Declarations of which one depends on itself are not acyclic.
pub proof fn lemma_cycle_has_no_rank(decls: Seq<(String, EnvironmentFact)>, at: int)
    requires
        reaches(decls, at, at),
    ensures
        !acyclic(decls),
{
    if acyclic(decls) {
        let rank = choose|rank: Seq<nat>| ranked(decls, rank);
        let path = choose|path: Seq<int>|
            is_path(decls, path) && path[0] == at && path.last() == at;
        lemma_rank_falls(decls, rank, path);
    }
}

/// Two facts that refer to each other, directly or through others, make the
/// declarations cyclic: each of the two depends on itself, and no numbering
/// puts every fact above those it refers to. Evaluation then fails, with
/// `CyclicDependency` unless a name that is not declared is met first.
pub proof fn lemma_mutual_reference_is_cyclic(
    decls: Seq<(String, EnvironmentFact)>,
    a: int,
    b: int,
)
    requires
        reaches(decls, a, b),
        reaches(decls, b, a),
    ensures
        reaches(decls, a, a),
        reaches(decls, b, b),
        !acyclic(decls),
{
    let there = choose|path: Seq<int>| is_path(decls, path) && path[0] == a && path.last() == b;
    let back = choose|path: Seq<int>| is_path(decls, path) && path[0] == b && path.last() == a;
    lemma_paths_join(decls, there, back);
    lemma_paths_join(decls, back, there);
    lemma_cycle_has_no_rank(decls, a);
}

/// A path that ends where another begins goes on with it.
proof fn lemma_paths_join(decls: Seq<(String, EnvironmentFact)>, first: Seq<int>, second: Seq<int>)
    requires
        is_path(decls, first),
        is_path(decls, second),
        first.last() == second[0],
    ensures
        reaches(decls, first[0], second.last()),
{
    let whole = first + second.drop_first();
    assert forall|k: int| 0 <= k < whole.len() - 1 implies edge(
        decls,
        #[trigger] whole[k],
        whole[k + 1],
    ) by {
        if k < first.len() - 1 {
            assert(edge(decls, first[k], first[k + 1]));
        } else {
            let m = k - first.len() + 1;
            assert(edge(decls, second[m], second[m + 1]));
            if m == 0 {
                assert(whole[k] == first.last());
            } else {
                assert(whole[k] == second[m]);
            }
            assert(whole[k + 1] == second[m + 1]);
        }
    }
    assert(is_path(decls, whole));
    assert(whole[0] == first[0]);
    assert(whole.last() == second.last());
}

/// Two tables that describe ranked declarations agree on declaration `i`.
proof fn lemma_tables_agree_at(
    decls: Seq<(String, EnvironmentFact)>,
    host: &Host,
    rank: Seq<nat>,
    first: Map<Seq<char>, bool>,
    second: Map<Seq<char>, bool>,
    i: int,
)
    requires
        ranked(decls, rank),
        describes(decls, host, first),
        describes(decls, host, second),
        0 <= i < decls.len(),
    ensures
        first[decls[i].0@] == second[decls[i].0@],
    decreases rank[i],
{
    let names = decls[i].1.refs();
    assert forall|k: int| 0 <= k < names.len() implies (first.contains_key(#[trigger] names[k])
        && first[names[k]]) == (second.contains_key(names[k]) && second[names[k]]) by {
        let name = names[k];
        if declares(decls, name) {
            let j = choose|j: int| 0 <= j < decls.len() && (#[trigger] decls[j]).0@ == name;
            assert(edge(decls, i, j));
            lemma_tables_agree_at(decls, host, rank, first, second, j);
        }
    }
    assert(decls[i].1.value(host, first) == decls[i].1.value(host, second)) by {
        match decls[i].1 {
            EnvironmentFact::Or(list) => {
                assert(list.deep_view() == names);
                if decls[i].1.value(host, first) {
                    let k = choose|k: int|
                        0 <= k < list.len() && first.contains_key(#[trigger] list.deep_view()[k])
                            && first[list.deep_view()[k]];
                    assert(second.contains_key(names[k]) && second[names[k]]);
                }
                if decls[i].1.value(host, second) {
                    let k = choose|k: int|
                        0 <= k < list.len() && second.contains_key(#[trigger] list.deep_view()[k])
                            && second[list.deep_view()[k]];
                    assert(first.contains_key(names[k]) && first[names[k]]);
                }
            },
            EnvironmentFact::And(list) => {
                assert(list.deep_view() == names);
                if decls[i].1.value(host, first) {
                    assert forall|k: int| 0 <= k < list.len() implies second.contains_key(
                        #[trigger] list.deep_view()[k],
                    ) && second[list.deep_view()[k]] by {
                        assert(first.contains_key(names[k]) && first[names[k]]);
                    }
                }
                if decls[i].1.value(host, second) {
                    assert forall|k: int| 0 <= k < list.len() implies first.contains_key(
                        #[trigger] list.deep_view()[k],
                    ) && first[list.deep_view()[k]] by {
                        assert(second.contains_key(names[k]) && second[names[k]]);
                    }
                }
            },
            _ => {},
        }
    }
}

/// Declarations of which none depends on itself have one table at most that
/// describes them: the values of the facts are determined.
pub proof fn lemma_evaluation_is_unique(
    decls: Seq<(String, EnvironmentFact)>,
    host: &Host,
    first: Map<Seq<char>, bool>,
    second: Map<Seq<char>, bool>,
)
    requires
        acyclic(decls),
        describes(decls, host, first),
        describes(decls, host, second),
    ensures
        first == second,
{
    let rank = choose|rank: Seq<nat>| ranked(decls, rank);
    assert forall|name: Seq<char>| first.contains_key(name) == second.contains_key(name) by {
        assert(first.contains_key(name) <==> declares(decls, name));
        assert(second.contains_key(name) <==> declares(decls, name));
    }
    assert forall|name: Seq<char>| first.contains_key(name) implies first[name]
        == second[name] by {
        assert(declares(decls, name));
        let i = choose|i: int| 0 <= i < decls.len() && (#[trigger] decls[i]).0@ == name;
        lemma_tables_agree_at(decls, host, rank, first, second, i);
    }
    assert(first =~= second);
}

/// Different positions below `n` are `n` at most.
proof fn lemma_distinct_positions(positions: Seq<int>, n: int)
    requires
        0 <= n,
        positions.no_duplicates(),
        forall|k: int| 0 <= k < positions.len() ==> 0 <= #[trigger] positions[k] < n,
    ensures
        positions.len() <= n,
{
    let range = vstd::set_lib::set_int_range(0, n);
    vstd::set_lib::lemma_int_range(0, n);
    positions.unique_seq_to_set();
    assert(positions.to_set().subset_of(range)) by {
        assert forall|x: int| positions.to_set().contains(x) implies range.contains(x) by {
            let k = choose|k: int| 0 <= k < positions.len() && positions[k] == x;
        }
    }
    vstd::set_lib::lemma_len_subset(positions.to_set(), range);
}

/// How far the evaluation of one fact has come.
#[derive(Clone, Copy, PartialEq, Eq, Structural)]
enum Mark {
    /// Not needed yet.
    Pending,
    /// Being evaluated.
    Active,
    /// Evaluated, with this value.
    Done(bool),
}

/// Whether the fact named `name` is evaluated and holds.
spec fn truth(decls: Seq<(String, EnvironmentFact)>, marks: Seq<Mark>, name: Seq<char>) -> bool {
    let j = index_named(decls, name);
    0 <= j < marks.len() && marks[j] == Mark::Done(true)
}

/// The value of `fact`, with the facts it refers to as `marks` has them.
spec fn answer(
    decls: Seq<(String, EnvironmentFact)>,
    host: &Host,
    marks: Seq<Mark>,
    fact: EnvironmentFact,
) -> bool {
    match fact {
        EnvironmentFact::Or(names) => exists|k: int|
            0 <= k < names.len() && truth(decls, marks, #[trigger] names.deep_view()[k]),
        EnvironmentFact::And(names) => forall|k: int|
            0 <= k < names.len() ==> truth(decls, marks, #[trigger] names.deep_view()[k]),
        _ => fact.holds_on(host),
    }
}

/// Whether each fact that `i` refers to is declared, evaluated and ranked
/// below `i`.
spec fn grounded(
    decls: Seq<(String, EnvironmentFact)>,
    marks: Seq<Mark>,
    rank: Seq<nat>,
    i: int,
) -> bool {
    forall|k: int|
        0 <= k < decls[i].1.refs().len() ==> {
            let j = index_named(decls, #[trigger] decls[i].1.refs()[k]);
            0 <= j < decls.len() && marks[j] is Done && rank[j] < rank[i]
        }
}

/// Whether fact `i` rests on evaluated facts and has its right value.
spec fn settled(
    decls: Seq<(String, EnvironmentFact)>,
    host: &Host,
    marks: Seq<Mark>,
    rank: Seq<nat>,
    i: int,
) -> bool {
    grounded(decls, marks, rank, i) && marks[i] == Mark::Done(
        answer(decls, host, marks, decls[i].1),
    )
}

/// Whether the marks are in order: the facts being evaluated are those of
/// `stack`, each referring to the next, and each evaluated fact is settled
/// and ranked below `clock`.
spec fn sound(
    decls: Seq<(String, EnvironmentFact)>,
    host: &Host,
    marks: Seq<Mark>,
    rank: Seq<nat>,
    clock: nat,
    stack: Seq<int>,
) -> bool {
    &&& marks.len() == decls.len()
    &&& rank.len() == decls.len()
    &&& stack.no_duplicates()
    &&& forall|k: int|
        0 <= k < stack.len() ==> 0 <= #[trigger] stack[k] < decls.len() && marks[stack[k]] is Active
    &&& forall|i: int| 0 <= i < decls.len() && #[trigger] marks[i] is Active ==> stack.contains(i)
    &&& forall|k: int| 0 <= k < stack.len() - 1 ==> edge(decls, #[trigger] stack[k], stack[k + 1])
    &&& forall|i: int|
        0 <= i < decls.len() && #[trigger] marks[i] is Done ==> rank[i] < clock && settled(
            decls,
            host,
            marks,
            rank,
            i,
        )
}

/// Whether `after` keeps what `before` had evaluated, and has the same facts
/// under evaluation.
spec fn grows(before: Seq<Mark>, rank_before: Seq<nat>, after: Seq<Mark>, rank_after: Seq<nat>) -> bool {
    &&& after.len() == before.len()
    &&& rank_after.len() == rank_before.len()
    &&& forall|j: int|
        0 <= j < before.len() && #[trigger] before[j] is Done ==> after[j] == before[j]
            && rank_after[j] == rank_before[j]
    &&& forall|j: int|
        0 <= j < before.len() ==> (#[trigger] after[j] is Active) == (before[j] is Active)
}

/// A settled fact stays settled while what was evaluated is kept.
proof fn lemma_settled_kept(
    decls: Seq<(String, EnvironmentFact)>,
    host: &Host,
    before: Seq<Mark>,
    rank_before: Seq<nat>,
    after: Seq<Mark>,
    rank_after: Seq<nat>,
    i: int,
)
    requires
        0 <= i < decls.len(),
        before.len() == decls.len(),
        rank_before.len() == decls.len(),
        after.len() == before.len(),
        rank_after.len() == rank_before.len(),
        forall|j: int|
            0 <= j < before.len() && #[trigger] before[j] is Done ==> after[j] == before[j]
                && rank_after[j] == rank_before[j],
        before[i] is Done,
        settled(decls, host, before, rank_before, i),
    ensures
        settled(decls, host, after, rank_after, i),
{
    let names = decls[i].1.refs();
    assert forall|k: int| 0 <= k < names.len() implies truth(decls, before, #[trigger] names[k])
        == truth(decls, after, names[k]) by {
        let j = index_named(decls, names[k]);
        assert(before[j] is Done);
    }
    assert(grounded(decls, after, rank_after, i)) by {
        assert forall|k: int| 0 <= k < names.len() implies {
            let j = index_named(decls, #[trigger] names[k]);
            0 <= j < decls.len() && after[j] is Done && rank_after[j] < rank_after[i]
        } by {
            let j = index_named(decls, names[k]);
            assert(before[j] is Done);
        }
    }
    match decls[i].1 {
        EnvironmentFact::Or(list) => {
            assert(list.deep_view() == names);
            if answer(decls, host, before, decls[i].1) {
                let k = choose|k: int|
                    0 <= k < list.len() && truth(decls, before, #[trigger] list.deep_view()[k]);
                assert(truth(decls, after, names[k]));
            }
            if answer(decls, host, after, decls[i].1) {
                let k = choose|k: int|
                    0 <= k < list.len() && truth(decls, after, #[trigger] list.deep_view()[k]);
                assert(truth(decls, before, names[k]));
            }
        },
        EnvironmentFact::And(list) => {
            assert(list.deep_view() == names);
            if answer(decls, host, before, decls[i].1) {
                assert forall|k: int| 0 <= k < list.len() implies truth(
                    decls,
                    after,
                    #[trigger] list.deep_view()[k],
                ) by {
                    assert(truth(decls, before, names[k]));
                }
            }
            if answer(decls, host, after, decls[i].1) {
                assert forall|k: int| 0 <= k < list.len() implies truth(
                    decls,
                    before,
                    #[trigger] list.deep_view()[k],
                ) by {
                    assert(truth(decls, after, names[k]));
                }
            }
        },
        _ => {},
    }
}

/// Taking up a fact that was not needed before keeps the marks in order.
proof fn lemma_taken_up(
    decls: Seq<(String, EnvironmentFact)>,
    host: &Host,
    marks: Seq<Mark>,
    rank: Seq<nat>,
    clock: nat,
    stack: Seq<int>,
    at: int,
)
    requires
        0 <= at < decls.len(),
        sound(decls, host, marks, rank, clock, stack),
        marks[at] is Pending,
        stack.len() > 0 ==> edge(decls, stack.last(), at),
    ensures
        sound(decls, host, marks.update(at, Mark::Active), rank, clock, stack.push(at)),
        stack.push(at).len() <= decls.len(),
{
    let after = marks.update(at, Mark::Active);
    let longer = stack.push(at);
    assert(longer.no_duplicates()) by {
        assert forall|x: int, y: int| 0 <= x < y < longer.len() implies longer[x] != longer[y] by {
            if y == stack.len() {
                assert(marks[stack[x]] is Active);
            }
        }
    }
    assert forall|i: int| 0 <= i < decls.len() && #[trigger] after[i] is Active implies longer.contains(
        i,
    ) by {
        if i == at {
            assert(longer[stack.len() as int] == at);
        } else {
            assert(marks[i] is Active);
            let k = choose|k: int| 0 <= k < stack.len() && stack[k] == i;
            assert(longer[k] == i);
        }
    }
    assert forall|k: int| 0 <= k < longer.len() - 1 implies edge(
        decls,
        #[trigger] longer[k],
        longer[k + 1],
    ) by {
        if k < stack.len() - 1 {
            assert(edge(decls, stack[k], stack[k + 1]));
        }
    }
    assert forall|i: int| 0 <= i < decls.len() && #[trigger] after[i] is Done implies rank[i]
        < clock && settled(decls, host, after, rank, i) by {
        assert(marks[i] is Done);
        lemma_settled_kept(decls, host, marks, rank, after, rank, i);
    }
    assert forall|k: int| 0 <= k < longer.len() implies 0 <= #[trigger] longer[k] < decls.len()
        && after[longer[k]] is Active by {
        if k < stack.len() {
            assert(marks[stack[k]] is Active);
        }
    }
    lemma_distinct_positions(longer, decls.len() as int);
}

/// Finishing the fact on top of the stack, with its right value and over
/// evaluated facts, keeps the marks in order.
proof fn lemma_finished(
    decls: Seq<(String, EnvironmentFact)>,
    host: &Host,
    marks: Seq<Mark>,
    rank: Seq<nat>,
    clock: nat,
    stack: Seq<int>,
    at: int,
    held: bool,
)
    requires
        unique_names(decls),
        0 <= at < decls.len(),
        sound(decls, host, marks, rank, clock, stack.push(at)),
        forall|k: int|
            0 <= k < decls[at].1.refs().len() ==> {
                let j = index_named(decls, #[trigger] decls[at].1.refs()[k]);
                0 <= j < decls.len() && marks[j] is Done
            },
        held == answer(decls, host, marks, decls[at].1),
    ensures
        sound(
            decls,
            host,
            marks.update(at, Mark::Done(held)),
            rank.update(at, clock),
            clock + 1,
            stack,
        ),
{
    let longer = stack.push(at);
    let after = marks.update(at, Mark::Done(held));
    let ranked = rank.update(at, clock);
    assert(longer[stack.len() as int] == at);
    assert(marks[at] is Active);
    assert(stack.no_duplicates()) by {
        assert forall|x: int, y: int| 0 <= x < y < stack.len() implies stack[x] != stack[y] by {
            assert(longer[x] == stack[x] && longer[y] == stack[y]);
        }
    }
    assert forall|k: int| 0 <= k < stack.len() implies 0 <= #[trigger] stack[k] < decls.len()
        && after[stack[k]] is Active by {
        assert(longer[k] == stack[k]);
        assert(longer[k] != longer[stack.len() as int]);
    }
    assert forall|i: int| 0 <= i < decls.len() && #[trigger] after[i] is Active implies stack.contains(
        i,
    ) by {
        assert(marks[i] is Active);
        let k = choose|k: int| 0 <= k < longer.len() && longer[k] == i;
        assert(stack[k] == i);
    }
    assert forall|k: int| 0 <= k < stack.len() - 1 implies edge(
        decls,
        #[trigger] stack[k],
        stack[k + 1],
    ) by {
        assert(edge(decls, longer[k], longer[k + 1]));
    }
    let names = decls[at].1.refs();
    assert forall|k: int| 0 <= k < names.len() implies truth(decls, marks, #[trigger] names[k])
        == truth(decls, after, names[k]) by {
        let j = index_named(decls, names[k]);
        assert(marks[j] is Done);
    }
    assert(answer(decls, host, after, decls[at].1) == held) by {
        match decls[at].1 {
            EnvironmentFact::Or(list) => {
                assert(list.deep_view() == names);
                if held {
                    let k = choose|k: int|
                        0 <= k < list.len() && truth(decls, marks, #[trigger] list.deep_view()[k]);
                    assert(truth(decls, after, names[k]));
                }
                if answer(decls, host, after, decls[at].1) {
                    let k = choose|k: int|
                        0 <= k < list.len() && truth(decls, after, #[trigger] list.deep_view()[k]);
                    assert(truth(decls, marks, names[k]));
                }
            },
            EnvironmentFact::And(list) => {
                assert(list.deep_view() == names);
                if held {
                    assert forall|k: int| 0 <= k < list.len() implies truth(
                        decls,
                        after,
                        #[trigger] list.deep_view()[k],
                    ) by {
                        assert(truth(decls, marks, names[k]));
                    }
                }
                if answer(decls, host, after, decls[at].1) {
                    assert forall|k: int| 0 <= k < list.len() implies truth(
                        decls,
                        marks,
                        #[trigger] list.deep_view()[k],
                    ) by {
                        assert(truth(decls, after, names[k]));
                    }
                }
            },
            _ => {},
        }
    }
    assert forall|i: int| 0 <= i < decls.len() && #[trigger] after[i] is Done implies ranked[i]
        < clock + 1 && settled(decls, host, after, ranked, i) by {
        if i == at {
            assert forall|k: int| 0 <= k < names.len() implies {
                let j = index_named(decls, #[trigger] names[k]);
                0 <= j < decls.len() && after[j] is Done && ranked[j] < ranked[at]
            } by {
                let j = index_named(decls, names[k]);
                assert(marks[j] is Done);
                assert(rank[j] < clock);
            }
            assert(grounded(decls, after, ranked, at));
        } else {
            assert(marks[i] is Done);
            lemma_settled_kept(decls, host, marks, rank, after, ranked, i);
        }
    }
}

/// A fact that is needed while it is under evaluation depends on itself.
proof fn lemma_found_cycle(
    decls: Seq<(String, EnvironmentFact)>,
    host: &Host,
    marks: Seq<Mark>,
    rank: Seq<nat>,
    clock: nat,
    stack: Seq<int>,
    j: int,
)
    requires
        sound(decls, host, marks, rank, clock, stack),
        stack.len() > 0,
        0 <= j < decls.len(),
        marks[j] is Active,
        edge(decls, stack.last(), j),
    ensures
        reaches(decls, j, j),
{
    let p = choose|p: int| 0 <= p < stack.len() && stack[p] == j;
    let path = stack.skip(p).push(j);
    assert forall|k: int| 0 <= k < path.len() - 1 implies edge(
        decls,
        #[trigger] path[k],
        path[k + 1],
    ) by {
        if k < path.len() - 2 {
            assert(edge(decls, stack[p + k], stack[p + k + 1]));
            assert(path[k] == stack[p + k]);
            assert(path[k + 1] == stack[p + k + 1]);
        } else {
            assert(path[k] == stack.last());
        }
    }
    assert(is_path(decls, path));
    assert(path[0] == j);
    assert(path.last() == j);
}

/// Finds the declaration of `name`.
fn find_declared(decls: &Vec<(String, EnvironmentFact)>, name: &str) -> (found: Option<usize>)
    ensures
        match found {
            Some(j) => j < decls.len() && decls@[j as int].0@ == name@ && index_named(
                decls@,
                name@,
            ) == j,
            None => !declares(decls@, name@),
        },
{
    let mut j: usize = 0;
    while j < decls.len()
        invariant
            j <= decls.len(),
            forall|i: int| 0 <= i < j ==> (#[trigger] decls@[i]).0@ != name@,
        decreases decls.len() - j,
    {
        if same_text(decls[j].0.as_str(), name) {
            proof {
                lemma_index_named(decls@, name@);
                let found = index_named(decls@, name@);
                if found > j {
                    assert(decls@[j as int].0@ != name@);
                }
            }
            return Some(j);
        }
        j += 1;
    }
    None
}

/// Evaluates the facts that `names` lists, as far as they are not evaluated
/// yet, for the fact `from` that refers to them.
fn visit_all(
    decls: &Vec<(String, EnvironmentFact)>,
    host: &Host,
    from: usize,
    names: &Vec<String>,
    marks: &mut Vec<Mark>,
    rank: &mut Ghost<Seq<nat>>,
    clock: &mut Ghost<nat>,
    stack: Ghost<Seq<int>>,
) -> (made: Result<(bool, bool), Error>)
    requires
        unique_names(decls@),
        from < decls.len(),
        names.deep_view() == decls@[from as int].1.refs(),
        sound(decls@, host, old(marks)@, old(rank)@, old(clock)@, stack@),
        stack@.len() > 0,
        stack@.last() == from,
    ensures
        match made {
            Ok((any, all)) => {
                &&& sound(decls@, host, final(marks)@, final(rank)@, final(clock)@, stack@)
                &&& grows(old(marks)@, old(rank)@, final(marks)@, final(rank)@)
                &&& forall|k: int|
                    0 <= k < names.len() ==> {
                        let j = index_named(decls@, #[trigger] names.deep_view()[k]);
                        0 <= j < decls.len() && final(marks)@[j] is Done
                    }
                &&& any == exists|k: int|
                    0 <= k < names.len() && truth(
                        decls@,
                        final(marks)@,
                        #[trigger] names.deep_view()[k],
                    )
                &&& all == forall|k: int|
                    0 <= k < names.len() ==> truth(
                        decls@,
                        final(marks)@,
                        #[trigger] names.deep_view()[k],
                    )
            },
            Err(error) => fault(decls@, error),
        },
    decreases decls.len() - stack@.len(), 1int,
{
    let mut any = false;
    let mut all = true;
    let mut k: usize = 0;
    while k < names.len()
        invariant
            k <= names.len(),
            unique_names(decls@),
            from < decls.len(),
            names.deep_view() == decls@[from as int].1.refs(),
            stack@.len() > 0,
            stack@.last() == from,
            sound(decls@, host, marks@, rank@, clock@, stack@),
            grows(old(marks)@, old(rank)@, marks@, rank@),
            forall|m: int|
                0 <= m < k ==> {
                    let j = index_named(decls@, #[trigger] names.deep_view()[m]);
                    0 <= j < decls.len() && marks@[j] is Done
                },
            any == exists|m: int|
                0 <= m < k && truth(decls@, marks@, #[trigger] names.deep_view()[m]),
            all == forall|m: int|
                0 <= m < k ==> truth(decls@, marks@, #[trigger] names.deep_view()[m]),
        decreases names.len() - k,
    {
        let ghost seen = marks@;
        let ghost seen_rank = rank@;
        let ghost name = names.deep_view()[k as int];
        assert(name == names[k as int]@);
        let j = match find_declared(decls, names[k].as_str()) {
            Some(j) => j,
            None => {
                let missing = names[k].clone();
                assert(decls@[from as int].1.refs()[k as int] == missing@);
                return Err(Error::UnknownEnvironment(missing));
            },
        };
        assert(edge(decls@, from as int, j as int)) by {
            assert(decls@[from as int].1.refs()[k as int] == decls@[j as int].0@);
        }
        let held = match marks[j] {
            Mark::Done(held) => held,
            Mark::Active => {
                proof {
                    lemma_found_cycle(decls@, host, marks@, rank@, clock@, stack@, j as int);
                }
                return Err(Error::CyclicDependency(names[k].clone()));
            },
            Mark::Pending => {
                match visit(decls, host, j, marks, rank, clock, stack) {
                    Ok(held) => held,
                    Err(error) => {
                        return Err(error);
                    },
                }
            },
        };
        proof {
            assert forall|m: int| 0 <= m < k implies truth(
                decls@,
                seen,
                #[trigger] names.deep_view()[m],
            ) == truth(decls@, marks@, names.deep_view()[m]) by {
                let i = index_named(decls@, names.deep_view()[m]);
                assert(seen[i] is Done);
            }
            assert(truth(decls@, marks@, name) == held);
            let before_any = any;
            let before_all = all;
            if before_any || held {
                if held {
                    assert(truth(decls@, marks@, names.deep_view()[k as int]));
                } else {
                    let m = choose|m: int|
                        0 <= m < k && truth(decls@, seen, #[trigger] names.deep_view()[m]);
                    assert(truth(decls@, marks@, names.deep_view()[m]));
                }
            }
            if exists|m: int|
                0 <= m < k + 1 && truth(decls@, marks@, #[trigger] names.deep_view()[m]) {
                let m = choose|m: int|
                    0 <= m < k + 1 && truth(decls@, marks@, #[trigger] names.deep_view()[m]);
                if m < k {
                    assert(truth(decls@, seen, names.deep_view()[m]));
                }
            }
            if before_all && held {
                assert forall|m: int| 0 <= m < k + 1 implies truth(
                    decls@,
                    marks@,
                    #[trigger] names.deep_view()[m],
                ) by {
                    if m < k {
                        assert(truth(decls@, seen, names.deep_view()[m]));
                    }
                }
            }
            if forall|m: int|
                0 <= m < k + 1 ==> truth(decls@, marks@, #[trigger] names.deep_view()[m]) {
                assert(truth(decls@, marks@, names.deep_view()[k as int]));
                assert forall|m: int| 0 <= m < k implies truth(
                    decls@,
                    seen,
                    #[trigger] names.deep_view()[m],
                ) by {
                    assert(truth(decls@, marks@, names.deep_view()[m]));
                }
            }
            assert forall|m: int| 0 <= m < k + 1 implies {
                let i = index_named(decls@, #[trigger] names.deep_view()[m]);
                0 <= i < decls.len() && marks@[i] is Done
            } by {
                let i = index_named(decls@, names.deep_view()[m]);
                if m < k {
                    assert(seen[i] is Done);
                }
            }
        }
        any = any || held;
        all = all && held;
        k += 1;
    }
    Ok((any, all))
}

/// Evaluates the fact `at`, which was not needed before, and the facts it
/// depends on.
fn visit(
    decls: &Vec<(String, EnvironmentFact)>,
    host: &Host,
    at: usize,
    marks: &mut Vec<Mark>,
    rank: &mut Ghost<Seq<nat>>,
    clock: &mut Ghost<nat>,
    stack: Ghost<Seq<int>>,
) -> (made: Result<bool, Error>)
    requires
        unique_names(decls@),
        at < decls.len(),
        sound(decls@, host, old(marks)@, old(rank)@, old(clock)@, stack@),
        old(marks)@[at as int] is Pending,
        stack@.len() > 0 ==> edge(decls@, stack@.last(), at as int),
    ensures
        match made {
            Ok(held) => {
                &&& sound(decls@, host, final(marks)@, final(rank)@, final(clock)@, stack@)
                &&& grows(old(marks)@, old(rank)@, final(marks)@, final(rank)@)
                &&& final(marks)@[at as int] == Mark::Done(held)
            },
            Err(error) => fault(decls@, error),
        },
    decreases decls.len() - stack@.len(), 0int,
{
    let ghost entry = marks@;
    let ghost entry_rank = rank@;
    let ghost longer = stack@.push(at as int);
    proof {
        lemma_taken_up(decls@, host, marks@, rank@, clock@, stack@, at as int);
    }
    marks[at] = Mark::Active;
    let ghost taken = marks@;
    let held = match &decls[at].1 {
        EnvironmentFact::Or(names) => {
            match visit_all(decls, host, at, names, marks, rank, clock, Ghost(longer)) {
                Ok((any, _)) => any,
                Err(error) => {
                    return Err(error);
                },
            }
        },
        EnvironmentFact::And(names) => {
            match visit_all(decls, host, at, names, marks, rank, clock, Ghost(longer)) {
                Ok((_, all)) => all,
                Err(error) => {
                    return Err(error);
                },
            }
        },
        fact => fact.probe(host),
    };
    let ghost seen = marks@;
    let ghost seen_rank = rank@;
    proof {
        assert(grows(taken, entry_rank, seen, seen_rank));
        lemma_finished(decls@, host, seen, seen_rank, clock@, stack@, at as int, held);
    }
    marks[at] = Mark::Done(held);
    proof {
        *rank = Ghost(seen_rank.update(at as int, clock@));
        *clock = Ghost(clock@ + 1);
    }
    assert(grows(entry, entry_rank, marks@, rank@)) by {
        assert forall|j: int| 0 <= j < entry.len() && #[trigger] entry[j] is Done implies marks@[j]
            == entry[j] && rank@[j] == entry_rank[j] by {
            assert(taken[j] is Done);
        }
        assert forall|j: int| 0 <= j < entry.len() implies (#[trigger] marks@[j] is Active) == (
        entry[j] is Active) by {
            if j != at {
                assert((seen[j] is Active) == (taken[j] is Active));
            }
        }
    }
    Ok(held)
}

/// `pairs` without the declarations of names that were declared before.
pub open spec fn first_declarations(pairs: Seq<(String, EnvironmentFact)>) -> Seq<
    (String, EnvironmentFact),
>
    decreases pairs.len(),
{
    if pairs.len() == 0 {
        pairs
    } else {
        let before = first_declarations(pairs.drop_last());
        if declares(before, pairs.last().0@) {
            before
        } else {
            before.push(pairs.last())
        }
    }
}

/// Declarations without a repeated name are all first declarations.
proof fn lemma_first_declarations_of_unique(pairs: Seq<(String, EnvironmentFact)>)
    requires
        unique_names(pairs),
    ensures
        first_declarations(pairs) == pairs,
    decreases pairs.len(),
{
    if pairs.len() > 0 {
        let rest = pairs.drop_last();
        assert(unique_names(rest)) by {
            assert forall|i: int, j: int| 0 <= i < j < rest.len() implies rest[i].0@
                != rest[j].0@ by {
                assert(pairs[i].0@ != pairs[j].0@);
            }
        }
        lemma_first_declarations_of_unique(rest);
        if declares(rest, pairs.last().0@) {
            let i = choose|i: int| 0 <= i < rest.len() && (#[trigger] rest[i]).0@ == pairs.last().0@;
            assert(pairs[i].0@ != pairs[pairs.len() - 1].0@);
        }
        assert(rest.push(pairs.last()) =~= pairs);
    }
}

/// The declared facts, each under its name. No name is declared twice.
pub struct Environments {
    decls: Vec<(String, EnvironmentFact)>,
}

impl View for Environments {
    type V = Seq<(String, EnvironmentFact)>;

    closed spec fn view(&self) -> Seq<(String, EnvironmentFact)> {
        self.decls@
    }
}

impl Environments {
    #[verifier::type_invariant]
    spec fn names_differ(&self) -> bool {
        unique_names(self.decls@)
    }

    /// The declarations `pairs`, each a name and its fact. Of two
    /// declarations of one name the first stays.
    pub fn from_pairs(pairs: Vec<(String, EnvironmentFact)>) -> (made: Self)
        ensures
            made@ == first_declarations(pairs@),
            unique_names(made@),
            unique_names(pairs@) ==> made@ == pairs@,
    {
        let ghost given = pairs@;
        let mut decls: Vec<(String, EnvironmentFact)> = Vec::new();
        assert(given.take(0) =~= Seq::<(String, EnvironmentFact)>::empty());
        for pair in it: pairs
            invariant
                it.seq() == given,
                decls@ == first_declarations(given.take(it.index() as int)),
                unique_names(decls@),
        {
            let ghost before = decls@;
            let ghost prefix = given.take(it.index() + 1);
            assert(prefix.drop_last() =~= given.take(it.index() as int));
            assert(prefix.last() == pair);
            if find_declared(&decls, pair.0.as_str()).is_none() {
                decls.push(pair);
                assert forall|i: int, j: int| 0 <= i < j < decls@.len() implies decls@[i].0@
                    != decls@[j].0@ by {
                    if j < before.len() {
                        assert(before[i].0@ != before[j].0@);
                    } else {
                        assert(before[i].0@ != pair.0@);
                    }
                }
            }
        }
        assert(given.take(given.len() as int) =~= given);
        proof {
            if unique_names(given) {
                lemma_first_declarations_of_unique(given);
            }
        }
        Environments { decls }
    }

    /// How many facts are declared.
    pub fn len(&self) -> (count: usize)
        ensures
            count == self@.len(),
    {
        self.decls.len()
    }

    /// Evaluates every declared fact on `host`.
    ///
    /// This succeeds exactly where every name that is referred to is
    /// declared and no fact depends on itself. The table then holds each
    /// declared name with the value of its fact. Where all names are
    /// declared and a fact depends on itself, the error is
    /// `CyclicDependency`.
    pub fn evaluate(&self, host: &Host) -> (made: Result<EnvironmentTable, Error>)
        ensures
            unique_names(self@),
            made is Ok <==> closed(self@) && acyclic(self@),
            closed(self@) && !acyclic(self@) ==> made matches Err(Error::CyclicDependency(_)),
            match made {
                Ok(table) => describes(self@, host, table@),
                Err(error) => fault(self@, error),
            },
    {
        proof {
            use_type_invariant(self);
        }
        let n = self.decls.len();
        let mut marks: Vec<Mark> = Vec::new();
        while marks.len() < n
            invariant
                marks.len() <= n,
                forall|i: int| 0 <= i < marks.len() ==> marks@[i] is Pending,
            decreases n - marks.len(),
        {
            marks.push(Mark::Pending);
        }
        let mut rank: Ghost<Seq<nat>> = Ghost(Seq::new(n as nat, |i: int| 0nat));
        let mut clock: Ghost<nat> = Ghost(0nat);
        let ghost nothing = Seq::<int>::empty();
        let mut i: usize = 0;
        while i < n
            invariant
                i <= n,
                n == self.decls.len(),
                unique_names(self.decls@),
                nothing.len() == 0,
                sound(self.decls@, host, marks@, rank@, clock@, nothing),
                forall|j: int| 0 <= j < i ==> marks@[j] is Done,
            decreases n - i,
        {
            let ghost seen = marks@;
            match marks[i] {
                Mark::Pending => {
                    match visit(&self.decls, host, i, &mut marks, &mut rank, &mut clock, Ghost(nothing)) {
                        Ok(_) => {},
                        Err(error) => {
                            proof {
                                lemma_fault_excludes_success(self.decls@, error);
                            }
                            return Err(error);
                        },
                    }
                },
                Mark::Active => {
                    assert(nothing.contains(i as int));
                    assert(false);
                },
                Mark::Done(_) => {},
            }
            assert forall|j: int| 0 <= j < i + 1 implies marks@[j] is Done by {
                if j < i {
                    assert(seen[j] is Done);
                }
            }
            i += 1;
        }
        let mut table = EnvironmentTable::new();
        let mut at: usize = 0;
        while at < n
            invariant
                at <= n,
                n == self.decls.len(),
                marks.len() == n,
                unique_names(self.decls@),
                forall|j: int| 0 <= j < n ==> marks@[j] is Done,
                forall|name: Seq<char>|
                    table@.contains_key(name) <==> exists|j: int|
                        0 <= j < at && (#[trigger] self.decls@[j]).0@ == name,
                forall|j: int|
                    0 <= j < at ==> table@[(#[trigger] self.decls@[j]).0@] == (marks@[j]
                        == Mark::Done(true)),
            decreases n - at,
        {
            let ghost before = table@;
            let held = match marks[at] {
                Mark::Done(held) => held,
                _ => false,
            };
            table.insert(self.decls[at].0.clone(), held);
            proof {
                let added = self.decls@[at as int].0@;
                assert forall|name: Seq<char>| table@.contains_key(name) <==> exists|j: int|
                    0 <= j < at + 1 && (#[trigger] self.decls@[j]).0@ == name by {
                    if before.contains_key(name) {
                        let j = choose|j: int|
                            0 <= j < at && (#[trigger] self.decls@[j]).0@ == name;
                        assert(0 <= j < at + 1 && self.decls@[j].0@ == name);
                    }
                    if name == added {
                        assert(self.decls@[at as int].0@ == name);
                    }
                    if exists|j: int| 0 <= j < at + 1 && (#[trigger] self.decls@[j]).0@ == name {
                        let j = choose|j: int|
                            0 <= j < at + 1 && (#[trigger] self.decls@[j]).0@ == name;
                        if j < at {
                            assert(before.contains_key(name));
                        }
                    }
                }
                assert forall|j: int| 0 <= j < at + 1 implies table@[(
                #[trigger] self.decls@[j]).0@] == (marks@[j] == Mark::Done(true)) by {
                    if j < at {
                        assert(self.decls@[j].0@ != added);
                    }
                }
            }
            at += 1;
        }
        proof {
            lemma_all_done(self.decls@, host, marks@, rank@, clock@, table@);
        }
        Ok(table)
    }
}

/// A defect of the declarations rules out that they are closed and acyclic;
/// one that is a cycle is all that can be wrong with closed declarations.
proof fn lemma_fault_excludes_success(decls: Seq<(String, EnvironmentFact)>, error: Error)
    requires
        fault(decls, error),
    ensures
        !(closed(decls) && acyclic(decls)),
        closed(decls) ==> error is CyclicDependency,
{
    match error {
        Error::UnknownEnvironment(name) => {
            let (i, k) = choose|i: int, k: int|
                0 <= i < decls.len() && 0 <= k < decls[i].1.refs().len()
                    && #[trigger] decls[i].1.refs()[k] == name@;
            if closed(decls) {
                assert(declares(decls, decls[i].1.refs()[k]));
            }
        },
        Error::CyclicDependency(name) => {
            let j = choose|j: int|
                0 <= j < decls.len() && (#[trigger] decls[j]).0@ == name@ && reaches(decls, j, j);
            lemma_cycle_has_no_rank(decls, j);
        },
    }
}

/// Once every fact is evaluated, the declarations are closed and acyclic,
/// and a table of the values describes them.
proof fn lemma_all_done(
    decls: Seq<(String, EnvironmentFact)>,
    host: &Host,
    marks: Seq<Mark>,
    rank: Seq<nat>,
    clock: nat,
    table: Map<Seq<char>, bool>,
)
    requires
        unique_names(decls),
        sound(decls, host, marks, rank, clock, Seq::<int>::empty()),
        forall|j: int| 0 <= j < decls.len() ==> marks[j] is Done,
        forall|name: Seq<char>|
            table.contains_key(name) <==> exists|j: int|
                0 <= j < decls.len() && (#[trigger] decls[j]).0@ == name,
        forall|j: int|
            0 <= j < decls.len() ==> table[(#[trigger] decls[j]).0@] == (marks[j] == Mark::Done(
                true,
            )),
    ensures
        closed(decls),
        acyclic(decls),
        describes(decls, host, table),
{
    assert forall|i: int, k: int|
        0 <= i < decls.len() && 0 <= k < decls[i].1.refs().len() implies declares(
        decls,
        #[trigger] decls[i].1.refs()[k],
    ) by {
        assert(marks[i] is Done);
        assert(grounded(decls, marks, rank, i));
        let j = index_named(decls, decls[i].1.refs()[k]);
        lemma_index_named(decls, decls[i].1.refs()[k]);
    }
    assert(ranked(decls, rank)) by {
        assert forall|i: int, j: int| #[trigger] edge(decls, i, j) implies rank[j] < rank[i] by {
            let names = decls[i].1.refs();
            let k = choose|k: int| 0 <= k < names.len() && names[k] == decls[j].0@;
            lemma_index_of_declared(decls, j);
            assert(marks[i] is Done);
            assert(grounded(decls, marks, rank, i));
            assert(index_named(decls, names[k]) == j);
        }
    }
    assert forall|name: Seq<char>| truth(decls, marks, name) == (table.contains_key(name)
        && table[name]) by {
        lemma_index_named(decls, name);
        let j = index_named(decls, name);
        if j < decls.len() {
            assert(decls[j].0@ == name);
        }
    }
    assert forall|i: int| 0 <= i < decls.len() implies table[(#[trigger] decls[i]).0@]
        == decls[i].1.value(host, table) by {
        assert(marks[i] is Done);
        assert(settled(decls, host, marks, rank, i));
        let held = answer(decls, host, marks, decls[i].1);
        match decls[i].1 {
            EnvironmentFact::Or(list) => {
                if held {
                    let k = choose|k: int|
                        0 <= k < list.len() && truth(decls, marks, #[trigger] list.deep_view()[k]);
                    assert(table.contains_key(list.deep_view()[k]) && table[list.deep_view()[k]]);
                }
                if decls[i].1.value(host, table) {
                    let k = choose|k: int|
                        0 <= k < list.len() && table.contains_key(#[trigger] list.deep_view()[k])
                            && table[list.deep_view()[k]];
                    assert(truth(decls, marks, list.deep_view()[k]));
                }
            },
            EnvironmentFact::And(list) => {
                if held {
                    assert forall|k: int| 0 <= k < list.len() implies table.contains_key(
                        #[trigger] list.deep_view()[k],
                    ) && table[list.deep_view()[k]] by {
                        assert(truth(decls, marks, list.deep_view()[k]));
                    }
                }
                if decls[i].1.value(host, table) {
                    assert forall|k: int| 0 <= k < list.len() implies truth(
                        decls,
                        marks,
                        #[trigger] list.deep_view()[k],
                    ) by {
                        assert(table.contains_key(list.deep_view()[k]) && table[list.deep_view()[k]]);
                    }
                }
            },
            _ => {},
        }
    }
}

} // verus!
