//! Why the step limit of day 8 costs nothing: a walk that arrives at all
//! arrives before it has taken as many steps as there are pairs of an entry
//! of the network and a command, and a walk through a network in which
//! every successor has an entry comes back to an earlier state within as
//! many steps.
use crate::day08::{
    arrival, cycle, cycle_length, entry_of, following, next, part_one_of, step_limit, Dir,
    NodeView,
};
use vstd::prelude::*;
use vstd::set_lib::{lemma_int_range, lemma_len_subset, set_int_range};

verus! {

/// A state of a walk: the label where it stands, and the index of the
/// command that is next.
pub type State = (Seq<char>, int);

/// A walk arrives after more steps than it has taken and within the limit,
/// and where it arrives the place it stands at has an entry and a command
/// is next.
pub proof fn lemma_arrival_bounds(
    nodes: Seq<NodeView>,
    dirs: Seq<Dir>,
    loc: Seq<char>,
    i: int,
    n: nat,
    limit: nat,
)
    requires
        arrival(nodes, dirs, loc, i, n, limit) is Some,
    ensures
        n < arrival(nodes, dirs, loc, i, n, limit)->0 <= limit,
        0 <= i < dirs.len(),
        entry_of(nodes, loc) is Some,
    decreases limit - n,
{
    let to = next(nodes, loc, dirs[i])->0;
    if to != "ZZZ"@ {
        lemma_arrival_bounds(nodes, dirs, to, following(dirs.len(), i), n + 1, limit);
    }
}

/// An arrival is a matter of the steps still to go: where a walk arrives
/// after `r` steps having taken `n`, the same walk counted from any other
/// number of steps, under any limit that leaves as many steps, arrives
/// after as many more.
pub proof fn lemma_arrival_shifts(
    nodes: Seq<NodeView>,
    dirs: Seq<Dir>,
    loc: Seq<char>,
    i: int,
    n: nat,
    limit: nat,
    m: nat,
    other: nat,
)
    requires
        arrival(nodes, dirs, loc, i, n, limit) is Some,
        other - m >= arrival(nodes, dirs, loc, i, n, limit)->0 - n,
    ensures
        arrival(nodes, dirs, loc, i, m, other) == Some(
            (arrival(nodes, dirs, loc, i, n, limit)->0 - n + m) as nat,
        ),
    decreases limit - n,
{
    lemma_arrival_bounds(nodes, dirs, loc, i, n, limit);
    let to = next(nodes, loc, dirs[i])->0;
    if to != "ZZZ"@ {
        lemma_arrival_shifts(
            nodes,
            dirs,
            to,
            following(dirs.len(), i),
            n + 1,
            limit,
            m + 1,
            other,
        );
    }
}

/// The entry that counts for a label carries that label.
pub proof fn lemma_entry_named(nodes: Seq<NodeView>, name: Seq<char>)
    ensures
        entry_of(nodes, name) matches Some(e) ==> 0 <= e < nodes.len() && nodes[e].name == name,
    decreases nodes.len(),
{
    if nodes.len() > 0 && nodes.last().name != name {
        lemma_entry_named(nodes.drop_last(), name);
    }
}

/// The states that a walk goes through before it arrives after `r` steps:
/// from each of them the arrival is a different number of steps away.
pub proof fn lemma_states_before_arrival(
    nodes: Seq<NodeView>,
    dirs: Seq<Dir>,
    loc: Seq<char>,
    i: int,
    limit: nat,
) -> (states: Seq<State>)
    requires
        arrival(nodes, dirs, loc, i, 0, limit) is Some,
    ensures
        states.len() == arrival(nodes, dirs, loc, i, 0, limit)->0,
        forall|j: int|
            0 <= j < states.len() ==> arrival(
                nodes,
                dirs,
                (#[trigger] states[j]).0,
                states[j].1,
                0,
                limit,
            ) == Some((states.len() - j) as nat),
    decreases arrival(nodes, dirs, loc, i, 0, limit)->0,
{
    lemma_arrival_bounds(nodes, dirs, loc, i, 0, limit);
    let to = next(nodes, loc, dirs[i])->0;
    if to == "ZZZ"@ {
        seq![(loc, i)]
    } else {
        let then = following(dirs.len(), i);
        lemma_arrival_bounds(nodes, dirs, to, then, 1, limit);
        lemma_arrival_shifts(nodes, dirs, to, then, 1, limit, 0, limit);
        let rest = lemma_states_before_arrival(nodes, dirs, to, then, limit);
        let states = seq![(loc, i)] + rest;
        assert forall|j: int| 0 <= j < states.len() implies arrival(
            nodes,
            dirs,
            (#[trigger] states[j]).0,
            states[j].1,
            0,
            limit,
        ) == Some((states.len() - j) as nat) by {
            if j > 0 {
                assert(states[j] == rest[j - 1]);
            }
        }
        states
    }
}

/// A number for a state, different for different states that have entries.
pub open spec fn code(nodes: Seq<NodeView>, dirs: Seq<Dir>, s: State) -> int {
    entry_of(nodes, s.0)->0 * dirs.len() + s.1
}

/// A walk that arrives does so after no more steps than there are pairs of
/// an entry and a command.
pub proof fn lemma_arrival_is_early(
    nodes: Seq<NodeView>,
    dirs: Seq<Dir>,
    loc: Seq<char>,
    i: int,
    limit: nat,
)
    requires
        arrival(nodes, dirs, loc, i, 0, limit) is Some,
    ensures
        arrival(nodes, dirs, loc, i, 0, limit)->0 <= nodes.len() * dirs.len(),
{
    let states = lemma_states_before_arrival(nodes, dirs, loc, i, limit);
    let bound = (nodes.len() * dirs.len()) as int;
    let codes = states.map_values(|s: State| code(nodes, dirs, s));
    assert forall|j: int| 0 <= j < states.len() implies 0 <= #[trigger] codes[j] < bound by {
        let s = states[j];
        lemma_arrival_bounds(nodes, dirs, s.0, s.1, 0, limit);
        lemma_entry_named(nodes, s.0);
        let e = entry_of(nodes, s.0)->0;
        assert(0 <= e * dirs.len() + s.1 < nodes.len() * dirs.len()) by (nonlinear_arith)
            requires
                0 <= e < nodes.len(),
                0 <= s.1 < dirs.len(),
        ;
    }
    assert forall|a: int, b: int|
        0 <= a < codes.len() && 0 <= b < codes.len() && a != b implies codes[a] != codes[b] by {
        let (s, t) = (states[a], states[b]);
        lemma_arrival_bounds(nodes, dirs, s.0, s.1, 0, limit);
        lemma_arrival_bounds(nodes, dirs, t.0, t.1, 0, limit);
        lemma_entry_named(nodes, s.0);
        lemma_entry_named(nodes, t.0);
        let (e, g) = (entry_of(nodes, s.0)->0, entry_of(nodes, t.0)->0);
        if codes[a] == codes[b] {
            assert(e == g) by (nonlinear_arith)
                requires
                    e * dirs.len() + s.1 == g * dirs.len() + t.1,
                    0 <= s.1 < dirs.len(),
                    0 <= t.1 < dirs.len(),
            ;
            assert(s.0 == t.0);
            assert(s == t);
        }
    }
    codes.unique_seq_to_set();
    lemma_int_range(0, bound);
    assert forall|c: int| codes.to_set().contains(c) implies set_int_range(0, bound).contains(
        c,
    ) by {
        let j = choose|j: int| 0 <= j < codes.len() && codes[j] == c;
        assert(0 <= codes[j] < bound);
    }
    lemma_len_subset(codes.to_set(), set_int_range(0, bound));
}

/// Where the step limit itself fits `usize`, following the walk from `AAA`
/// for longer than the limit finds no arrival that the limit cuts off.
pub proof fn lemma_limit_cuts_nothing(dirs: Seq<Dir>, nodes: Seq<NodeView>, more: nat)
    requires
        nodes.len() * dirs.len() + dirs.len() <= usize::MAX,
        more >= step_limit(nodes.len(), dirs.len()),
    ensures
        arrival(nodes, dirs, "AAA"@, 0, 0, more) == part_one_of(dirs, nodes),
{
    let limit = step_limit(nodes.len(), dirs.len());
    if arrival(nodes, dirs, "AAA"@, 0, 0, more) is Some {
        lemma_arrival_is_early(nodes, dirs, "AAA"@, 0, more);
        lemma_arrival_shifts(nodes, dirs, "AAA"@, 0, 0, more, 0, limit);
    } else if part_one_of(dirs, nodes) is Some {
        lemma_arrival_bounds(nodes, dirs, "AAA"@, 0, 0, limit);
        lemma_arrival_shifts(nodes, dirs, "AAA"@, 0, 0, limit, 0, more);
    }
}

/// Whether every successor of every entry has an entry itself.
pub open spec fn closed(nodes: Seq<NodeView>) -> bool {
    forall|e: int|
        0 <= e < nodes.len() ==> entry_of(nodes, (#[trigger] nodes[e]).left) is Some && entry_of(
            nodes,
            nodes[e].right,
        ) is Some
}

/// States that are pairwise different and all have entries are no more than
/// there are pairs of an entry and a command.
pub proof fn lemma_states_are_few(nodes: Seq<NodeView>, dirs: Seq<Dir>, states: Seq<State>)
    requires
        states.no_duplicates(),
        forall|j: int|
            0 <= j < states.len() ==> entry_of(nodes, (#[trigger] states[j]).0) is Some && 0
                <= states[j].1 < dirs.len(),
    ensures
        states.len() <= nodes.len() * dirs.len(),
{
    let bound = (nodes.len() * dirs.len()) as int;
    let codes = states.map_values(|s: State| code(nodes, dirs, s));
    assert forall|j: int| 0 <= j < states.len() implies 0 <= #[trigger] codes[j] < bound by {
        let s = states[j];
        lemma_entry_named(nodes, s.0);
        let e = entry_of(nodes, s.0)->0;
        assert(0 <= e * dirs.len() + s.1 < nodes.len() * dirs.len()) by (nonlinear_arith)
            requires
                0 <= e < nodes.len(),
                0 <= s.1 < dirs.len(),
        ;
    }
    assert forall|a: int, b: int|
        0 <= a < codes.len() && 0 <= b < codes.len() && a != b implies codes[a] != codes[b] by {
        let (s, t) = (states[a], states[b]);
        lemma_entry_named(nodes, s.0);
        lemma_entry_named(nodes, t.0);
        let (e, g) = (entry_of(nodes, s.0)->0, entry_of(nodes, t.0)->0);
        if codes[a] == codes[b] {
            assert(e == g) by (nonlinear_arith)
                requires
                    e * dirs.len() + s.1 == g * dirs.len() + t.1,
                    0 <= s.1 < dirs.len(),
                    0 <= t.1 < dirs.len(),
            ;
            assert(s.0 == t.0);
            assert(s == t);
        }
    }
    codes.unique_seq_to_set();
    lemma_int_range(0, bound);
    assert forall|c: int| codes.to_set().contains(c) implies set_int_range(0, bound).contains(
        c,
    ) by {
        let j = choose|j: int| 0 <= j < codes.len() && codes[j] == c;
        assert(0 <= codes[j] < bound);
    }
    lemma_len_subset(codes.to_set(), set_int_range(0, bound));
}

/// A walk through a closed network that has seen no return so far sees one
/// before it has taken as many steps as there are pairs of an entry and a
/// command.
pub proof fn lemma_return_comes(
    nodes: Seq<NodeView>,
    dirs: Seq<Dir>,
    visited: Seq<State>,
    loc: Seq<char>,
    i: int,
    limit: nat,
)
    requires
        closed(nodes),
        limit > nodes.len() * dirs.len(),
        entry_of(nodes, loc) is Some,
        0 <= i < dirs.len(),
        visited.push((loc, i)).no_duplicates(),
        forall|j: int|
            0 <= j < visited.len() ==> entry_of(nodes, (#[trigger] visited[j]).0) is Some && 0
                <= visited[j].1 < dirs.len(),
    ensures
        cycle(nodes, dirs, visited, loc, i, visited.len(), limit) is Some,
    decreases nodes.len() * dirs.len() - visited.len(),
{
    let seen = visited.push((loc, i));
    assert forall|j: int| 0 <= j < seen.len() implies entry_of(nodes, (#[trigger] seen[j]).0) is Some
        && 0 <= seen[j].1 < dirs.len() by {
        if j < visited.len() {
            assert(seen[j] == visited[j]);
        }
    }
    lemma_states_are_few(nodes, dirs, seen);
    lemma_entry_named(nodes, loc);
    let e = entry_of(nodes, loc)->0;
    assert(entry_of(nodes, nodes[e].left) is Some && entry_of(nodes, nodes[e].right) is Some);
    let to = next(nodes, loc, dirs[i])->0;
    let then = following(dirs.len(), i);
    if position_seen(seen, (to, then)) {
    } else {
        let more = seen.push((to, then));
        assert forall|a: int, b: int|
            0 <= a < more.len() && 0 <= b < more.len() && a != b implies more[a] != more[b] by {
            if a < seen.len() && b < seen.len() {
                assert(more[a] == seen[a] && more[b] == seen[b]);
            } else if a < seen.len() {
                lemma_not_seen(seen, (to, then), 0, a);
            } else {
                lemma_not_seen(seen, (to, then), 0, b);
            }
        }
        lemma_return_comes(nodes, dirs, seen, to, then, limit);
    }
}

/// Whether `state` is among `visited`.
pub open spec fn position_seen(visited: Seq<State>, state: State) -> bool {
    crate::day08::position_from(visited, state, 0) is Some
}

/// A state that is not found from `from` on is none of the states there.
pub proof fn lemma_not_seen(visited: Seq<State>, state: State, from: int, at: int)
    requires
        0 <= from <= at < visited.len(),
        crate::day08::position_from(visited, state, from) is None,
    ensures
        visited[at] != state,
    decreases visited.len() - from,
{
    if from < at {
        lemma_not_seen(visited, state, from + 1, at);
    }
}

/// In a network in which every successor has an entry, under at least one
/// command, and where the step limit itself fits `usize`, the walk from any
/// label that has an entry has a cycle length.
pub proof fn lemma_cycle_is_found(nodes: Seq<NodeView>, dirs: Seq<Dir>, start: Seq<char>)
    requires
        closed(nodes),
        dirs.len() > 0,
        entry_of(nodes, start) is Some,
        nodes.len() * dirs.len() + dirs.len() <= usize::MAX,
    ensures
        cycle_length(nodes, dirs, start) is Some,
{
    let none: Seq<State> = Seq::empty();
    lemma_return_comes(nodes, dirs, none, start, 0, step_limit(nodes.len(), dirs.len()));
}

} // verus!
