//! Why the step limit of day 10 costs nothing: on a field whose start
//! position holds the start tile, a walk never comes back to a position in
//! the direction in which it was there before, so it ends by itself before
//! it has taken as many steps as there are pairs of a position and a
//! direction.
use crate::day10::{attempt, direction, leads, stepped, walk, walk_limit, Dir, Field, Tile};
use crate::grid::{in_bounds, index_of};
use crate::Pos;
use vstd::prelude::*;
use vstd::set_lib::{lemma_int_range, lemma_len_subset, set_int_range};

verus! {

/// A state of a walk: a position reached, and the direction of the step
/// that reached it.
pub type State = (Pos, Dir);

/// The number of a direction, from 0 to 3.
pub open spec fn dir_number(d: Dir) -> int {
    match d {
        Dir::North => 0,
        Dir::West => 1,
        Dir::South => 2,
        Dir::East => 3,
    }
}

/// A number for a state, different for different states within the field.
pub open spec fn code(f: Field, s: State) -> int {
    4 * (s.0.x + s.0.y * f.width) + dir_number(s.1)
}

/// Whether a walk goes on from the state `s`: its position holds a pipe
/// that has an end on the side the walk comes from.
pub open spec fn goes_on(f: Field, s: State) -> bool {
    f.tile_at(s.0) matches Some(t) && t != Tile::Start && leads(t, s.1) is Some
}

/// The state that follows the state `s`, from which the walk goes on.
pub open spec fn following(f: Field, s: State) -> Option<State> {
    let d = leads(f.tile_at(s.0)->0, s.1)->0;
    match stepped(s.0, d) {
        Some(to) => Some((to, d)),
        None => None,
    }
}

/// Whether `states` are the states that a walk from the start in direction
/// `first` has gone through and goes on from.
pub open spec fn is_chain(f: Field, first: Dir, states: Seq<State>) -> bool {
    &&& states.len() > 0 ==> stepped(f.start, first) == Some(states[0].0) && states[0].1 == first
    &&& forall|j: int| 0 <= j < states.len() ==> goes_on(f, #[trigger] states[j])
    &&& forall|j: int|
        0 <= j < states.len() - 1 ==> following(f, #[trigger] states[j]) == Some(states[j + 1])
}

/// The codes of states from which a walk goes on lie below four times the
/// number of cells, and differ for different states.
pub proof fn lemma_codes(f: Field, a: State, b: State)
    requires
        goes_on(f, a),
        goes_on(f, b),
    ensures
        0 <= code(f, a) < 4 * f.width * f.height,
        code(f, a) == code(f, b) ==> a == b,
{
    let w = f.width as int;
    let h = f.height as int;
    assert(in_bounds(f.width, f.height, a.0));
    assert(in_bounds(f.width, f.height, b.0));
    let (ax, ay, bx, by) = (a.0.x as int, a.0.y as int, b.0.x as int, b.0.y as int);
    assert(0 <= ax < w && 0 <= ay < h && 0 <= bx < w && 0 <= by < h);
    assert(0 <= ax + ay * w < w * h && 4 * w * h == 4 * (w * h)) by (nonlinear_arith)
        requires
            0 <= ax < w,
            0 <= ay < h,
    ;
    if code(f, a) == code(f, b) {
        assert(ax + ay * w == bx + by * w);
        assert(ay == by) by (nonlinear_arith)
            requires
                ax + ay * w == bx + by * w,
                0 <= ax < w,
                0 <= bx < w,
        ;
    }
}

/// Different states from which a walk goes on are followed by different
/// states.
pub proof fn lemma_following_differs(f: Field, a: State, b: State)
    requires
        goes_on(f, a),
        goes_on(f, b),
        following(f, a) is Some,
        following(f, a) == following(f, b),
    ensures
        a == b,
{
}

/// States that are pairwise different and all go on are no more than four
/// times the number of cells.
pub proof fn lemma_states_are_few(f: Field, states: Seq<State>)
    requires
        states.no_duplicates(),
        forall|j: int| 0 <= j < states.len() ==> goes_on(f, #[trigger] states[j]),
    ensures
        states.len() <= 4 * f.width * f.height,
{
    let codes = states.map_values(|s: State| code(f, s));
    let bound = 4 * f.width * f.height;
    assert(bound >= 0) by (nonlinear_arith)
        requires
            bound == 4 * f.width * f.height,
            f.width >= 0,
            f.height >= 0,
    ;
    assert forall|i: int, j: int|
        0 <= i < codes.len() && 0 <= j < codes.len() && i != j implies codes[i] != codes[j] by {
        lemma_codes(f, states[i], states[j]);
    }
    codes.unique_seq_to_set();
    lemma_int_range(0, bound);
    assert forall|c: int| codes.to_set().contains(c) implies set_int_range(0, bound).contains(
        c,
    ) by {
        let i = choose|i: int| 0 <= i < codes.len() && codes[i] == c;
        lemma_codes(f, states[i], states[i]);
    }
    lemma_len_subset(codes.to_set(), set_int_range(0, bound));
}

/// The positions of states.
pub open spec fn positions(states: Seq<State>) -> Seq<Pos> {
    states.map_values(|s: State| s.0)
}

/// Where the walk stands after `states`, and in which direction it steps
/// next.
pub open spec fn standing(f: Field, first: Dir, states: Seq<State>) -> State {
    if states.len() == 0 {
        (f.start, first)
    } else {
        (states.last().0, leads(f.tile_at(states.last().0)->0, states.last().1)->0)
    }
}

/// From any point that a walk from the start has reached, following it up
/// to the step limit or up to any greater limit gives the same.
pub proof fn lemma_walk_ends(f: Field, first: Dir, states: Seq<State>, more: nat)
    requires
        f.tile_at(f.start) == Some(Tile::Start),
        4 * f.width * f.height + 1 <= usize::MAX,
        more >= walk_limit(f.width, f.height),
        is_chain(f, first, states),
        states.no_duplicates(),
    ensures
        walk(
            f,
            standing(f, first, states).0,
            standing(f, first, states).1,
            positions(states),
            walk_limit(f.width, f.height),
        ) == walk(
            f,
            standing(f, first, states).0,
            standing(f, first, states).1,
            positions(states),
            more,
        ),
    decreases 4 * f.width * f.height + 1 - states.len(),
{
    lemma_states_are_few(f, states);
    let (pos, dir) = standing(f, first, states);
    let path = positions(states);
    match stepped(pos, dir) {
        Some(to) => match f.tile_at(to) {
            Some(tile) => {
                if tile != Tile::Start && leads(tile, dir) is Some {
                    let s: State = (to, dir);
                    let next = states.push(s);
                    assert(positions(next) =~= path.push(to));
                    assert(standing(f, first, next) == (to, leads(tile, dir)->0));
                    assert(is_chain(f, first, next)) by {
                        assert forall|j: int| 0 <= j < next.len() implies goes_on(
                            f,
                            #[trigger] next[j],
                        ) by {
                            if j < states.len() {
                                assert(next[j] == states[j]);
                            }
                        }
                        assert forall|j: int| 0 <= j < next.len() - 1 implies following(
                            f,
                            #[trigger] next[j],
                        ) == Some(next[j + 1]) by {
                            if j < states.len() - 1 {
                                assert(next[j] == states[j]);
                                assert(next[j + 1] == states[j + 1]);
                            }
                        }
                    }
                    assert(next.no_duplicates()) by {
                        assert forall|k: int| 0 <= k < states.len() implies states[k] != s by {
                            if states[k] == s {
                                if k == 0 {
                                    assert(stepped(f.start, first) == Some(to));
                                    assert(pos == f.start);
                                } else {
                                    assert(following(f, states[k - 1]) == Some(states[k]));
                                    lemma_following_differs(f, states[k - 1], states.last());
                                }
                            }
                        }
                        assert forall|i: int, j: int|
                            0 <= i < next.len() && 0 <= j < next.len() && i != j implies next[i]
                            != next[j] by {
                            if i < states.len() && j < states.len() {
                                assert(next[i] == states[i] && next[j] == states[j]);
                            }
                        }
                    }
                    lemma_walk_ends(f, first, next, more);
                }
            },
            None => {},
        },
        None => {},
    }
}

/// On a field whose start position holds the start tile, and whose cells
/// can be counted four times over in `usize`, the walk in each direction
/// ends by itself: following it beyond the step limit gives nothing new.
pub proof fn lemma_attempt_ends(f: Field, k: int, more: nat)
    requires
        f.tile_at(f.start) == Some(Tile::Start),
        4 * f.width * f.height + 1 <= usize::MAX,
        more >= walk_limit(f.width, f.height),
    ensures
        walk(f, f.start, direction(k), Seq::empty(), more) == attempt(f, k),
{
    let none: Seq<State> = Seq::empty();
    assert(positions(none) =~= Seq::<Pos>::empty());
    lemma_walk_ends(f, direction(k), none, more);
}

} // verus!
