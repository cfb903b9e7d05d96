//! What the marks of day 10 count: the cells off the loop over which an odd
//! number of the rays pass that the tiles of the loop send east.
use crate::day10::{
    chosen, cleared, count_set, emits, marked, on_border, part_two_of, ray, stops, Field, Tile,
};
use crate::grid::index_of;
use crate::Pos;
use vstd::prelude::*;

verus! {

/// The column before which a ray from a tile `t1` in row `y`, running east
/// from column `x`, ends: the width of the field, or for a bend that opens
/// to the east the column of the first tile that ends the ray. `None` where
/// the ray is not defined.
pub open spec fn reach(f: Field, t1: Tile, y: isize, x: int) -> Option<int>
    decreases (f.width as isize) - x,
{
    if x >= (f.width as isize) {
        Some(x)
    } else {
        let p = Pos { x: x as isize, y };
        if on_border(t1) && f.tile_at(p) is None {
            None
        } else if on_border(t1) && stops(t1, f.tile_at(p)->0) {
            Some(x)
        } else {
            match index_of(f.width, f.height, p) {
                Some(i) => if i < f.tiles.len() {
                    reach(f, t1, y, x + 1)
                } else {
                    None
                },
                None => None,
            }
        }
    }
}

/// A ray flips the marks of the cells from its first column up to where it
/// ends, and no others.
pub proof fn lemma_ray_flips(f: Field, marks: Seq<bool>, t1: Tile, y: isize, x: int)
    requires
        marks.len() == f.tiles.len(),
        0 <= x,
    ensures
        ray(f, marks, t1, y, x) is Some <==> reach(f, t1, y, x) is Some,
        ray(f, marks, t1, y, x) matches Some(after) ==> after.len() == marks.len() && x <= reach(
            f,
            t1,
            y,
            x,
        )->0 && forall|i: int|
            0 <= i < marks.len() ==> after[i] == (marks[i] != (x + y * f.width <= i < reach(
                f,
                t1,
                y,
                x,
            )->0 + y * f.width)),
    decreases (f.width as isize) - x,
{
    if x < (f.width as isize) {
        let p = Pos { x: x as isize, y };
        if on_border(t1) && f.tile_at(p) is None {
        } else if on_border(t1) && stops(t1, f.tile_at(p)->0) {
        } else {
            match index_of(f.width, f.height, p) {
                Some(i) => {
                    if i < marks.len() {
                        let flipped = marks.update(i as int, !marks[i as int]);
                        lemma_ray_flips(f, flipped, t1, y, x + 1);
                        assert(i == x + y * f.width);
                    }
                },
                None => {},
            }
        }
    }
}

/// The cells whose marks the ray from the tile at `p` flips, as the indices
/// from the first of the pair up to, not including, the second. A tile that
/// sends no ray flips none. `None` where `p` has no tile or ground, or the
/// ray is not defined.
pub open spec fn ray_of(f: Field, p: Pos, start_emit: bool) -> Option<(int, int)> {
    match f.tile_at(p) {
        Some(t1) => match emits(t1, start_emit) {
            Some(true) => match reach(f, t1, p.y, p.x + 1) {
                Some(end) => Some((p.x + 1 + p.y * f.width, end + p.y * f.width)),
                None => None,
            },
            Some(false) => Some((0, 0)),
            None => None,
        },
        None => None,
    }
}

/// How many of the rays from the first `k` positions of the loop pass over
/// the cell of index `i`.
pub open spec fn crossings(f: Field, loo: Seq<Pos>, start_emit: bool, k: int, i: int) -> nat
    decreases k,
{
    if k <= 0 {
        0
    } else {
        crossings(f, loo, start_emit, k - 1, i) + if ray_of(f, loo[k - 1], start_emit) matches Some(
            (lo, hi),
        ) && lo <= i < hi {
            1nat
        } else {
            0nat
        }
    }
}

/// Whether one of the first `k` positions of the loop is the cell of index
/// `i`.
pub open spec fn on_loop(f: Field, loo: Seq<Pos>, k: int, i: int) -> bool
    decreases k,
{
    if k <= 0 {
        false
    } else {
        on_loop(f, loo, k - 1, i) || (index_of(f.width, f.height, loo[k - 1]) matches Some(j)
            && j == i)
    }
}

/// After the rays, a cell is marked exactly when an odd number of rays
/// passed over it.
pub proof fn lemma_marks_are_parities(f: Field, loo: Seq<Pos>, start_emit: bool, k: int)
    requires
        0 <= k <= loo.len(),
    ensures
        marked(f, loo, start_emit, k) matches Some(marks) ==> marks.len() == f.tiles.len()
            && forall|i: int|
            0 <= i < marks.len() ==> marks[i] == (crossings(f, loo, start_emit, k, i) % 2 == 1),
    decreases k,
{
    if k > 0 {
        lemma_marks_are_parities(f, loo, start_emit, k - 1);
        match marked(f, loo, start_emit, k - 1) {
            Some(before) => {
                let p = loo[k - 1];
                match f.tile_at(p) {
                    Some(t1) => {
                        if emits(t1, start_emit) == Some(true) {
                            assert(index_of(f.width, f.height, p) is Some);
                            lemma_ray_flips(f, before, t1, p.y, p.x + 1);
                        }
                    },
                    None => {},
                }
            },
            None => {},
        }
    }
}

/// Clearing takes the marks off the cells of the loop and off no others.
pub proof fn lemma_cleared_off_loop(f: Field, marks: Seq<bool>, loo: Seq<Pos>, k: int)
    requires
        0 <= k <= loo.len(),
    ensures
        cleared(f, marks, loo, k) matches Some(rest) ==> rest.len() == marks.len() && forall|
            i: int,
        |
            0 <= i < marks.len() ==> rest[i] == (marks[i] && !on_loop(f, loo, k, i)),
    decreases k,
{
    if k > 0 {
        lemma_cleared_off_loop(f, marks, loo, k - 1);
        match (cleared(f, marks, loo, k - 1), index_of(f.width, f.height, loo[k - 1])) {
            (Some(before), Some(j)) => {
                if j < before.len() {
                    let rest = before.update(j as int, false);
                    assert(cleared(f, marks, loo, k) == Some(rest));
                    assert forall|i: int| 0 <= i < marks.len() implies rest[i] == (marks[i]
                        && !on_loop(f, loo, k, i)) by {
                        assert(on_loop(f, loo, k, i) == (on_loop(f, loo, k - 1, i) || j == i));
                    }
                }
            },
            _ => {},
        }
    }
}

/// Whether the cell of index `i` is counted: it is no cell of the loop, and
/// an odd number of the rays pass over it that the tiles of the loop send
/// east, each ray as far as it is cast, and the start tile sending one or
/// not as the walk through it decides. Whether such a cell lies inside the
/// loop is not stated here.
pub open spec fn crossed_oddly(f: Field, i: int) -> bool {
    let (loo, start_emit) = chosen(f);
    crossings(f, loo, start_emit, loo.len() as int, i) % 2 == 1 && !on_loop(
        f,
        loo,
        loo.len() as int,
        i,
    )
}

/// The answer of the second part, where there is one, is the number of
/// cells off the loop that an odd number of rays pass over.
pub proof fn lemma_part_two_counts_crossings(f: Field)
    requires
        part_two_of(f) is Some,
    ensures
        part_two_of(f)->0 == count_set(
            Seq::new(f.tiles.len() as nat, |i: int| crossed_oddly(f, i)),
            f.tiles.len() as int,
        ),
{
    let (loo, start_emit) = chosen(f);
    let n = loo.len() as int;
    lemma_marks_are_parities(f, loo, start_emit, n);
    let marks = marked(f, loo, start_emit, n)->0;
    lemma_cleared_off_loop(f, marks, loo, n);
    let rest = cleared(f, marks, loo, n)->0;
    assert(rest =~= Seq::new(f.tiles.len() as nat, |i: int| crossed_oddly(f, i)));
    lemma_count_bound(rest, rest.len() as int);
}

/// No more marks are set than there are.
pub proof fn lemma_count_bound(marks: Seq<bool>, k: int)
    requires
        0 <= k,
    ensures
        count_set(marks, k) <= k,
    decreases k,
{
    if k > 0 {
        lemma_count_bound(marks, k - 1);
    }
}

} // verus!
