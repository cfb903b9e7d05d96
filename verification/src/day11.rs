//! Day 11: the distances between galaxies on a map whose empty rows and
//! columns count several times over.
use crate::text::{chars_of, lines, lines_of, views};
use crate::Pos;
use vstd::prelude::*;

verus! {

/// The galaxies among the first `k` characters of row `y`, in order: the
/// positions of the characters `#`.
pub open spec fn galaxies_in(line: Seq<char>, y: int, k: int) -> Seq<Pos>
    decreases k,
{
    if k <= 0 {
        Seq::empty()
    } else if line[k - 1] == '#' {
        galaxies_in(line, y, k - 1).push(Pos { x: (k - 1) as isize, y: y as isize })
    } else {
        galaxies_in(line, y, k - 1)
    }
}

/// The galaxies of the first `rows` rows, row by row.
pub open spec fn galaxies_upto(text: Seq<Seq<char>>, rows: int) -> Seq<Pos>
    decreases rows,
{
    if rows <= 0 {
        Seq::empty()
    } else {
        galaxies_upto(text, rows - 1) + galaxies_in(
            text[rows - 1],
            rows - 1,
            text[rows - 1].len() as int,
        )
    }
}

/// The galaxies that a text shows.
pub open spec fn parse_of(input: Seq<char>) -> Seq<Pos> {
    galaxies_upto(lines_of(input), lines_of(input).len() as int)
}

/// Reads the positions of the galaxies, row by row.
pub fn parse(input: &str) -> (gals: Vec<Pos>)
    ensures
        gals@ == parse_of(input@),
{
    let text = lines(&chars_of(input));
    let mut gals: Vec<Pos> = Vec::new();
    let mut y: usize = 0;
    while y < text.len()
        invariant
            y <= text.len(),
            gals@ == galaxies_upto(views(text@), y as int),
        decreases text.len() - y,
    {
        let line = &text[y];
        let ghost before = gals@;
        assert(views(text@)[y as int] == line@);
        let mut x: usize = 0;
        while x < line.len()
            invariant
                x <= line.len(),
                gals@ == before + galaxies_in(line@, y as int, x as int),
            decreases line.len() - x,
        {
            if line[x] == '#' {
                gals.push(Pos { x: #[verifier::truncate] (x as isize), y: #[verifier::truncate] (y as isize) });
            }
            assert(gals@ =~= before + galaxies_in(line@, y as int, x + 1));
            x += 1;
        }
        y += 1;
    }
    gals
}

/// The coordinates of `gals` along one axis: the `x` if `across`, else the
/// `y`.
pub open spec fn coords(gals: Seq<Pos>, across: bool) -> Seq<isize> {
    Seq::new(
        gals.len(),
        |i: int|
            if across {
                gals[i].x
            } else {
                gals[i].y
            },
    )
}

/// The greatest of the first `k` numbers of `s`, which is not empty.
pub open spec fn greatest(s: Seq<isize>, k: int) -> isize
    decreases k,
{
    if k <= 1 {
        s[0]
    } else if s[k - 1] > greatest(s, k - 1) {
        s[k - 1]
    } else {
        greatest(s, k - 1)
    }
}

/// Whether no galaxy has the coordinate `c`.
pub open spec fn empty_line(s: Seq<isize>, c: int) -> bool {
    forall|i: int| 0 <= i < s.len() ==> #[trigger] s[i] != c
}

/// Where the coordinate `v` lies once the lines `hi - 1` down to `from`
/// have been treated, in that order: each of them that is empty and lies
/// before the coordinate moves it by `expand - 1`. `None` where a move
/// leaves `isize`.
pub open spec fn moved(s: Seq<isize>, expand: isize, v: isize, from: int, hi: int) -> Option<isize>
    decreases hi - from,
{
    if from >= hi {
        Some(v)
    } else {
        match moved(s, expand, v, from + 1, hi) {
            Some(prev) => if empty_line(s, from) && prev > from {
                if isize::MIN <= expand - 1 && isize::MIN <= prev + (expand - 1) <= isize::MAX {
                    Some((prev + (expand - 1)) as isize)
                } else {
                    None
                }
            } else {
                Some(prev)
            },
            None => None,
        }
    }
}

/// Where the coordinate of index `i` lies in the end: the lines from 0 up
/// to the greatest coordinate, not including it, are treated from the far
/// end.
pub open spec fn expanded(s: Seq<isize>, expand: isize, i: int) -> Option<isize> {
    moved(s, expand, s[i], 0, greatest(s, s.len() as int) as int)
}

/// The galaxies in the end, if every coordinate of theirs stays in `isize`.
pub open spec fn expanded_all(gals: Seq<Pos>, expand: isize) -> Option<Seq<Pos>> {
    let xs = coords(gals, true);
    let ys = coords(gals, false);
    if (forall|i: int| 0 <= i < gals.len() ==> (#[trigger] expanded(xs, expand, i)) is Some) && (
    forall|i: int| 0 <= i < gals.len() ==> (#[trigger] expanded(ys, expand, i)) is Some) {
        Some(
            Seq::new(
                gals.len(),
                |i: int| Pos { x: expanded(xs, expand, i)->0, y: expanded(ys, expand, i)->0 },
            ),
        )
    } else {
        None
    }
}

/// The absolute value of `a - b`, where it fits `isize`.
pub open spec fn gap(a: isize, b: isize) -> Option<nat> {
    if -isize::MAX <= a - b <= isize::MAX {
        Some(
            if a >= b {
                (a - b) as nat
            } else {
                (b - a) as nat
            },
        )
    } else {
        None
    }
}

/// The distance between two positions: the sum of the gaps along both axes.
pub open spec fn distance(a: Pos, b: Pos) -> Option<nat> {
    match (gap(a.x, b.x), gap(a.y, b.y)) {
        (Some(dx), Some(dy)) => Some(dx + dy),
        _ => None,
    }
}

/// The sum of the distances from the position of index `i` to those of the
/// indices after `i` and before `j`.
pub open spec fn row_total(pts: Seq<Pos>, i: int, j: int) -> Option<nat>
    decreases j - i,
{
    if j <= i + 1 {
        Some(0)
    } else {
        match (row_total(pts, i, j - 1), distance(pts[i], pts[j - 1])) {
            (Some(t), Some(d)) => Some(t + d),
            _ => None,
        }
    }
}

/// The sum of the distances of all pairs whose first position has an index
/// before `i`.
pub open spec fn pairs_total(pts: Seq<Pos>, i: int) -> Option<nat>
    decreases i,
{
    if i <= 0 {
        Some(0)
    } else {
        match (pairs_total(pts, i - 1), row_total(pts, i - 1, pts.len() as int)) {
            (Some(t), Some(r)) => Some(t + r),
            _ => None,
        }
    }
}

/// The sum of the distances of all pairs of galaxies after the expansion.
/// `None` where there is no galaxy, a coordinate or a gap leaves `isize`,
/// or the sum does not fit `usize`.
pub open spec fn part_n_of(gals: Seq<Pos>, expand: isize) -> Option<usize> {
    if gals.len() > 0 {
        match expanded_all(gals, expand) {
            Some(pts) => match pairs_total(pts, pts.len() as int) {
                Some(t) => if t <= usize::MAX {
                    Some(t as usize)
                } else {
                    None
                },
                None => None,
            },
            None => None,
        }
    } else {
        None
    }
}

/// Where the distances up to `n` are defined, so are those up to `j`, and
/// they are no more.
pub proof fn lemma_row_total_grows(pts: Seq<Pos>, i: int, j: int, n: int)
    requires
        j <= n,
        row_total(pts, i, n) is Some,
    ensures
        row_total(pts, i, j) is Some,
        row_total(pts, i, j)->0 <= row_total(pts, i, n)->0,
    decreases n - j,
{
    if j < n {
        if n > i + 1 {
            lemma_row_total_grows(pts, i, j, n - 1);
        }
    }
}

/// Where the distances of the first `n` rows are defined, so are those of
/// the first `i`, and they are no more.
pub proof fn lemma_pairs_total_grows(pts: Seq<Pos>, i: int, n: int)
    requires
        i <= n,
        pairs_total(pts, n) is Some,
    ensures
        pairs_total(pts, i) is Some,
        pairs_total(pts, i)->0 <= pairs_total(pts, n)->0,
    decreases n - i,
{
    if i < n {
        if n > 0 {
            lemma_pairs_total_grows(pts, i, n - 1);
        }
    }
}

fn axis(gals: &Vec<Pos>, across: bool) -> (s: Vec<isize>)
    ensures
        s@ == coords(gals@, across),
{
    let mut s: Vec<isize> = Vec::new();
    let mut i: usize = 0;
    while i < gals.len()
        invariant
            i <= gals.len(),
            s.len() == i,
            forall|j: int| 0 <= j < i ==> s@[j] == coords(gals@, across)[j],
        decreases gals.len() - i,
    {
        s.push(
            if across {
                gals[i].x
            } else {
                gals[i].y
            },
        );
        i += 1;
    }
    assert(s@ =~= coords(gals@, across));
    s
}

fn is_empty_line(s: &Vec<isize>, c: usize) -> (r: bool)
    ensures
        r == empty_line(s@, c as int),
{
    let mut i: usize = 0;
    while i < s.len()
        invariant
            i <= s.len(),
            forall|j: int| 0 <= j < i ==> #[trigger] s@[j] != c,
        decreases s.len() - i,
    {
        if s[i] >= 0 && s[i] as usize == c {
            return false;
        }
        i += 1;
    }
    true
}

/// The coordinates `s` after the expansion along their axis.
pub fn expand_axis(s: &Vec<isize>, expand: isize) -> (r: Option<Vec<isize>>)
    requires
        s.len() > 0,
    ensures
        match r {
            Some(out) => out.len() == s.len() && forall|i: int|
                0 <= i < s.len() ==> #[trigger] expanded(s@, expand, i) == Some(out@[i]),
            None => exists|i: int| 0 <= i < s.len() && (#[trigger] expanded(s@, expand, i)) is None,
        },
{
    let mut top: isize = s[0];
    let mut k: usize = 1;
    while k < s.len()
        invariant
            1 <= k <= s.len(),
            top == greatest(s@, k as int),
        decreases s.len() - k,
    {
        if s[k] > top {
            top = s[k];
        }
        k += 1;
    }
    let hi: usize = if top > 0 {
        top as usize
    } else {
        0
    };
    let mut empty: Vec<bool> = Vec::new();
    let mut c: usize = 0;
    while c < hi
        invariant
            c <= hi,
            empty.len() == c,
            forall|j: int| 0 <= j < c ==> empty@[j] == empty_line(s@, j),
        decreases hi - c,
    {
        empty.push(is_empty_line(s, c));
        c += 1;
    }
    let mut out: Vec<isize> = Vec::new();
    let mut i: usize = 0;
    while i < s.len()
        invariant
            i <= s.len(),
            out.len() == i,
            s.len() > 0,
            top == greatest(s@, s.len() as int),
            hi == if top > 0 {
                top as int
            } else {
                0
            },
            empty.len() == hi,
            forall|j: int| 0 <= j < hi ==> empty@[j] == empty_line(s@, j),
            forall|j: int| 0 <= j < i ==> #[trigger] expanded(s@, expand, j) == Some(out@[j]),
        decreases s.len() - i,
    {
        let mut v: isize = s[i];
        let mut c: usize = hi;
        assert(moved(s@, expand, s@[i as int], top as int, top as int) == Some(v));
        assert(top <= 0 ==> moved(s@, expand, s@[i as int], 0, top as int) == Some(v));
        while c > 0
            invariant
                c <= hi,
                i < s.len(),
                top == greatest(s@, s.len() as int),
                hi == if top > 0 {
                    top as int
                } else {
                    0
                },
                empty.len() == hi,
                forall|j: int| 0 <= j < hi ==> empty@[j] == empty_line(s@, j),
                top > 0 ==> moved(s@, expand, s@[i as int], c as int, top as int) == Some(v),
                top <= 0 ==> moved(s@, expand, s@[i as int], 0, top as int) == Some(v),
            decreases c,
        {
            c -= 1;
            if empty[c] && v > 0 && v as usize > c {
                let next = match expand.checked_sub(1) {
                    Some(shift) => v.checked_add(shift),
                    None => None,
                };
                match next {
                    Some(n) => {
                        v = n;
                    },
                    None => {
                        proof {
                            lemma_moved_stays_none(s@, expand, s@[i as int], 0, c as int, top as int);
                        }
                        assert(expanded(s@, expand, i as int) is None);
                        return None;
                    },
                }
            }
        }
        assert(expanded(s@, expand, i as int) == Some(v));
        out.push(v);
        i += 1;
    }
    Some(out)
}

/// Once a move has left `isize`, the coordinate stays undefined.
pub proof fn lemma_moved_stays_none(
    s: Seq<isize>,
    expand: isize,
    v: isize,
    from: int,
    at: int,
    hi: int,
)
    requires
        from <= at <= hi,
        moved(s, expand, v, at, hi) is None,
    ensures
        moved(s, expand, v, from, hi) is None,
    decreases at - from,
{
    if from < at {
        lemma_moved_stays_none(s, expand, v, from + 1, at, hi);
    }
}

fn gap_of(a: isize, b: isize) -> (r: Option<usize>)
    ensures
        match r {
            Some(g) => gap(a, b) == Some(g as nat),
            None => gap(a, b) is None,
        },
{
    match a.checked_sub(b) {
        Some(d) => if d == isize::MIN {
            None
        } else if d >= 0 {
            Some(d as usize)
        } else {
            Some((-d) as usize)
        },
        None => None,
    }
}

/// The sum of the distances of all pairs of the positions given by their
/// coordinates `xs` and `ys`.
pub fn sum_distances(pts: &Vec<Pos>) -> (r: Option<usize>)
    ensures
        r == match pairs_total(pts@, pts.len() as int) {
            Some(t) => if t <= usize::MAX {
                Some(t as usize)
            } else {
                None
            },
            None => None,
        },
{
    let n = pts.len();
    let mut total: usize = 0;
    let mut i: usize = 0;
    while i < n
        invariant
            i <= n,
            n == pts.len(),
            pairs_total(pts@, i as int) == Some(total as nat),
        decreases n - i,
    {
        let mut row: usize = 0;
        let mut j: usize = i + 1;
        while j < n
            invariant
                i < j <= n,
                n == pts.len(),
                row_total(pts@, i as int, j as int) == Some(row as nat),
                pairs_total(pts@, i as int) == Some(total as nat),
            decreases n - j,
        {
            let d = match (gap_of(pts[i].x, pts[j].x), gap_of(pts[i].y, pts[j].y)) {
                (Some(dx), Some(dy)) => dx.checked_add(dy),
                _ => None,
            };
            let next = match d {
                Some(d) => row.checked_add(d),
                None => None,
            };
            match next {
                Some(r) => {
                    row = r;
                },
                None => {
                    proof {
                        if row_total(pts@, i as int, n as int) is Some {
                            lemma_row_total_grows(pts@, i as int, j + 1, n as int);
                            if pairs_total(pts@, n as int) is Some {
                                lemma_pairs_total_grows(pts@, i + 1, n as int);
                            }
                        } else if pairs_total(pts@, n as int) is Some {
                            lemma_pairs_total_grows(pts@, i + 1, n as int);
                        }
                    }
                    return None;
                },
            }
            j += 1;
        }
        match total.checked_add(row) {
            Some(t) => {
                total = t;
            },
            None => {
                proof {
                    if pairs_total(pts@, n as int) is Some {
                        lemma_pairs_total_grows(pts@, i + 1, n as int);
                    }
                }
                return None;
            },
        }
        i += 1;
    }
    Some(total)
}

/// The sum of the distances of all pairs of galaxies once every empty row
/// and column counts `expand` times: `None` where there is no galaxy, a
/// coordinate or a gap leaves `isize`, or the sum does not fit `usize`.
pub fn checked_part_n(gals: &Vec<Pos>, expand: isize) -> (r: Option<usize>)
    ensures
        r == part_n_of(gals@, expand),
{
    if gals.len() == 0 {
        return None;
    }
    let xs = match expand_axis(&axis(gals, true), expand) {
        Some(xs) => xs,
        None => {
            return None;
        },
    };
    let ys = match expand_axis(&axis(gals, false), expand) {
        Some(ys) => ys,
        None => {
            return None;
        },
    };
    let mut pts: Vec<Pos> = Vec::new();
    let mut i: usize = 0;
    while i < gals.len()
        invariant
            i <= gals.len(),
            xs.len() == gals.len(),
            ys.len() == gals.len(),
            pts.len() == i,
            forall|j: int| 0 <= j < i ==> pts@[j] == (Pos { x: xs@[j], y: ys@[j] }),
        decreases gals.len() - i,
    {
        pts.push(Pos { x: xs[i], y: ys[i] });
        i += 1;
    }
    assert(pts@ =~= expanded_all(gals@, expand)->0);
    sum_distances(&pts)
}

/// The sum of the distances of all pairs of galaxies once every empty row
/// and column counts `expand` times.
pub fn part_n(gals: &Vec<Pos>, expand: isize) -> (n: usize)
    requires
        part_n_of(gals@, expand) is Some,
    ensures
        part_n_of(gals@, expand) == Some(n),
{
    checked_part_n(gals, expand).unwrap()
}

/// How many of the lines `from` up to, not including, `hi` are empty and
/// lie before the coordinate `v`.
pub open spec fn empty_before(s: Seq<isize>, v: isize, from: int, hi: int) -> nat
    decreases hi - from,
{
    if from >= hi {
        0
    } else {
        empty_before(s, v, from + 1, hi) + if empty_line(s, from) && from < v {
            1nat
        } else {
            0nat
        }
    }
}

/// No line at or after a coordinate lies before it.
pub proof fn lemma_none_empty_before(s: Seq<isize>, v: isize, from: int, hi: int)
    requires
        from >= v,
    ensures
        empty_before(s, v, from, hi) == 0,
    decreases hi - from,
{
    if from < hi {
        lemma_none_empty_before(s, v, from + 1, hi);
    }
}

/// Where every empty line counts `expand` times, and that is at least
/// once, a coordinate moves by `expand - 1` for each empty line that lies
/// before it: as long as the result fits `isize`, the order in which the
/// lines are treated makes no difference.
pub proof fn lemma_moved_by_empty_lines(s: Seq<isize>, expand: isize, v: isize, from: int, hi: int)
    requires
        expand >= 1,
        v + (expand - 1) * empty_before(s, v, from, hi) <= isize::MAX,
    ensures
        moved(s, expand, v, from, hi) == Some(
            (v + (expand - 1) * empty_before(s, v, from, hi)) as isize,
        ),
    decreases hi - from,
{
    if from < hi {
        let shift = expand - 1;
        let rest = empty_before(s, v, from + 1, hi);
        let all = empty_before(s, v, from, hi);
        assert(shift * rest <= shift * all && shift * rest >= 0 && shift * (rest + 1) == shift
            * rest + shift) by (nonlinear_arith)
            requires
                shift >= 0,
                0 <= rest <= all,
        ;
        lemma_moved_by_empty_lines(s, expand, v, from + 1, hi);
        if from >= v {
            lemma_none_empty_before(s, v, from + 1, hi);
            assert(shift * 0 == 0) by (nonlinear_arith);
        }
    } else {
        assert((expand - 1) * 0 == 0) by (nonlinear_arith);
    }
}

/// Where every empty line counts once, nothing moves: the answer is the
/// sum of the distances of the galaxies as they stand.
pub proof fn lemma_counting_once_moves_nothing(gals: Seq<Pos>)
    requires
        gals.len() > 0,
    ensures
        expanded_all(gals, 1) == Some(gals),
        part_n_of(gals, 1) == match pairs_total(gals, gals.len() as int) {
            Some(t) => if t <= usize::MAX {
                Some(t as usize)
            } else {
                None
            },
            None => None,
        },
{
    let xs = coords(gals, true);
    let ys = coords(gals, false);
    assert forall|i: int| 0 <= i < gals.len() implies expanded(xs, 1, i) == Some(xs[i])
        && expanded(ys, 1, i) == Some(ys[i]) by {
        let hx = greatest(xs, xs.len() as int) as int;
        let hy = greatest(ys, ys.len() as int) as int;
        assert(0 * empty_before(xs, xs[i], 0, hx) == 0 && 0 * empty_before(ys, ys[i], 0, hy) == 0)
            by (nonlinear_arith);
        lemma_moved_by_empty_lines(xs, 1, xs[i], 0, hx);
        lemma_moved_by_empty_lines(ys, 1, ys[i], 0, hy);
    }
    assert(expanded_all(gals, 1)->0 =~= gals);
}

} // verus!
